//! Scope-correct lookup of a variable's declared type in a Kotlin syntax
//! tree: sibling `val`/`var` declarations of the enclosing statement block,
//! then the enclosing function's parameters, then the enclosing class's
//! primary-constructor parameters, innermost scope first.
//!
//! The same tree also answers which type an enclosing
//! `when (subject) { is Type -> … }` branch narrows a variable or property
//! path to.
//!
//! The tree is held as plain values ([`CstNode`]): the node kinds the lookup
//! tells apart, each node's source text and its children.

use vstd::prelude::*;

use crate::segments::{join_char, join_strings};
use crate::text::{first_pos, lemma_first_pos, lemma_first_pos_unique};
use crate::types::str_eq;

verus! {

/// The syntax-node kinds the lookup tells apart; every other kind is
/// [`CstKind::Other`].
#[derive(Clone, Copy, PartialEq, Eq, Structural, Debug)]
pub enum CstKind {
    Statements,
    FunctionDeclaration,
    ClassDeclaration,
    PropertyDeclaration,
    VariableDeclaration,
    SimpleIdentifier,
    UserType,
    TypeIdentifier,
    NullableType,
    FunctionValueParameters,
    Parameter,
    PrimaryConstructor,
    ClassParameter,
    BooleanLiteral,
    WhenExpression,
    WhenEntry,
    WhenSubject,
    WhenCondition,
    TypeTest,
    NavigationExpression,
    NavigationSuffix,
    /// The `.` token of a navigation.
    Dot,
    Other,
}

/// A syntax node: its kind, its source text (`None` when the text is not
/// valid UTF-8) and its children in source order.
pub struct CstNode {
    pub kind: CstKind,
    pub text: Option<String>,
    pub children: Vec<CstNode>,
}

/// `n`'s text is `s`.
pub open spec fn text_is(n: CstNode, s: Seq<char>) -> bool {
    n.text matches Some(t) && t@ == s
}

/// The index of the first of `cs` of kind `k`, or -1.
pub open spec fn first_of_kind(cs: Seq<CstNode>, k: CstKind) -> int {
    first_pos(0, cs.len() as int, |i: int| cs[i].kind == k)
}

/// The texts of the type identifiers among `cs`, in order; `None` when one
/// of them has no text.
pub open spec fn type_ident_parts(cs: Seq<CstNode>) -> Option<Seq<Seq<char>>>
    decreases cs.len(),
{
    if cs.len() == 0 {
        Some(Seq::empty())
    } else {
        match type_ident_parts(cs.drop_last()) {
            None => None,
            Some(ps) => if cs.last().kind == CstKind::TypeIdentifier {
                match cs.last().text {
                    Some(t) => Some(ps.push(t@)),
                    None => None,
                }
            } else {
                Some(ps)
            },
        }
    }
}

/// The dotted name a user type spells (`Outer.Inner`): its type identifiers
/// joined with `.`; `None` when it has none or one has no text.
pub open spec fn user_type_name(user_type: CstNode) -> Option<Seq<char>> {
    match type_ident_parts(user_type.children@) {
        Some(ps) => if ps.len() > 0 {
            Some(join_char(ps, '.'))
        } else {
            None
        },
        None => None,
    }
}

/// The name of the user type inside a nullable type (`Foo?` → `Foo`).
pub open spec fn nullable_type_name(nullable: CstNode) -> Option<Seq<char>> {
    let i = first_of_kind(nullable.children@, CstKind::UserType);
    if i == -1 {
        None
    } else {
        user_type_name(nullable.children@[i])
    }
}

/// Child `i` of `cs` is the identifier `name`.
pub open spec fn names(cs: Seq<CstNode>, name: Seq<char>) -> spec_fn(int) -> bool {
    |i: int| cs[i].kind == CstKind::SimpleIdentifier && text_is(cs[i], name)
}

/// Child `i` of `cs` is a type (plain or nullable).
pub open spec fn is_type(cs: Seq<CstNode>) -> spec_fn(int) -> bool {
    |i: int| cs[i].kind == CstKind::UserType || cs[i].kind == CstKind::NullableType
}

/// For a `name: Type` shaped node (parameter, class parameter, variable
/// declaration): the first type after the identifier `name`; `None` when
/// the identifier or a type after it is missing.
pub open spec fn type_after_name(node: CstNode, name: Seq<char>) -> Option<Seq<char>> {
    let cs = node.children@;
    let m = first_pos(0, cs.len() as int, names(cs, name));
    if m == -1 {
        None
    } else {
        let j = first_pos(m, cs.len() as int, is_type(cs));
        if j == -1 {
            None
        } else if cs[j].kind == CstKind::UserType {
            user_type_name(cs[j])
        } else {
            nullable_type_name(cs[j])
        }
    }
}

/// Some child of `cs` is a Boolean literal.
pub open spec fn has_boolean_literal(cs: Seq<CstNode>) -> bool {
    exists|i: int| 0 <= i < cs.len() && (#[trigger] cs[i]).kind == CstKind::BooleanLiteral
}

/// The type a property declaration gives `name`: the annotated type of its
/// variable declaration, or `Boolean` for `val name = true`/`false`.
pub open spec fn property_type(prop: CstNode, name: Seq<char>) -> Option<Seq<char>> {
    let cs = prop.children@;
    let v = first_of_kind(cs, CstKind::VariableDeclaration);
    if v == -1 {
        None
    } else {
        let vd = cs[v];
        match type_after_name(vd, name) {
            Some(t) => Some(t),
            None => {
                let id = first_of_kind(vd.children@, CstKind::SimpleIdentifier);
                if id != -1 && text_is(vd.children@[id], name) && has_boolean_literal(cs) {
                    Some("Boolean"@)
                } else {
                    None
                }
            },
        }
    }
}

/// [`property_type`] for `name`.
pub open spec fn property_type_of(name: Seq<char>) -> spec_fn(CstNode) -> Option<Seq<char>> {
    |p: CstNode| property_type(p, name)
}

/// [`type_after_name`] for `name`.
pub open spec fn parameter_type_of(name: Seq<char>) -> spec_fn(CstNode) -> Option<Seq<char>> {
    |p: CstNode| type_after_name(p, name)
}

/// Child `i` of `cs` is of kind `k` and `f` answers for it.
pub open spec fn answers_at(cs: Seq<CstNode>, k: CstKind, f: spec_fn(CstNode) -> Option<Seq<char>>) -> spec_fn(int) -> bool {
    |i: int| cs[i].kind == k && f(cs[i]) is Some
}

/// The first answer `f` gives for a child of `cs` of kind `k`.
pub open spec fn find_map_kind(cs: Seq<CstNode>, k: CstKind, f: spec_fn(CstNode) -> Option<Seq<char>>) -> Option<
    Seq<char>,
> {
    let j = first_pos(0, cs.len() as int, answers_at(cs, k, f));
    if j == -1 {
        None
    } else {
        f(cs[j])
    }
}

/// The answer `f` gives inside the first child of `node` of kind `holder`,
/// looking at its children of kind `k`.
pub open spec fn find_in_holder(
    node: CstNode,
    holder: CstKind,
    k: CstKind,
    f: spec_fn(CstNode) -> Option<Seq<char>>,
) -> Option<Seq<char>> {
    let h = first_of_kind(node.children@, holder);
    if h == -1 {
        None
    } else {
        find_map_kind(node.children@[h].children@, k, f)
    }
}

/// The type that the scope `node` declares for `name`: a sibling property
/// of a statement block, a parameter of a function, a primary-constructor
/// parameter of a class.
pub open spec fn scope_declared_type(node: CstNode, name: Seq<char>) -> Option<Seq<char>> {
    match node.kind {
        CstKind::Statements => find_map_kind(node.children@, CstKind::PropertyDeclaration, property_type_of(name)),
        CstKind::FunctionDeclaration => find_in_holder(
            node,
            CstKind::FunctionValueParameters,
            CstKind::Parameter,
            parameter_type_of(name),
        ),
        CstKind::ClassDeclaration => find_in_holder(
            node,
            CstKind::PrimaryConstructor,
            CstKind::ClassParameter,
            parameter_type_of(name),
        ),
        _ => None,
    }
}

/// Ancestor `i` declares a type for `name`.
pub open spec fn declares_in(ancestors: Seq<CstNode>, name: Seq<char>) -> spec_fn(int) -> bool {
    |i: int| scope_declared_type(ancestors[i], name) is Some
}

/// The declared type of `name` in the innermost of `ancestors` (a node's
/// parent first, then its parent, and so on) that declares one.
pub open spec fn declared_type_from_cst(ancestors: Seq<CstNode>, name: Seq<char>) -> Option<Seq<char>> {
    let j = first_pos(0, ancestors.len() as int, declares_in(ancestors, name));
    if j == -1 {
        None
    } else {
        scope_declared_type(ancestors[j], name)
    }
}

fn text_equals(n: &CstNode, s: &str) -> (r: bool)
    ensures
        r == text_is(*n, s@),
{
    match &n.text {
        Some(t) => str_eq(t.as_str(), s),
        None => false,
    }
}

/// The index of the first child of `node` of kind `k`.
fn first_child_of_kind(node: &CstNode, k: CstKind) -> (r: Option<usize>)
    ensures
        match r {
            Some(i) => i < node.children@.len() && first_of_kind(node.children@, k) == i,
            None => first_of_kind(node.children@, k) == -1,
        },
{
    let ghost cs = node.children@;
    let ghost pred = |i: int| cs[i].kind == k;
    let mut i: usize = 0;
    while i < node.children.len()
        invariant
            cs == node.children@,
            pred == (|i: int| cs[i].kind == k),
            i <= cs.len(),
            forall|m: int| 0 <= m < i ==> !#[trigger] pred(m),
        decreases node.children.len() - i,
    {
        if node.children[i].kind == k {
            proof {
                lemma_first_pos_unique(0, cs.len() as int, pred, i as int);
            }
            return Some(i);
        }
        i = i + 1;
    }
    proof {
        lemma_first_pos_unique(0, cs.len() as int, pred, -1);
    }
    None
}

/// The dotted name a user type spells (see [`user_type_name`]).
fn full_type_name(user_type: &CstNode) -> (r: Option<String>)
    ensures
        r matches Some(s) ==> user_type_name(*user_type) == Some(s@),
        r is None ==> user_type_name(*user_type) is None,
{
    let cs = &user_type.children;
    let mut parts: Vec<String> = Vec::new();
    let mut i: usize = 0;
    while i < cs.len()
        invariant
            cs@ == user_type.children@,
            i <= cs@.len(),
            type_ident_parts(cs@.take(i as int)) == Some(parts.deep_view()),
        decreases cs.len() - i,
    {
        assert(cs@.take(i + 1int).drop_last() =~= cs@.take(i as int));
        if cs[i].kind == CstKind::TypeIdentifier {
            match &cs[i].text {
                Some(t) => {
                    let ghost before = parts.deep_view();
                    parts.push(t.clone());
                    assert(parts.deep_view() =~= before.push(t@));
                },
                None => {
                    proof {
                        lemma_parts_none_extends(cs@, i as int);
                        assert(type_ident_parts(user_type.children@) is None);
                    }
                    return None;
                },
            }
        }
        i = i + 1;
    }
    assert(cs@.take(cs@.len() as int) =~= cs@);
    if parts.len() == 0 {
        None
    } else {
        proof {
            reveal_strlit(".");
        }
        Some(join_strings(&parts, "."))
    }
}

/// Once a prefix of `cs` has no parts, no longer prefix has any.
proof fn lemma_parts_none_extends(cs: Seq<CstNode>, i: int)
    requires
        0 <= i < cs.len(),
        cs[i].kind == CstKind::TypeIdentifier,
        cs[i].text is None,
    ensures
        type_ident_parts(cs) is None,
    decreases cs.len() - i,
{
    if i == cs.len() - 1 {
    } else {
        lemma_parts_none_extends(cs.drop_last(), i);
    }
}

/// The name of the user type inside a nullable type (see
/// [`nullable_type_name`]).
fn type_from_nullable(nullable: &CstNode) -> (r: Option<String>)
    ensures
        r matches Some(s) ==> nullable_type_name(*nullable) == Some(s@),
        r is None ==> nullable_type_name(*nullable) is None,
{
    match first_child_of_kind(nullable, CstKind::UserType) {
        Some(i) => full_type_name(&nullable.children[i]),
        None => None,
    }
}

/// The index of the first child of `node` that is the identifier `name`.
fn first_named_child(node: &CstNode, name: &str) -> (r: Option<usize>)
    ensures
        match r {
            Some(i) => i < node.children@.len() && first_pos(
                0,
                node.children@.len() as int,
                names(node.children@, name@),
            ) == i,
            None => first_pos(0, node.children@.len() as int, names(node.children@, name@)) == -1,
        },
{
    let ghost cs = node.children@;
    let ghost named = names(cs, name@);
    let mut i: usize = 0;
    while i < node.children.len()
        invariant
            cs == node.children@,
            named == names(cs, name@),
            i <= cs.len(),
            forall|m: int| 0 <= m < i ==> !#[trigger] named(m),
        decreases node.children.len() - i,
    {
        if node.children[i].kind == CstKind::SimpleIdentifier && text_equals(&node.children[i], name) {
            proof {
                assert(named(i as int));
                lemma_first_pos_unique(0, cs.len() as int, named, i as int);
            }
            return Some(i);
        }
        i = i + 1;
    }
    proof {
        lemma_first_pos_unique(0, cs.len() as int, named, -1);
    }
    None
}

/// The first type after the identifier `name` among `node`'s children (see
/// [`type_after_name`]).
fn type_after_matching_name(node: &CstNode, name: &str) -> (r: Option<String>)
    ensures
        r matches Some(s) ==> type_after_name(*node, name@) == Some(s@),
        r is None ==> type_after_name(*node, name@) is None,
{
    let ghost cs = node.children@;
    let ghost typed = is_type(cs);
    let mut i = match first_named_child(node, name) {
        Some(i) => i,
        None => return None,
    };
    let ghost m = i as int;
    while i < node.children.len()
        invariant
            cs == node.children@,
            typed == is_type(cs),
            first_pos(0, cs.len() as int, names(cs, name@)) == m,
            m <= i <= cs.len(),
            0 <= m,
            forall|k: int| m <= k < i ==> !#[trigger] typed(k),
        decreases node.children.len() - i,
    {
        let k = node.children[i].kind;
        if k == CstKind::UserType {
            proof {
                assert(typed(i as int));
                lemma_first_pos_unique(m, cs.len() as int, typed, i as int);
            }
            return full_type_name(&node.children[i]);
        }
        if k == CstKind::NullableType {
            proof {
                assert(typed(i as int));
                lemma_first_pos_unique(m, cs.len() as int, typed, i as int);
            }
            return type_from_nullable(&node.children[i]);
        }
        i = i + 1;
    }
    proof {
        lemma_first_pos_unique(m, cs.len() as int, typed, -1);
    }
    None
}

/// The type a property declaration gives `name` (see [`property_type`]).
fn property_declared_type(prop: &CstNode, name: &str) -> (r: Option<String>)
    ensures
        r matches Some(s) ==> property_type(*prop, name@) == Some(s@),
        r is None ==> property_type(*prop, name@) is None,
{
    let v = match first_child_of_kind(prop, CstKind::VariableDeclaration) {
        Some(v) => v,
        None => return None,
    };
    let vd = &prop.children[v];
    match type_after_matching_name(vd, name) {
        Some(t) => return Some(t),
        None => {},
    }
    let name_matches = match first_child_of_kind(vd, CstKind::SimpleIdentifier) {
        Some(id) => text_equals(&vd.children[id], name),
        None => false,
    };
    let mut boolean = false;
    let mut i: usize = 0;
    while i < prop.children.len()
        invariant
            i <= prop.children@.len(),
            boolean == exists|m: int| 0 <= m < i && (#[trigger] prop.children@[m]).kind == CstKind::BooleanLiteral,
        decreases prop.children.len() - i,
    {
        if prop.children[i].kind == CstKind::BooleanLiteral {
            assert(prop.children@[i as int].kind == CstKind::BooleanLiteral);
            boolean = true;
        }
        i = i + 1;
    }
    if name_matches && boolean {
        Some("Boolean".to_string())
    } else {
        None
    }
}

/// The first property declaration among the children of the statement
/// block `statements` that gives `name` a type, and that type.
fn find_in_sibling_declarations(statements: &CstNode, name: &str) -> (r: Option<String>)
    ensures
        r matches Some(s) ==> find_map_kind(statements.children@, CstKind::PropertyDeclaration, property_type_of(name@))
            == Some(s@),
        r is None ==> find_map_kind(statements.children@, CstKind::PropertyDeclaration, property_type_of(name@)) is None,
{
    let ghost cs = statements.children@;
    let ghost pred = answers_at(cs, CstKind::PropertyDeclaration, property_type_of(name@));
    let mut i: usize = 0;
    while i < statements.children.len()
        invariant
            cs == statements.children@,
            pred == answers_at(cs, CstKind::PropertyDeclaration, property_type_of(name@)),
            i <= cs.len(),
            forall|m: int| 0 <= m < i ==> !#[trigger] pred(m),
        decreases statements.children.len() - i,
    {
        if statements.children[i].kind == CstKind::PropertyDeclaration {
            match property_declared_type(&statements.children[i], name) {
                Some(t) => {
                    proof {
                        assert(pred(i as int));
                        lemma_first_pos_unique(0, cs.len() as int, pred, i as int);
                    }
                    return Some(t);
                },
                None => {},
            }
        }
        i = i + 1;
    }
    proof {
        lemma_first_pos_unique(0, cs.len() as int, pred, -1);
    }
    None
}

/// The first child of kind `k` among `holder`'s children for which the
/// parameter shape gives `name` a type, and that type.
fn find_in_parameter_list(holder: &CstNode, k: CstKind, name: &str) -> (r: Option<String>)
    ensures
        r matches Some(s) ==> find_map_kind(holder.children@, k, parameter_type_of(name@)) == Some(s@),
        r is None ==> find_map_kind(holder.children@, k, parameter_type_of(name@)) is None,
{
    let ghost cs = holder.children@;
    let ghost pred = answers_at(cs, k, parameter_type_of(name@));
    let mut i: usize = 0;
    while i < holder.children.len()
        invariant
            cs == holder.children@,
            pred == answers_at(cs, k, parameter_type_of(name@)),
            i <= cs.len(),
            forall|m: int| 0 <= m < i ==> !#[trigger] pred(m),
        decreases holder.children.len() - i,
    {
        if holder.children[i].kind == k {
            match type_after_matching_name(&holder.children[i], name) {
                Some(t) => {
                    proof {
                        assert(pred(i as int));
                        lemma_first_pos_unique(0, cs.len() as int, pred, i as int);
                    }
                    return Some(t);
                },
                None => {},
            }
        }
        i = i + 1;
    }
    proof {
        lemma_first_pos_unique(0, cs.len() as int, pred, -1);
    }
    None
}

/// The type `name` gets from the parameters (`k`) of the first `holder`
/// child of `node` (see [`find_in_holder`]).
fn find_in_holder_child(node: &CstNode, holder: CstKind, k: CstKind, name: &str) -> (r: Option<String>)
    ensures
        r matches Some(s) ==> find_in_holder(*node, holder, k, parameter_type_of(name@)) == Some(s@),
        r is None ==> find_in_holder(*node, holder, k, parameter_type_of(name@)) is None,
{
    match first_child_of_kind(node, holder) {
        Some(h) => find_in_parameter_list(&node.children[h], k, name),
        None => None,
    }
}

/// The type the scope `node` declares for `name` (see
/// [`scope_declared_type`]).
fn scope_type(node: &CstNode, name: &str) -> (r: Option<String>)
    ensures
        r matches Some(s) ==> scope_declared_type(*node, name@) == Some(s@),
        r is None ==> scope_declared_type(*node, name@) is None,
{
    match node.kind {
        CstKind::Statements => find_in_sibling_declarations(node, name),
        CstKind::FunctionDeclaration => find_in_holder_child(
            node,
            CstKind::FunctionValueParameters,
            CstKind::Parameter,
            name,
        ),
        CstKind::ClassDeclaration => find_in_holder_child(
            node,
            CstKind::PrimaryConstructor,
            CstKind::ClassParameter,
            name,
        ),
        _ => None,
    }
}

/// Resolves `var_name`'s declared type by walking up from a point of the
/// tree: `ancestors` are the point's parent, its parent, and so on to the
/// root. Each statement block is searched for a sibling `val`/`var`
/// declaration, each function for a parameter, each class for a
/// primary-constructor parameter; the innermost scope that declares the
/// name answers (see [`declared_type_from_cst`]). Unlike a whole-file scan
/// this prefers the declaration actually in scope.
pub fn resolve_declared_type_from_cst(ancestors: &Vec<CstNode>, var_name: &str) -> (r: Option<String>)
    ensures
        r matches Some(s) ==> declared_type_from_cst(ancestors@, var_name@) == Some(s@),
        r is None ==> declared_type_from_cst(ancestors@, var_name@) is None,
{
    let ghost pred = declares_in(ancestors@, var_name@);
    let mut i: usize = 0;
    while i < ancestors.len()
        invariant
            pred == declares_in(ancestors@, var_name@),
            i <= ancestors@.len(),
            forall|m: int| 0 <= m < i ==> !#[trigger] pred(m),
        decreases ancestors.len() - i,
    {
        match scope_type(&ancestors[i], var_name) {
            Some(t) => {
                proof {
                    assert(pred(i as int));
                    lemma_first_pos_unique(0, ancestors@.len() as int, pred, i as int);
                }
                return Some(t);
            },
            None => {},
        }
        i = i + 1;
    }
    proof {
        lemma_first_pos_unique(0, ancestors@.len() as int, pred, -1);
    }
    None
}

/// The innermost scope that declares a name decides its type: when any
/// enclosing scope declares `name`, a type is found, and it is the one of
/// the innermost such scope, whatever the outer scopes declare.
pub proof fn law_innermost_declaration_wins(ancestors: Seq<CstNode>, name: Seq<char>, i: int)
    requires
        0 <= i < ancestors.len(),
        scope_declared_type(ancestors[i], name) is Some,
    ensures
        declared_type_from_cst(ancestors, name) is Some,
        (forall|j: int| 0 <= j < i ==> scope_declared_type(#[trigger] ancestors[j], name) is None)
            ==> declared_type_from_cst(ancestors, name) == scope_declared_type(ancestors[i], name),
{
    let pred = declares_in(ancestors, name);
    lemma_first_pos(0, ancestors.len() as int, pred);
    assert(pred(i));
    if forall|j: int| 0 <= j < i ==> scope_declared_type(#[trigger] ancestors[j], name) is None {
        assert forall|j: int| 0 <= j < i implies !#[trigger] pred(j) by {
            assert(scope_declared_type(ancestors[j], name) is None);
        }
        lemma_first_pos_unique(0, ancestors.len() as int, pred, i);
    }
}

// ─── Smart casts of `when` subjects ────────────────────────────────────────

/// How deep a descent into the tree goes before it gives up.
pub const MAX_CST_DESCENT_DEPTH: usize = 512;

/// Smart-cast subjects longer than this are not looked for.
pub const MAX_SMART_CAST_CHAIN_LEN: usize = 16;

/// The identifier chain spelled by `n` at descent depth `d`: an identifier
/// is one segment, a navigation (expression or suffix) the segments of its
/// children but the `.` tokens; anything else, or a descent at depth
/// [`MAX_CST_DESCENT_DEPTH`], has none.
pub open spec fn segments_of(n: CstNode, d: int) -> Option<Seq<Seq<char>>>
    decreases MAX_CST_DESCENT_DEPTH + 1 - d, 0int,
{
    if d >= MAX_CST_DESCENT_DEPTH || d < 0 {
        None
    } else if n.kind == CstKind::SimpleIdentifier {
        match n.text {
            Some(t) => Some(seq![t@]),
            None => None,
        }
    } else if n.kind == CstKind::NavigationExpression || n.kind == CstKind::NavigationSuffix {
        children_segments(n.children@, d + 1, 0)
    } else {
        None
    }
}

/// The segments of `cs[i..]` at depth `d`, `.` tokens skipped, one after
/// the other; `None` as soon as one child has none.
pub open spec fn children_segments(cs: Seq<CstNode>, d: int, i: int) -> Option<Seq<Seq<char>>>
    decreases MAX_CST_DESCENT_DEPTH + 1 - d, cs.len() - i + 1,
{
    if i >= cs.len() || i < 0 || d > MAX_CST_DESCENT_DEPTH {
        Some(Seq::empty())
    } else if cs[i].kind == CstKind::Dot {
        children_segments(cs, d, i + 1)
    } else {
        match segments_of(cs[i], d) {
            None => None,
            Some(a) => match children_segments(cs, d, i + 1) {
                None => None,
                Some(b) => Some(a + b),
            },
        }
    }
}

/// `n` is an identifier or a navigation expression: a subject chain.
pub open spec fn chain_candidate(n: CstNode) -> bool {
    n.kind == CstKind::SimpleIdentifier || n.kind == CstKind::NavigationExpression
}

/// The identifier chain of a `when` subject (or of a node wrapping a plain
/// identifier or dotted navigation): `state` → `["state"]`, `event.events`
/// → `["event", "events"]`. The node itself is tried first, then its
/// children; `None` for anything else (a call, an index, a literal).
pub open spec fn subject_chain(node: CstNode) -> Option<Seq<Seq<char>>> {
    if chain_candidate(node) {
        segments_of(node, 0)
    } else {
        let j = first_pos(0, node.children@.len() as int, |i: int| chain_candidate(node.children@[i]));
        if j == -1 {
            None
        } else {
            segments_of(node.children@[j], 0)
        }
    }
}

fn segments_into(n: &CstNode, d: usize, out: &mut Vec<String>) -> (ok: bool)
    requires
        d <= MAX_CST_DESCENT_DEPTH,
    ensures
        ok <==> segments_of(*n, d as int) is Some,
        ok ==> final(out).deep_view() == old(out).deep_view() + segments_of(*n, d as int)->0,
    decreases MAX_CST_DESCENT_DEPTH + 1 - d, 0int,
{
    if d >= MAX_CST_DESCENT_DEPTH {
        return false;
    }
    if n.kind == CstKind::SimpleIdentifier {
        match &n.text {
            Some(t) => {
                let ghost before = out.deep_view();
                out.push(t.clone());
                assert(out.deep_view() =~= before + seq![t@]);
                true
            },
            None => false,
        }
    } else if n.kind == CstKind::NavigationExpression || n.kind == CstKind::NavigationSuffix {
        children_into(&n.children, d + 1, 0, out)
    } else {
        false
    }
}

fn children_into(cs: &Vec<CstNode>, d: usize, i: usize, out: &mut Vec<String>) -> (ok: bool)
    requires
        d <= MAX_CST_DESCENT_DEPTH,
        i <= cs@.len(),
    ensures
        ok <==> children_segments(cs@, d as int, i as int) is Some,
        ok ==> final(out).deep_view() == old(out).deep_view() + children_segments(cs@, d as int, i as int)->0,
    decreases MAX_CST_DESCENT_DEPTH + 1 - d, cs@.len() - i + 1,
{
    if i >= cs.len() {
        assert(old(out).deep_view() + Seq::<Seq<char>>::empty() =~= old(out).deep_view());
        return true;
    }
    if cs[i].kind == CstKind::Dot {
        return children_into(cs, d, i + 1, out);
    }
    let ghost start = out.deep_view();
    if !segments_into(&cs[i], d, out) {
        return false;
    }
    let ghost mid = out.deep_view();
    let ok = children_into(cs, d, i + 1, out);
    proof {
        if ok {
            let a = segments_of(cs@[i as int], d as int)->0;
            let b = children_segments(cs@, d as int, i + 1)->0;
            assert(out.deep_view() =~= start + (a + b));
        }
    }
    ok
}

/// The index of the first child of `node` that is a subject chain.
fn first_chain_candidate(node: &CstNode) -> (r: Option<usize>)
    ensures
        match r {
            Some(i) => i < node.children@.len() && first_pos(
                0,
                node.children@.len() as int,
                |i: int| chain_candidate(node.children@[i]),
            ) == i,
            None => first_pos(0, node.children@.len() as int, |i: int| chain_candidate(node.children@[i])) == -1,
        },
{
    let ghost pred = |i: int| chain_candidate(node.children@[i]);
    let mut i: usize = 0;
    while i < node.children.len()
        invariant
            pred == (|i: int| chain_candidate(node.children@[i])),
            i <= node.children@.len(),
            forall|m: int| 0 <= m < i ==> !#[trigger] pred(m),
        decreases node.children.len() - i,
    {
        let k = node.children[i].kind;
        if k == CstKind::SimpleIdentifier || k == CstKind::NavigationExpression {
            proof {
                assert(pred(i as int));
                lemma_first_pos_unique(0, node.children@.len() as int, pred, i as int);
            }
            return Some(i);
        }
        i = i + 1;
    }
    proof {
        lemma_first_pos_unique(0, node.children@.len() as int, pred, -1);
    }
    None
}

/// The identifier chain of a `when` subject (see [`subject_chain`]).
pub fn subject_segments(node: &CstNode) -> (r: Option<Vec<String>>)
    ensures
        match r {
            Some(v) => subject_chain(*node) == Some(v.deep_view()),
            None => subject_chain(*node) is None,
        },
{
    let candidate: &CstNode = if node.kind == CstKind::SimpleIdentifier || node.kind == CstKind::NavigationExpression {
        node
    } else {
        match first_chain_candidate(node) {
            Some(i) => &node.children[i],
            None => return None,
        }
    };
    let mut out: Vec<String> = Vec::new();
    if segments_into(candidate, 0, &mut out) {
        assert(out.deep_view() =~= Seq::<Seq<char>>::empty() + segments_of(*candidate, 0)->0);
        Some(out)
    } else {
        None
    }
}

/// `sub` is a non-empty prefix of `target`.
pub open spec fn narrows(sub: Seq<Seq<char>>, target: Seq<Seq<char>>) -> bool {
    sub.len() > 0 && sub.len() <= target.len() && sub == target.take(sub.len() as int)
}

/// The type a `when` entry tests its subject against (`is Event.Click ->`
/// → `Event.Click`): the user type of the type test of its condition.
pub open spec fn tested_type(entry: CstNode) -> Option<Seq<char>> {
    let c = first_of_kind(entry.children@, CstKind::WhenCondition);
    if c == -1 {
        None
    } else {
        let cond = entry.children@[c];
        let t = first_of_kind(cond.children@, CstKind::TypeTest);
        if t == -1 {
            None
        } else {
            let test = cond.children@[t];
            let u = first_of_kind(test.children@, CstKind::UserType);
            if u == -1 {
                None
            } else {
                user_type_name(test.children@[u])
            }
        }
    }
}

/// The index of the first of `a[from..]` of kind `k`, or -1.
pub open spec fn next_of_kind(a: Seq<CstNode>, from: int, k: CstKind) -> int {
    first_pos(from, a.len() as int, |i: int| a[i].kind == k)
}

/// The narrowing found by looking outward from `a[from]`, at most
/// `MAX_CST_DESCENT_DEPTH - steps` more `when` levels: the next enclosing
/// `when` entry and its `when`; if the `when`'s subject is a prefix of
/// `target`, the entry's tested type and the subject's length; if it is
/// some other subject, the next level out. `None` when a piece is missing.
pub open spec fn smart_cast_from(a: Seq<CstNode>, target: Seq<Seq<char>>, from: int, steps: int) -> Option<
    (Seq<char>, int),
>
    decreases MAX_CST_DESCENT_DEPTH - steps,
{
    if steps >= MAX_CST_DESCENT_DEPTH || from < 0 {
        None
    } else {
        let e = next_of_kind(a, from, CstKind::WhenEntry);
        if e == -1 {
            None
        } else {
            let w = next_of_kind(a, e + 1, CstKind::WhenExpression);
            if w == -1 {
                None
            } else {
                let s = first_of_kind(a[w].children@, CstKind::WhenSubject);
                if s == -1 {
                    None
                } else {
                    match subject_chain(a[w].children@[s]) {
                        Some(sub) => if narrows(sub, target) {
                            match tested_type(a[e]) {
                                Some(t) => Some((t, sub.len() as int)),
                                None => None,
                            }
                        } else {
                            smart_cast_from(a, target, w + 1, steps + 1)
                        },
                        None => smart_cast_from(a, target, w + 1, steps + 1),
                    }
                }
            }
        }
    }
}

/// The type an enclosing `when (subject) { is Type -> … }` branch narrows
/// `target` to, looking outward through `ancestors` (see
/// [`smart_cast_from`]), with how many leading segments of `target` the
/// subject covers; `None` for a target longer than
/// [`MAX_SMART_CAST_CHAIN_LEN`].
pub open spec fn smart_cast_type(ancestors: Seq<CstNode>, target: Seq<Seq<char>>) -> Option<(Seq<char>, int)> {
    if target.len() > MAX_SMART_CAST_CHAIN_LEN {
        None
    } else {
        smart_cast_from(ancestors, target, 0, 0)
    }
}

fn next_index_of_kind(a: &Vec<CstNode>, from: usize, k: CstKind) -> (r: Option<usize>)
    requires
        from <= a@.len(),
    ensures
        match r {
            Some(i) => from <= i < a@.len() && next_of_kind(a@, from as int, k) == i,
            None => next_of_kind(a@, from as int, k) == -1,
        },
{
    let ghost pred = |i: int| a@[i].kind == k;
    let mut i: usize = from;
    while i < a.len()
        invariant
            pred == (|i: int| a@[i].kind == k),
            from <= i <= a@.len(),
            forall|m: int| from <= m < i ==> !#[trigger] pred(m),
        decreases a.len() - i,
    {
        if a[i].kind == k {
            proof {
                assert(pred(i as int));
                lemma_first_pos_unique(from as int, a@.len() as int, pred, i as int);
            }
            return Some(i);
        }
        i = i + 1;
    }
    proof {
        lemma_first_pos_unique(from as int, a@.len() as int, pred, -1);
    }
    None
}

/// The type a `when` entry tests for (see [`tested_type`]).
fn entry_tested_type(entry: &CstNode) -> (r: Option<String>)
    ensures
        match r {
            Some(t) => tested_type(*entry) == Some(t@),
            None => tested_type(*entry) is None,
        },
{
    let c = match first_child_of_kind(entry, CstKind::WhenCondition) {
        Some(c) => c,
        None => return None,
    };
    let cond = &entry.children[c];
    let t = match first_child_of_kind(cond, CstKind::TypeTest) {
        Some(t) => t,
        None => return None,
    };
    let test = &cond.children[t];
    match first_child_of_kind(test, CstKind::UserType) {
        Some(u) => full_type_name(&test.children[u]),
        None => None,
    }
}

/// Whether `sub` is a non-empty prefix of `target`.
fn is_narrowing(sub: &Vec<String>, target: &Vec<String>) -> (r: bool)
    ensures
        r == narrows(sub.deep_view(), target.deep_view()),
{
    if sub.len() == 0 || sub.len() > target.len() {
        return false;
    }
    let mut i: usize = 0;
    while i < sub.len()
        invariant
            sub@.len() <= target@.len(),
            i <= sub@.len(),
            forall|m: int| 0 <= m < i ==> sub.deep_view()[m] == target.deep_view()[m],
        decreases sub.len() - i,
    {
        if !str_eq(sub[i].as_str(), target[i].as_str()) {
            assert(sub.deep_view()[i as int] != target.deep_view().take(sub@.len() as int)[i as int]);
            return false;
        }
        i = i + 1;
    }
    assert(sub.deep_view() =~= target.deep_view().take(sub@.len() as int));
    true
}

/// If a point sits inside an enclosing `when (subject) { is Type -> … }`
/// branch whose subject is a prefix of `target_segments` (a bare variable
/// `["event"]` or a stable property path `["event", "events"]`), the tested
/// `Type` in full (`Event.OverdraftInput`) and how many leading segments the
/// subject covers, so the caller knows how many remain to walk as fields.
/// `ancestors` are the point's parent, its parent, and so on; `when` levels
/// whose subject is some other path are looked past (see
/// [`smart_cast_type`]).
pub fn enclosing_smart_cast_type(ancestors: &Vec<CstNode>, target_segments: &Vec<String>) -> (r: Option<
    (String, usize),
>)
    ensures
        match r {
            Some((t, n)) => smart_cast_type(ancestors@, target_segments.deep_view()) == Some((t@, n as int)),
            None => smart_cast_type(ancestors@, target_segments.deep_view()) is None,
        },
{
    if target_segments.len() > MAX_SMART_CAST_CHAIN_LEN {
        return None;
    }
    let ghost a = ancestors@;
    let ghost target = target_segments.deep_view();
    let mut from: usize = 0;
    let mut steps: usize = 0;
    while steps < MAX_CST_DESCENT_DEPTH
        invariant
            a == ancestors@,
            target == target_segments.deep_view(),
            target.len() <= MAX_SMART_CAST_CHAIN_LEN,
            from <= a.len(),
            steps <= MAX_CST_DESCENT_DEPTH,
            smart_cast_type(a, target) == smart_cast_from(a, target, from as int, steps as int),
        decreases MAX_CST_DESCENT_DEPTH - steps,
    {
        let n = ancestors.len();
        let e = match next_index_of_kind(ancestors, from, CstKind::WhenEntry) {
            Some(e) => e,
            None => return None,
        };
        assert(e < n);
        let w = match next_index_of_kind(ancestors, e + 1, CstKind::WhenExpression) {
            Some(w) => w,
            None => return None,
        };
        assert(w < n);
        let s = match first_child_of_kind(&ancestors[w], CstKind::WhenSubject) {
            Some(s) => s,
            None => return None,
        };
        match subject_segments(&ancestors[w].children[s]) {
            Some(sub) => {
                if is_narrowing(&sub, target_segments) {
                    return match entry_tested_type(&ancestors[e]) {
                        Some(t) => Some((t, sub.len())),
                        None => None,
                    };
                }
            },
            None => {},
        }
        from = w + 1;
        steps = steps + 1;
    }
    None
}

} // verus!
