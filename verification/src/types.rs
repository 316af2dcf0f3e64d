//! Core data types of the index: positions, symbols, imports, languages.

use vstd::prelude::*;

use crate::rg::{declares_name, is_declaration_of};
use crate::text::{
    char_is_whitespace, contains, ends_with, matches_at, occurs_at, seq_contains, seq_ends_with,
    seq_starts_with, starts_with, str_chars, unicode_whitespace,
};

verus! {

// ─── Imports ──────────────────────────────────────────────────────────────────

/// One import statement parsed from a Kotlin file.
pub struct ImportEntry {
    /// Fully-qualified path without the trailing `.*`, e.g. `"com.example.Foo"`,
    /// or `"com.example"` for star imports.
    pub full_path: String,
    /// The name usable locally: last segment, alias, or `"*"` for star.
    pub local_name: String,
    /// True for `import com.example.*`.
    pub is_star: bool,
}

/// Whether an import with path `full`, local name `local` and star flag
/// `is_star` makes `name`, declared in package `pkg`, accessible:
/// a star import covers exactly its own package's members; any other import
/// must bind `name` locally and name `pkg.name` directly, or through any chain
/// of enclosing types (`pkg.Outer.Inner.name`).
pub open spec fn import_covers(
    full: Seq<char>,
    local: Seq<char>,
    is_star: bool,
    pkg: Seq<char>,
    name: Seq<char>,
) -> bool {
    if is_star {
        full == pkg
    } else {
        &&& local == name
        &&& {
            ||| full == pkg + seq!['.'] + name
            ||| exists|mid: Seq<char>| full == pkg + seq!['.'] + mid + seq!['.'] + name
        }
    }
}

impl ImportEntry {
    /// Does this import make `symbol_name` accessible when defined in `def_pkg`?
    ///
    /// - star import `import com.example.*` covers any symbol of `com.example`;
    /// - direct import `import com.example.Foo` covers `Foo` from `com.example`;
    /// - nested import `import com.example.Outer.Config` covers `Config` from
    ///   `com.example` (the container `Outer` is an intermediate segment).
    pub fn covers(&self, def_pkg: &str, symbol_name: &str) -> (r: bool)
        ensures
            r == import_covers(
                self.full_path@,
                self.local_name@,
                self.is_star,
                def_pkg@,
                symbol_name@,
            ),
    {
        let full = str_chars(self.full_path.as_str());
        let pkg = str_chars(def_pkg);
        if self.is_star {
            return vec_eq(&full, &pkg);
        }
        let local = str_chars(self.local_name.as_str());
        let name = str_chars(symbol_name);
        if !vec_eq(&local, &name) {
            return false;
        }
        if !starts_with(&full, &pkg) || full.len() == pkg.len() || full[pkg.len()] != '.' {
            proof {
                lemma_covers_needs_pkg_dot(full@, pkg@, name@);
            }
            return false;
        }
        let ghost rest = full@.skip(pkg@.len() + 1int);
        proof {
            assert(full@ =~= pkg@ + seq!['.'] + rest);
        }
        let rest_len = full.len() - pkg.len() - 1;
        if rest_len == name.len() && matches_at(&full, &name, pkg.len() + 1) {
            proof {
                assert(rest =~= name@);
            }
            return true;
        }
        if rest_len > name.len() && full[full.len() - name.len() - 1] == '.' && ends_with(
            &full,
            &name,
        ) {
            let ghost mid = rest.subrange(0, rest.len() - name@.len() - 1);
            proof {
                assert(full@ =~= pkg@ + seq!['.'] + mid + seq!['.'] + name@);
            }
            return true;
        }
        proof {
            lemma_covers_rest(full@, pkg@, name@, rest);
        }
        false
    }
}

proof fn lemma_covers_needs_pkg_dot(full: Seq<char>, pkg: Seq<char>, name: Seq<char>)
    requires
        !(seq_starts_with(full, pkg) && full.len() > pkg.len() && full[pkg.len() as int] == '.'),
    ensures
        full != pkg + seq!['.'] + name,
        forall|mid: Seq<char>| full != pkg + seq!['.'] + mid + seq!['.'] + name,
{
    if full == pkg + seq!['.'] + name {
        assert(full.subrange(0, pkg.len() as int) =~= pkg);
        assert(full[pkg.len() as int] == '.');
    }
    assert forall|mid: Seq<char>| full != pkg + seq!['.'] + mid + seq!['.'] + name by {
        if full == pkg + seq!['.'] + mid + seq!['.'] + name {
            assert(full.subrange(0, pkg.len() as int) =~= pkg);
            assert(full[pkg.len() as int] == '.');
        }
    }
}

proof fn lemma_covers_rest(full: Seq<char>, pkg: Seq<char>, name: Seq<char>, rest: Seq<char>)
    requires
        full == pkg + seq!['.'] + rest,
        rest != name,
        !(rest.len() > name.len() && full[full.len() - name.len() - 1] == '.' && seq_ends_with(
            full,
            name,
        )),
    ensures
        full != pkg + seq!['.'] + name,
        forall|mid: Seq<char>| full != pkg + seq!['.'] + mid + seq!['.'] + name,
{
    if full == pkg + seq!['.'] + name {
        assert(rest =~= full.skip(pkg.len() + 1int));
        assert(name =~= full.skip(pkg.len() + 1int));
    }
    assert forall|mid: Seq<char>| full != pkg + seq!['.'] + mid + seq!['.'] + name by {
        if full == pkg + seq!['.'] + mid + seq!['.'] + name {
            assert(rest =~= full.skip(pkg.len() + 1int));
            assert(rest =~= mid + seq!['.'] + name);
            assert(full.subrange(full.len() - name.len(), full.len() as int) =~= name);
        }
    }
}

/// Whether `a` and `b` hold the same characters.
pub fn vec_eq(a: &Vec<char>, b: &Vec<char>) -> (r: bool)
    ensures
        r == (a@ == b@),
{
    if a.len() != b.len() {
        return false;
    }
    let r = matches_at(a, b, 0);
    proof {
        if r {
            assert(a@ =~= a@.subrange(0, b@.len() as int));
        } else if a@ == b@ {
            assert(a@.subrange(0, b@.len() as int) =~= b@);
        }
    }
    r
}

/// Whether `a` and `b` hold the same characters.
pub fn str_eq(a: &str, b: &str) -> (r: bool)
    ensures
        r == (a@ == b@),
{
    vec_eq(&str_chars(a), &str_chars(b))
}

} // verus!

verus! {

// ─── Visibility ───────────────────────────────────────────────────────────────

/// Kotlin/Java visibility of a declared symbol.
#[derive(Clone, Copy, PartialEq, Eq, Structural, Debug)]
pub enum Visibility {
    Public,
    Internal,
    Protected,
    Private,
}

// ─── Positions ────────────────────────────────────────────────────────────────

/// A zero-based line / UTF-16 column position.
#[derive(Clone, Copy, PartialEq, Eq, Structural, Debug)]
pub struct Position {
    pub line: u32,
    pub character: u32,
}

/// A span between two positions.
#[derive(Clone, Copy, PartialEq, Eq, Structural, Debug)]
pub struct Range {
    pub start: Position,
    pub end: Position,
}

/// `a` comes no later than `b` (by line, then column).
pub open spec fn position_le(a: Position, b: Position) -> bool {
    a.line < b.line || (a.line == b.line && a.character <= b.character)
}

/// Whether `outer` fully contains `inner`: it starts no later and ends no
/// earlier.
pub fn range_encloses(outer: Range, inner: Range) -> (r: bool)
    ensures
        r == (position_le(outer.start, inner.start) && position_le(inner.end, outer.end)),
{
    let starts_before = outer.start.line < inner.start.line || (outer.start.line
        == inner.start.line && outer.start.character <= inner.start.character);
    let ends_after = inner.end.line < outer.end.line || (inner.end.line == outer.end.line
        && inner.end.character <= outer.end.character);
    starts_before && ends_after
}

/// A span inside one file, named by its URI.
pub struct Location {
    pub uri: String,
    pub range: Range,
}

impl Location {
    /// An identical copy of this location.
    pub fn duplicate(&self) -> (r: Location)
        ensures
            r == *self,
    {
        Location { uri: self.uri.clone(), range: self.range }
    }
}

/// An identical copy of an optional string.
pub fn duplicate_opt_string(s: &Option<String>) -> (r: Option<String>)
    ensures
        r == *s,
{
    match s {
        Some(v) => Some(v.clone()),
        None => None,
    }
}

} // verus!

verus! {

// ─── Languages ────────────────────────────────────────────────────────────────

/// File language, derived from the path's extension.
#[derive(Clone, Copy, PartialEq, Eq, Structural, Debug)]
pub enum Language {
    Kotlin,
    Java,
    Swift,
}

/// The language of a file at `path`: Java for `.java`, Swift for `.swift`,
/// Kotlin for everything else (`.kt`, `.kts`, or an unknown extension).
pub open spec fn language_of_path(path: Seq<char>) -> Language {
    if seq_ends_with(path, ".java"@) {
        Language::Java
    } else if seq_ends_with(path, ".swift"@) {
        Language::Swift
    } else {
        Language::Kotlin
    }
}

/// `line` looks like an override declaration of `method_name` in `lang`:
/// Kotlin needs `override` and `fun ` on the declaring line; Java accepts any
/// declaration (its `@Override` sits on the line before); Swift never.
pub open spec fn override_declaration(lang: Language, line: Seq<char>, method_name: Seq<char>) -> bool {
    match lang {
        Language::Kotlin => seq_contains(line, "override"@) && seq_contains(line, "fun "@)
            && declares_name(line, method_name),
        Language::Java => declares_name(line, method_name),
        Language::Swift => false,
    }
}

impl Language {
    /// The language of the file at `path` (see [`language_of_path`]).
    pub fn from_path(path: &str) -> (r: Language)
        ensures
            r == language_of_path(path@),
    {
        let p = str_chars(path);
        if ends_with(&p, &str_chars(".java")) {
            Language::Java
        } else if ends_with(&p, &str_chars(".swift")) {
            Language::Swift
        } else {
            Language::Kotlin
        }
    }

    /// LSP language identifier.
    pub fn language_id(self) -> (r: &'static str)
        ensures
            r@ == (match self {
                Language::Kotlin => "kotlin"@,
                Language::Java => "java"@,
                Language::Swift => "swift"@,
            }),
    {
        match self {
            Language::Kotlin => "kotlin",
            Language::Java => "java",
            Language::Swift => "swift",
        }
    }

    /// The Markdown code-fence tag for snippets in this language: its
    /// language identifier.
    pub fn code_fence(self) -> (r: &'static str)
        ensures
            r@ == (match self {
                Language::Kotlin => "kotlin"@,
                Language::Java => "java"@,
                Language::Swift => "swift"@,
            }),
    {
        self.language_id()
    }

    /// Only Java statements end with `;`.
    pub fn needs_semicolons(self) -> (r: bool)
        ensures
            r == (self == Language::Java),
    {
        match self {
            Language::Java => true,
            _ => false,
        }
    }

    /// Whether `line` looks like an override declaration of `method_name`
    /// (see [`override_declaration`]).
    pub fn is_override_declaration(self, line: &str, method_name: &str) -> (r: bool)
        ensures
            r == override_declaration(self, line@, method_name@),
    {
        match self {
            Language::Kotlin => {
                let l = str_chars(line);
                contains(&l, &str_chars("override")) && contains(&l, &str_chars("fun "))
                    && is_declaration_of(line, method_name)
            },
            Language::Java => is_declaration_of(line, method_name),
            Language::Swift => false,
        }
    }

    /// Whether `detail` (the indexed declaration signature) marks an override
    /// of a supertype member: Kotlin details carry `override`; a Java detail
    /// is just the signature (its `@Override` is on the line before), so any
    /// same-named method counts; Swift is not supported.
    pub fn detail_is_override(self, detail: &str) -> (r: bool)
        ensures
            r == (match self {
                Language::Kotlin => seq_contains(detail@, "override"@),
                Language::Java => true,
                Language::Swift => false,
            }),
    {
        match self {
            Language::Kotlin => contains(&str_chars(detail), &str_chars("override")),
            Language::Java => true,
            Language::Swift => false,
        }
    }

    /// The keyword of a read-only binding: `let` in Swift, `val` otherwise.
    pub fn val_keyword(self) -> (r: &'static str)
        ensures
            r@ == (match self {
                Language::Swift => "let"@,
                _ => "val"@,
            }),
    {
        match self {
            Language::Swift => "let",
            _ => "val",
        }
    }
}

} // verus!

verus! {

// ─── Symbols ─────────────────────────────────────────────────────────────────

/// The kind of a declared symbol (the LSP symbol kinds).
#[derive(Clone, Copy, PartialEq, Eq, Structural, Debug)]
pub enum SymbolKind {
    File,
    Module,
    Namespace,
    Package,
    Class,
    Method,
    Property,
    Field,
    Constructor,
    Enum,
    Interface,
    Function,
    Variable,
    Constant,
    Text,
    Number,
    Boolean,
    Array,
    Object,
    Key,
    Null,
    EnumMember,
    Struct,
    Event,
    Operator,
    TypeParameter,
}

/// The rarely-populated ("cold") fields of a [`SymbolEntry`], kept behind one
/// optional box so that the common symbol, which has none of them, pays for
/// one pointer only.
pub struct SymbolColdFields {
    /// Generic type parameter names: `class Foo<T, U>` → `["T", "U"]`.
    pub type_params: Vec<String>,
    /// For extension functions: the receiver type name without generics.
    pub extension_receiver: String,
    /// For extension functions: the full receiver type with generics (empty
    /// when the receiver has none).
    pub extension_receiver_type: String,
    /// KDoc / Javadoc text (populated for library symbols only).
    pub doc: String,
}

/// `cold` holds the four fields given: no box when all four are empty,
/// otherwise a box holding exactly them.
pub open spec fn packs(
    cold: Option<Box<SymbolColdFields>>,
    type_params: Seq<String>,
    extension_receiver: Seq<char>,
    extension_receiver_type: Seq<char>,
    doc: Seq<char>,
) -> bool {
    &&& cold is None <==> (type_params.len() == 0 && extension_receiver.len() == 0
        && extension_receiver_type.len() == 0 && doc.len() == 0)
    &&& cold matches Some(c) ==> (c.type_params@ == type_params && c.extension_receiver@
        == extension_receiver && c.extension_receiver_type@ == extension_receiver_type && c.doc@
        == doc)
}

/// Pack the four rarely-populated fields into an optional box: `None`, with
/// no allocation, when all four are empty; otherwise a box holding them.
pub fn pack_cold_fields(
    type_params: Vec<String>,
    extension_receiver: String,
    extension_receiver_type: String,
    doc: String,
) -> (r: Option<Box<SymbolColdFields>>)
    ensures
        packs(r, type_params@, extension_receiver@, extension_receiver_type@, doc@),
{
    if type_params.len() == 0 && extension_receiver.as_str().unicode_len() == 0
        && extension_receiver_type.as_str().unicode_len() == 0 && doc.as_str().unicode_len() == 0 {
        None
    } else {
        Some(Box::new(SymbolColdFields { type_params, extension_receiver, extension_receiver_type, doc }))
    }
}

/// A single symbol definition stored in the index.
pub struct SymbolEntry {
    pub name: String,
    pub kind: SymbolKind,
    pub visibility: Visibility,
    /// Span of the entire declaration.
    pub range: Range,
    /// Span of only the identifier.
    pub selection_range: Range,
    /// Short signature shown in hover and symbol lists, e.g. `"val isChecked: Boolean"`.
    pub detail: String,
    /// Raw parameter text between the parentheses of the declaration.
    pub params: String,
    /// `(required, total)` parameter counts.
    pub param_counts: (u8, u8),
    /// Enclosing class/object/interface name (immediate parent only).
    pub container: Option<String>,
    /// The rarely-populated fields; see [`pack_cold_fields`].
    pub cold: Option<Box<SymbolColdFields>>,
    /// The last value parameter is a function type (trailing-lambda syntax).
    pub trailing_lambda: bool,
    /// The declaration carries `@Deprecated`.
    pub deprecated: bool,
}

/// The kinds whose declarations take an argument list.
pub open spec fn callable_kind(k: SymbolKind) -> bool {
    k == SymbolKind::Function || k == SymbolKind::Method || k == SymbolKind::Constructor || k
        == SymbolKind::Operator
}

/// `companion` then `object` as adjacent whitespace-separated tokens of `d`,
/// starting at `i`.
pub open spec fn companion_object_at(d: Seq<char>, i: int) -> bool {
    let j = skip_whitespace(d, i + 9);
    &&& occurs_at(d, "companion"@, i)
    &&& i == 0 || unicode_whitespace(d[i - 1])
    &&& j > i + 9
    &&& occurs_at(d, "object"@, j)
    &&& j + 6 == d.len() || unicode_whitespace(d[j + 6])
}

/// The first position at or after `i` that is not whitespace, or `s.len()`.
pub open spec fn skip_whitespace(s: Seq<char>, i: int) -> int
    decreases s.len() - i,
{
    if i >= s.len() {
        s.len() as int
    } else if !unicode_whitespace(s[i]) {
        i
    } else {
        skip_whitespace(s, i + 1)
    }
}

impl SymbolEntry {
    /// The line where the symbol's identifier starts.
    pub fn selection_start(&self) -> (r: u32)
        ensures
            r == self.selection_range.start.line,
    {
        self.selection_range.start.line
    }

    /// This symbol's `(required, total)` parameter counts, for checking
    /// whether a call's shape could target it; `None` when arity does not
    /// apply: a kind that is not callable, or a `vararg` declaration.
    pub fn arity_for_call_shape_check(&self) -> (r: Option<(u8, u8)>)
        ensures
            r == (if !callable_kind(self.kind) || seq_contains(self.params@, "vararg "@)
                || seq_contains(self.params@, "vararg\t"@) {
                None
            } else {
                Some(self.param_counts)
            }),
    {
        match self.kind {
            SymbolKind::Function | SymbolKind::Method | SymbolKind::Constructor
            | SymbolKind::Operator => {},
            _ => return None,
        }
        let p = str_chars(self.params.as_str());
        if contains(&p, &str_chars("vararg ")) || contains(&p, &str_chars("vararg\t")) {
            return None;
        }
        Some(self.param_counts)
    }

    /// Whether this is a `companion object` declaration: an object whose
    /// detail holds `companion` and `object` as adjacent tokens (so
    /// `private companion object` counts, `private /* companion */ object`
    /// does not).
    pub fn is_companion_object(&self) -> (r: bool)
        ensures
            r == (self.kind == SymbolKind::Object && exists|i: int|
                #[trigger] companion_object_at(self.detail@, i)),
    {
        if self.kind != SymbolKind::Object {
            return false;
        }
        let d = str_chars(self.detail.as_str());
        let companion = str_chars("companion");
        let object = str_chars("object");
        proof {
            reveal_strlit("companion");
            reveal_strlit("object");
        }
        let n = d.len();
        let mut i: usize = 0;
        while i < n
            invariant
                d@ == self.detail@,
                self.kind == SymbolKind::Object,
                n == d@.len(),
                companion@ == "companion"@,
                object@ == "object"@,
                i <= n,
                forall|k: int| 0 <= k < i ==> !#[trigger] companion_object_at(self.detail@, k),
            decreases n - i,
        {
            proof {
                reveal_strlit("companion");
                reveal_strlit("object");
            }
            if matches_at(&d, &companion, i) && (i == 0 || char_is_whitespace(d[i - 1])) {
                let mut j = i + 9;
                while j < n && char_is_whitespace(d[j])
                    invariant
                        d@ == self.detail@,
                        n == d@.len(),
                        i + 9 <= j <= n,
                        skip_whitespace(d@, j as int) == skip_whitespace(d@, i + 9int),
                    decreases n - j,
                {
                    j = j + 1;
                }
                if j > i + 9 && matches_at(&d, &object, j) && (j + 6 == n || char_is_whitespace(
                    d[j + 6],
                )) {
                    assert(skip_whitespace(d@, j as int) == j);
                    assert(companion_object_at(self.detail@, i as int));
                    return true;
                }
            }
            i = i + 1;
        }
        assert forall|k: int| !#[trigger] companion_object_at(self.detail@, k) by {
            if 0 <= k < i {
            }
        }
        false
    }

    /// Generic type parameter names; empty for non-generic symbols.
    pub fn type_params(&self) -> (r: &[String])
        ensures
            r@ == (match self.cold {
                Some(c) => c.type_params@,
                None => Seq::empty(),
            }),
    {
        match &self.cold {
            Some(c) => c.type_params.as_slice(),
            None => &[],
        }
    }

    /// The extension receiver's type name; empty for non-extensions.
    pub fn extension_receiver(&self) -> (r: &str)
        ensures
            r@ == (match self.cold {
                Some(c) => c.extension_receiver@,
                None => ""@,
            }),
    {
        match &self.cold {
            Some(c) => c.extension_receiver.as_str(),
            None => "",
        }
    }

    /// The extension receiver's full type with generics; empty for
    /// non-extensions and receivers without generics.
    pub fn extension_receiver_type(&self) -> (r: &str)
        ensures
            r@ == (match self.cold {
                Some(c) => c.extension_receiver_type@,
                None => ""@,
            }),
    {
        match &self.cold {
            Some(c) => c.extension_receiver_type.as_str(),
            None => "",
        }
    }

    /// KDoc / Javadoc text; empty for source-indexed symbols.
    pub fn doc(&self) -> (r: &str)
        ensures
            r@ == (match self.cold {
                Some(c) => c.doc@,
                None => ""@,
            }),
    {
        match &self.cold {
            Some(c) => c.doc.as_str(),
            None => "",
        }
    }
}

} // verus!

verus! {

// ─── Files ───────────────────────────────────────────────────────────────────

/// Which source set a file belongs to, decided when the workspace is scanned.
#[derive(Clone, Copy, PartialEq, Eq, Structural, Debug)]
pub enum SourceSet {
    /// Production sources.
    Main,
    /// Test sources (`src/test/`, `src/androidTest/`, ...).
    Test,
    /// Library or SDK sources, kept out of references and renames.
    Library,
}

/// The data kept in memory for one source file.
pub struct FileData {
    pub symbols: Vec<SymbolEntry>,
    pub imports: Vec<ImportEntry>,
    /// Package declaration, e.g. `"com.example.app"`.
    pub package: Option<String>,
    /// Raw source lines.
    pub lines: Vec<String>,
    /// Identifiers found before `:` on non-comment lines (lowercased).
    pub declared_names: Vec<String>,
    pub source_set: SourceSet,
    /// The supertypes each class declares: the line of the class's
    /// identifier, the supertype's name as written (without type
    /// arguments), and its type arguments.
    pub supers: Vec<(u32, String, Vec<String>)>,
}

/// The kinds that declare a class-like scope.
pub open spec fn class_kind(k: SymbolKind) -> bool {
    k == SymbolKind::Class || k == SymbolKind::Interface || k == SymbolKind::Struct || k
        == SymbolKind::Enum || k == SymbolKind::Object
}

/// Symbol `s` is a class-like declaration whose range covers `line`.
pub open spec fn encloses_line(s: SymbolEntry, line: u32) -> bool {
    class_kind(s.kind) && s.range.start.line <= line && line <= s.range.end.line
}

/// How many lines the range of `s` spans beyond its first (zero when the
/// end precedes the start).
pub open spec fn line_span(s: SymbolEntry) -> int {
    if s.range.end.line >= s.range.start.line {
        s.range.end.line - s.range.start.line
    } else {
        0
    }
}

/// Symbol `k` of `symbols` is the innermost class-like declaration covering
/// `line`: it covers the line, no covering symbol spans fewer lines, and no
/// earlier covering symbol spans as few.
pub open spec fn innermost_enclosing(symbols: Seq<SymbolEntry>, line: u32, k: int) -> bool {
    &&& 0 <= k < symbols.len()
    &&& encloses_line(symbols[k], line)
    &&& forall|j: int|
        0 <= j < symbols.len() && encloses_line(#[trigger] symbols[j], line) ==> line_span(
            symbols[k],
        ) <= line_span(symbols[j])
    &&& forall|j: int|
        0 <= j < k && encloses_line(#[trigger] symbols[j], line) ==> line_span(symbols[k])
            < line_span(symbols[j])
}

impl FileData {
    /// The name of the innermost class, interface, object or enum whose
    /// range contains `line` (see [`innermost_enclosing`]); `None` at top level.
    pub fn containing_class_at(&self, line: u32) -> (r: Option<String>)
        ensures
            match r {
                Some(n) => exists|k: int|
                    innermost_enclosing(self.symbols@, line, k) && #[trigger] self.symbols@[k].name@
                        == n@,
                None => forall|j: int|
                    0 <= j < self.symbols@.len() ==> !encloses_line(
                        #[trigger] self.symbols@[j],
                        line,
                    ),
            },
    {
        let mut best: Option<usize> = None;
        let mut i: usize = 0;
        while i < self.symbols.len()
            invariant
                i <= self.symbols@.len(),
                match best {
                    Some(k) => k < i && innermost_enclosing(self.symbols@.take(i as int), line, k as int),
                    None => forall|j: int|
                        0 <= j < i ==> !encloses_line(#[trigger] self.symbols@[j], line),
                },
            decreases self.symbols.len() - i,
        {
            let s = &self.symbols[i];
            let is_class = match s.kind {
                SymbolKind::Class | SymbolKind::Interface | SymbolKind::Struct | SymbolKind::Enum
                | SymbolKind::Object => true,
                _ => false,
            };
            let ghost prefix = self.symbols@.take(i as int);
            let ghost next = self.symbols@.take(i + 1int);
            proof {
                assert forall|j: int| 0 <= j < i implies #[trigger] next[j] == prefix[j] by {}
                assert(next[i as int] == self.symbols@[i as int]);
            }
            if is_class && s.range.start.line <= line && line <= s.range.end.line {
                let span = s.range.end.line - s.range.start.line;
                match best {
                    Some(k) => {
                        let b = &self.symbols[k];
                        let best_span = if b.range.end.line >= b.range.start.line {
                            b.range.end.line - b.range.start.line
                        } else {
                            0
                        };
                        if span < best_span {
                            best = Some(i);
                        }
                    },
                    None => {
                        best = Some(i);
                    },
                }
            }
            i = i + 1;
        }
        assert(self.symbols@.take(self.symbols@.len() as int) =~= self.symbols@);
        match best {
            Some(k) => {
                let n = self.symbols[k].name.clone();
                assert(innermost_enclosing(self.symbols@, line, k as int));
                assert(self.symbols@[k as int].name@ == n@);
                Some(n)
            },
            None => None,
        }
    }
}


/// What the accessors of a symbol read back is exactly what was packed into
/// its cold fields, empty or not: packing loses nothing.
pub proof fn law_cold_fields_round_trip(
    s: SymbolEntry,
    type_params: Seq<String>,
    extension_receiver: Seq<char>,
    extension_receiver_type: Seq<char>,
    doc: Seq<char>,
)
    requires
        packs(s.cold, type_params, extension_receiver, extension_receiver_type, doc),
    ensures
        (match s.cold {
            Some(c) => c.type_params@,
            None => Seq::empty(),
        }) == type_params,
        (match s.cold {
            Some(c) => c.extension_receiver@,
            None => ""@,
        }) == extension_receiver,
        (match s.cold {
            Some(c) => c.extension_receiver_type@,
            None => ""@,
        }) == extension_receiver_type,
        (match s.cold {
            Some(c) => c.doc@,
            None => ""@,
        }) == doc,
{
    reveal_strlit("");
    if s.cold is None {
        assert(type_params =~= Seq::<String>::empty());
        assert(extension_receiver =~= ""@);
        assert(extension_receiver_type =~= ""@);
        assert(doc =~= ""@);
    }
}


/// `symbol` is declared directly inside `parent`: its container is named
/// after `parent` and `parent`'s range encloses it (two nested types may
/// share a simple name).
pub open spec fn declared_in(symbol: SymbolEntry, parent: SymbolEntry) -> bool {
    &&& symbol.container matches Some(c) && c@ == parent.name@
    &&& position_le(parent.range.start, symbol.range.start)
    &&& position_le(symbol.range.end, parent.range.end)
}

/// Whether `symbol` is declared directly inside `parent` (see [`declared_in`]).
pub fn is_declared_in(symbol: &SymbolEntry, parent: &SymbolEntry) -> (r: bool)
    ensures
        r == declared_in(*symbol, *parent),
{
    match &symbol.container {
        Some(c) => str_eq(c.as_str(), parent.name.as_str()) && range_encloses(parent.range, symbol.range),
        None => false,
    }
}

} // verus!
