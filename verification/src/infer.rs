//! Type-string normalisation and generic-parameter substitution used when
//! inferring the type of a receiver expression.

use vstd::prelude::*;

use crate::extensions::{extension_in_scope, extension_is_in_scope, opt_string_view, extensions_on, first_occurrences, receiver_position, ExtensionEntry, ReceiverExtensions};
use crate::hierarchy::{views, walk_hierarchy, walk_spec, Node, SupertypeGraph};
use crate::tie_break::string_in;
use crate::find::{first_named, first_named_index};
use crate::resolve::pick;
use crate::completion_items::starts_lowercase;
use crate::infer_lines::{
    close_paren_from, declared_type_in_line, detail_property_type, extract_property_type_from_detail,
    has_dot_after_first_call, line_declared_type,
};
use crate::types::{str_eq, FileData, Location, SymbolEntry, SymbolKind, Visibility};
use crate::segments::{first_segment, first_segment_str, last_segment, last_segment_str};
use crate::text::{
    char_is_alphanumeric, first_pos, first_where, is_word_char,
    is_char, lemma_first_pos, lemma_first_pos_unique, lemma_first_where, lemma_last_where, last_where,
    char_is_lowercase, find_char, rfind_char, slice_string, trim_str, trim_ws,
    lemma_first_where_unique, str_chars, unicode_alphanumeric, word_char,
};

verus! {

// ─── strip_generics ───────────────────────────────────────────────────────────

/// A character that can continue a type path: Unicode alphanumeric, `_` or `.`.
pub open spec fn type_path_char(c: char) -> bool {
    unicode_alphanumeric(c) || c == '_' || c == '.'
}

pub open spec fn ends_type_path() -> spec_fn(char) -> bool {
    |c: char| !type_path_char(c)
}

/// `s` without its trailing `.` characters.
pub open spec fn trim_trailing_dots(s: Seq<char>) -> Seq<char>
    decreases s.len(),
{
    if s.len() > 0 && s.last() == '.' {
        trim_trailing_dots(s.drop_last())
    } else {
        s
    }
}

/// The leading type path of `s` (up to the first character that is not
/// alphanumeric, `_` or `.`), without trailing dots.
pub open spec fn stripped_type(s: Seq<char>) -> Seq<char> {
    trim_trailing_dots(s.take(first_where(s, ends_type_path()) as int))
}

/// Strip generic parameters and nullability markers from a type string.
///
/// `"List<Product>"` → `"List"`, `"String?"` → `"String"`,
/// `"Outer.Inner<T>"` → `"Outer.Inner"`.
pub fn strip_generics(type_str: &str) -> (r: String)
    ensures
        r@ == stripped_type(type_str@),
{
    let chars = str_chars(type_str);
    let mut k: usize = 0;
    while k < chars.len()
        invariant
            chars@ == type_str@,
            k <= chars@.len(),
            forall|j: int| 0 <= j < k ==> type_path_char(#[trigger] chars@[j]),
        ensures
            k <= chars@.len(),
            forall|j: int| 0 <= j < k ==> type_path_char(#[trigger] chars@[j]),
            k < chars@.len() ==> !type_path_char(chars@[k as int]),
        decreases chars.len() - k,
    {
        let c = chars[k];
        if !(char_is_alphanumeric(c) || c == '_' || c == '.') {
            break;
        }
        k = k + 1;
    }
    proof {
        lemma_first_where_unique(type_str@, ends_type_path(), k as int);
    }
    let ghost head = type_str@.take(k as int);
    let mut j: usize = k;
    while j > 0 && chars[j - 1] == '.'
        invariant
            chars@ == type_str@,
            j <= k <= chars@.len(),
            head == type_str@.take(k as int),
            trim_trailing_dots(head) == trim_trailing_dots(type_str@.take(j as int)),
        decreases j,
    {
        proof {
            assert(type_str@.take(j as int).drop_last() =~= type_str@.take(j - 1int));
        }
        j = j - 1;
    }
    type_str.substring_char(0, j).to_owned()
}

proof fn lemma_trim_trailing_dots(s: Seq<char>)
    ensures
        trim_trailing_dots(s).len() <= s.len(),
        trim_trailing_dots(s) == s.take(trim_trailing_dots(s).len() as int),
        trim_trailing_dots(s).len() == 0 || trim_trailing_dots(s).last() != '.',
    decreases s.len(),
{
    if s.len() > 0 && s.last() == '.' {
        lemma_trim_trailing_dots(s.drop_last());
        let t = trim_trailing_dots(s.drop_last());
        assert(s.drop_last().take(t.len() as int) =~= s.take(t.len() as int));
    } else {
        assert(s.take(s.len() as int) =~= s);
    }
}

/// Stripping is idempotent: a stripped type is already in normal form.
pub proof fn law_strip_generics_idempotent(s: Seq<char>)
    ensures
        stripped_type(stripped_type(s)) == stripped_type(s),
{
    let k = first_where(s, ends_type_path());
    crate::text::lemma_first_where(s, ends_type_path());
    let head = s.take(k as int);
    lemma_trim_trailing_dots(head);
    let t = stripped_type(s);
    assert forall|j: int| 0 <= j < t.len() implies !ends_type_path()(#[trigger] t[j]) by {
        assert(t[j] == head[j]);
        assert(head[j] == s[j]);
    }
    lemma_first_where_unique(t, ends_type_path(), t.len() as int);
    assert(t.take(t.len() as int) =~= t);
}

// ─── ReceiverType ─────────────────────────────────────────────────────────────

/// `raw` up to its first `<` or `?`: the type name without generics or
/// nullability.
pub open spec fn qualified_type(raw: Seq<char>) -> Seq<char> {
    raw.take(first_where(raw, generic_or_nullable_mark()) as int)
}

pub open spec fn generic_or_nullable_mark() -> spec_fn(char) -> bool {
    |c: char| c == '<' || c == '?'
}

/// A fully-normalised receiver type with multiple access forms, all derived
/// from one raw string such as `"Outer.Inner<Param>?"`.
pub struct ReceiverType {
    /// Full raw type string as inferred, e.g. `"StateFlow<UiState>?"`.
    pub raw: String,
    /// Type name with no generics and no `?`, e.g. `"StateFlow"` or `"Outer.Inner"`.
    pub qualified: String,
    /// Outermost segment of `qualified`, e.g. `"Outer"`.
    pub outer: String,
    /// Innermost segment of `qualified`, e.g. `"Inner"`.
    pub leaf: String,
    /// Whether the type was annotated as nullable (a trailing `?`).
    pub nullable: bool,
}

impl ReceiverType {
    /// Derive every access form from `raw`. Only a trailing `?` makes the
    /// type nullable: one inside a generic argument (`Box<String?>`) does not.
    pub fn from_raw(raw: String) -> (r: ReceiverType)
        ensures
            r.raw@ == raw@,
            r.qualified@ == qualified_type(raw@),
            r.outer@ == first_segment(qualified_type(raw@)),
            r.leaf@ == last_segment(qualified_type(raw@)),
            r.nullable == (raw@.len() > 0 && raw@.last() == '?'),
    {
        let chars = str_chars(raw.as_str());
        let mut k: usize = 0;
        while k < chars.len()
            invariant
                chars@ == raw@,
                k <= chars@.len(),
                forall|j: int| 0 <= j < k ==> #[trigger] chars@[j] != '<' && chars@[j] != '?',
            ensures
                k <= chars@.len(),
                forall|j: int| 0 <= j < k ==> #[trigger] chars@[j] != '<' && chars@[j] != '?',
                k < chars@.len() ==> chars@[k as int] == '<' || chars@[k as int] == '?',
            decreases chars.len() - k,
        {
            if chars[k] == '<' || chars[k] == '?' {
                break;
            }
            k = k + 1;
        }
        proof {
            lemma_first_where_unique(raw@, generic_or_nullable_mark(), k as int);
        }
        let qualified = raw.as_str().substring_char(0, k).to_owned();
        let nullable = chars.len() > 0 && chars[chars.len() - 1] == '?';
        let outer = first_segment_str(qualified.as_str()).to_owned();
        let leaf = last_segment_str(qualified.as_str()).to_owned();
        ReceiverType { raw, qualified, outer, leaf, nullable }
    }
}

// ─── supertype generic substitution ──────────────────────────────────────────

/// The end of the run of word characters starting at `i`: the first
/// position at or after `i` that holds no word character, or `s.len()`.
pub open spec fn word_end(s: Seq<char>, i: int) -> int
    decreases s.len() - i,
{
    if 0 <= i < s.len() && word_char(s[i]) {
        word_end(s, i + 1)
    } else {
        i
    }
}

pub proof fn lemma_word_end(s: Seq<char>, i: int)
    requires
        0 <= i <= s.len(),
    ensures
        i <= word_end(s, i) <= s.len(),
        i < s.len() && word_char(s[i]) ==> word_end(s, i) > i,
        forall|k: int| i <= k < word_end(s, i) ==> word_char(#[trigger] s[k]),
        word_end(s, i) < s.len() ==> !word_char(s[word_end(s, i)]),
    decreases s.len() - i,
{
    if i < s.len() && word_char(s[i]) {
        lemma_word_end(s, i + 1);
    }
}

/// Parameter `i` (of the first `n`) is spelled `w`.
pub open spec fn spells(params: Seq<String>, w: Seq<char>) -> spec_fn(int) -> bool {
    |i: int| params[i]@ == w
}

/// What a whole word `w` becomes: the argument of the first of the first
/// `n` parameters spelled `w`, or `w` itself.
pub open spec fn word_substitute(params: Seq<String>, args: Seq<String>, n: int, w: Seq<char>) -> Seq<char> {
    let k = first_pos(0, n, spells(params, w));
    if k >= 0 {
        args[k]@
    } else {
        w
    }
}

/// `s[i..]` with every whole word (a maximal run of word characters) that
/// spells one of the first `n` parameters replaced by that parameter's
/// argument, in one left-to-right pass over `s`: an inserted argument is
/// never looked at again, and a parameter inside a longer word is left
/// alone.
pub open spec fn substitute_words_from(s: Seq<char>, params: Seq<String>, args: Seq<String>, n: int, i: int) -> Seq<
    char,
>
    decreases s.len() - i,
{
    if i < 0 || i >= s.len() {
        Seq::empty()
    } else if !word_char(s[i]) {
        seq![s[i]] + substitute_words_from(s, params, args, n, i + 1)
    } else {
        proof {
            lemma_word_end(s, i);
        }
        let e = word_end(s, i);
        word_substitute(params, args, n, s.subrange(i, e)) + substitute_words_from(s, params, args, n, e)
    }
}

/// `raw` with the first `n` parameters substituted (see
/// [`substitute_words_from`]).
pub open spec fn substitute_params(raw: Seq<char>, params: Seq<String>, args: Seq<String>, n: int) -> Seq<char> {
    substitute_words_from(raw, params, args, n, 0)
}

/// Substituting parameters by themselves changes nothing: every word is
/// written back as it was.
pub proof fn law_substituting_names_by_themselves_is_identity(s: Seq<char>, params: Seq<String>, n: int, i: int)
    requires
        0 <= i <= s.len(),
        0 <= n <= params.len(),
    ensures
        substitute_words_from(s, params, params, n, i) == s.skip(i),
    decreases s.len() - i,
{
    if i < s.len() {
        if !word_char(s[i]) {
            law_substituting_names_by_themselves_is_identity(s, params, n, i + 1);
            assert(seq![s[i]] + s.skip(i + 1) =~= s.skip(i));
        } else {
            lemma_word_end(s, i);
            let e = word_end(s, i);
            let w = s.subrange(i, e);
            let k = first_pos(0, n, spells(params, w));
            lemma_first_pos(0, n, spells(params, w));
            if k >= 0 {
                assert(params[k]@ == w);
            }
            law_substituting_names_by_themselves_is_identity(s, params, n, e);
            assert(w + s.skip(e) =~= s.skip(i));
        }
    }
}

/// The argument for the whole word `w`: that of the first of the first `n`
/// parameters spelled `w`, or `w` itself.
fn substitute_word(w: &str, params: &[String], args: &[String], n: usize) -> (r: String)
    requires
        n <= params@.len(),
        n <= args@.len(),
    ensures
        r@ == word_substitute(params@, args@, n as int, w@),
{
    let ghost pred = spells(params@, w@);
    let mut k: usize = 0;
    while k < n
        invariant
            n <= params@.len(),
            n <= args@.len(),
            pred == spells(params@, w@),
            k <= n,
            forall|m: int| 0 <= m < k ==> !#[trigger] pred(m),
        decreases n - k,
    {
        if str_eq(params[k].as_str(), w) {
            proof {
                assert(pred(k as int));
                lemma_first_pos_unique(0, n as int, pred, k as int);
            }
            return args[k].clone();
        }
        k = k + 1;
    }
    proof {
        lemma_first_pos_unique(0, n as int, pred, -1);
    }
    w.to_string()
}

/// Replace generic type parameter names with concrete type arguments, pair
/// by pair (`params[i]` ↦ `args[i]`, as far as both lists reach), whole
/// words only and in one pass: `Box<TT>` keeps `TT` for `T`, and with
/// `A ↦ B, B ↦ String`, `Map<A, B>` becomes `Map<B, String>`.
///
/// `raw = "Flow<ReducedResult<EffectType, StateType>>"`,
/// `params = ["EventType", "EffectType", "StateType"]`,
/// `args = ["Input", "Effect", "Sheet"]` → `"Flow<ReducedResult<Effect, Sheet>>"`.
pub fn apply_supertype_subst(raw: &str, params: &[String], args: &[String]) -> (r: String)
    ensures
        r@ == substitute_params(
            raw@,
            params@,
            args@,
            if params@.len() < args@.len() {
                params@.len() as int
            } else {
                args@.len() as int
            },
        ),
{
    let n = if params.len() < args.len() {
        params.len()
    } else {
        args.len()
    };
    let ghost s = raw@;
    let chars = str_chars(raw);
    let len = chars.len();
    let mut out = String::new();
    let mut i: usize = 0;
    while i < len
        invariant
            chars@ == s,
            s == raw@,
            len == s.len(),
            n <= params@.len(),
            n <= args@.len(),
            i <= len,
            out@ + substitute_words_from(s, params@, args@, n as int, i as int) == substitute_words_from(
                s,
                params@,
                args@,
                n as int,
                0,
            ),
        decreases len - i,
    {
        let ghost before = out@;
        if !is_word_char(chars[i]) {
            out.append(raw.substring_char(i, i + 1));
            proof {
                assert(raw@.subrange(i as int, i + 1int) =~= seq![s[i as int]]);
                assert(out@ =~= before + seq![s[i as int]]);
                assert(out@ + substitute_words_from(s, params@, args@, n as int, i + 1int) =~= before
                    + substitute_words_from(s, params@, args@, n as int, i as int));
            }
            i = i + 1;
        } else {
            let mut e = i + 1;
            while e < len && is_word_char(chars[e])
                invariant
                    chars@ == s,
                    len == s.len(),
                    i < e <= len,
                    word_char(s[i as int]),
                    word_end(s, i as int) == word_end(s, e as int),
                decreases len - e,
            {
                e = e + 1;
            }
            proof {
                lemma_word_end(s, i as int);
                assert(word_end(s, e as int) == e as int);
            }
            let w = raw.substring_char(i, e);
            let rep = substitute_word(w, params, args, n);
            out.append(rep.as_str());
            proof {
                assert(out@ =~= before + word_substitute(params@, args@, n as int, s.subrange(i as int, e as int)));
                assert(out@ + substitute_words_from(s, params@, args@, n as int, e as int) =~= before
                    + substitute_words_from(s, params@, args@, n as int, i as int));
            }
            i = e;
        }
    }
    proof {
        assert(out@ =~= out@ + substitute_words_from(s, params@, args@, n as int, len as int));
    }
    out
}

// ─── windowed field lookup ───────────────────────────────────────────────────

/// How far (in lines) around a class's own declaration a field is searched
/// for by plain text scanning.
pub const FIELD_LOOKUP_WINDOW: u32 = 20;

/// First line of the search window around `near`.
pub open spec fn window_start(near: int) -> int {
    if near >= FIELD_LOOKUP_WINDOW {
        near - FIELD_LOOKUP_WINDOW
    } else {
        0
    }
}

/// One past the last line of the search window around `near`.
pub open spec fn window_end(near: int, len: int) -> int {
    if near + FIELD_LOOKUP_WINDOW + 1 < len {
        near + FIELD_LOOKUP_WINDOW + 1
    } else {
        len
    }
}

pub open spec fn in_window(k: int, near: int, len: int) -> bool {
    window_start(near) <= k < window_end(near, len)
}

pub open spec fn line_distance(k: int, near: int) -> int {
    if k >= near {
        k - near
    } else {
        near - k
    }
}

/// Line `a` is scanned before line `b`: it is closer to `near`, or as close
/// and earlier in the file.
pub open spec fn scanned_before(a: int, b: int, near: int) -> bool {
    line_distance(a, near) < line_distance(b, near) || (line_distance(a, near) == line_distance(
        b,
        near,
    ) && a < b)
}

/// The raw type that line `k` of `lines` declares for `name`, if any.
pub open spec fn line_type(lines: Seq<String>, name: Seq<char>, k: int) -> Option<Seq<char>> {
    declared_type_in_line(lines[k]@, name)
}

/// `r` is the type declared for `name` on the window line closest to `near`
/// (ties going to the earlier line) that declares one; `None` when no window
/// line does.
pub open spec fn windowed_type(lines: Seq<String>, name: Seq<char>, near: int, r: Option<Seq<char>>) -> bool {
    match r {
        Some(t) => exists|k: int|
            #![trigger line_type(lines, name, k)]
            in_window(k, near, lines.len() as int) && line_type(lines, name, k) == Some(t) && forall|
                j: int,
            |
                in_window(j, near, lines.len() as int) && scanned_before(j, k, near) ==> (
                #[trigger] line_type(lines, name, j)) is None,
        None => forall|j: int|
            in_window(j, near, lines.len() as int) ==> (#[trigger] line_type(lines, name, j)) is None,
    }
}

/// Find the type declared for `field_name` within [`FIELD_LOOKUP_WINDOW`]
/// lines of `near_line`, preferring the closest declaration (see
/// [`windowed_type`]) so that a sibling class's same-named field earlier in
/// the window does not win by file order.
pub fn windowed_infer_type_raw(lines: &[String], field_name: &str, near_line: u32) -> (r: Option<String>)
    requires
        near_line + FIELD_LOOKUP_WINDOW + 1 <= u32::MAX,
    ensures
        windowed_type(
            lines@,
            field_name@,
            near_line as int,
            match r {
                Some(t) => Some(t@),
                None => None,
            },
        ),
{
    let len = lines.len();
    let near = near_line as usize;
    let start: usize = if near_line >= FIELD_LOOKUP_WINDOW {
        (near_line - FIELD_LOOKUP_WINDOW) as usize
    } else {
        0
    };
    let wide_end = (near_line + FIELD_LOOKUP_WINDOW + 1) as usize;
    let end: usize = if wide_end < len {
        wide_end
    } else {
        len
    };
    let ghost n = near_line as int;
    if start >= end {
        return None;
    }
    let mut d: usize = 0;
    while d <= 20
        invariant
            len == lines@.len(),
            near == near_line,
            n == near_line as int,
            near_line + FIELD_LOOKUP_WINDOW + 1 <= u32::MAX,
            start == window_start(n),
            end == window_end(n, len as int),
            d <= 21,
            forall|j: int|
                in_window(j, n, len as int) && line_distance(j, n) < d ==> (#[trigger] line_type(
                    lines@,
                    field_name@,
                    j,
                )) is None,
        decreases 21 - d,
    {
        if d <= near && start <= near - d && near - d < end {
            let k = near - d;
            match line_declared_type(lines[k].as_str(), field_name) {
                Some(t) => {
                    proof {
                        assert forall|j: int|
                            in_window(j, n, len as int) && scanned_before(
                                j,
                                k as int,
                                n,
                            ) implies (#[trigger] line_type(lines@, field_name@, j)) is None by {
                            assert(line_distance(j, n) < d);
                        }
                        assert(line_type(lines@, field_name@, k as int) == Some(t@));
                    }
                    return Some(t);
                },
                None => {},
            }
        }
        if d > 0 && near + d < end {
            let k = near + d;
            match line_declared_type(lines[k].as_str(), field_name) {
                Some(t) => {
                    proof {
                        assert forall|j: int|
                            in_window(j, n, len as int) && scanned_before(
                                j,
                                k as int,
                                n,
                            ) implies (#[trigger] line_type(lines@, field_name@, j)) is None by {
                            if line_distance(j, n) == d {
                                assert(j == near - d);
                            }
                        }
                        assert(line_type(lines@, field_name@, k as int) == Some(t@));
                    }
                    return Some(t);
                },
                None => {},
            }
        }
        proof {
            assert forall|j: int|
                in_window(j, n, len as int) && line_distance(j, n) < d + 1 implies (
                #[trigger] line_type(lines@, field_name@, j)) is None by {
                if line_distance(j, n) == d {
                    if j < n {
                        assert(j == near - d);
                    } else if d > 0 {
                        assert(j == near + d);
                    }
                }
            }
        }
        d = d + 1;
    }
    None
}

// ─── Supertype arguments across files ──────────────────────────────────────

/// The type parameters `s` declares (none when it has no cold fields).
pub open spec fn symbol_type_params(s: SymbolEntry) -> Seq<String> {
    match s.cold {
        Some(c) => c.type_params@,
        None => Seq::empty(),
    }
}

/// `symbols[k]` is named `name` and declares type parameters.
pub open spec fn generic_named(symbols: Seq<SymbolEntry>, name: Seq<char>) -> spec_fn(int) -> bool {
    |k: int| symbols[k].name@ == name && symbol_type_params(symbols[k]).len() > 0
}

/// The type parameters of the first symbol named `name` that declares any,
/// in the first of `files` holding such a symbol; empty when none does.
pub open spec fn class_type_params(files: Seq<&FileData>, name: Seq<char>) -> Seq<String>
    decreases files.len(),
{
    if files.len() == 0 {
        Seq::empty()
    } else {
        let syms = files[0].symbols@;
        let k = first_pos(0, syms.len() as int, generic_named(syms, name));
        if k >= 0 {
            symbol_type_params(syms[k])
        } else {
            class_type_params(files.drop_first(), name)
        }
    }
}

/// A copy of `s`.
pub(crate) fn copy_strings(s: &[String]) -> (r: Vec<String>)
    ensures
        r@ == s@,
{
    let mut r: Vec<String> = Vec::new();
    let mut i: usize = 0;
    while i < s.len()
        invariant
            i <= s@.len(),
            r@ == s@.take(i as int),
        decreases s.len() - i,
    {
        r.push(s[i].clone());
        assert(s@.take(i + 1int) =~= s@.take(i as int).push(s@[i as int]));
        i = i + 1;
    }
    assert(s@.take(s@.len() as int) =~= s@);
    r
}

/// The type parameters of the class `class_name`, looked up in `files`, the
/// files holding its workspace definitions in lookup order (see
/// [`class_type_params`]).
pub fn find_class_type_params(files: &Vec<&FileData>, class_name: &str) -> (r: Vec<String>)
    ensures
        r@ == class_type_params(files@, class_name@),
{
    let mut i: usize = 0;
    assert(files@.skip(0) =~= files@);
    while i < files.len()
        invariant
            i <= files@.len(),
            class_type_params(files@, class_name@) == class_type_params(files@.skip(i as int), class_name@),
        decreases files.len() - i,
    {
        let syms = &files[i].symbols;
        let ghost pred = generic_named(syms@, class_name@);
        let mut j: usize = 0;
        while j < syms.len()
            invariant
                i < files@.len(),
                syms@ == files@[i as int].symbols@,
                class_type_params(files@, class_name@) == class_type_params(
                    files@.skip(i as int),
                    class_name@,
                ),
                pred == generic_named(syms@, class_name@),
                j <= syms@.len(),
                forall|k: int| 0 <= k < j ==> !#[trigger] pred(k),
            decreases syms.len() - j,
        {
            if str_eq(syms[j].name.as_str(), class_name) && syms[j].type_params().len() > 0 {
                proof {
                    assert(pred(j as int));
                    lemma_first_pos(0, syms@.len() as int, pred);
                    assert(files@.skip(i as int)[0] == files@[i as int]);
                }
                return copy_strings(syms[j].type_params());
            }
            j = j + 1;
        }
        proof {
            lemma_first_pos(0, syms@.len() as int, pred);
            assert(files@.skip(i as int)[0] == files@[i as int]);
            assert(files@.skip(i as int).drop_first() =~= files@.skip(i + 1int));
        }
        i = i + 1;
    }
    Vec::new()
}

/// Supertype entry `j` is `super_name`, declared on `line`.
pub open spec fn super_entry_at(entries: Seq<(u32, String, Vec<String>)>, line: u32, super_name: Seq<char>) -> spec_fn(int) -> bool {
    |j: int| entries[j].0 == line && entries[j].1@ == super_name
}

/// The index of the first entry of `supers` for `super_name` on `line`.
fn super_entry_index(supers: &Vec<(u32, String, Vec<String>)>, line: u32, super_name: &str) -> (r: Option<usize>)
    ensures
        match r {
            Some(j) => j < supers@.len() && first_pos(
                0,
                supers@.len() as int,
                super_entry_at(supers@, line, super_name@),
            ) == j as int,
            None => first_pos(0, supers@.len() as int, super_entry_at(supers@, line, super_name@))
                == -1,
        },
{
    let ghost pred = super_entry_at(supers@, line, super_name@);
    proof {
        lemma_first_pos(0, supers@.len() as int, pred);
    }
    let mut j: usize = 0;
    while j < supers.len()
        invariant
            pred == super_entry_at(supers@, line, super_name@),
            j <= supers@.len(),
            forall|m: int| 0 <= m < j ==> !#[trigger] pred(m),
            first_pos(0, supers@.len() as int, pred) == -1 || (0 <= first_pos(
                0,
                supers@.len() as int,
                pred,
            ) < supers@.len() && pred(first_pos(0, supers@.len() as int, pred))),
            forall|m: int|
                0 <= m < supers@.len() && (first_pos(0, supers@.len() as int, pred) == -1 || m
                    < first_pos(0, supers@.len() as int, pred)) ==> !#[trigger] pred(m),
        decreases supers.len() - j,
    {
        if supers[j].0 == line && str_eq(supers[j].1.as_str(), super_name) {
            assert(pred(j as int));
            return Some(j);
        }
        j = j + 1;
    }
    None
}

/// `raw` with the type arguments that the class `class_base` of `file`
/// passes to its direct supertype `super_name` substituted for that
/// supertype's type parameters (found in `super_defs` under the last segment
/// of `super_name`); `raw` unchanged when the file is missing, has no such
/// class or supertype entry, the entry has no type arguments, or the
/// supertype declares no type parameters.
pub open spec fn direct_supertype_substitution(
    file: Option<&FileData>,
    class_base: Seq<char>,
    super_name: Seq<char>,
    raw: Seq<char>,
    super_defs: Seq<&FileData>,
) -> Seq<char> {
    match file {
        None => raw,
        Some(fd) => {
            let k = first_named(fd.symbols@, class_base);
            if k == -1 {
                raw
            } else {
                let line = fd.symbols@[k].selection_range.start.line;
                let sup = fd.supers@;
                let j = first_pos(0, sup.len() as int, super_entry_at(sup, line, super_name));
                if j == -1 || sup[j].2@.len() == 0 {
                    raw
                } else {
                    let params = class_type_params(super_defs, last_segment(super_name));
                    let args = sup[j].2@;
                    if params.len() == 0 {
                        raw
                    } else {
                        substitute_params(
                            raw,
                            params,
                            args,
                            if params.len() < args.len() {
                                params.len() as int
                            } else {
                                args.len() as int
                            },
                        )
                    }
                }
            }
        }
    }
}

/// Substitutes the type arguments that the class `class_base` of `file`
/// passes to its direct supertype `super_name` into `raw` (see
/// [`direct_supertype_substitution`]). `file` is the class's file, when it
/// could be read; `super_defs` the files of the workspace definitions of the
/// last segment of `super_name`, in lookup order.
pub fn substitute_direct_supertype_args(
    file: Option<&FileData>,
    class_base: &str,
    super_name: &str,
    raw: &str,
    super_defs: &Vec<&FileData>,
) -> (r: String)
    ensures
        r@ == direct_supertype_substitution(file, class_base@, super_name@, raw@, super_defs@),
{
    let fd = match file {
        Some(fd) => fd,
        None => return raw.to_string(),
    };
    let k = match first_named_index(&fd.symbols, class_base) {
        Some(k) => k,
        None => return raw.to_string(),
    };
    let line = fd.symbols[k].selection_start();
    let j = match super_entry_index(&fd.supers, line, super_name) {
        Some(j) => j,
        None => return raw.to_string(),
    };
    if fd.supers[j].2.len() == 0 {
        return raw.to_string();
    }
    let params = find_class_type_params(super_defs, last_segment_str(super_name));
    if params.len() == 0 {
        return raw.to_string();
    }
    apply_supertype_subst(raw, params.as_slice(), fd.supers[j].2.as_slice())
}

// ─── Extension property types ──────────────────────────────────────────────

/// The kinds of declaration an extension-property search starts from.
pub open spec fn starting_kind(k: SymbolKind) -> bool {
    k == SymbolKind::Class || k == SymbolKind::Object || k == SymbolKind::Interface || k == SymbolKind::Struct
}

/// Symbol `k` of `symbols` is a starting point.
pub open spec fn starting_at(symbols: Seq<SymbolEntry>) -> spec_fn(int) -> bool {
    |k: int| starting_kind(symbols[k].kind)
}

/// The names of the classes, objects, interfaces and structs of `file`, in
/// file order: where the search for an extension property of the file's
/// types starts (each with its supertypes).
pub fn class_starting_points(file: &FileData) -> (out: Vec<String>)
    ensures
        out.deep_view() == pick(file.symbols@, starting_at(file.symbols@), file.symbols@.len() as int).map_values(
            |s: SymbolEntry| s.name@,
        ),
{
    let ghost syms = file.symbols@;
    let mut out: Vec<String> = Vec::new();
    let mut i: usize = 0;
    while i < file.symbols.len()
        invariant
            syms == file.symbols@,
            i <= syms.len(),
            out.deep_view() == pick(syms, starting_at(syms), i as int).map_values(|s: SymbolEntry| s.name@),
        decreases file.symbols.len() - i,
    {
        let k = file.symbols[i].kind;
        let ghost before = out.deep_view();
        if k == SymbolKind::Class || k == SymbolKind::Object || k == SymbolKind::Interface || k == SymbolKind::Struct {
            out.push(file.symbols[i].name.clone());
            assert(out.deep_view() =~= before.push(syms[i as int].name@));
            assert(pick(syms, starting_at(syms), i + 1) == pick(syms, starting_at(syms), i as int).push(syms[i as int]));
            assert(pick(syms, starting_at(syms), i + 1).map_values(|s: SymbolEntry| s.name@) =~= before.push(
                syms[i as int].name@,
            ));
        }
        i = i + 1;
    }
    out
}

/// `e` is a non-private, non-protected extension property (or variable)
/// named `prop` whose detail declares a type.
pub open spec fn extension_property_answers(e: ExtensionEntry, prop: Seq<char>) -> bool {
    &&& e.name@ == prop
    &&& e.kind == SymbolKind::Property || e.kind == SymbolKind::Variable
    &&& e.visibility != Visibility::Private && e.visibility != Visibility::Protected
    &&& detail_property_type(e.detail@) is Some
}

/// Entry `i` of `es` answers for `prop`.
pub open spec fn answers_for(es: Seq<ExtensionEntry>, prop: Seq<char>) -> spec_fn(int) -> bool {
    |i: int| extension_property_answers(es[i], prop)
}

/// The declared type of the first extension in `es` that answers for
/// `prop` (see [`extension_property_answers`]); `None` when none does.
pub open spec fn property_type_among(es: Seq<ExtensionEntry>, prop: Seq<char>) -> Option<Seq<char>> {
    let j = first_pos(0, es.len() as int, answers_for(es, prop));
    if j >= 0 {
        detail_property_type(es[j].detail@)
    } else {
        None
    }
}

/// The declared type of the first extension property named `prop` that
/// answers, looking through the extensions registered for each ancestor
/// type in turn (`groups`).
pub open spec fn extension_property_type_in(groups: Seq<Vec<ExtensionEntry>>, prop: Seq<char>) -> Option<Seq<char>>
    decreases groups.len(),
{
    if groups.len() == 0 {
        None
    } else {
        match property_type_among(groups[0]@, prop) {
            Some(t) => Some(t),
            None => extension_property_type_in(groups.drop_first(), prop),
        }
    }
}

/// The declared type of the first extension in `es` that answers for
/// `prop_name` (see [`property_type_among`]).
pub fn property_type_among_entries(es: &Vec<ExtensionEntry>, prop_name: &str) -> (r: Option<String>)
    ensures
        r matches Some(t) ==> property_type_among(es@, prop_name@) == Some(t@),
        r is None ==> property_type_among(es@, prop_name@) is None,
{
    let ghost pred = answers_for(es@, prop_name@);
    let mut i: usize = 0;
    while i < es.len()
        invariant
            pred == answers_for(es@, prop_name@),
            i <= es@.len(),
            forall|m: int| 0 <= m < i ==> !#[trigger] pred(m),
        decreases es.len() - i,
    {
        let e = &es[i];
        if str_eq(e.name.as_str(), prop_name) && (e.kind == SymbolKind::Property || e.kind == SymbolKind::Variable)
            && e.visibility != Visibility::Private && e.visibility != Visibility::Protected {
            match extract_property_type_from_detail(e.detail.as_str()) {
                Some(t) => {
                    proof {
                        assert(pred(i as int));
                        lemma_first_pos_unique(0, es@.len() as int, pred, i as int);
                    }
                    return Some(t);
                },
                None => {},
            }
        }
        i = i + 1;
    }
    proof {
        lemma_first_pos_unique(0, es@.len() as int, pred, -1);
    }
    None
}

/// The type of the extension property `prop_name` (`viewModelScope` →
/// `CoroutineScope`), which the file that uses it does not declare:
/// `groups` holds, for each ancestor type of the file's classes (see
/// [`class_starting_points`]), the extensions registered for it; the first
/// visible extension property of that name whose detail declares a type
/// answers (see [`extension_property_type_in`]).
pub fn find_extension_property_type(groups: &Vec<Vec<ExtensionEntry>>, prop_name: &str) -> (r: Option<String>)
    ensures
        r matches Some(t) ==> extension_property_type_in(groups@, prop_name@) == Some(t@),
        r is None ==> extension_property_type_in(groups@, prop_name@) is None,
{
    let mut g: usize = 0;
    assert(groups@.skip(0) =~= groups@);
    while g < groups.len()
        invariant
            g <= groups@.len(),
            extension_property_type_in(groups@, prop_name@) == extension_property_type_in(groups@.skip(g as int), prop_name@),
        decreases groups.len() - g,
    {
        proof {
            assert(groups@.skip(g as int)[0] == groups@[g as int]);
            assert(groups@.skip(g as int).drop_first() =~= groups@.skip(g + 1int));
        }
        match property_type_among_entries(&groups[g], prop_name) {
            Some(t) => {
                return Some(t);
            },
            None => {},
        }
        g = g + 1;
    }
    None
}

/// The type of the extension property `prop`: the first receiver of
/// `receivers` whose extensions in `index` (see [`extensions_on`]) hold one
/// that answers (see [`property_type_among`]) gives it.
pub open spec fn extension_property_type_over(
    index: Seq<ReceiverExtensions>,
    receivers: Seq<Seq<char>>,
    prop: Seq<char>,
) -> Option<Seq<char>>
    decreases receivers.len(),
{
    if receivers.len() == 0 {
        None
    } else {
        match property_type_among(extensions_on(index, receivers[0], 0), prop) {
            Some(t) => Some(t),
            None => extension_property_type_over(index, receivers.drop_first(), prop),
        }
    }
}

/// Each class of `classes` (declared in `uri`) followed by the names of the
/// ancestors an eight-hop walk of `g` reaches from it, class after class.
pub open spec fn classes_and_ancestors(g: SupertypeGraph, classes: Seq<Seq<char>>, uri: Seq<char>) -> Seq<Seq<char>>
    decreases classes.len(),
{
    if classes.len() == 0 {
        Seq::empty()
    } else {
        classes_and_ancestors(g, classes.drop_last(), uri) + seq![classes.last()] + walk_spec(
            g,
            (classes.last(), uri),
            8,
        ).map_values(|n: Node| n.0)
    }
}

/// The types whose extensions may declare a property used in the file
/// `file` (at `uri`): its classes, objects, interfaces and structs (see
/// [`class_starting_points`]) and their ancestors, each name once.
pub open spec fn file_receiver_names(g: SupertypeGraph, file: FileData, uri: Seq<char>) -> Seq<Seq<char>> {
    first_occurrences(
        classes_and_ancestors(
            g,
            pick(file.symbols@, starting_at(file.symbols@), file.symbols@.len() as int).map_values(
                |s: SymbolEntry| s.name@,
            ),
            uri,
        ),
    )
}

/// `out` after `x` is added unless it holds it already, as
/// [`first_occurrences`] keeps names.
fn push_new(out: &mut Vec<String>, x: &String, Ghost(cur): Ghost<Seq<Seq<char>>>)
    requires
        old(out).deep_view() == first_occurrences(cur),
    ensures
        final(out).deep_view() == first_occurrences(cur.push(x@)),
{
    proof {
        assert(cur.push(x@).drop_last() =~= cur);
    }
    let ghost before = out.deep_view();
    if !string_in(x.as_str(), out) {
        out.push(x.clone());
        assert(out.deep_view() =~= before.push(x@));
    }
}

/// The receivers whose extensions may declare a property used in `file`
/// (see [`file_receiver_names`]).
pub fn file_receivers(g: &SupertypeGraph, file: &FileData, uri: &str) -> (out: Vec<String>)
    ensures
        out.deep_view() == file_receiver_names(*g, *file, uri@),
{
    let classes = class_starting_points(file);
    let ghost cs = classes.deep_view();
    let mut out: Vec<String> = Vec::new();
    let ghost mut cur: Seq<Seq<char>> = Seq::empty();
    assert(out.deep_view() =~= first_occurrences(cur));
    let mut c: usize = 0;
    while c < classes.len()
        invariant
            cs == classes.deep_view(),
            c <= cs.len(),
            cur == classes_and_ancestors(*g, cs.take(c as int), uri@),
            out.deep_view() == first_occurrences(cur),
        decreases classes.len() - c,
    {
        let class = &classes[c];
        let walk = walk_hierarchy(g, class.as_str(), uri, 8);
        let ghost names = views(walk@).map_values(|n: Node| n.0);
        let ghost base = cur;
        push_new(&mut out, class, Ghost(cur));
        proof {
            cur = cur.push(class@);
        }
        let mut w: usize = 0;
        while w < walk.len()
            invariant
                w <= walk@.len(),
                names == views(walk@).map_values(|n: Node| n.0),
                cur == base + seq![class@] + names.take(w as int),
                out.deep_view() == first_occurrences(cur),
            decreases walk.len() - w,
        {
            push_new(&mut out, &walk[w].name, Ghost(cur));
            proof {
                assert(base + seq![class@] + names.take(w + 1int) =~= cur.push(walk@[w as int].name@));
                cur = cur.push(walk@[w as int].name@);
            }
            w = w + 1;
        }
        proof {
            assert(cs.take(c + 1int).drop_last() =~= cs.take(c as int));
            assert(cs.take(c + 1int).last() == cs[c as int]);
            assert(names.take(walk@.len() as int) =~= names);
            assert(walk_spec(*g, (class@, uri@), 8) == views(walk@));
        }
        c = c + 1;
    }
    proof {
        assert(cs.take(cs.len() as int) =~= cs);
    }
    out
}

/// The type of the extension property `prop_name` used in `file` (at
/// `uri`) without being declared there: the receivers of
/// [`file_receivers`] are looked up in the index of extensions by receiver
/// in turn, and the first that registers an answering extension property
/// gives its declared type (see [`extension_property_type_over`]).
pub fn file_extension_property_type(
    g: &SupertypeGraph,
    file: &FileData,
    uri: &str,
    index: &Vec<ReceiverExtensions>,
    prop_name: &str,
) -> (r: Option<String>)
    ensures
        r matches Some(t) ==> extension_property_type_over(index@, file_receiver_names(*g, *file, uri@), prop_name@)
            == Some(t@),
        r is None ==> extension_property_type_over(index@, file_receiver_names(*g, *file, uri@), prop_name@) is None,
{
    let receivers = file_receivers(g, file, uri);
    let ghost rs = receivers.deep_view();
    let mut i: usize = 0;
    assert(rs.skip(0) =~= rs);
    while i < receivers.len()
        invariant
            rs == receivers.deep_view(),
            rs == file_receiver_names(*g, *file, uri@),
            i <= rs.len(),
            extension_property_type_over(index@, rs, prop_name@) == extension_property_type_over(
                index@,
                rs.skip(i as int),
                prop_name@,
            ),
        decreases receivers.len() - i,
    {
        proof {
            assert(rs.skip(i as int)[0] == rs[i as int]);
            assert(rs.skip(i as int).drop_first() =~= rs.skip(i + 1int));
        }
        match receiver_position(index, receivers[i].as_str()) {
            Some(j) => {
                match property_type_among_entries(&index[j].entries, prop_name) {
                    Some(t) => {
                        return Some(t);
                    },
                    None => {},
                }
            },
            None => {},
        }
        i = i + 1;
    }
    None
}

// ─── Function return types by name ─────────────────────────────────────────

/// A workspace function found by name: whether the file declaring it is
/// indexed, that file's package (`None`: the default package), and the
/// return type its declaration reads, when it reads one.
pub struct FunCandidate {
    pub file_known: bool,
    pub package: Option<String>,
    pub return_type: Option<String>,
}

/// The view of an optional owned string.
pub open spec fn opt_view(o: Option<String>) -> Option<Seq<char>> {
    match o {
        Some(s) => Some(s@),
        None => None,
    }
}

/// The caller's file data, as a value.
pub open spec fn opt_file(o: Option<&FileData>) -> Option<FileData> {
    match o {
        Some(fd) => Some(*fd),
        None => None,
    }
}

/// Candidate `c` for the function `name` is reachable from the file
/// `caller`: its declaring file is indexed and its package is the caller's,
/// or the caller imports it (see [`extension_in_scope`]).
pub open spec fn candidate_reachable(c: FunCandidate, name: Seq<char>, caller: Option<FileData>) -> bool {
    c.file_known && extension_in_scope(opt_view(c.package), name, caller)
}

/// Candidate `i` is reachable and reads a return type.
pub open spec fn reachable_typed(cs: Seq<FunCandidate>, name: Seq<char>, caller: Option<FileData>) -> spec_fn(int) -> bool {
    |i: int| candidate_reachable(cs[i], name, caller) && cs[i].return_type is Some
}

/// Candidate `i` reads a return type.
pub open spec fn typed(cs: Seq<FunCandidate>) -> spec_fn(int) -> bool {
    |i: int| cs[i].return_type is Some
}

/// The return type of the function `name` called from `caller`, found by
/// name among `cs`: the first candidate reachable from the caller that reads
/// a return type gives it; when none is reachable, the first candidate that
/// reads one.
pub open spec fn fun_return_type_by_name(cs: Seq<FunCandidate>, name: Seq<char>, caller: Option<FileData>) -> Option<
    Seq<char>,
> {
    let r = first_pos(0, cs.len() as int, reachable_typed(cs, name, caller));
    let f = first_pos(0, cs.len() as int, typed(cs));
    if r >= 0 {
        opt_view(cs[r].return_type)
    } else if f >= 0 {
        opt_view(cs[f].return_type)
    } else {
        None
    }
}

/// The return type of `fn_name` looked up by name (see
/// [`fun_return_type_by_name`]): `candidates` are the workspace
/// definitions of that name, in index order; `caller_file_data` is the
/// calling file's data, `None` when it is not indexed. A reachable
/// candidate is preferred over one that merely comes first.
pub fn find_fun_return_type_by_name(
    candidates: &Vec<FunCandidate>,
    fn_name: &str,
    caller_file_data: Option<&FileData>,
) -> (r: Option<String>)
    ensures
        opt_view(r) == fun_return_type_by_name(candidates@, fn_name@, opt_file(caller_file_data)),
{
    let ghost cs = candidates@;
    let ghost caller = opt_file(caller_file_data);
    let ghost pr = reachable_typed(cs, fn_name@, caller);
    let ghost pt = typed(cs);
    let mut i: usize = 0;
    while i < candidates.len()
        invariant
            cs == candidates@,
            caller == opt_file(caller_file_data),
            pr == reachable_typed(cs, fn_name@, caller),
            i <= cs.len(),
            forall|m: int| 0 <= m < i ==> !#[trigger] pr(m),
        decreases candidates.len() - i,
    {
        let c = &candidates[i];
        let pkg = c.package.as_ref();
        proof {
            assert(opt_string_view(pkg) == opt_view(c.package));
        }
        if c.file_known && extension_is_in_scope(pkg, fn_name, caller_file_data) {
            match &c.return_type {
                Some(t) => {
                    proof {
                        assert(pr(i as int));
                        lemma_first_pos_unique(0, cs.len() as int, pr, i as int);
                    }
                    return Some(t.clone());
                },
                None => {},
            }
        }
        i = i + 1;
    }
    proof {
        lemma_first_pos_unique(0, cs.len() as int, pr, -1);
    }
    let mut j: usize = 0;
    while j < candidates.len()
        invariant
            cs == candidates@,
            pt == typed(cs),
            caller == opt_file(caller_file_data),
            first_pos(0, cs.len() as int, reachable_typed(cs, fn_name@, caller)) == -1,
            j <= cs.len(),
            forall|m: int| 0 <= m < j ==> !#[trigger] pt(m),
        decreases candidates.len() - j,
    {
        match &candidates[j].return_type {
            Some(t) => {
                proof {
                    assert(pt(j as int));
                    lemma_first_pos_unique(0, cs.len() as int, pt, j as int);
                }
                return Some(t.clone());
            },
            None => {},
        }
        j = j + 1;
    }
    proof {
        lemma_first_pos_unique(0, cs.len() as int, pt, -1);
    }
    None
}

/// A definition the scoped resolver bound a function name to, with the
/// symbols of the file (workspace or library) that declares it.
pub struct BoundDefinition {
    pub location: Location,
    pub symbols: Vec<SymbolEntry>,
}

/// Symbol `s` declares a function, method or operator named `name`.
pub open spec fn declares_fun(s: SymbolEntry, name: Seq<char>) -> bool {
    &&& s.name@ == name
    &&& s.kind == SymbolKind::Function || s.kind == SymbolKind::Method || s.kind == SymbolKind::Operator
}

/// The declarations of `name` among the first `n` symbols of `d`'s file, in
/// order: whether each is the one bound (it starts where the location
/// does), and its detail.
pub open spec fn def_hits(d: BoundDefinition, name: Seq<char>, n: int) -> Seq<(bool, Seq<char>)>
    decreases n,
{
    if n <= 0 {
        Seq::empty()
    } else if declares_fun(d.symbols@[n - 1], name) {
        def_hits(d, name, n - 1).push(
            (d.symbols@[n - 1].selection_range.start == d.location.range.start, d.symbols@[n - 1].detail@),
        )
    } else {
        def_hits(d, name, n - 1)
    }
}

/// The declarations of `name` in the files of the first `n` definitions,
/// definition after definition (see [`def_hits`]).
pub open spec fn all_hits(defs: Seq<BoundDefinition>, name: Seq<char>, n: int) -> Seq<(bool, Seq<char>)>
    decreases n,
{
    if n <= 0 {
        Seq::empty()
    } else {
        all_hits(defs, name, n - 1) + def_hits(defs[n - 1], name, defs[n - 1].symbols@.len() as int)
    }
}

proof fn lemma_def_hits_prefix(d: BoundDefinition, name: Seq<char>, j: int, m: int)
    requires
        0 <= j <= m,
    ensures
        def_hits(d, name, j).len() <= def_hits(d, name, m).len(),
        def_hits(d, name, m).take(def_hits(d, name, j).len() as int) == def_hits(d, name, j),
    decreases m - j,
{
    if j < m {
        lemma_def_hits_prefix(d, name, j, m - 1);
        let a = def_hits(d, name, j);
        let b = def_hits(d, name, m - 1);
        assert(def_hits(d, name, m).take(b.len() as int) =~= b);
        assert(def_hits(d, name, m).take(a.len() as int) =~= b.take(a.len() as int));
    } else {
        assert(def_hits(d, name, m).take(def_hits(d, name, m).len() as int) =~= def_hits(d, name, m));
    }
}

proof fn lemma_all_hits_prefix(defs: Seq<BoundDefinition>, name: Seq<char>, i: int, m: int)
    requires
        0 <= i <= m,
    ensures
        all_hits(defs, name, i).len() <= all_hits(defs, name, m).len(),
        all_hits(defs, name, m).take(all_hits(defs, name, i).len() as int) == all_hits(defs, name, i),
    decreases m - i,
{
    if i < m {
        lemma_all_hits_prefix(defs, name, i, m - 1);
        let a = all_hits(defs, name, i);
        let b = all_hits(defs, name, m - 1);
        assert(all_hits(defs, name, m).take(b.len() as int) =~= b);
        assert(all_hits(defs, name, m).take(a.len() as int) =~= b.take(a.len() as int));
    } else {
        assert(all_hits(defs, name, m).take(all_hits(defs, name, m).len() as int) =~= all_hits(defs, name, m));
    }
}

/// The return type `return_type_of` reads off the details of the
/// declarations `hs` (see [`all_hits`]) for a resolved call: the first bound
/// declaration whose detail gives one answers; when none does, the first
/// other declaration whose detail gives one.
pub open spec fn reachable_return_type<G: Fn(&String) -> Option<String>>(
    hs: Seq<(bool, Seq<char>)>,
    return_type_of: G,
    r: Option<String>,
) -> bool {
    match r {
        Some(t) => (exists|k: int|
            0 <= k < hs.len() && hs[k].0 && (forall|k2: int|
                0 <= k2 < k && hs[k2].0 ==> #[trigger] function_refused(return_type_of, hs[k2].1))
                && function_answered(return_type_of, hs[k].1, t@)) || ((forall|k: int|
            0 <= k < hs.len() && hs[k].0 ==> #[trigger] function_refused(return_type_of, hs[k].1)) && exists|k: int|
            0 <= k < hs.len() && !hs[k].0 && (forall|k2: int|
                0 <= k2 < k && !hs[k2].0 ==> #[trigger] function_refused(return_type_of, hs[k2].1))
                && function_answered(return_type_of, hs[k].1, t@)),
        None => forall|k: int| 0 <= k < hs.len() ==> #[trigger] function_refused(return_type_of, hs[k].1),
    }
}

/// The return type of `fn_name` as the definitions the scoped resolver
/// bound it to declare it: `defs` are those definitions, in order, each with
/// its file's symbols; `return_type_of` reads the return type off a
/// declaration's detail. The declaration the resolver bound (the one that
/// starts where its location does) answers first; another declaration of the
/// same name in those files only when no bound one gives a type (see
/// [`reachable_return_type`]).
pub fn find_fun_return_type_reachable<G>(defs: &Vec<BoundDefinition>, fn_name: &str, return_type_of: G) -> (r: Option<
    String,
>) where G: Fn(&String) -> Option<String>
    requires
        forall|d: &String| return_type_of.requires((d,)),
    ensures
        reachable_return_type(all_hits(defs@, fn_name@, defs@.len() as int), return_type_of, r),
{
    let ghost name = fn_name@;
    let ghost n = defs@.len() as int;
    let ghost hs = all_hits(defs@, name, n);
    let mut fallback: Option<String> = None;
    let ghost mut fk: int = -1;
    let mut i: usize = 0;
    while i < defs.len()
        invariant
            forall|d: &String| return_type_of.requires((d,)),
            name == fn_name@,
            n == defs@.len(),
            hs == all_hits(defs@, name, n),
            i <= n,
            ({
                let hp = all_hits(defs@, name, i as int);
                &&& forall|k: int| 0 <= k < hp.len() && hp[k].0 ==> #[trigger] function_refused(return_type_of, hp[k].1)
                &&& fallback is None ==> forall|k: int|
                    0 <= k < hp.len() && !hp[k].0 ==> #[trigger] function_refused(return_type_of, hp[k].1)
                &&& fallback matches Some(t) ==> (0 <= fk < hp.len() && !hp[fk].0 && (forall|k2: int|
                    0 <= k2 < fk && !hp[k2].0 ==> #[trigger] function_refused(return_type_of, hp[k2].1))
                    && function_answered(return_type_of, hp[fk].1, t@))
            }),
        decreases defs.len() - i,
    {
        let d = &defs[i];
        let ghost hp = all_hits(defs@, name, i as int);
        let ghost m = d.symbols@.len() as int;
        let mut j: usize = 0;
        while j < d.symbols.len()
            invariant
                forall|d2: &String| return_type_of.requires((d2,)),
                name == fn_name@,
                n == defs@.len(),
                hs == all_hits(defs@, name, n),
                i < n,
                d == defs@[i as int],
                m == d.symbols@.len(),
                hp == all_hits(defs@, name, i as int),
                j <= m,
                ({
                    let cur = hp + def_hits(*d, name, j as int);
                    &&& forall|k: int| 0 <= k < cur.len() && cur[k].0 ==> #[trigger] function_refused(return_type_of, cur[k].1)
                    &&& fallback is None ==> forall|k: int|
                        0 <= k < cur.len() && !cur[k].0 ==> #[trigger] function_refused(return_type_of, cur[k].1)
                    &&& fallback matches Some(t) ==> (0 <= fk < cur.len() && !cur[fk].0 && (forall|k2: int|
                        0 <= k2 < fk && !cur[k2].0 ==> #[trigger] function_refused(return_type_of, cur[k2].1))
                        && function_answered(return_type_of, cur[fk].1, t@))
                }),
            decreases d.symbols.len() - j,
        {
            let s = &d.symbols[j];
            let ghost cur = hp + def_hits(*d, name, j as int);
            if str_eq(s.name.as_str(), fn_name) && (s.kind == SymbolKind::Function || s.kind == SymbolKind::Method
                || s.kind == SymbolKind::Operator) {
                let ret = return_type_of(&s.detail);
                let bound = s.selection_range.start == d.location.range.start;
                let ghost hit = (bound, s.detail@);
                proof {
                    assert(hp + def_hits(*d, name, j + 1) =~= cur.push(hit));
                }
                if bound {
                    match ret {
                        Some(t) => {
                            proof {
                                let k = cur.len() as int;
                                lemma_def_hits_prefix(*d, name, j + 1, m);
                                lemma_all_hits_prefix(defs@, name, i + 1, n);
                                let hi = all_hits(defs@, name, i + 1);
                                assert(hi =~= hp + def_hits(*d, name, m));
                                assert(hi.take(k + 1) =~= cur.push(hit));
                                assert(hi.len() >= k + 1);
                                assert(hs.len() >= hi.len());
                                assert(hs.take(k + 1) =~= hi.take(k + 1));
                                assert(hs.take(k + 1)[k] == hs[k]);
                                assert(cur.push(hit)[k] == hit);
                                assert(hs[k] == hit);
                                assert(function_answered(return_type_of, hs[k].1, t@));
                                assert forall|k2: int| 0 <= k2 < k && hs[k2].0 implies #[trigger] function_refused(
                                    return_type_of,
                                    hs[k2].1,
                                ) by {
                                    assert(hs.take(k + 1)[k2] == hs[k2]);
                                    assert(cur.push(hit)[k2] == cur[k2]);
                                    assert(hs[k2] == cur[k2]);
                                }
                            }
                            return Some(t);
                        },
                        None => {},
                    }
                } else if fallback.is_none() {
                    proof {
                        if ret is Some {
                            fk = cur.len() as int;
                        }
                    }
                    fallback = ret;
                }
                proof {
                    let nxt = cur.push(hit);
                    if ret is None {
                        assert(function_refused(return_type_of, nxt[cur.len() as int].1));
                    }
                }
            } else {
                proof {
                    assert(hp + def_hits(*d, name, j + 1) =~= cur);
                }
            }
            j = j + 1;
        }
        proof {
            assert(all_hits(defs@, name, i + 1) =~= hp + def_hits(*d, name, m));
        }
        i = i + 1;
    }
    fallback
}

// ─── Method-call initializers ──────────────────────────────────────────────

/// What the initializer `r` of `val x = r` calls first, as the return-type
/// inference reads it: `(1, receiver, method)` for `receiver.method(…)` with
/// a plain lowercase-started method on a single-segment receiver other than
/// `this`/`super`; `(2, function, "")` for a plain call `function(…)` of a
/// lowercase-started function that is not the head of a chain
/// (`getFoo(…).bar()`); `(0, "", "")` otherwise.
pub open spec fn rhs_call(r: Seq<char>) -> (int, Seq<char>, Seq<char>) {
    let p = first_where(r, is_char('(')) as int;
    if p >= r.len() {
        (0, Seq::empty(), Seq::empty())
    } else {
        let before = r.take(p);
        let d = last_where(before, is_char('.'));
        if d >= 0 {
            let recv = trim_ws(before.take(d));
            let meth = trim_ws(before.skip(d + 1));
            if recv.len() > 0 && meth.len() > 0 && recv != "this"@ && recv != "super"@ && first_where(
                recv,
                is_char('.'),
            ) >= recv.len() && starts_lowercase(meth) {
                (1, recv, meth)
            } else {
                (0, Seq::empty(), Seq::empty())
            }
        } else {
            let f = trim_ws(before);
            let j = close_paren_from(r, p, 0);
            if f.len() > 0 && starts_lowercase(f) && !(j >= 0 && j + 1 < r.len() && r[j + 1] == '.') {
                (2, f, Seq::empty())
            } else {
                (0, Seq::empty(), Seq::empty())
            }
        }
    }
}

/// The `(receiver, method)` calls of the first `n` initializers `rs`, in
/// order, each receiver once (its first call).
pub open spec fn member_calls(rs: Seq<Seq<char>>, n: int) -> Seq<(Seq<char>, Seq<char>)>
    decreases n,
{
    if n <= 0 {
        Seq::empty()
    } else {
        let front = member_calls(rs, n - 1);
        let c = rhs_call(rs[n - 1]);
        if c.0 == 1 && !(exists|k: int| 0 <= k < front.len() && (#[trigger] front[k]).0 == c.1) {
            front.push((c.1, c.2))
        } else {
            front
        }
    }
}

/// The plain function calls of the first `n` initializers `rs`, in order.
pub open spec fn plain_calls(rs: Seq<Seq<char>>, n: int) -> Seq<Seq<char>>
    decreases n,
{
    if n <= 0 {
        Seq::empty()
    } else {
        let front = plain_calls(rs, n - 1);
        let c = rhs_call(rs[n - 1]);
        if c.0 == 2 {
            front.push(c.1)
        } else {
            front
        }
    }
}

fn str_is(s: &str, lit: &str) -> (r: bool)
    ensures
        r == (s@ == lit@),
{
    str_eq(s, lit)
}

/// Reads the first call of the initializer `r` (see [`rhs_call`]): the kind,
/// then the receiver or function, then the method.
fn read_rhs_call(r: &str) -> (out: (u8, String, String))
    ensures
        (out.0 as int, out.1@, out.2@) == rhs_call(r@),
{
    let chars = str_chars(r);
    let p = find_char(&chars, '(');
    proof {
        lemma_first_where(r@, is_char('('));
    }
    if p >= chars.len() {
        return (0, String::new(), String::new());
    }
    let before = slice_string(r, 0, p);
    assert(before@ =~= r@.take(p as int));
    let bchars = str_chars(before.as_str());
    match rfind_char(&bchars, '.') {
        Some(d) => {
            proof {
                lemma_last_where(before@, is_char('.'));
            }
            let recv_part = slice_string(before.as_str(), 0, d);
            let meth_part = slice_string(before.as_str(), d + 1, p);
            assert(recv_part@ =~= before@.take(d as int));
            assert(meth_part@ =~= before@.skip(d + 1int));
            let recv = trim_str(recv_part.as_str()).to_string();
            let meth = trim_str(meth_part.as_str()).to_string();
            let rn = recv.as_str().unicode_len();
            let mn = meth.as_str().unicode_len();
            if rn == 0 || mn == 0 || str_is(recv.as_str(), "this") || str_is(recv.as_str(), "super") {
                return (0, String::new(), String::new());
            }
            let rc = str_chars(recv.as_str());
            let dot = find_char(&rc, '.');
            if dot < rc.len() {
                return (0, String::new(), String::new());
            }
            if !char_is_lowercase(meth.as_str().get_char(0)) {
                return (0, String::new(), String::new());
            }
            (1, recv, meth)
        },
        None => {
            proof {
                lemma_last_where(before@, is_char('.'));
            }
            let f = trim_str(before.as_str()).to_string();
            let fnn = f.as_str().unicode_len();
            if fnn == 0 || !char_is_lowercase(f.as_str().get_char(0)) || has_dot_after_first_call(r, p) {
                return (0, String::new(), String::new());
            }
            (2, f, String::new())
        },
    }
}

/// The calls that the initializers `rhs` of a variable make (see
/// [`member_calls`] and [`plain_calls`]): the receiver calls, each receiver
/// once, and the plain function calls, in order.
pub fn method_call_candidates(rhs: &Vec<String>) -> (out: (Vec<(String, String)>, Vec<String>))
    ensures
        out.0@.map_values(|c: (String, String)| (c.0@, c.1@)) == member_calls(
            rhs@.map_values(|r: String| r@),
            rhs@.len() as int,
        ),
        out.1.deep_view() == plain_calls(rhs@.map_values(|r: String| r@), rhs@.len() as int),
{
    let ghost rs = rhs@.map_values(|r: String| r@);
    let mut members: Vec<(String, String)> = Vec::new();
    let mut plains: Vec<String> = Vec::new();
    let mut i: usize = 0;
    while i < rhs.len()
        invariant
            rs == rhs@.map_values(|r: String| r@),
            i <= rhs@.len(),
            members@.map_values(|c: (String, String)| (c.0@, c.1@)) == member_calls(rs, i as int),
            plains.deep_view() == plain_calls(rs, i as int),
        decreases rhs.len() - i,
    {
        let (kind, a, b) = read_rhs_call(rhs[i].as_str());
        assert(rs[i as int] == rhs@[i as int]@);
        let ghost mv = members@.map_values(|c: (String, String)| (c.0@, c.1@));
        if kind == 1 {
            let mut seen = false;
            let mut k: usize = 0;
            while k < members.len()
                invariant
                    mv == members@.map_values(|c: (String, String)| (c.0@, c.1@)),
                    k <= members@.len(),
                    seen == exists|m: int| 0 <= m < k && (#[trigger] mv[m]).0 == a@,
                decreases members.len() - k,
            {
                if str_eq(members[k].0.as_str(), a.as_str()) {
                    assert(mv[k as int].0 == a@);
                    seen = true;
                }
                k = k + 1;
            }
            if !seen {
                let ghost before = mv;
                members.push((a, b));
                assert(members@.map_values(|c: (String, String)| (c.0@, c.1@)) =~= before.push(
                    (rhs_call(rs[i as int]).1, rhs_call(rs[i as int]).2),
                ));
            }
        } else if kind == 2 {
            let ghost before = plains.deep_view();
            plains.push(a);
            assert(plains.deep_view() =~= before.push(rhs_call(rs[i as int]).1));
        }
        i = i + 1;
    }
    (members, plains)
}

/// The return type a method-call initializer gives a variable: `rhs` are
/// the initializers of `val name = …` declarations of the variable in the
/// file's lines, in order. The receiver calls are tried first, each
/// receiver once (see [`method_call_candidates`]): `member_type` infers the
/// receiver's raw type and resolves the method's return type on it; then the
/// plain function calls, whose return type `function_type` looks up
/// (reachable from the file first, then by name). The first answer wins;
/// `None` when no call answers.
pub fn infer_method_return_type<F, G>(rhs: &Vec<String>, member_type: F, function_type: G) -> (r: Option<String>) where
    F: Fn(&String, &String) -> Option<String>,
    G: Fn(&String) -> Option<String>,

    requires
        forall|a: &String, b: &String| member_type.requires((a, b)),
        forall|a: &String| function_type.requires((a,)),
    ensures
        ({
            let rs = rhs@.map_values(|x: String| x@);
            let ms = member_calls(rs, rs.len() as int);
            let ps = plain_calls(rs, rs.len() as int);
            match r {
                Some(t) => (exists|k: int|
                    0 <= k < ms.len() && (forall|k2: int| 0 <= k2 < k ==> #[trigger] member_refused(member_type, ms[k2]))
                        && member_answered(member_type, ms[k], t@)) || ((forall|k: int|
                    0 <= k < ms.len() ==> #[trigger] member_refused(member_type, ms[k])) && exists|k: int|
                    0 <= k < ps.len() && (forall|k2: int| 0 <= k2 < k ==> #[trigger] function_refused(function_type, ps[k2]))
                        && function_answered(function_type, ps[k], t@)),
                None => (forall|k: int| 0 <= k < ms.len() ==> #[trigger] member_refused(member_type, ms[k]))
                    && (forall|k: int| 0 <= k < ps.len() ==> #[trigger] function_refused(function_type, ps[k])),
            }
        }),
{
    let (members, plains) = method_call_candidates(rhs);
    let ghost rs = rhs@.map_values(|x: String| x@);
    let ghost ms = member_calls(rs, rs.len() as int);
    let ghost ps = plain_calls(rs, rs.len() as int);
    let mut k: usize = 0;
    while k < members.len()
        invariant
            forall|a: &String, b: &String| member_type.requires((a, b)),
            rs == rhs@.map_values(|x: String| x@),
            ms == member_calls(rs, rs.len() as int),
            ps == plain_calls(rs, rs.len() as int),
            ps == plains.deep_view(),
            ms == members@.map_values(|c: (String, String)| (c.0@, c.1@)),
            k <= members@.len(),
            forall|k2: int| 0 <= k2 < k ==> #[trigger] member_refused(member_type, ms[k2]),
        decreases members.len() - k,
    {
        let res = member_type(&members[k].0, &members[k].1);
        proof {
            assert(ms[k as int] == (members@[k as int].0@, members@[k as int].1@));
        }
        match res {
            Some(t) => {
                proof {
                    assert(member_answered(member_type, ms[k as int], t@)) by {
                        assert(member_type.ensures((&members@[k as int].0, &members@[k as int].1), Some(t)));
                    }
                    assert(0 <= k < ms.len() && (forall|k2: int| 0 <= k2 < k ==> #[trigger] member_refused(member_type, ms[k2]))
                        && member_answered(member_type, ms[k as int], t@));
                }
                return Some(t);
            },
            None => {
                proof {
                    assert(member_type.ensures((&members@[k as int].0, &members@[k as int].1), None::<String>));
                    assert(member_refused(member_type, ms[k as int]));
                }
            },
        }
        k = k + 1;
    }
    let mut k: usize = 0;
    while k < plains.len()
        invariant
            forall|a: &String| function_type.requires((a,)),
            rs == rhs@.map_values(|x: String| x@),
            ms == member_calls(rs, rs.len() as int),
            ps == plain_calls(rs, rs.len() as int),
            ms == members@.map_values(|c: (String, String)| (c.0@, c.1@)),
            forall|k2: int| 0 <= k2 < ms.len() ==> #[trigger] member_refused(member_type, ms[k2]),
            ps == plains.deep_view(),
            k <= plains@.len(),
            forall|k2: int| 0 <= k2 < k ==> #[trigger] function_refused(function_type, ps[k2]),
        decreases plains.len() - k,
    {
        let res = function_type(&plains[k]);
        proof {
            assert(ps[k as int] == plains@[k as int]@);
        }
        match res {
            Some(t) => {
                proof {
                    assert(function_type.ensures((&plains@[k as int],), Some(t)));
                    assert(function_answered(function_type, ps[k as int], t@));
                    assert(0 <= k < ps.len() && (forall|k2: int| 0 <= k2 < k ==> #[trigger] function_refused(function_type, ps[k2]))
                        && function_answered(function_type, ps[k as int], t@));
                }
                return Some(t);
            },
            None => {
                proof {
                    assert(function_type.ensures((&plains@[k as int],), None::<String>));
                    assert(function_refused(function_type, ps[k as int]));
                }
            },
        }
        k = k + 1;
    }
    None
}

/// `member_type` answered no for the receiver call `c`.
pub open spec fn member_refused<F: Fn(&String, &String) -> Option<String>>(member_type: F, c: (Seq<char>, Seq<char>)) -> bool {
    exists|a: String, b: String| a@ == c.0 && b@ == c.1 && #[trigger] member_type.ensures((&a, &b), None)
}

/// `member_type` answered `t` for the receiver call `c`.
pub open spec fn member_answered<F: Fn(&String, &String) -> Option<String>>(
    member_type: F,
    c: (Seq<char>, Seq<char>),
    t: Seq<char>,
) -> bool {
    exists|a: String, b: String, s: String|
        a@ == c.0 && b@ == c.1 && s@ == t && #[trigger] member_type.ensures((&a, &b), Some(s))
}

/// `function_type` answered no for the function `f`.
pub open spec fn function_refused<G: Fn(&String) -> Option<String>>(function_type: G, f: Seq<char>) -> bool {
    exists|a: String| a@ == f && #[trigger] function_type.ensures((&a,), None)
}

/// `function_type` answered `t` for the function `f`.
pub open spec fn function_answered<G: Fn(&String) -> Option<String>>(function_type: G, f: Seq<char>, t: Seq<char>) -> bool {
    exists|a: String, s: String| a@ == f && s@ == t && #[trigger] function_type.ensures((&a,), Some(s))
}

// ─── Variable type inference ───────────────────────────────────────────────

/// One way of finding a variable's type, in the order the inference tries
/// them.
#[derive(Clone, Copy, PartialEq, Eq, Structural, Debug)]
pub enum VarTypeStep {
    /// Scan the open editor's unsaved lines for a declaration.
    ScanLiveLines,
    /// The type annotation the parsed file records for the variable.
    Annotation,
    /// Scan the indexed file's lines for a declaration.
    ScanIndexedLines,
    /// The type the file's parsed initializers give the variable (a
    /// constructor call, a method call or a field access, one level of
    /// inference deeper).
    Initializer,
    /// The return type of a method call initializing the variable, found in
    /// the open editor's lines (one level deeper).
    MethodCallInLiveLines,
    /// The same, in the indexed file's lines.
    MethodCallInIndexedLines,
    /// The type of an extension property of that name on the file's types.
    ExtensionProperty,
    /// Read the file from disk and scan its lines.
    ScanDiskLines,
}

/// The steps inferring a variable's type tries, in order, with `depth`
/// levels of inference left: none at depth 0; with the editor's unsaved
/// lines, those lines, the recorded annotation, the initializers, a method
/// call in those lines and an extension property; for an indexed file, its
/// annotation, its lines, the initializers, a method call in its lines and
/// an extension property; otherwise the file read from disk.
pub open spec fn var_type_steps(depth: int, live: bool, indexed: bool) -> Seq<VarTypeStep> {
    if depth <= 0 {
        Seq::empty()
    } else if live {
        seq![
            VarTypeStep::ScanLiveLines,
            VarTypeStep::Annotation,
            VarTypeStep::Initializer,
            VarTypeStep::MethodCallInLiveLines,
            VarTypeStep::ExtensionProperty,
        ]
    } else if indexed {
        seq![
            VarTypeStep::Annotation,
            VarTypeStep::ScanIndexedLines,
            VarTypeStep::Initializer,
            VarTypeStep::MethodCallInIndexedLines,
            VarTypeStep::ExtensionProperty,
        ]
    } else {
        seq![VarTypeStep::ScanDiskLines]
    }
}

/// The type the annotations `anns` (line, name, declared type) record for
/// `name`: the first one's, kept whole when `keep_generics`, else stripped
/// of generics and nullability (see [`stripped_type`]).
pub open spec fn annotated_type(anns: Seq<(u32, String, String)>, name: Seq<char>, keep_generics: bool) -> Option<
    Seq<char>,
> {
    let k = first_pos(0, anns.len() as int, |i: int| anns[i].1@ == name);
    if k == -1 {
        None
    } else if keep_generics {
        Some(anns[k].2@)
    } else {
        Some(stripped_type(anns[k].2@))
    }
}

/// The recorded annotation of `name` (see [`annotated_type`]).
pub fn annotation_type(anns: &Vec<(u32, String, String)>, name: &str, keep_generics: bool) -> (r: Option<String>)
    ensures
        match r {
            Some(t) => annotated_type(anns@, name@, keep_generics) == Some(t@),
            None => annotated_type(anns@, name@, keep_generics) is None,
        },
{
    let ghost pred = |i: int| anns@[i].1@ == name@;
    let mut i: usize = 0;
    while i < anns.len()
        invariant
            pred == (|i: int| anns@[i].1@ == name@),
            i <= anns@.len(),
            forall|m: int| 0 <= m < i ==> !#[trigger] pred(m),
        decreases anns.len() - i,
    {
        if str_eq(anns[i].1.as_str(), name) {
            proof {
                assert(pred(i as int));
                lemma_first_pos_unique(0, anns@.len() as int, pred, i as int);
            }
            if keep_generics {
                return Some(anns[i].2.clone());
            } else {
                return Some(strip_generics(anns[i].2.as_str()));
            }
        }
        i = i + 1;
    }
    proof {
        lemma_first_pos_unique(0, anns@.len() as int, pred, -1);
    }
    None
}

/// `run` answered no for step `s`.
pub open spec fn step_refused<R: Fn(VarTypeStep) -> Option<String>>(run: R, s: VarTypeStep) -> bool {
    run.ensures((s,), None)
}

/// `run` answered `t` for step `s`.
pub open spec fn step_answered<R: Fn(VarTypeStep) -> Option<String>>(run: R, s: VarTypeStep, t: Seq<char>) -> bool {
    exists|x: String| x@ == t && #[trigger] run.ensures((s,), Some(x))
}

/// What step `i` of the plan answered: the recorded annotation (from
/// `annotations`, the indexed file's, none when it is not indexed) is looked
/// up here; every other step is run by `run`.
pub open spec fn step_result<R: Fn(VarTypeStep) -> Option<String>>(
    run: R,
    s: VarTypeStep,
    annotations: Option<Seq<(u32, String, String)>>,
    name: Seq<char>,
    keep_generics: bool,
    t: Option<Seq<char>>,
) -> bool {
    if s == VarTypeStep::Annotation {
        t == match annotations {
            Some(a) => annotated_type(a, name, keep_generics),
            None => None,
        }
    } else {
        match t {
            Some(x) => step_answered(run, s, x),
            None => step_refused(run, s),
        }
    }
}

fn var_type_step_list(depth: u8, live: bool, indexed: bool) -> (v: Vec<VarTypeStep>)
    ensures
        v@ == var_type_steps(depth as int, live, indexed),
{
    if depth == 0 {
        Vec::new()
    } else if live {
        let v = vec![
            VarTypeStep::ScanLiveLines,
            VarTypeStep::Annotation,
            VarTypeStep::Initializer,
            VarTypeStep::MethodCallInLiveLines,
            VarTypeStep::ExtensionProperty,
        ];
        assert(v@ =~= var_type_steps(depth as int, live, indexed));
        v
    } else if indexed {
        let v = vec![
            VarTypeStep::Annotation,
            VarTypeStep::ScanIndexedLines,
            VarTypeStep::Initializer,
            VarTypeStep::MethodCallInIndexedLines,
            VarTypeStep::ExtensionProperty,
        ];
        assert(v@ =~= var_type_steps(depth as int, live, indexed));
        v
    } else {
        let v = vec![VarTypeStep::ScanDiskLines];
        assert(v@ =~= var_type_steps(depth as int, live, indexed));
        v
    }
}

/// The type of the variable `var_name` in a file, with `depth` levels of
/// inference left: the steps of [`var_type_steps`] are tried in order
/// (`live`: the editor holds unsaved lines for the file; `annotations`: the
/// parsed file's recorded annotations, when the file is indexed) and the
/// first answer wins; raw types keep generics when `keep_generics`. `run`
/// performs the other steps: the line scans, the initializer and
/// method-call inferences (one level deeper, see
/// [`infer_method_return_type`]) and the extension-property lookup (see
/// [`find_extension_property_type`]).
pub fn infer_variable_type_core<R: Fn(VarTypeStep) -> Option<String>>(
    var_name: &str,
    depth: u8,
    keep_generics: bool,
    live: bool,
    annotations: Option<&Vec<(u32, String, String)>>,
    run: R,
) -> (r: Option<String>)
    requires
        forall|s: VarTypeStep| run.requires((s,)),
    ensures
        ({
            let steps = var_type_steps(depth as int, live, annotations is Some);
            let anns = match annotations {
                Some(a) => Some(a@),
                None => None,
            };
            match r {
                Some(t) => exists|k: int|
                    0 <= k < steps.len() && (forall|k2: int|
                        0 <= k2 < k ==> #[trigger] step_result(run, steps[k2], anns, var_name@, keep_generics, None))
                        && step_result(run, steps[k], anns, var_name@, keep_generics, Some(t@)),
                None => forall|k: int|
                    0 <= k < steps.len() ==> #[trigger] step_result(run, steps[k], anns, var_name@, keep_generics, None),
            }
        }),
{
    let steps = var_type_step_list(depth, live, annotations.is_some());
    let ghost anns = match annotations {
        Some(a) => Some(a@),
        None => None,
    };
    let mut k: usize = 0;
    while k < steps.len()
        invariant
            forall|s: VarTypeStep| run.requires((s,)),
            steps@ == var_type_steps(depth as int, live, annotations is Some),
            anns == (match annotations {
                Some(a) => Some(a@),
                None => None,
            }),
            k <= steps@.len(),
            forall|k2: int| 0 <= k2 < k ==> #[trigger] step_result(run, steps@[k2], anns, var_name@, keep_generics, None),
        decreases steps.len() - k,
    {
        let s = steps[k];
        let res = if s == VarTypeStep::Annotation {
            match annotations {
                Some(a) => annotation_type(a, var_name, keep_generics),
                None => None,
            }
        } else {
            run(s)
        };
        match res {
            Some(t) => {
                proof {
                    if s != VarTypeStep::Annotation {
                        assert(step_answered(run, s, t@));
                    }
                    assert(step_result(run, steps@[k as int], anns, var_name@, keep_generics, Some(t@)));
                }
                return Some(t);
            },
            None => {
                proof {
                    assert(step_result(run, steps@[k as int], anns, var_name@, keep_generics, None));
                }
            },
        }
        k = k + 1;
    }
    None
}

} // verus!
