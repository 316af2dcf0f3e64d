//! Completion-candidate scoring and small completion helpers.

use vstd::prelude::*;

use crate::text::{
    ascii_lower_seq, lemma_last_where, char_is_alphabetic, char_is_lowercase, char_is_uppercase, char_lower_first,
    contains, ends_with, is_ascii_digit, last_where, rfind_char, seq_contains, seq_ends_with,
    seq_starts_with, starts_with, str_chars, to_ascii_lower, unicode_alphabetic,
    unicode_lower_first, unicode_lowercase, unicode_uppercase, is_char,
};
use crate::tie_break::string_in;
use crate::types::{str_eq, ImportEntry, Visibility};

verus! {

// ─── SCREAMING_SNAKE_CASE ─────────────────────────────────────────────────────

/// `name` has at least one letter and every character is uppercase, `_` or
/// an ASCII digit.
pub open spec fn screaming_snake(name: Seq<char>) -> bool {
    &&& exists|i: int| 0 <= i < name.len() && unicode_alphabetic(#[trigger] name[i])
    &&& forall|i: int|
        0 <= i < name.len() ==> unicode_uppercase(#[trigger] name[i]) || name[i] == '_'
            || is_ascii_digit(name[i])
}

/// Returns true if `name` is SCREAMING_SNAKE_CASE (all letters are uppercase).
/// Used to suppress constants/enum variants when the user types a CamelCase prefix.
pub fn is_screaming_snake(name: &str) -> (r: bool)
    ensures
        r == screaming_snake(name@),
{
    let chars = str_chars(name);
    let mut any_alpha = false;
    let mut all_ok = true;
    let mut i: usize = 0;
    while i < chars.len()
        invariant
            chars@ == name@,
            i <= chars@.len(),
            any_alpha == exists|j: int| 0 <= j < i && unicode_alphabetic(#[trigger] name@[j]),
            all_ok == forall|j: int|
                0 <= j < i ==> unicode_uppercase(#[trigger] name@[j]) || name@[j] == '_'
                    || is_ascii_digit(name@[j]),
        decreases chars.len() - i,
    {
        let c = chars[i];
        if char_is_alphabetic(c) {
            any_alpha = true;
        }
        let ok = char_is_uppercase(c) || c == '_' || ('0' <= c && c <= '9');
        if !ok {
            all_ok = false;
        }
        proof {
            if !ok {
                assert(!(unicode_uppercase(name@[i as int]) || name@[i as int] == '_'
                    || is_ascii_digit(name@[i as int])));
            }
        }
        i = i + 1;
    }
    any_alpha && all_ok
}

// ─── camelCase acronym matching ──────────────────────────────────────────────

/// Position `i` of `s` starts a CamelCase or `_`-delimited word: the first
/// character, an underscore, the character after an underscore, an
/// uppercase character after a lowercase one, or the last uppercase
/// character of an uppercase run that a lowercase character follows
/// (`HTMLParser` → `H`, `P`).
pub open spec fn is_word_start(s: Seq<char>, i: int) -> bool {
    ||| i == 0
    ||| s[i] == '_'
    ||| (i > 0 && s[i - 1] == '_')
    ||| (unicode_uppercase(s[i]) && i > 0 && unicode_lowercase(s[i - 1]))
    ||| (unicode_uppercase(s[i]) && i > 0 && unicode_uppercase(s[i - 1]) && i + 1 < s.len()
        && unicode_lowercase(s[i + 1]))
}

/// The lowercased first character of each word of `s`, in order (the
/// underscores themselves are not words).
pub open spec fn word_starts(s: Seq<char>) -> Seq<char> {
    word_starts_upto(s, s.len() as int)
}

/// The lowercased word starts of `s` found among its first `n` positions.
pub open spec fn word_starts_upto(s: Seq<char>, n: int) -> Seq<char>
    decreases n,
{
    if n <= 0 {
        Seq::empty()
    } else {
        let front = word_starts_upto(s, n - 1);
        if is_word_start(s, n - 1) && s[n - 1] != '_' {
            front.push(unicode_lower_first(s[n - 1]))
        } else {
            front
        }
    }
}

/// `p` embeds into `w` in order: there are increasing positions of `w`
/// holding the characters of `p`.
pub open spec fn is_subsequence(p: Seq<char>, w: Seq<char>) -> bool {
    exists|f: spec_fn(int) -> int| #[trigger] embeds(f, p, w)
}

/// `f` maps the positions of `p` to strictly increasing positions of `w`
/// holding the same characters.
pub open spec fn embeds(f: spec_fn(int) -> int, p: Seq<char>, w: Seq<char>) -> bool {
    &&& forall|i: int| 0 <= i < p.len() ==> 0 <= #[trigger] f(i) < w.len() && w[f(i)] == p[i]
    &&& forall|i: int, j: int| 0 <= i < j < p.len() ==> #[trigger] f(i) < #[trigger] f(j)
}

/// True if every character of `prefix` (ASCII-lowercased) matches the
/// lowercased first character of a successive word of `name`, in order but
/// not necessarily consecutive: `CB` ~ `ColumnButton`, `mSF` ~ `myStateFlow`,
/// `cb` ~ `coolBar`, while `BC` ≁ `ColumnButton` (wrong order).
pub open spec fn camel_acronym(name: Seq<char>, prefix: Seq<char>) -> bool {
    is_subsequence(ascii_lower_seq(prefix), word_starts(name))
}

/// The greedy subsequence test from the front.
pub open spec fn greedy_subsequence(p: Seq<char>, w: Seq<char>) -> bool
    decreases w.len(),
{
    if p.len() == 0 {
        true
    } else if w.len() == 0 {
        false
    } else if w[0] == p[0] {
        greedy_subsequence(p.drop_first(), w.drop_first())
    } else {
        greedy_subsequence(p, w.drop_first())
    }
}

proof fn lemma_embed_empty(p: Seq<char>, w: Seq<char>)
    requires
        p.len() == 0,
    ensures
        is_subsequence(p, w),
{
    let f = |i: int| i;
    assert(embeds(f, p, w));
}

proof fn lemma_embed_skip(p: Seq<char>, w: Seq<char>)
    requires
        w.len() > 0,
        is_subsequence(p, w.drop_first()),
    ensures
        is_subsequence(p, w),
{
    let w1 = w.drop_first();
    let f = choose|f: spec_fn(int) -> int| embeds(f, p, w1);
    let g = |i: int| f(i) + 1;
    assert forall|i: int| 0 <= i < p.len() implies 0 <= #[trigger] g(i) < w.len() && w[g(i)] == p[i] by {
        assert(w[g(i)] == w1[f(i)]);
    }
    assert forall|i: int, j: int| 0 <= i < j < p.len() implies #[trigger] g(i) < #[trigger] g(j) by {
        assert(f(i) < f(j));
    }
    assert(embeds(g, p, w));
}

proof fn lemma_embed_match(p: Seq<char>, w: Seq<char>)
    requires
        p.len() > 0,
        w.len() > 0,
        w[0] == p[0],
        is_subsequence(p.drop_first(), w.drop_first()),
    ensures
        is_subsequence(p, w),
{
    let p1 = p.drop_first();
    let w1 = w.drop_first();
    let f = choose|f: spec_fn(int) -> int| embeds(f, p1, w1);
    let g = |i: int|
        if i == 0 {
            0
        } else {
            f(i - 1) + 1
        };
    assert forall|i: int| 0 <= i < p.len() implies 0 <= #[trigger] g(i) < w.len() && w[g(i)] == p[i] by {
        if i > 0 {
            assert(0 <= f(i - 1) < w1.len());
            assert(w[g(i)] == w1[f(i - 1)]);
            assert(p[i] == p1[i - 1]);
        }
    }
    assert forall|i: int, j: int| 0 <= i < j < p.len() implies #[trigger] g(i) < #[trigger] g(j) by {
        if i == 0 {
            assert(0 <= f(j - 1));
        } else {
            assert(f(i - 1) < f(j - 1));
        }
    }
    assert(embeds(g, p, w));
}

proof fn lemma_embed_inverse(p: Seq<char>, w: Seq<char>)
    requires
        p.len() > 0,
        is_subsequence(p, w),
    ensures
        w.len() > 0,
        w[0] != p[0] ==> is_subsequence(p, w.drop_first()),
        w[0] == p[0] ==> is_subsequence(p.drop_first(), w.drop_first()),
{
    let f = choose|f: spec_fn(int) -> int| embeds(f, p, w);
    assert(0 <= f(0) < w.len());
    let w1 = w.drop_first();
    if w[0] != p[0] {
        assert(f(0) != 0);
        let g = |i: int| f(i) - 1;
        assert forall|i: int| 0 <= i < p.len() implies 0 <= #[trigger] g(i) < w1.len() && w1[g(i)]
            == p[i] by {
            if i > 0 {
                assert(f(0) < f(i));
            }
            assert(w1[g(i)] == w[f(i)]);
        }
        assert forall|i: int, j: int| 0 <= i < j < p.len() implies #[trigger] g(i) < #[trigger] g(
            j,
        ) by {
            assert(f(i) < f(j));
        }
        assert(embeds(g, p, w1));
    } else {
        let p1 = p.drop_first();
        let g = |i: int| f(i + 1) - 1;
        assert forall|i: int| 0 <= i < p1.len() implies 0 <= #[trigger] g(i) < w1.len() && w1[g(i)]
            == p1[i] by {
            assert(f(0) < f(i + 1));
            assert(w1[g(i)] == w[f(i + 1)]);
        }
        assert forall|i: int, j: int| 0 <= i < j < p1.len() implies #[trigger] g(i) < #[trigger] g(
            j,
        ) by {
            assert(f(i + 1) < f(j + 1));
        }
        assert(embeds(g, p1, w1));
    }
}

/// The greedy test decides exactly the subsequence relation.
pub proof fn lemma_greedy_subsequence(p: Seq<char>, w: Seq<char>)
    ensures
        greedy_subsequence(p, w) == is_subsequence(p, w),
    decreases w.len(),
{
    if p.len() == 0 {
        lemma_embed_empty(p, w);
    } else if w.len() == 0 {
        if is_subsequence(p, w) {
            lemma_embed_inverse(p, w);
        }
    } else if w[0] == p[0] {
        lemma_greedy_subsequence(p.drop_first(), w.drop_first());
        if greedy_subsequence(p, w) {
            lemma_embed_match(p, w);
        }
        if is_subsequence(p, w) {
            lemma_embed_inverse(p, w);
        }
    } else {
        lemma_greedy_subsequence(p, w.drop_first());
        if greedy_subsequence(p, w) {
            lemma_embed_skip(p, w);
        }
        if is_subsequence(p, w) {
            lemma_embed_inverse(p, w);
        }
    }
}

/// The lowercased word starts of `name` (see [`word_starts`]).
fn collect_word_starts(name: &Vec<char>) -> (out: Vec<char>)
    ensures
        out@ == word_starts(name@),
{
    let mut out: Vec<char> = Vec::new();
    let n = name.len();
    let mut i: usize = 0;
    while i < n
        invariant
            n == name@.len(),
            i <= n,
            out@ == word_starts_upto(name@, i as int),
        decreases n - i,
    {
        let c = name[i];
        let upper = char_is_uppercase(c);
        let is_start = i == 0 || c == '_' || name[i - 1] == '_' || (upper && char_is_lowercase(
            name[i - 1],
        )) || (upper && char_is_uppercase(name[i - 1]) && i + 1 < n && char_is_lowercase(
            name[i + 1],
        ));
        assert(is_start == is_word_start(name@, i as int));
        if is_start && c != '_' {
            out.push(char_lower_first(c));
        }
        i = i + 1;
    }
    out
}

/// True if every character in `prefix` matches the first character of a
/// successive CamelCase or underscore-delimited word in `name` (see
/// [`camel_acronym`]). `CoolBar` has the same word shape as `ColumnButton`
/// (`B` follows a lowercase letter, so it starts a word), so `CB` matches
/// both.
pub fn camel_acronym_match(name: &str, prefix: &str) -> (r: bool)
    ensures
        r == camel_acronym(name@, prefix@),
{
    let starts = collect_word_starts(&str_chars(name));
    let raw = str_chars(prefix);
    let mut prefix_chars: Vec<char> = Vec::new();
    let mut k: usize = 0;
    while k < raw.len()
        invariant
            raw@ == prefix@,
            k <= raw@.len(),
            prefix_chars@ == ascii_lower_seq(raw@.take(k as int)),
        decreases raw.len() - k,
    {
        prefix_chars.push(to_ascii_lower(raw[k]));
        proof {
            assert(prefix_chars@ =~= ascii_lower_seq(raw@.take(k + 1int)));
        }
        k = k + 1;
    }
    assert(raw@.take(raw@.len() as int) =~= raw@);
    let ghost p = prefix_chars@;
    let ghost w = starts@;
    let mut wi: usize = 0;
    let mut pi: usize = 0;
    assert(p.skip(0) =~= p);
    assert(w.skip(0) =~= w);
    while pi < prefix_chars.len()
        invariant
            p == prefix_chars@,
            w == starts@,
            p == ascii_lower_seq(prefix@),
            w == word_starts(name@),
            pi <= p.len(),
            wi <= w.len(),
            greedy_subsequence(p, w) == greedy_subsequence(p.skip(pi as int), w.skip(wi as int)),
        decreases p.len() - pi + w.len() - wi,
    {
        let pc = prefix_chars[pi];
        if wi >= starts.len() {
            proof {
                assert(w.skip(wi as int).len() == 0);
                assert(p.skip(pi as int).len() > 0);
                lemma_greedy_subsequence(p, w);
            }
            return false;
        }
        proof {
            assert(p.skip(pi as int).drop_first() =~= p.skip(pi + 1int));
            assert(w.skip(wi as int).drop_first() =~= w.skip(wi + 1int));
        }
        if starts[wi] == pc {
            pi = pi + 1;
        }
        wi = wi + 1;
    }
    proof {
        lemma_greedy_subsequence(p, w);
    }
    true
}

// ─── match scoring ────────────────────────────────────────────────────────────

/// How well `name` matches `prefix`; lower is better. `0`: `name` starts
/// with `prefix` (ASCII case-insensitive, and always for an empty prefix);
/// `1`: a camelCase acronym match; `2`: `name` contains `prefix`
/// (ASCII case-insensitive); `None`: no match.
pub open spec fn match_score_spec(name: Seq<char>, prefix: Seq<char>) -> Option<u8> {
    let nl = ascii_lower_seq(name);
    let pl = ascii_lower_seq(prefix);
    if prefix.len() == 0 || seq_starts_with(nl, pl) {
        Some(0)
    } else if camel_acronym(name, prefix) {
        Some(1)
    } else if seq_contains(nl, pl) {
        Some(2)
    } else {
        None
    }
}

/// The characters of `s`, ASCII-lowercased.
pub fn ascii_lower_chars(s: &str) -> (out: Vec<char>)
    ensures
        out@ == ascii_lower_seq(s@),
{
    let raw = str_chars(s);
    let mut out: Vec<char> = Vec::new();
    let mut k: usize = 0;
    while k < raw.len()
        invariant
            raw@ == s@,
            k <= raw@.len(),
            out@ == ascii_lower_seq(raw@.take(k as int)),
        decreases raw.len() - k,
    {
        out.push(to_ascii_lower(raw[k]));
        proof {
            assert(out@ =~= ascii_lower_seq(raw@.take(k + 1int)));
        }
        k = k + 1;
    }
    assert(raw@.take(raw@.len() as int) =~= raw@);
    out
}

/// Score how well `name` matches `prefix` (see [`match_score_spec`]).
pub fn match_score(name: &str, prefix: &str) -> (r: Option<u8>)
    ensures
        r == match_score_spec(name@, prefix@),
{
    if prefix.unicode_len() == 0 {
        return Some(0);
    }
    let name_lower = ascii_lower_chars(name);
    let prefix_lower = ascii_lower_chars(prefix);
    if starts_with(&name_lower, &prefix_lower) {
        return Some(0);
    }
    if camel_acronym_match(name, prefix) {
        return Some(1);
    }
    if contains(&name_lower, &prefix_lower) {
        return Some(2);
    }
    None
}

// ─── small helpers ────────────────────────────────────────────────────────────

/// Whether the character immediately before a trailing `prefix` in `line`
/// is `@` (an annotation is being typed).
pub fn is_annotation_context(line: &str, prefix: &str) -> (r: bool)
    ensures
        r == (seq_ends_with(line@, prefix@) && line@.len() > prefix@.len() && line@[line@.len()
            - prefix@.len() - 1] == '@'),
{
    let l = str_chars(line);
    let p = str_chars(prefix);
    if !ends_with(&l, &p) || l.len() == p.len() {
        return false;
    }
    l[l.len() - p.len() - 1] == '@'
}

/// `package.symbol`, or just `symbol` for the default (empty) package.
pub fn extension_symbol_fqn(package_name: &str, symbol_name: &str) -> (r: String)
    ensures
        r@ == (if package_name@.len() == 0 {
            symbol_name@
        } else {
            package_name@ + seq!['.'] + symbol_name@
        }),
{
    if package_name.unicode_len() == 0 {
        return symbol_name.to_owned();
    }
    let mut r = package_name.to_owned();
    r.append(".");
    r.append(symbol_name);
    proof {
        reveal_strlit(".");
    }
    r
}

/// Everything before the last `.` of a fully-qualified name (`""` when the
/// name has no `.`).
pub fn package_of_fqn(fqn: &str) -> (r: &str)
    ensures
        r@ == (if last_where(fqn@, is_char('.')) >= 0 {
            fqn@.subrange(0, last_where(fqn@, is_char('.')))
        } else {
            Seq::<char>::empty()
        }),
{
    let chars = str_chars(fqn);
    proof {
        lemma_last_where(fqn@, is_char('.'));
    }
    match rfind_char(&chars, '.') {
        Some(pos) => fqn.substring_char(0, pos),
        None => {
            let r = fqn.substring_char(0, 0);
            r
        },
    }
}

/// The `sort_text` visibility tag: private symbols get `prv:` (so dot
/// completion can filter them out), protected ones `prt:`.
pub fn vis_tag(vis: Visibility) -> (r: &'static str)
    ensures
        r@ == (match vis {
            Visibility::Private => "prv:"@,
            Visibility::Protected => "prt:"@,
            _ => ""@,
        }),
{
    match vis {
        Visibility::Private => "prv:",
        Visibility::Protected => "prt:",
        _ => "",
    }
}

// ─── dot-completion receiver ─────────────────────────────────────────────────

/// Dot-completion receiver derived from the syntax tree.
pub enum DotReceiver {
    /// `it`, `this`, `this@label` — resolved by scope analysis.
    Scope(String),
    Super,
    /// Any other receiver expression.
    Expr {
        /// Receiver text; for a call receiver, the callee text.
        text: String,
        /// The receiver was a call expression.
        is_call: bool,
        /// Type resolved at analysis time, if any.
        resolved: Option<String>,
    },
}

impl DotReceiver {
    /// Plain variable / type-name receiver.
    pub fn expr(text: &str) -> (r: DotReceiver)
        ensures
            r matches DotReceiver::Expr { text: t, is_call, resolved } && t@ == text@ && !is_call
                && resolved is None,
    {
        DotReceiver::Expr { text: text.to_owned(), is_call: false, resolved: None }
    }

    /// The receiver's text: the expression or scope name, or `super`.
    pub fn text(&self) -> (r: &str)
        ensures
            r@ == (match self {
                DotReceiver::Scope(t) => t@,
                DotReceiver::Expr { text, .. } => text@,
                DotReceiver::Super => "super"@,
            }),
    {
        match self {
            DotReceiver::Scope(text) => text.as_str(),
            DotReceiver::Expr { text, .. } => text.as_str(),
            DotReceiver::Super => "super",
        }
    }
}

// ─── imports needed by a completion ──────────────────────────────────────────

/// The package part of a fully-qualified name: everything before its last
/// `.`, or nothing when it has none.
pub open spec fn fqn_package(fqn: Seq<char>) -> Seq<char> {
    if last_where(fqn, is_char('.')) >= 0 {
        fqn.subrange(0, last_where(fqn, is_char('.')))
    } else {
        Seq::<char>::empty()
    }
}

/// `fqn` is imported by name (a non-star import of exactly that path).
pub open spec fn imported_by_name(imports: Seq<ImportEntry>, fqn: Seq<char>) -> bool {
    exists|i: int| 0 <= i < imports.len() && !imports[i].is_star && #[trigger] imports[i].full_path@ == fqn
}

/// `pkg` is imported with a star import.
pub open spec fn star_imported(imports: Seq<ImportEntry>, pkg: Seq<char>) -> bool {
    exists|i: int| 0 <= i < imports.len() && imports[i].is_star && #[trigger] imports[i].full_path@ == pkg
}

/// Whether the non-star import of exactly `fqn` is among `imports`.
pub fn already_imported(fqn: &str, imports: &Vec<ImportEntry>) -> (r: bool)
    ensures
        r == imported_by_name(imports@, fqn@),
{
    let mut i: usize = 0;
    while i < imports.len()
        invariant
            i <= imports@.len(),
            forall|j: int| 0 <= j < i ==> !(!imports@[j].is_star && #[trigger] imports@[j].full_path@ == fqn@),
        decreases imports.len() - i,
    {
        if !imports[i].is_star && str_eq(imports[i].full_path.as_str(), fqn) {
            return true;
        }
        i = i + 1;
    }
    false
}

/// The parts of the file being edited that decide whether completing a
/// symbol must also add an import.
pub struct CurrentFileCompletionContext {
    pub imports: Vec<ImportEntry>,
    /// The file's own package (empty for the default package).
    pub package_name: String,
    pub lines: Vec<String>,
    pub needs_semicolons: bool,
}

impl CurrentFileCompletionContext {
    /// Whether completing `fully_qualified_name` needs a new import: it is
    /// not imported by name, its package is not star-imported, and it is not
    /// in the file's own package.
    pub fn needs_import(&self, fully_qualified_name: &str) -> (r: bool)
        ensures
            r == (!imported_by_name(self.imports@, fully_qualified_name@) && !star_imported(
                self.imports@,
                fqn_package(fully_qualified_name@),
            ) && fqn_package(fully_qualified_name@) != self.package_name@),
    {
        let qualifier = package_of_fqn(fully_qualified_name);
        if already_imported(fully_qualified_name, &self.imports) {
            return false;
        }
        let mut i: usize = 0;
        while i < self.imports.len()
            invariant
                i <= self.imports@.len(),
                qualifier@ == fqn_package(fully_qualified_name@),
                forall|j: int|
                    0 <= j < i ==> !(self.imports@[j].is_star && #[trigger] self.imports@[j].full_path@
                        == qualifier@),
            decreases self.imports.len() - i,
        {
            if self.imports[i].is_star && str_eq(self.imports[i].full_path.as_str(), qualifier) {
                return false;
            }
            i = i + 1;
        }
        !str_eq(qualifier, self.package_name.as_str())
    }
}

/// An extension declared in a library: a `jar:` URI or one of the
/// registered library source URIs.
pub open spec fn library_extension(library_uris: Seq<Seq<char>>, file_uri: Seq<char>) -> bool {
    seq_starts_with(file_uri, "jar:"@) || library_uris.contains(file_uri)
}

/// Whether an extension entry comes from a library rather than workspace
/// source (see [`library_extension`]); `library_uris` are the URIs
/// registered as library sources.
pub fn is_library_extension(library_uris: &Vec<String>, file_uri: &str) -> (r: bool)
    ensures
        r == library_extension(library_uris.deep_view(), file_uri@),
{
    starts_with(&str_chars(file_uri), &str_chars("jar:")) || string_in(file_uri, library_uris)
}

} // verus!
