//! Recognising declarations on single source lines found by text search.
//!
//! Every position below is a character index.

use vstd::prelude::*;

use crate::imports::str_in;
use crate::infer::qualified_type;
use crate::infer_lines::{lemma_skip_spaces, skip_spaces};
use crate::segments::{first_segment, first_segment_str, last_segment, last_segment_str};
use crate::infer_lines::colon_at;
use crate::text::{
    first_pos, is_ascii_digit, is_ascii_lower, is_ascii_upper, is_word_char, lemma_first_pos,
    lemma_first_pos_unique, matches_at, occurs_at, seq_starts_with, str_chars, word_char,
};
use crate::types::{str_eq, Location, Position, Range};

verus! {

// ─── scanning backwards ──────────────────────────────────────────────────────

/// The smallest `j <= i` such that every character in `s[j..i]` satisfies
/// `pred`.
pub open spec fn skip_back_while(s: Seq<char>, i: int, pred: spec_fn(char) -> bool) -> int
    decreases i,
{
    if i > 0 && pred(s[i - 1]) {
        skip_back_while(s, i - 1, pred)
    } else {
        i
    }
}

pub proof fn lemma_skip_back_while(s: Seq<char>, i: int, pred: spec_fn(char) -> bool)
    requires
        0 <= i <= s.len(),
    ensures
        0 <= skip_back_while(s, i, pred) <= i,
        forall|k: int| skip_back_while(s, i, pred) <= k < i ==> pred(#[trigger] s[k]),
        skip_back_while(s, i, pred) > 0 ==> !pred(s[skip_back_while(s, i, pred) - 1]),
    decreases i,
{
    if i > 0 && pred(s[i - 1]) {
        lemma_skip_back_while(s, i - 1, pred);
    }
}

pub open spec fn space_char() -> spec_fn(char) -> bool {
    |c: char| c == ' '
}

pub open spec fn word_char_pred() -> spec_fn(char) -> bool {
    |c: char| word_char(c)
}

/// A character of an extension receiver type such as `List<T>?`.
pub open spec fn receiver_char() -> spec_fn(char) -> bool {
    |c: char| word_char(c) || c == '.' || c == '<' || c == '>' || c == '?' || c == ','
}

pub open spec fn not_open_angle() -> spec_fn(char) -> bool {
    |c: char| c != '<'
}

/// Which characters [`skip_back`] steps over.
pub enum BackClass {
    Space,
    Word,
    Receiver,
    NotOpenAngle,
}

pub open spec fn back_pred(class: BackClass) -> spec_fn(char) -> bool {
    match class {
        BackClass::Space => space_char(),
        BackClass::Word => word_char_pred(),
        BackClass::Receiver => receiver_char(),
        BackClass::NotOpenAngle => not_open_angle(),
    }
}

fn in_class(class: &BackClass, c: char) -> (r: bool)
    ensures
        r == back_pred(*class)(c),
{
    match class {
        BackClass::Space => c == ' ',
        BackClass::Word => is_word_char(c),
        BackClass::Receiver => is_word_char(c) || c == '.' || c == '<' || c == '>' || c == '?' || c
            == ',',
        BackClass::NotOpenAngle => c != '<',
    }
}

/// Step back from `i` over the characters of `class` (see [`skip_back_while`]).
fn skip_back(s: &Vec<char>, i: usize, class: BackClass) -> (r: usize)
    requires
        i <= s@.len(),
    ensures
        r == skip_back_while(s@, i as int, back_pred(class)),
        r <= i,
{
    proof {
        lemma_skip_back_while(s@, i as int, back_pred(class));
    }
    let mut j = i;
    while j > 0 && in_class(&class, s[j - 1])
        invariant
            j <= i <= s@.len(),
            skip_back_while(s@, j as int, back_pred(class)) == skip_back_while(
                s@,
                i as int,
                back_pred(class),
            ),
        decreases j,
    {
        j = j - 1;
    }
    j
}

// ─── Kotlin declarations ─────────────────────────────────────────────────────

/// The keywords that introduce a named Kotlin declaration.
pub open spec fn declaration_keywords() -> Seq<Seq<char>> {
    seq!["fun"@, "val"@, "var"@, "class"@, "interface"@, "object"@, "typealias"@]
}

/// Where the keyword that may introduce the identifier at `col` ends:
/// stepping back over spaces, then over an extension receiver (`Type.`) and
/// the spaces before it, then over a type-parameter list (`<T>`) and the
/// spaces before it.
pub open spec fn keyword_end_before(s: Seq<char>, col: int) -> int {
    let i1 = skip_back_while(s, col, space_char());
    let i2 = if i1 > 0 && s[i1 - 1] == '.' {
        skip_back_while(s, skip_back_while(s, i1 - 1, receiver_char()), space_char())
    } else {
        i1
    };
    let j = skip_back_while(s, i2 - 1, not_open_angle());
    if i2 > 0 && s[i2 - 1] == '>' && j > 0 {
        skip_back_while(s, j - 1, space_char())
    } else {
        i2
    }
}

/// The identifier starting at `col` is being declared: it starts a word, and
/// the word before it (see [`keyword_end_before`]) is a declaration keyword.
pub open spec fn declaration_occurrence(s: Seq<char>, col: int) -> bool {
    let e = keyword_end_before(s, col);
    let w = skip_back_while(s, e, word_char_pred());
    &&& 0 <= col < s.len()
    &&& word_char(s[col])
    &&& col == 0 || !word_char(s[col - 1])
    &&& declaration_keywords().contains(s.subrange(w, e))
}

/// Whether the identifier at `col` of `line` is declared there (`fun name`,
/// `override fun name`, `val name`, `fun Receiver.name`), rather than used
/// (`receiver.name()`, `notafunName`).
pub fn is_declaration_occurrence_at(line: &str, col: u32) -> (r: bool)
    ensures
        r == declaration_occurrence(line@, col as int),
{
    declaration_occurrence_exec(line, col as usize)
}

fn declaration_occurrence_exec(line: &str, col: usize) -> (r: bool)
    ensures
        r == declaration_occurrence(line@, col as int),
{
    let s = str_chars(line);
    if col >= s.len() || !is_word_char(s[col]) || (col > 0 && is_word_char(s[col - 1])) {
        return false;
    }
    proof {
        lemma_skip_back_while(s@, col as int, space_char());
    }
    let i1 = skip_back(&s, col, BackClass::Space);
    let i2 = if i1 > 0 && s[i1 - 1] == '.' {
        proof {
            lemma_skip_back_while(s@, i1 - 1, receiver_char());
        }
        let r = skip_back(&s, i1 - 1, BackClass::Receiver);
        skip_back(&s, r, BackClass::Space)
    } else {
        i1
    };
    let e = if i2 > 0 && s[i2 - 1] == '>' {
        let j = skip_back(&s, i2 - 1, BackClass::NotOpenAngle);
        if j > 0 {
            skip_back(&s, j - 1, BackClass::Space)
        } else {
            i2
        }
    } else {
        i2
    };
    assert(e == keyword_end_before(line@, col as int));
    let w = skip_back(&s, e, BackClass::Word);
    let keyword = line.substring_char(w, e);
    let keywords: [&str; 7] = ["fun", "val", "var", "class", "interface", "object", "typealias"];
    let r = str_in(keyword, keywords.as_slice());
    assert(keywords@.map_values(|c: &str| c@) =~= declaration_keywords());
    r
}

/// `name` occurs at `k` of `s` as a whole word.
pub open spec fn whole_word_at(s: Seq<char>, name: Seq<char>, k: int) -> bool {
    &&& occurs_at(s, name, k)
    &&& k == 0 || !word_char(s[k - 1])
    &&& k + name.len() == s.len() || !word_char(s[k + name.len()])
}

/// `line` declares `name`: some whole-word occurrence of it is a
/// declaration (see [`declaration_occurrence`]).
pub open spec fn declares_name(line: Seq<char>, name: Seq<char>) -> bool {
    exists|k: int| #[trigger] whole_word_at(line, name, k) && declaration_occurrence(line, k)
}

fn whole_word_at_exec(s: &Vec<char>, name: &Vec<char>, k: usize) -> (r: bool)
    ensures
        r == whole_word_at(s@, name@, k as int),
{
    if !matches_at(s, name, k) {
        return false;
    }
    let n = s.len();
    let end = k + name.len();
    (k == 0 || !is_word_char(s[k - 1])) && (end == n || !is_word_char(s[end]))
}

/// Whether `line` declares `name` (see [`declares_name`]): `fun create()`
/// declares `create`; `fun createWidget()` and `factory.create()` do not.
pub fn is_declaration_of(line: &str, name: &str) -> (r: bool)
    ensures
        r == declares_name(line@, name@),
{
    let s = str_chars(line);
    let nm = str_chars(name);
    let mut k: usize = 0;
    while k < s.len()
        invariant
            s@ == line@,
            nm@ == name@,
            k <= s@.len(),
            forall|j: int|
                0 <= j < k ==> !(#[trigger] whole_word_at(line@, name@, j) && declaration_occurrence(
                    line@,
                    j,
                )),
        decreases s.len() - k,
    {
        if whole_word_at_exec(&s, &nm, k) && declaration_occurrence_exec(line, k) {
            return true;
        }
        k = k + 1;
    }
    assert forall|j: int| !(#[trigger] whole_word_at(line@, name@, j) && declaration_occurrence(
        line@,
        j,
    )) by {
        if 0 <= j < k {
        }
    }
    false
}

// ─── Java methods ────────────────────────────────────────────────────────────

/// Words that can stand before a called method's name without being its
/// return type.
pub open spec fn java_statement_words() -> Seq<Seq<char>> {
    seq!["return"@, "new"@, "throw"@, "else"@, "case"@]
}

/// A Java method named `name` is declared at `col`: `name` stands there as a
/// whole word, an argument list opens after it (past spaces), and a return
/// type (a word that is not a statement keyword, or a type ending in `>` or
/// `]`) comes before it, past spaces; a receiver (`obj.name(…)`) or an
/// operator before it marks a call instead.
pub open spec fn java_method_declaration(line: Seq<char>, name: Seq<char>, col: int) -> bool {
    let after = skip_spaces(line, col + name.len());
    let p = skip_back_while(line, col, space_char());
    let w = skip_back_while(line, p, word_char_pred());
    &&& whole_word_at(line, name, col)
    &&& after < line.len() && line[after] == '('
    &&& p > 0
    &&& (word_char(line[p - 1]) && !java_statement_words().contains(line.subrange(w, p))) || line[p
        - 1] == '>' || line[p - 1] == ']'
}

/// Whether `line` declares the Java method `name` at `col` (see
/// [`java_method_declaration`]): `void process(String input);` does,
/// `obj.process(input);` does not.
pub fn is_java_method_declaration_at(line: &str, name: &str, col: usize) -> (r: bool)
    ensures
        r == java_method_declaration(line@, name@, col as int),
{
    let s = str_chars(line);
    let nm = str_chars(name);
    if !whole_word_at_exec(&s, &nm, col) {
        return false;
    }
    proof {
        lemma_skip_spaces(line@, col + name@.len());
        lemma_skip_back_while(s@, col as int, space_char());
    }
    let _ = s.len();
    let name_end = col + nm.len();
    let mut after = name_end;
    while after < s.len() && s[after] == ' '
        invariant
            name_end <= after <= s@.len(),
            skip_spaces(s@, after as int) == skip_spaces(s@, name_end as int),
        decreases s.len() - after,
    {
        after = after + 1;
    }
    if after >= s.len() || s[after] != '(' {
        return false;
    }
    let p = skip_back(&s, col, BackClass::Space);
    if p == 0 {
        return false;
    }
    let prev = s[p - 1];
    if prev == '>' || prev == ']' {
        return true;
    }
    if !is_word_char(prev) {
        return false;
    }
    let w = skip_back(&s, p, BackClass::Word);
    let word = line.substring_char(w, p);
    let statement_words: [&str; 5] = ["return", "new", "throw", "else", "case"];
    let is_statement = str_in(word, statement_words.as_slice());
    assert(statement_words@.map_values(|c: &str| c@) =~= java_statement_words());
    !is_statement
}

// ─── producers ───────────────────────────────────────────────────────────────

/// A declared type `annotation` names `owner`: the type (without generics or
/// `?`) is `owner` itself, `owner.Nested`, or `pkg.owner`.
pub open spec fn annotation_matches_owner(annotation: Seq<char>, owner: Seq<char>) -> bool {
    first_segment(qualified_type(annotation)) == owner || last_segment(qualified_type(annotation))
        == owner
}

/// Whether the declared type `annotation` names `owner` (see
/// [`annotation_matches_owner`]).
pub fn type_annotation_matches_owner(annotation: &str, owner: &str) -> (r: bool)
    ensures
        r == annotation_matches_owner(annotation@, owner@),
{
    let chars = str_chars(annotation);
    let mut k: usize = 0;
    while k < chars.len() && chars[k] != '<' && chars[k] != '?'
        invariant
            chars@ == annotation@,
            k <= chars@.len(),
            forall|j: int| 0 <= j < k ==> #[trigger] chars@[j] != '<' && chars@[j] != '?',
        decreases chars.len() - k,
    {
        k = k + 1;
    }
    proof {
        crate::text::lemma_first_where_unique(
            annotation@,
            crate::infer::generic_or_nullable_mark(),
            k as int,
        );
    }
    let qualified = annotation.substring_char(0, k);
    str_eq(first_segment_str(qualified), owner) || str_eq(last_segment_str(qualified), owner)
}

/// Member names that every data class or enum class synthesizes, too common
/// as bare words to find the callers of one particular producer.
pub open spec fn unusable_producer_names() -> Seq<Seq<char>> {
    seq!["copy"@, "values"@, "valueOf"@, "entries"@]
}

/// Whether `name` is one of [`unusable_producer_names`].
pub fn is_unusable_producer_name(name: &str) -> (r: bool)
    ensures
        r == unusable_producer_names().contains(name@),
{
    let names: [&str; 4] = ["copy", "values", "valueOf", "entries"];
    let r = str_in(name, names.as_slice());
    assert(names@.map_values(|c: &str| c@) =~= unusable_producer_names());
    r
}

// ─── search hits ─────────────────────────────────────────────────────────────

/// `s` is a non-empty run of ASCII digits.
pub open spec fn all_digits(s: Seq<char>) -> bool {
    s.len() > 0 && forall|i: int| 0 <= i < s.len() ==> is_ascii_digit(#[trigger] s[i])
}

/// The number the ASCII digits `s` write in decimal.
pub open spec fn decimal_value(s: Seq<char>) -> nat
    decreases s.len(),
{
    if s.len() == 0 {
        0
    } else {
        decimal_value(s.drop_last()) * 10 + ((s.last() as u32) - 48) as nat
    }
}

proof fn lemma_decimal_value_grows(s: Seq<char>, k: int)
    requires
        0 <= k <= s.len(),
        forall|i: int| 0 <= i < s.len() ==> is_ascii_digit(#[trigger] s[i]),
    ensures
        decimal_value(s.take(k)) <= decimal_value(s),
    decreases s.len() - k,
{
    if k < s.len() {
        lemma_decimal_value_grows(s, k + 1);
        assert(s.take(k + 1).drop_last() =~= s.take(k));
        assert(s.take(k + 1).last() == s[k]);
        assert(is_ascii_digit(s[k]));
    } else {
        assert(s.take(k) =~= s);
    }
}

/// The `u32` that the digits `s[from..to]` write, or `None` when the range
/// is empty, holds a non-digit, or writes a number too large.
fn parse_u32(s: &Vec<char>, from: usize, to: usize) -> (r: Option<u32>)
    requires
        from <= to <= s@.len(),
    ensures
        match r {
            Some(v) => all_digits(s@.subrange(from as int, to as int)) && v as nat == decimal_value(
                s@.subrange(from as int, to as int),
            ),
            None => !(all_digits(s@.subrange(from as int, to as int)) && decimal_value(
                s@.subrange(from as int, to as int),
            ) <= u32::MAX),
        },
{
    let ghost digits = s@.subrange(from as int, to as int);
    if from == to {
        return None;
    }
    let mut v: u64 = 0;
    let mut i = from;
    while i < to
        invariant
            from <= i <= to <= s@.len(),
            digits == s@.subrange(from as int, to as int),
            forall|j: int| from <= j < i ==> is_ascii_digit(#[trigger] s@[j]),
            v as nat == decimal_value(s@.subrange(from as int, i as int)),
            v <= u32::MAX,
        decreases to - i,
    {
        let c = s[i];
        if !('0' <= c && c <= '9') {
            proof {
                assert(digits[i - from] == c);
            }
            return None;
        }
        let d = (c as u32 - 48) as u64;
        proof {
            assert(s@.subrange(from as int, i + 1int).drop_last() =~= s@.subrange(
                from as int,
                i as int,
            ));
        }
        v = v * 10 + d;
        if v > u32::MAX as u64 {
            proof {
                if all_digits(digits) {
                    lemma_decimal_value_grows(digits, i + 1 - from);
                    assert(digits.take(i + 1 - from) =~= s@.subrange(from as int, i + 1int));
                }
            }
            return None;
        }
        i = i + 1;
    }
    proof {
        assert(s@.subrange(from as int, to as int) =~= digits);
    }
    Some(v as u32)
}

/// `s` starts with a drive letter and a colon (`C:`).
pub open spec fn drive_prefix(s: Seq<char>) -> bool {
    s.len() >= 2 && (is_ascii_upper(s[0]) || is_ascii_lower(s[0])) && s[1] == ':'
}

/// The fields of one search hit `path:line:column:text`: the path (which may
/// start with a drive letter), and the one-based line and column.
pub struct RgFields<'a> {
    pub path: &'a str,
    pub line: u32,
    pub column: u32,
}

/// How [`split_rg_line`] reads `s`: the path runs to the first `:` (past a
/// drive prefix), then come the decimal line and column, each ended by `:`.
pub open spec fn rg_fields(s: Seq<char>) -> Option<(Seq<char>, nat, nat)> {
    let p = first_pos(if drive_prefix(s) { 2int } else { 0int }, s.len() as int, colon_at(s));
    let q = first_pos(p + 1, s.len() as int, colon_at(s));
    let c = first_pos(q + 1, s.len() as int, colon_at(s));
    let line = s.subrange(p + 1, q);
    let col = s.subrange(q + 1, c);
    if p < 0 || q < 0 || c < 0 || !all_digits(line) || !all_digits(col) || decimal_value(line)
        > u32::MAX || decimal_value(col) > u32::MAX {
        None
    } else {
        Some((s.take(p), decimal_value(line), decimal_value(col)))
    }
}

fn next_colon(s: &Vec<char>, from: usize) -> (r: Option<usize>)
    requires
        from <= s@.len(),
    ensures
        match r {
            Some(k) => first_pos(from as int, s@.len() as int, colon_at(s@)) == k as int,
            None => first_pos(from as int, s@.len() as int, colon_at(s@)) == -1,
        },
{
    let mut k = from;
    while k < s.len()
        invariant
            from <= k <= s@.len(),
            forall|j: int| from <= j < k ==> #[trigger] s@[j] != ':',
        decreases s.len() - k,
    {
        if s[k] == ':' {
            proof {
                lemma_first_pos_unique(from as int, s@.len() as int, colon_at(s@), k as int);
            }
            return Some(k);
        }
        k = k + 1;
    }
    proof {
        lemma_first_pos_unique(from as int, s@.len() as int, colon_at(s@), -1);
    }
    None
}

/// Split a search hit into its fields (see [`rg_fields`]).
pub fn split_rg_line<'a>(line: &'a str) -> (r: Option<RgFields<'a>>)
    ensures
        match r {
            Some(f) => rg_fields(line@) == Some((f.path@, f.line as nat, f.column as nat)),
            None => rg_fields(line@) is None,
        },
{
    let s = str_chars(line);
    let n = s.len();
    let start: usize = if n >= 2 && (('A' <= s[0] && s[0] <= 'Z') || ('a' <= s[0] && s[0] <= 'z'))
        && s[1] == ':' {
        2
    } else {
        0
    };
    let p = match next_colon(&s, start) {
        Some(p) => p,
        None => return None,
    };
    proof {
        lemma_first_pos(start as int, n as int, colon_at(s@));
    }
    let q = match next_colon(&s, p + 1) {
        Some(q) => q,
        None => return None,
    };
    proof {
        lemma_first_pos(p + 1int, n as int, colon_at(s@));
    }
    let c = match next_colon(&s, q + 1) {
        Some(c) => c,
        None => return None,
    };
    proof {
        lemma_first_pos(q + 1int, n as int, colon_at(s@));
    }
    let line_no = match parse_u32(&s, p + 1, q) {
        Some(v) => v,
        None => return None,
    };
    let column = match parse_u32(&s, q + 1, c) {
        Some(v) => v,
        None => return None,
    };
    Some(RgFields { path: line.substring_char(0, p), line: line_no, column })
}

/// A path that some platform can call absolute: it starts with `/`, `\`,
/// or a drive letter and a colon.
pub open spec fn absolute_path_shape(p: Seq<char>) -> bool {
    p.len() > 0 && (p[0] == '/' || p[0] == '\\' || drive_prefix(p))
}

/// Calls `Url::from_file_path` and keeps the URL's text. A successful result
/// is a `file://` URL, and a path that no platform calls absolute (see
/// [`absolute_path_shape`]) is refused. Which absolute paths succeed, and
/// the percent-encoding of the result, depend on the platform and are not
/// stated.
#[verifier::external_body]
fn file_url_from_path(path: &str) -> (r: Option<String>)
    ensures
        r matches Some(u) ==> seq_starts_with(u@, "file://"@),
        !absolute_path_shape(path@) ==> r is None,
{
    match tower_lsp::lsp_types::Url::from_file_path(path) {
        Ok(url) => Some(url.into()),
        Err(_) => None,
    }
}

/// The location a search hit stands for, once its path has been turned into
/// a URL: the empty range at the zero-based line and column (a one-based 0
/// stays 0). `None` when the path had no URL.
pub fn rg_hit_location(fields: &RgFields, uri: Option<String>) -> (r: Option<Location>)
    ensures
        match uri {
            None => r is None,
            Some(u) => r matches Some(loc) && loc.uri@ == u@ && loc.range.start == loc.range.end
                && loc.range.start.line == (if fields.line > 0 {
                fields.line - 1
            } else {
                0
            }) && loc.range.start.character == (if fields.column > 0 {
                fields.column - 1
            } else {
                0
            }),
        },
{
    let uri = match uri {
        Some(u) => u,
        None => return None,
    };
    let start = Position {
        line: if fields.line > 0 {
            fields.line - 1
        } else {
            0
        },
        character: if fields.column > 0 {
            fields.column - 1
        } else {
            0
        },
    };
    Some(Location { uri, range: Range { start, end: start } })
}

/// Turn a search hit into the location of its match: the file URL of its
/// path, and the zero-based line and column; `None` when the fields do not
/// parse or the path is not absolute.
pub fn parse_rg_line(line: &str) -> (r: Option<Location>)
    ensures
        r matches Some(loc) ==> (rg_fields(line@) matches Some((path, l, c)) && absolute_path_shape(
            path,
        ) && seq_starts_with(loc.uri@, "file://"@) && loc.range.start == loc.range.end
            && loc.range.start.line == (if l > 0 {
            l - 1
        } else {
            0
        }) && loc.range.start.character == (if c > 0 {
            c - 1
        } else {
            0
        })),
        rg_fields(line@) is None ==> r is None,
        (rg_fields(line@) matches Some((path, l, c)) && !absolute_path_shape(path)) ==> r is None,
{
    let fields = match split_rg_line(line) {
        Some(f) => f,
        None => return None,
    };
    let uri = match file_url_from_path(fields.path) {
        Some(u) => u,
        None => return None,
    };
    rg_hit_location(&fields, Some(uri))
}

} // verus!
