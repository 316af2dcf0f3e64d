//! Scanners over single lines of Kotlin declaration text: type tokens,
//! declared types of functions and properties, and call-chain shapes.
//!
//! Every position below is a character index.

use vstd::prelude::*;

use crate::text::{
    char_is_alphanumeric, char_is_uppercase, find_char, first_pos, first_where, is_char,
    is_word_char, lemma_first_pos, lemma_first_pos_unique, lemma_first_where, matches_at,
    occurs_at, str_chars, trim_str, trim_ws, unicode_alphanumeric, unicode_uppercase, word_char,
};

verus! {

// ─── spaces ───────────────────────────────────────────────────────────────────

/// The first position at or after `i` that does not hold a space (`' '`),
/// or `s.len()`.
pub open spec fn skip_spaces(s: Seq<char>, i: int) -> int
    decreases s.len() - i,
{
    if i >= s.len() {
        s.len() as int
    } else if s[i] != ' ' {
        i
    } else {
        skip_spaces(s, i + 1)
    }
}

pub proof fn lemma_skip_spaces(s: Seq<char>, i: int)
    requires
        0 <= i <= s.len(),
    ensures
        i <= skip_spaces(s, i) <= s.len(),
        skip_spaces(s, i) < s.len() ==> s[skip_spaces(s, i)] != ' ',
    decreases s.len() - i,
{
    if i < s.len() && s[i] == ' ' {
        lemma_skip_spaces(s, i + 1);
    }
}

fn skip_spaces_exec(s: &Vec<char>, i: usize) -> (r: usize)
    requires
        i <= s@.len(),
    ensures
        r == skip_spaces(s@, i as int),
        i <= r <= s@.len(),
{
    let mut j = i;
    while j < s.len() && s[j] == ' '
        invariant
            i <= j <= s@.len(),
            skip_spaces(s@, j as int) == skip_spaces(s@, i as int),
        decreases s.len() - j,
    {
        j = j + 1;
    }
    j
}

// ─── type tokens ─────────────────────────────────────────────────────────────

/// Where the type token that starts at `i` ends, with `depth` generic
/// brackets open: names, `.`, `_` and `?` continue it; `<` opens a generic
/// argument list, inside which `,`, spaces and `*` continue it too; a `>`
/// closes it (and ends the token when nothing is open); anything else ends it.
pub open spec fn type_token_end(s: Seq<char>, i: int, depth: nat) -> int
    decreases s.len() - i,
{
    if i < 0 || i >= s.len() {
        i
    } else {
        let c = s[i];
        if c == '<' {
            type_token_end(s, i + 1, depth + 1)
        } else if c == '>' {
            if depth == 0 {
                i
            } else {
                type_token_end(s, i + 1, (depth - 1) as nat)
            }
        } else if depth > 0 && (c == ',' || c == ' ' || c == '*') {
            type_token_end(s, i + 1, depth)
        } else if unicode_alphanumeric(c) || c == '_' || c == '.' || c == '?' {
            type_token_end(s, i + 1, depth)
        } else {
            i
        }
    }
}

/// The type written at position `i` of `s`, such as `Flow<Map<K, V>>?`.
pub open spec fn type_token(s: Seq<char>, i: int) -> Seq<char> {
    s.subrange(i, type_token_end(s, i, 0))
}

pub proof fn lemma_type_token_end(s: Seq<char>, i: int, depth: nat)
    requires
        0 <= i <= s.len(),
    ensures
        i <= type_token_end(s, i, depth) <= s.len(),
    decreases s.len() - i,
{
    if i < s.len() {
        let c = s[i];
        if c == '<' {
            lemma_type_token_end(s, i + 1, depth + 1);
        } else if c == '>' {
            if depth > 0 {
                lemma_type_token_end(s, i + 1, (depth - 1) as nat);
            }
        } else if (depth > 0 && (c == ',' || c == ' ' || c == '*')) || unicode_alphanumeric(c) || c
            == '_' || c == '.' || c == '?' {
            lemma_type_token_end(s, i + 1, depth);
        }
    }
}

fn type_token_end_exec(s: &Vec<char>, i: usize) -> (e: usize)
    requires
        i <= s@.len(),
    ensures
        e == type_token_end(s@, i as int, 0),
        i <= e <= s@.len(),
{
    proof {
        lemma_type_token_end(s@, i as int, 0);
    }
    let mut j = i;
    let mut depth: usize = 0;
    loop
        invariant
            i <= j <= s@.len(),
            depth <= j - i,
            type_token_end(s@, j as int, depth as nat) == type_token_end(s@, i as int, 0),
            i <= type_token_end(s@, i as int, 0) <= s@.len(),
        decreases s@.len() - j,
    {
        if j >= s.len() {
            return j;
        }
        let c = s[j];
        if c == '<' {
            depth = depth + 1;
        } else if c == '>' {
            if depth == 0 {
                return j;
            }
            depth = depth - 1;
        } else if depth > 0 && (c == ',' || c == ' ' || c == '*') {
        } else if char_is_alphanumeric(c) || c == '_' || c == '.' || c == '?' {
        } else {
            return j;
        }
        j = j + 1;
    }
}

/// `s` without one trailing `?`.
pub open spec fn without_nullable_mark(s: Seq<char>) -> Seq<char> {
    if s.len() > 0 && s.last() == '?' {
        s.drop_last()
    } else {
        s
    }
}

// ─── parentheses ─────────────────────────────────────────────────────────────

/// Scanning from `j` with `depth` parentheses open, the position of the `)`
/// that brings the depth from one back to zero, or `-1`.
pub open spec fn close_paren_from(s: Seq<char>, j: int, depth: int) -> int
    decreases s.len() - j,
{
    if j < 0 || j >= s.len() {
        -1
    } else if s[j] == '(' {
        close_paren_from(s, j + 1, depth + 1)
    } else if s[j] == ')' {
        if depth == 1 {
            j
        } else {
            close_paren_from(s, j + 1, depth - 1)
        }
    } else {
        close_paren_from(s, j + 1, depth)
    }
}

pub proof fn lemma_close_paren_from(s: Seq<char>, j: int, depth: int)
    requires
        0 <= j,
    ensures
        close_paren_from(s, j, depth) == -1 || (j <= close_paren_from(s, j, depth) < s.len()
            && s[close_paren_from(s, j, depth)] == ')'),
    decreases s.len() - j,
{
    if j < s.len() {
        if s[j] == '(' {
            lemma_close_paren_from(s, j + 1, depth + 1);
        } else if s[j] == ')' {
            if depth != 1 {
                lemma_close_paren_from(s, j + 1, depth - 1);
            }
        } else {
            lemma_close_paren_from(s, j + 1, depth);
        }
    }
}

/// The `)` matching the parenthesis opened at or after `from` (see
/// [`close_paren_from`] with no parenthesis open yet).
fn close_paren_exec(s: &Vec<char>, from: usize) -> (r: Option<usize>)
    ensures
        match r {
            Some(k) => close_paren_from(s@, from as int, 0) == k as int,
            None => close_paren_from(s@, from as int, 0) == -1,
        },
{
    proof {
        lemma_close_paren_from(s@, from as int, 0);
    }
    if from >= s.len() {
        return None;
    }
    let mut j = from;
    let mut opens: usize = 0;
    let mut closes: usize = 0;
    loop
        invariant
            from <= j <= s@.len(),
            opens + closes <= j - from,
            close_paren_from(s@, j as int, opens - closes) == close_paren_from(
                s@,
                from as int,
                0,
            ),
        decreases s@.len() - j,
    {
        if j >= s.len() {
            return None;
        }
        if s[j] == '(' {
            opens = opens + 1;
        } else if s[j] == ')' {
            if opens == closes + 1 {
                return Some(j);
            }
            closes = closes + 1;
        }
        j = j + 1;
    }
}

/// Whether the call whose argument list opens at `paren_pos` is followed
/// directly by a `.` (a chained call such as `getList(x).joinAll()`).
/// Parentheses nested in the arguments are skipped; an argument list that
/// never closes answers `false`.
pub fn has_dot_after_first_call(text: &str, paren_pos: usize) -> (r: bool)
    ensures
        r == ({
            let j = close_paren_from(text@, paren_pos as int, 0);
            j >= 0 && j + 1 < text@.len() && text@[j + 1] == '.'
        }),
{
    let chars = str_chars(text);
    match close_paren_exec(&chars, paren_pos) {
        Some(j) => {
            proof {
                lemma_close_paren_from(chars@, paren_pos as int, 0);
            }
            j + 1 < chars.len() && chars[j + 1] == '.'
        },
        None => false,
    }
}

// ─── declaration details ─────────────────────────────────────────────────────

/// The return type declared by a function detail `fun name(params): Type`:
/// the type written after `:` past the parameter list's closing parenthesis,
/// without a trailing `?`; `None` without a parameter list, without a
/// declared type, or for a type that does not start with an uppercase letter
/// (primitive `int`, `void`, ...).
pub open spec fn detail_return_type(d: Seq<char>) -> Option<Seq<char>> {
    let open = first_where(d, is_char('('));
    let close = close_paren_from(d, open as int, 0);
    let colon = skip_spaces(d, close + 1);
    let ty = without_nullable_mark(type_token(d, skip_spaces(d, colon + 1)));
    if open >= d.len() || close < 0 || colon >= d.len() || d[colon] != ':' {
        None
    } else if ty.len() > 0 && unicode_uppercase(ty[0]) {
        Some(ty)
    } else {
        None
    }
}

/// The return type declared by a function's detail string (see
/// [`detail_return_type`]): `"fun find(): User?"` → `"User"`.
pub fn extract_return_type_from_detail(detail: &str) -> (r: Option<String>)
    ensures
        match r {
            Some(t) => detail_return_type(detail@) == Some(t@),
            None => detail_return_type(detail@) is None,
        },
{
    let d = str_chars(detail);
    let open = find_char(&d, '(');
    proof {
        lemma_first_where(d@, is_char('('));
    }
    if open >= d.len() {
        return None;
    }
    let close = match close_paren_exec(&d, open) {
        Some(c) => c,
        None => return None,
    };
    proof {
        lemma_close_paren_from(d@, open as int, 0);
    }
    let colon = skip_spaces_exec(&d, close + 1);
    if colon >= d.len() || d[colon] != ':' {
        return None;
    }
    let t = skip_spaces_exec(&d, colon + 1);
    let mut e = type_token_end_exec(&d, t);
    if e > t && d[e - 1] == '?' {
        e = e - 1;
    }
    proof {
        assert(detail@.subrange(t as int, e as int) =~= without_nullable_mark(
            type_token(detail@, t as int),
        ));
    }
    if e > t && char_is_uppercase(d[t]) {
        Some(detail.substring_char(t, e).to_owned())
    } else {
        None
    }
}

/// `val` or `var` standing as a word at position `i` of `d`, followed by a
/// space.
pub open spec fn property_keyword_at(d: Seq<char>, i: int) -> bool {
    &&& occurs_at(d, seq!['v', 'a', 'l'], i) || occurs_at(d, seq!['v', 'a', 'r'], i)
    &&& i == 0 || !word_char(d[i - 1])
    &&& i + 3 < d.len() && d[i + 3] == ' '
}

pub open spec fn property_keyword(d: Seq<char>) -> spec_fn(int) -> bool {
    |i: int| property_keyword_at(d, i)
}

pub open spec fn colon_at(d: Seq<char>) -> spec_fn(int) -> bool {
    |i: int| d[i] == ':'
}

/// The type declared by a property detail such as
/// `"public val Receiver.name: Type get() = …"`: the type written after the
/// first `:` that follows the `val`/`var` keyword, without a trailing `?`;
/// `None` without such a keyword, colon or type.
pub open spec fn detail_property_type(d: Seq<char>) -> Option<Seq<char>> {
    let kw = first_pos(0, d.len() as int, property_keyword(d));
    let colon = first_pos(kw + 4, d.len() as int, colon_at(d));
    let ty = without_nullable_mark(type_token(d, skip_spaces(d, colon + 1)));
    if kw < 0 || colon < 0 || ty.len() == 0 {
        None
    } else {
        Some(ty)
    }
}

fn property_keyword_exec(d: &Vec<char>, i: usize) -> (r: bool)
    requires
        i < d@.len(),
    ensures
        r == property_keyword_at(d@, i as int),
{
    let val_kw = vec!['v', 'a', 'l'];
    let var_kw = vec!['v', 'a', 'r'];
    assert(val_kw@ =~= seq!['v', 'a', 'l']);
    assert(var_kw@ =~= seq!['v', 'a', 'r']);
    (matches_at(d, &val_kw, i) || matches_at(d, &var_kw, i)) && (i == 0 || !is_word_char(
        d[i - 1],
    )) && d.len() - i > 3 && d[i + 3] == ' '
}

/// The type declared by a property's detail string (see
/// [`detail_property_type`]): `"val items: List<Product>"` → `"List<Product>"`.
pub fn extract_property_type_from_detail(detail: &str) -> (r: Option<String>)
    ensures
        match r {
            Some(t) => detail_property_type(detail@) == Some(t@),
            None => detail_property_type(detail@) is None,
        },
{
    let d = str_chars(detail);
    let n = d.len();
    let mut kw: usize = 0;
    while kw < n && !property_keyword_exec(&d, kw)
        invariant
            d@ == detail@,
            n == d@.len(),
            kw <= n,
            forall|k: int| 0 <= k < kw ==> !#[trigger] property_keyword_at(detail@, k),
        decreases n - kw,
    {
        kw = kw + 1;
    }
    if kw == n {
        proof {
            lemma_first_pos_unique(0, n as int, property_keyword(detail@), -1);
        }
        return None;
    }
    proof {
        lemma_first_pos_unique(0, n as int, property_keyword(detail@), kw as int);
    }
    let mut colon: usize = kw + 4;
    while colon < n && d[colon] != ':'
        invariant
            d@ == detail@,
            n == d@.len(),
            kw + 4 <= colon <= n || (colon == kw + 4 && colon > n),
            forall|k: int| kw + 4 <= k < colon ==> #[trigger] detail@[k] != ':',
        decreases n - colon,
    {
        colon = colon + 1;
    }
    if colon >= n {
        proof {
            lemma_first_pos_unique(kw + 4int, n as int, colon_at(detail@), -1);
        }
        return None;
    }
    proof {
        lemma_first_pos_unique(kw + 4int, n as int, colon_at(detail@), colon as int);
    }
    let t = skip_spaces_exec(&d, colon + 1);
    let mut e = type_token_end_exec(&d, t);
    if e > t && d[e - 1] == '?' {
        e = e - 1;
    }
    proof {
        assert(detail@.subrange(t as int, e as int) =~= without_nullable_mark(
            type_token(detail@, t as int),
        ));
    }
    if e > t {
        Some(detail.substring_char(t, e).to_owned())
    } else {
        None
    }
}

// ─── declared types on source lines ──────────────────────────────────────────

/// The raw type that `line` declares for `name` at position `k`: `name`
/// starts a word there and is followed, past spaces, by a single `:` and then
/// a non-empty type token (`val name: Type`, `name: Type` in a parameter list).
pub open spec fn declared_type_at(line: Seq<char>, name: Seq<char>, k: int) -> Option<Seq<char>> {
    let b = skip_spaces(line, k + name.len());
    let ty = type_token(line, skip_spaces(line, b + 1));
    if occurs_at(line, name, k) && (k == 0 || !word_char(line[k - 1])) && b < line.len() && line[b]
        == ':' && !(b + 1 < line.len() && line[b + 1] == ':') && ty.len() > 0 {
        Some(ty)
    } else {
        None
    }
}

pub open spec fn declares_type(line: Seq<char>, name: Seq<char>) -> spec_fn(int) -> bool {
    |k: int| declared_type_at(line, name, k) is Some
}

/// The raw type declared for `name` by its first declaration on `line`.
pub open spec fn declared_type_in_line(line: Seq<char>, name: Seq<char>) -> Option<Seq<char>> {
    let k = first_pos(0, line.len() + 1int, declares_type(line, name));
    if k < 0 {
        None
    } else {
        declared_type_at(line, name, k)
    }
}

fn declared_type_at_exec(line: &Vec<char>, name: &Vec<char>, k: usize) -> (r: Option<(
    usize,
    usize,
)>)
    requires
        k <= line@.len(),
    ensures
        match r {
            Some((a, e)) => a <= e <= line@.len() && declared_type_at(line@, name@, k as int)
                == Some(line@.subrange(a as int, e as int)),
            None => declared_type_at(line@, name@, k as int) is None,
        },
{
    if !matches_at(line, name, k) {
        return None;
    }
    if k > 0 && is_word_char(line[k - 1]) {
        return None;
    }
    proof {
        lemma_skip_spaces(line@, k + name@.len());
    }
    let _ = line.len();
    let name_end = k + name.len();
    let b = skip_spaces_exec(line, name_end);
    if b >= line.len() || line[b] != ':' {
        return None;
    }
    if b + 1 < line.len() && line[b + 1] == ':' {
        return None;
    }
    let t = skip_spaces_exec(line, b + 1);
    let e = type_token_end_exec(line, t);
    if e > t {
        Some((t, e))
    } else {
        None
    }
}

/// The raw type (generics and `?` kept) that `line` declares for `name`, at
/// the first place that declares one (see [`declared_type_at`]).
pub fn line_declared_type(line: &str, name: &str) -> (r: Option<String>)
    ensures
        match r {
            Some(t) => declared_type_in_line(line@, name@) == Some(t@),
            None => declared_type_in_line(line@, name@) is None,
        },
{
    let chars = str_chars(line);
    let nch = str_chars(name);
    let mut k: usize = 0;
    loop
        invariant
            chars@ == line@,
            nch@ == name@,
            k <= chars@.len(),
            forall|j: int| 0 <= j < k ==> declared_type_at(line@, name@, j) is None,
        decreases chars@.len() - k,
    {
        match declared_type_at_exec(&chars, &nch, k) {
            Some((a, e)) => {
                proof {
                    lemma_first_pos_unique(0, line@.len() + 1int, declares_type(line@, name@), k as int);
                }
                return Some(line.substring_char(a, e).to_owned());
            },
            None => {},
        }
        if k == chars.len() {
            proof {
                lemma_first_pos_unique(0, line@.len() + 1int, declares_type(line@, name@), -1);
            }
            return None;
        }
        k = k + 1;
    }
}

// ─── function types ──────────────────────────────────────────────────────────

/// `#'(' - #')'` among the first `i` characters of `s`.
pub open spec fn paren_depth(s: Seq<char>, i: int) -> int
    decreases i,
{
    if i <= 0 {
        0
    } else if s[i - 1] == '(' {
        paren_depth(s, i - 1) + 1
    } else if s[i - 1] == ')' {
        paren_depth(s, i - 1) - 1
    } else {
        paren_depth(s, i - 1)
    }
}

/// ` -> ` occurs at `i` outside every parenthesis.
pub open spec fn outer_arrow_at(s: Seq<char>, i: int) -> bool {
    occurs_at(s, seq![' ', '-', '>', ' '], i) && paren_depth(s, i) == 0
}

/// The first ` -> ` of a function type that no parenthesis encloses, or `-1`.
pub open spec fn outer_arrow(s: Seq<char>) -> int {
    first_pos(0, s.len() as int, arrow_outside_parens(s))
}

pub open spec fn arrow_outside_parens(s: Seq<char>) -> spec_fn(int) -> bool {
    |i: int| outer_arrow_at(s, i)
}

/// Position of the ` -> ` separating a function type's parameters from its
/// result (see [`outer_arrow`]).
pub fn find_outer_arrow(s: &str) -> (r: Option<usize>)
    ensures
        match r {
            Some(k) => outer_arrow(s@) == k as int,
            None => outer_arrow(s@) == -1,
        },
{
    let chars = str_chars(s);
    let arrow = vec![' ', '-', '>', ' '];
    assert(arrow@ =~= seq![' ', '-', '>', ' ']);
    let mut opens: usize = 0;
    let mut closes: usize = 0;
    let mut i: usize = 0;
    while i < chars.len()
        invariant
            chars@ == s@,
            arrow@ == seq![' ', '-', '>', ' '],
            i <= chars@.len(),
            opens + closes <= i,
            paren_depth(s@, i as int) == opens - closes,
            forall|k: int| 0 <= k < i ==> !#[trigger] outer_arrow_at(s@, k),
        decreases chars.len() - i,
    {
        if opens == closes && matches_at(&chars, &arrow, i) {
            proof {
                lemma_first_pos_unique(0, s@.len() as int, arrow_outside_parens(s@), i as int);
            }
            return Some(i);
        }
        if chars[i] == '(' {
            opens = opens + 1;
        } else if chars[i] == ')' {
            closes = closes + 1;
        }
        i = i + 1;
    }
    proof {
        lemma_first_pos_unique(0, s@.len() as int, arrow_outside_parens(s@), -1);
    }
    None
}

/// The result type of a function type: whatever follows its outer ` -> `,
/// trimmed.
pub open spec fn fn_type_result(s: Seq<char>) -> Option<Seq<char>> {
    let arrow = outer_arrow(s);
    let ret = trim_ws(s.skip(arrow + 4));
    if arrow < 0 || ret.len() == 0 {
        None
    } else {
        Some(ret)
    }
}

/// Extract the return type from a Kotlin function-type string.
///
/// `"(isRefresh: Boolean) -> Flow<ResultState<T>>"` → `"Flow<ResultState<T>>"`,
/// `"() -> Unit"` → `"Unit"`, `"((Foo) -> Bar) -> Baz"` → `"Baz"`.
pub fn extract_fn_type_return(fn_type: &str) -> (r: Option<String>)
    ensures
        match r {
            Some(t) => fn_type_result(fn_type@) == Some(t@),
            None => fn_type_result(fn_type@) is None,
        },
{
    let arrow = match find_outer_arrow(fn_type) {
        Some(a) => a,
        None => return None,
    };
    proof {
        lemma_first_pos(0, fn_type@.len() as int, arrow_outside_parens(fn_type@));
    }
    let n = fn_type.unicode_len();
    let rest = fn_type.substring_char(arrow + 4, n);
    assert(rest@ =~= fn_type@.skip(arrow + 4int));
    let ret = trim_str(rest);
    if ret.unicode_len() == 0 {
        return None;
    }
    Some(ret.to_owned())
}

} // verus!
