//! Character and string primitives shared by every resolver module.
//!
//! Strings are reasoned about through their character view (`s@: Seq<char>`);
//! every position below is a character index.

use vstd::prelude::*;

verus! {

// ─── ASCII character classes ──────────────────────────────────────────────────

pub open spec fn is_ascii_upper(c: char) -> bool {
    'A' <= c && c <= 'Z'
}

pub open spec fn is_ascii_lower(c: char) -> bool {
    'a' <= c && c <= 'z'
}

pub open spec fn is_ascii_digit(c: char) -> bool {
    '0' <= c && c <= '9'
}

pub open spec fn is_ascii_alnum(c: char) -> bool {
    is_ascii_upper(c) || is_ascii_lower(c) || is_ascii_digit(c)
}

/// `c` with an ASCII uppercase letter mapped to lowercase, as
/// `char::to_ascii_lowercase` does.
pub open spec fn ascii_lower(c: char) -> char {
    if is_ascii_upper(c) {
        ((c as u32) + 32) as char
    } else {
        c
    }
}

/// `c` with an ASCII lowercase letter mapped to uppercase, as
/// `char::to_ascii_uppercase` does.
pub open spec fn ascii_upper(c: char) -> char {
    if is_ascii_lower(c) {
        ((c as u32) - 32) as char
    } else {
        c
    }
}

pub open spec fn ascii_lower_seq(s: Seq<char>) -> Seq<char> {
    Seq::new(s.len(), |i: int| ascii_lower(s[i]))
}

pub fn to_ascii_lower(c: char) -> (r: char)
    ensures
        r == ascii_lower(c),
{
    if 'A' <= c && c <= 'Z' {
        let b = c as u8;
        (b + 32) as char
    } else {
        c
    }
}

pub fn is_ascii_alnum_exec(c: char) -> (r: bool)
    ensures
        r == is_ascii_alnum(c),
{
    ('A' <= c && c <= 'Z') || ('a' <= c && c <= 'z') || ('0' <= c && c <= '9')
}

/// A character that continues an identifier for whole-word matching: ASCII
/// alphanumeric or `_`.
pub open spec fn word_char(c: char) -> bool {
    is_ascii_alnum(c) || c == '_'
}

pub fn is_word_char(c: char) -> (r: bool)
    ensures
        r == word_char(c),
{
    is_ascii_alnum_exec(c) || c == '_'
}

pub fn is_ascii_digit_exec(c: char) -> (r: bool)
    ensures
        r == is_ascii_digit(c),
{
    '0' <= c && c <= '9'
}

// ─── Unicode character classes (std) ─────────────────────────────────────────

/// What `char::is_uppercase` answers for `c` (the Unicode `Uppercase` property).
pub uninterp spec fn unicode_uppercase(c: char) -> bool;

/// What `char::is_lowercase` answers for `c` (the Unicode `Lowercase` property).
pub uninterp spec fn unicode_lowercase(c: char) -> bool;

/// What `char::is_alphabetic` answers for `c` (the Unicode `Alphabetic` property).
pub uninterp spec fn unicode_alphabetic(c: char) -> bool;

/// What `char::is_alphanumeric` answers for `c` (Alphabetic or Numeric).
pub uninterp spec fn unicode_alphanumeric(c: char) -> bool;

/// What `char::is_whitespace` answers for `c` (the Unicode `White_Space` property).
pub uninterp spec fn unicode_whitespace(c: char) -> bool;

/// The characters of `char::to_lowercase(c)` (one or more characters).
pub uninterp spec fn unicode_lower(c: char) -> Seq<char>;

/// The first character of the lowercase mapping of `c`.
pub open spec fn unicode_lower_first(c: char) -> char {
    unicode_lower(c)[0]
}

/// The characters of `char::to_uppercase(c)` (one or more characters).
pub uninterp spec fn unicode_upper(c: char) -> Seq<char>;

/// Calls `char::is_uppercase`; its result is named [`unicode_uppercase`]:
/// as std documents, the ASCII letters `A`–`Z` are uppercase and `a`–`z`
/// are not; nothing further is claimed of it.
#[verifier::external_body]
pub(crate) fn char_is_uppercase(c: char) -> (r: bool)
    ensures
        r == unicode_uppercase(c),
        'A' <= c <= 'Z' ==> r,
        'a' <= c <= 'z' ==> !r,
{
    c.is_uppercase()
}

/// Calls `char::is_lowercase`; its result is named [`unicode_lowercase`]:
/// as std documents, the ASCII letters `a`–`z` are lowercase and `A`–`Z`
/// are not; nothing further is claimed of it.
#[verifier::external_body]
pub(crate) fn char_is_lowercase(c: char) -> (r: bool)
    ensures
        r == unicode_lowercase(c),
        'a' <= c <= 'z' ==> r,
        'A' <= c <= 'Z' ==> !r,
{
    c.is_lowercase()
}

/// Calls `char::is_alphabetic`; its result is named [`unicode_alphabetic`]:
/// as std documents, the ASCII letters are alphabetic and the ASCII digits
/// are not; nothing further is claimed of it.
#[verifier::external_body]
pub(crate) fn char_is_alphabetic(c: char) -> (r: bool)
    ensures
        r == unicode_alphabetic(c),
        is_ascii_upper(c) || is_ascii_lower(c) ==> r,
        is_ascii_digit(c) ==> !r,
{
    c.is_alphabetic()
}

/// Calls `char::is_whitespace`; its result is named [`unicode_whitespace`]:
/// as std documents, space, tab, line feed and carriage return are white
/// space and ASCII letters and digits are not; nothing further is claimed of
/// it.
#[verifier::external_body]
pub(crate) fn char_is_whitespace(c: char) -> (r: bool)
    ensures
        r == unicode_whitespace(c),
        c == ' ' || c == '\t' || c == '\n' || c == '\r' ==> r,
        is_ascii_alnum(c) ==> !r,
{
    c.is_whitespace()
}

/// Calls `char::is_alphanumeric`; its result is named [`unicode_alphanumeric`]:
/// as std documents, ASCII letters and digits are alphanumeric; nothing
/// further is claimed of it.
#[verifier::external_body]
pub(crate) fn char_is_alphanumeric(c: char) -> (r: bool)
    ensures
        r == unicode_alphanumeric(c),
        is_ascii_alnum(c) ==> r,
{
    c.is_alphanumeric()
}

/// Calls `char::to_lowercase` and collects its characters into a `String`;
/// the result is named [`unicode_lower`], and, as the method's
/// documentation says, holds at least one character; an ASCII character
/// maps to its ASCII lowercase form alone.
#[verifier::external_body]
fn char_lower_string(c: char) -> (r: String)
    ensures
        r@ == unicode_lower(c),
        r@.len() >= 1,
        (c as u32) < 128 ==> r@ == seq![ascii_lower(c)],
{
    c.to_lowercase().collect::<String>()
}

/// The first character of the lowercase mapping of `c`.
pub(crate) fn char_lower_first(c: char) -> (r: char)
    ensures
        r == unicode_lower_first(c),
{
    let lower = char_lower_string(c);
    lower.as_str().get_char(0)
}

/// Calls `char::to_uppercase` and collects its characters into a `String`;
/// the result is named [`unicode_upper`], and, as the method's
/// documentation says, holds at least one character; an ASCII character
/// maps to its ASCII uppercase form alone.
#[verifier::external_body]
pub(crate) fn char_upper_string(c: char) -> (r: String)
    ensures
        r@ == unicode_upper(c),
        r@.len() >= 1,
        (c as u32) < 128 ==> r@ == seq![ascii_upper(c)],
{
    c.to_uppercase().collect::<String>()
}

// ─── Sequence search ──────────────────────────────────────────────────────────

/// Index of the first character of `s` satisfying `f`, or `s.len()` when none does.
pub open spec fn first_where(s: Seq<char>, f: spec_fn(char) -> bool) -> nat
    decreases s.len(),
{
    if s.len() == 0 {
        0
    } else if f(s[0]) {
        0
    } else {
        1 + first_where(s.drop_first(), f)
    }
}

/// `k` is the position [`first_where`] describes.
pub open spec fn is_first_where(s: Seq<char>, f: spec_fn(char) -> bool, k: int) -> bool {
    &&& 0 <= k <= s.len()
    &&& forall|j: int| 0 <= j < k ==> !f(#[trigger] s[j])
    &&& k < s.len() ==> f(s[k])
}

pub proof fn lemma_first_where(s: Seq<char>, f: spec_fn(char) -> bool)
    ensures
        is_first_where(s, f, first_where(s, f) as int),
    decreases s.len(),
{
    if s.len() > 0 && !f(s[0]) {
        lemma_first_where(s.drop_first(), f);
        let k = first_where(s.drop_first(), f) as int;
        assert forall|j: int| 0 <= j < k + 1 implies !f(#[trigger] s[j]) by {
            if j > 0 {
                assert(s[j] == s.drop_first()[j - 1]);
            }
        }
        if k + 1 < s.len() {
            assert(s[k + 1] == s.drop_first()[k]);
        }
    }
}

pub proof fn lemma_first_where_unique(s: Seq<char>, f: spec_fn(char) -> bool, k: int)
    requires
        is_first_where(s, f, k),
    ensures
        first_where(s, f) == k,
{
    lemma_first_where(s, f);
    let m = first_where(s, f) as int;
    if m < k {
        assert(!f(s[m]));
    }
    if k < m {
        assert(!f(s[k]));
    }
}

/// Index of the last character of `s` satisfying `f`, or `-1` when none does.
pub open spec fn last_where(s: Seq<char>, f: spec_fn(char) -> bool) -> int
    decreases s.len(),
{
    if s.len() == 0 {
        -1
    } else if f(s.last()) {
        s.len() - 1
    } else {
        last_where(s.drop_last(), f)
    }
}

pub open spec fn is_last_where(s: Seq<char>, f: spec_fn(char) -> bool, k: int) -> bool {
    &&& -1 <= k < s.len()
    &&& forall|j: int| k < j < s.len() ==> !f(#[trigger] s[j])
    &&& k >= 0 ==> f(s[k])
}

pub proof fn lemma_last_where(s: Seq<char>, f: spec_fn(char) -> bool)
    ensures
        is_last_where(s, f, last_where(s, f)),
    decreases s.len(),
{
    if s.len() > 0 && !f(s.last()) {
        lemma_last_where(s.drop_last(), f);
        let k = last_where(s.drop_last(), f);
        assert forall|j: int| k < j < s.len() implies !f(#[trigger] s[j]) by {
            if j < s.len() - 1 {
                assert(s[j] == s.drop_last()[j]);
            }
        }
        if k >= 0 {
            assert(s[k] == s.drop_last()[k]);
        }
    }
}

pub proof fn lemma_last_where_unique(s: Seq<char>, f: spec_fn(char) -> bool, k: int)
    requires
        is_last_where(s, f, k),
    ensures
        last_where(s, f) == k,
{
    lemma_last_where(s, f);
    let m = last_where(s, f);
    if m < k {
        assert(!f(s[k]));
    }
    if k < m {
        assert(!f(s[m]));
    }
}

/// The equality predicate `|x| x == c`.
pub open spec fn is_char(c: char) -> spec_fn(char) -> bool {
    |x: char| x == c
}

/// The characters of `s`, in order.
pub fn str_chars(s: &str) -> (out: Vec<char>)
    ensures
        out@ == s@,
{
    let mut out: Vec<char> = Vec::new();
    let n = s.unicode_len();
    let mut i: usize = 0;
    while i < n
        invariant
            n == s@.len(),
            i <= n,
            out@ == s@.subrange(0, i as int),
        decreases n - i,
    {
        out.push(s.get_char(i));
        i = i + 1;
    }
    out
}

/// Position of the first `c` in `s`, or `s.len()` when `c` does not occur.
pub fn find_char(s: &Vec<char>, c: char) -> (k: usize)
    ensures
        k == first_where(s@, is_char(c)),
{
    let mut i: usize = 0;
    while i < s.len()
        invariant
            i <= s@.len(),
            forall|j: int| 0 <= j < i ==> s@[j] != c,
        decreases s.len() - i,
    {
        if s[i] == c {
            proof {
                lemma_first_where_unique(s@, is_char(c), i as int);
            }
            return i;
        }
        i = i + 1;
    }
    proof {
        lemma_first_where_unique(s@, is_char(c), i as int);
    }
    i
}

/// Position of the last `c` in `s`, or `None` when `c` does not occur.
pub fn rfind_char(s: &Vec<char>, c: char) -> (k: Option<usize>)
    ensures
        match k {
            Some(k) => last_where(s@, is_char(c)) == k as int,
            None => last_where(s@, is_char(c)) == -1,
        },
{
    let mut i: usize = s.len();
    while i > 0
        invariant
            i <= s@.len(),
            forall|j: int| i <= j < s@.len() ==> s@[j] != c,
        decreases i,
    {
        if s[i - 1] == c {
            proof {
                lemma_last_where_unique(s@, is_char(c), i - 1);
            }
            return Some(i - 1);
        }
        i = i - 1;
    }
    proof {
        lemma_last_where_unique(s@, is_char(c), -1);
    }
    None
}

/// The first position `k` in `from..to` with `pred(k)`, or `-1`.
pub open spec fn first_pos(from: int, to: int, pred: spec_fn(int) -> bool) -> int
    decreases to - from,
{
    if from >= to {
        -1
    } else if pred(from) {
        from
    } else {
        first_pos(from + 1, to, pred)
    }
}

pub proof fn lemma_first_pos(from: int, to: int, pred: spec_fn(int) -> bool)
    requires
        0 <= from,
    ensures
        first_pos(from, to, pred) == -1 || (from <= first_pos(from, to, pred) < to && pred(
            first_pos(from, to, pred),
        )),
        forall|k: int|
            from <= k < to && (first_pos(from, to, pred) == -1 || k < first_pos(from, to, pred))
                ==> !#[trigger] pred(k),
    decreases to - from,
{
    let r = first_pos(from, to, pred);
    if from >= to {
        assert(r == -1);
    } else if pred(from) {
        assert(r == from);
    } else {
        lemma_first_pos(from + 1, to, pred);
        assert(r == first_pos(from + 1, to, pred));
        assert forall|k: int| from <= k < to && (r == -1 || k < r) implies !#[trigger] pred(k) by {
            if k > from {
                assert(from + 1 <= k);
            }
        }
    }
}

pub proof fn lemma_first_pos_unique(from: int, to: int, pred: spec_fn(int) -> bool, r: int)
    requires
        0 <= from,
        r == -1 || (from <= r < to && pred(r)),
        forall|k: int| from <= k < to && (r == -1 || k < r) ==> !#[trigger] pred(k),
    ensures
        first_pos(from, to, pred) == r,
    decreases to - from,
{
    if from >= to {
        assert(r == -1);
    } else if r == from {
        assert(pred(from));
    } else {
        assert(!pred(from));
        lemma_first_pos_unique(from + 1, to, pred, r);
    }
}

/// Not a whitespace character.
pub open spec fn not_whitespace() -> spec_fn(char) -> bool {
    |c: char| !unicode_whitespace(c)
}

/// `s` without leading and trailing whitespace, as `str::trim` gives it.
pub open spec fn trim_ws(s: Seq<char>) -> Seq<char> {
    let a = first_where(s, not_whitespace());
    if a >= s.len() {
        Seq::empty()
    } else {
        s.subrange(a as int, last_where(s, not_whitespace()) + 1)
    }
}

/// `s` without leading and trailing whitespace.
pub fn trim_str(s: &str) -> (r: &str)
    ensures
        r@ == trim_ws(s@),
{
    let chars = str_chars(s);
    let n = chars.len();
    let mut a: usize = 0;
    while a < n && char_is_whitespace(chars[a])
        invariant
            chars@ == s@,
            n == chars@.len(),
            a <= n,
            forall|j: int| 0 <= j < a ==> unicode_whitespace(#[trigger] chars@[j]),
        decreases n - a,
    {
        a = a + 1;
    }
    proof {
        lemma_first_where_unique(s@, not_whitespace(), a as int);
    }
    if a == n {
        return s.substring_char(0, 0);
    }
    let mut b: usize = n;
    while b > a + 1 && char_is_whitespace(chars[b - 1])
        invariant
            chars@ == s@,
            n == chars@.len(),
            a < n,
            !unicode_whitespace(chars@[a as int]),
            a + 1 <= b <= n,
            forall|j: int| b <= j < n ==> unicode_whitespace(#[trigger] chars@[j]),
        decreases b,
    {
        b = b - 1;
    }
    proof {
        assert(!unicode_whitespace(chars@[b - 1]));
        lemma_last_where_unique(s@, not_whitespace(), b - 1);
    }
    s.substring_char(a, b)
}

// ─── Prefix / suffix / substring ──────────────────────────────────────────────

pub open spec fn seq_starts_with(s: Seq<char>, p: Seq<char>) -> bool {
    p.len() <= s.len() && s.subrange(0, p.len() as int) == p
}

pub open spec fn seq_ends_with(s: Seq<char>, p: Seq<char>) -> bool {
    p.len() <= s.len() && s.subrange(s.len() - p.len(), s.len() as int) == p
}

/// `p` occurs in `s` starting at position `i`.
pub open spec fn occurs_at(s: Seq<char>, p: Seq<char>, i: int) -> bool {
    0 <= i && i + p.len() <= s.len() && s.subrange(i, i + p.len()) == p
}

pub open spec fn seq_contains(s: Seq<char>, p: Seq<char>) -> bool {
    exists|i: int| occurs_at(s, p, i)
}

/// Whether `p` is a prefix of `s`.
pub fn starts_with(s: &Vec<char>, p: &Vec<char>) -> (r: bool)
    ensures
        r == seq_starts_with(s@, p@),
{
    if p.len() > s.len() {
        return false;
    }
    matches_at(s, p, 0)
}

/// Whether `p` is a suffix of `s`.
pub fn ends_with(s: &Vec<char>, p: &Vec<char>) -> (r: bool)
    ensures
        r == seq_ends_with(s@, p@),
{
    if p.len() > s.len() {
        return false;
    }
    matches_at(s, p, s.len() - p.len())
}

/// Whether `p` occurs in `s` starting at position `i`.
pub fn matches_at(s: &Vec<char>, p: &Vec<char>, i: usize) -> (r: bool)
    ensures
        r == occurs_at(s@, p@, i as int),
{
    if i > s.len() || p.len() > s.len() - i {
        return false;
    }
    let mut j: usize = 0;
    while j < p.len()
        invariant
            i + p@.len() <= s@.len(),
            i <= s@.len(),
            j <= p@.len(),
            forall|k: int| 0 <= k < j ==> s@[i + k] == p@[k],
        decreases p.len() - j,
    {
        assert(i + j < s.len());
        if s[i + j] != p[j] {
            assert(s@.subrange(i as int, i + p@.len())[j as int] != p@[j as int]);
            return false;
        }
        j = j + 1;
    }
    assert(s@.subrange(i as int, i + p@.len()) =~= p@);
    true
}

/// Whether `p` occurs anywhere in `s`.
pub fn contains(s: &Vec<char>, p: &Vec<char>) -> (r: bool)
    ensures
        r == seq_contains(s@, p@),
{
    if p.len() > s.len() {
        return false;
    }
    let last = s.len() - p.len();
    let mut i: usize = 0;
    loop
        invariant
            last + p@.len() == s@.len(),
            i <= last,
            forall|k: int| 0 <= k < i ==> !occurs_at(s@, p@, k),
        decreases last - i,
    {
        if matches_at(s, p, i) {
            return true;
        }
        if i == last {
            assert forall|k: int| !occurs_at(s@, p@, k) by {
                if 0 <= k < i {
                }
            }
            return false;
        }
        i = i + 1;
    }
}

/// The first position at or after `i` where `p` occurs in `s`, or `-1`.
pub open spec fn find_from(s: Seq<char>, p: Seq<char>, i: int) -> int
    decreases s.len() - i,
{
    if i < 0 || i + p.len() > s.len() {
        -1
    } else if p.len() == 0 || occurs_at(s, p, i) {
        i
    } else {
        find_from(s, p, i + 1)
    }
}

pub proof fn lemma_find_from(s: Seq<char>, p: Seq<char>, i: int)
    requires
        0 <= i,
    ensures
        find_from(s, p, i) == -1 || i <= find_from(s, p, i),
        find_from(s, p, i) >= 0 ==> occurs_at(s, p, find_from(s, p, i)),
        forall|k: int|
            i <= k && (find_from(s, p, i) == -1 || k < find_from(s, p, i)) ==> !#[trigger] occurs_at(
                s,
                p,
                k,
            ),
    decreases s.len() - i,
{
    if p.len() == 0 && i + p.len() <= s.len() {
        assert(s.subrange(i, i + p.len()) =~= p);
    }
    if i + p.len() <= s.len() && p.len() > 0 && !occurs_at(s, p, i) {
        lemma_find_from(s, p, i + 1);
        assert forall|k: int|
            i <= k && (find_from(s, p, i) == -1 || k < find_from(s, p, i)) implies !#[trigger] occurs_at(
            s,
            p,
            k,
        ) by {
            if k > i {
            }
        }
    }
}

/// The first position at or after `i` where `p` occurs in `s`.
pub fn find_seq_from(s: &Vec<char>, p: &Vec<char>, i: usize) -> (r: Option<usize>)
    ensures
        match r {
            Some(k) => find_from(s@, p@, i as int) == k as int,
            None => find_from(s@, p@, i as int) == -1,
        },
{
    if i > s.len() || p.len() > s.len() - i {
        return None;
    }
    let last = s.len() - p.len();
    let mut k: usize = i;
    loop
        invariant
            last + p@.len() == s@.len(),
            i <= k <= last,
            find_from(s@, p@, i as int) == find_from(s@, p@, k as int),
        decreases last - k,
    {
        if matches_at(s, p, k) {
            return Some(k);
        }
        proof {
            if p@.len() == 0 {
                assert(s@.subrange(k as int, k as int) =~= p@);
            }
        }
        if k == last {
            assert(find_from(s@, p@, k + 1int) == -1);
            return None;
        }
        k = k + 1;
    }
}

/// A `String` holding exactly the characters `s[from..to]`.
pub fn slice_string(s: &str, from: usize, to: usize) -> (r: String)
    requires
        from <= to <= s@.len(),
    ensures
        r@ == s@.subrange(from as int, to as int),
{
    let sub = s.substring_char(from, to);
    sub.to_owned()
}

} // verus!
