//! Dot-separated names: splitting, joining and segment predicates.

use vstd::prelude::*;

use crate::text::{
    char_is_uppercase, find_char, first_where, is_char, last_where, lemma_first_where,
    is_last_where, lemma_last_where, rfind_char, slice_string, str_chars, unicode_uppercase,
};

verus! {

/// `s` split at every `sep`, exactly as `str::split(sep)` does: always at least
/// one (possibly empty) segment, and `k` separators give `k + 1` segments.
pub open spec fn split_char(s: Seq<char>, sep: char) -> Seq<Seq<char>>
    decreases s.len(),
{
    if s.len() == 0 {
        seq![Seq::<char>::empty()]
    } else {
        let front = split_char(s.drop_last(), sep);
        if s.last() == sep {
            front.push(Seq::<char>::empty())
        } else {
            front.update(front.len() - 1, front.last().push(s.last()))
        }
    }
}

pub proof fn lemma_split_char_nonempty(s: Seq<char>, sep: char)
    ensures
        split_char(s, sep).len() >= 1,
    decreases s.len(),
{
    if s.len() > 0 {
        lemma_split_char_nonempty(s.drop_last(), sep);
    }
}

/// `segs` joined with `sep` between consecutive segments (`[].join == ""`).
pub open spec fn join_char(segs: Seq<Seq<char>>, sep: char) -> Seq<char>
    decreases segs.len(),
{
    if segs.len() == 0 {
        Seq::<char>::empty()
    } else if segs.len() == 1 {
        segs[0]
    } else {
        join_char(segs.drop_last(), sep) + seq![sep] + segs.last()
    }
}

/// Splitting at `sep` and joining back with `sep` gives the string back.
pub proof fn law_split_then_join_round_trips(s: Seq<char>, sep: char)
    ensures
        join_char(split_char(s, sep), sep) == s,
    decreases s.len(),
{
    if s.len() > 0 {
        let front = split_char(s.drop_last(), sep);
        law_split_then_join_round_trips(s.drop_last(), sep);
        lemma_split_char_nonempty(s.drop_last(), sep);
        let x = s.last();
        if x == sep {
            let segs = front.push(Seq::<char>::empty());
            assert(segs.drop_last() =~= front);
            assert(join_char(segs, sep) =~= s.drop_last() + seq![sep] + Seq::<char>::empty());
            assert(s.drop_last() + seq![sep] + Seq::<char>::empty() =~= s);
        } else {
            let segs = front.update(front.len() - 1, front.last().push(x));
            if front.len() == 1 {
                assert(join_char(segs, sep) == segs[0]);
                assert(segs[0] =~= s.drop_last().push(x));
            } else {
                assert(segs.drop_last() =~= front.drop_last());
                assert(join_char(segs, sep) == join_char(front.drop_last(), sep) + seq![sep]
                    + front.last().push(x));
                assert(join_char(front, sep) == join_char(front.drop_last(), sep) + seq![sep]
                    + front.last());
                assert(join_char(front.drop_last(), sep) + seq![sep] + front.last().push(x)
                    =~= s.drop_last().push(x));
            }
            assert(s.drop_last().push(x) =~= s);
        }
    }
}

/// The segment after the last `.`, or the whole string when there is none.
pub open spec fn last_segment(s: Seq<char>) -> Seq<char> {
    s.skip(last_where(s, is_char('.')) + 1)
}

/// The segment before the first `.`, or the whole string when there is none.
pub open spec fn first_segment(s: Seq<char>) -> Seq<char> {
    s.take(first_where(s, is_char('.')) as int)
}

/// The part of `s` before its first `.` (all of `s` when it has none), as
/// `s.split('.').next()` gives it.
pub fn first_segment_str(s: &str) -> (r: &str)
    ensures
        r@ == first_segment(s@),
{
    let chars = str_chars(s);
    let k = find_char(&chars, '.');
    proof {
        lemma_first_where(s@, is_char('.'));
    }
    s.substring_char(0, k)
}

/// The part of `s` after its last `.` (all of `s` when it has none), as
/// `s.rsplit('.').next()` gives it.
pub fn last_segment_str(s: &str) -> (r: &str)
    ensures
        r@ == last_segment(s@),
{
    let chars = str_chars(s);
    proof {
        lemma_last_where(chars@, is_char('.'));
    }
    match rfind_char(&chars, '.') {
        Some(k) => {
            assert(is_last_where(chars@, is_char('.'), k as int));
            assert(k < chars.len());
            let n = chars.len();
            s.substring_char(k + 1, n)
        },
        None => s.substring_char(0, chars.len()),
    }
}

/// The views of a sequence of string slices.
pub open spec fn slice_views(v: Seq<&str>) -> Seq<Seq<char>> {
    v.map_values(|x: &str| x@)
}

/// `str::split(sep)`, each segment borrowed from `s`.
pub fn split_slices<'a>(s: &'a str, sep: char) -> (out: Vec<&'a str>)
    ensures
        slice_views(out@) == split_char(s@, sep),
{
    let chars = str_chars(s);
    let mut out: Vec<&'a str> = Vec::new();
    let mut start: usize = 0;
    let mut i: usize = 0;
    proof {
        assert(s@.subrange(0, 0) =~= Seq::<char>::empty());
        assert(slice_views(out@) + seq![s@.subrange(0, 0)] =~= seq![Seq::<char>::empty()]);
    }
    while i < chars.len()
        invariant
            chars@ == s@,
            start <= i <= chars@.len(),
            slice_views(out@) + seq![s@.subrange(start as int, i as int)] == split_char(
                s@.subrange(0, i as int),
                sep,
            ),
        decreases chars.len() - i,
    {
        let ghost prev = s@.subrange(0, i as int);
        let ghost next = s@.subrange(0, i + 1int);
        assert(next.drop_last() =~= prev);
        if chars[i] == sep {
            let ghost before = slice_views(out@);
            let seg = s.substring_char(start, i);
            out.push(seg);
            proof {
                assert(slice_views(out@) =~= before.push(s@.subrange(start as int, i as int)));
                assert(s@.subrange((i + 1) as int, (i + 1) as int) =~= Seq::<char>::empty());
            }
            start = i + 1;
        } else {
            proof {
                assert(s@.subrange(start as int, i + 1int) =~= s@.subrange(
                    start as int,
                    i as int,
                ).push(chars@[i as int]));
            }
        }
        i = i + 1;
        proof {
            let d = slice_views(out@);
            let segs = split_char(s@.subrange(0, i as int), sep);
            assert(d + seq![s@.subrange(start as int, i as int)] =~= segs);
        }
    }
    let ghost before = slice_views(out@);
    let last = s.substring_char(start, chars.len());
    out.push(last);
    proof {
        assert(s@.subrange(0, s@.len() as int) =~= s@);
        assert(slice_views(out@) =~= before.push(s@.subrange(start as int, chars@.len() as int)));
    }
    out
}

/// Whether the first character of `s` is uppercase (Unicode), as used to tell
/// a type name (`Outer`) from a package or value name (`com`, `repo`).
pub open spec fn starts_uppercase(s: Seq<char>) -> bool {
    s.len() > 0 && unicode_uppercase(s[0])
}

/// `str::split(sep)`, each segment collected into a `String`.
pub fn split_str(s: &str, sep: char) -> (out: Vec<String>)
    ensures
        out.deep_view() == split_char(s@, sep),
{
    let chars = str_chars(s);
    let mut out: Vec<String> = Vec::new();
    let mut start: usize = 0;
    let mut i: usize = 0;
    proof {
        assert(s@.subrange(0, 0) =~= Seq::<char>::empty());
        assert(out.deep_view() + seq![s@.subrange(0, 0)] =~= seq![Seq::<char>::empty()]);
    }
    while i < chars.len()
        invariant
            chars@ == s@,
            start <= i <= chars@.len(),
            out.deep_view() + seq![s@.subrange(start as int, i as int)] == split_char(
                s@.subrange(0, i as int),
                sep,
            ),
        decreases chars.len() - i,
    {
        let ghost prev = s@.subrange(0, i as int);
        let ghost next = s@.subrange(0, i + 1int);
        assert(next.drop_last() =~= prev);
        if chars[i] == sep {
            let ghost before = out.deep_view();
            let seg = slice_string(s, start, i);
            out.push(seg);
            proof {
                assert(out.deep_view() =~= before.push(s@.subrange(start as int, i as int)));
                assert(s@.subrange((i + 1) as int, (i + 1) as int) =~= Seq::<char>::empty());
            }
            start = i + 1;
        } else {
            proof {
                assert(s@.subrange(start as int, i + 1int) =~= s@.subrange(
                    start as int,
                    i as int,
                ).push(chars@[i as int]));
            }
        }
        i = i + 1;
        proof {
            let d = out.deep_view();
            let segs = split_char(s@.subrange(0, i as int), sep);
            assert(d + seq![s@.subrange(start as int, i as int)] =~= segs);
        }
    }
    let last = slice_string(s, start, chars.len());
    out.push(last);
    proof {
        assert(s@.subrange(0, s@.len() as int) =~= s@);
        assert(out.deep_view() =~= split_char(s@, sep));
    }
    out
}

/// Whether the first character of `s` is uppercase (Unicode).
pub fn str_starts_uppercase(s: &str) -> (r: bool)
    ensures
        r == starts_uppercase(s@),
{
    if s.unicode_len() == 0 {
        return false;
    }
    char_is_uppercase(s.get_char(0))
}

/// Concatenation of `segs` with `sep` between consecutive segments.
pub fn join_strings(segs: &Vec<String>, sep: &str) -> (out: String)
    requires
        sep@.len() == 1,
    ensures
        out@ == join_char(segs.deep_view(), sep@[0]),
{
    let mut out = String::new();
    let mut i: usize = 0;
    while i < segs.len()
        invariant
            sep@.len() == 1,
            i <= segs@.len(),
            out@ == join_char(segs.deep_view().subrange(0, i as int), sep@[0]),
        decreases segs.len() - i,
    {
        let ghost before = segs.deep_view().subrange(0, i as int);
        let ghost after = segs.deep_view().subrange(0, i + 1int);
        assert(after.drop_last() =~= before);
        if i > 0 {
            out.append(sep);
            assert(sep@ =~= seq![sep@[0]]);
        }
        out.append(segs[i].as_str());
        i = i + 1;
    }
    assert(segs.deep_view().subrange(0, segs@.len() as int) =~= segs.deep_view());
    out
}

} // verus!
