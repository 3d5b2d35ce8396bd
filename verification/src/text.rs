//! Strings as sequences of characters: white space, trimming, prefixes and
//! the segment that follows the last separator.
//!
//! The executable functions work on a window `[lo, hi)` of a character
//! vector and hand back positions in it, so that a name is scanned without
//! being copied piece by piece.

use vstd::prelude::*;

verus! {

/// The characters of `s`, in order.
pub fn chars_of(s: &str) -> (v: Vec<char>)
    ensures
        v@ == s@,
{
    let mut v: Vec<char> = Vec::new();
    for c in it: s.chars()
        invariant
            v@ == it.seq().take(it.index() as int),
            it.seq() == s@,
    {
        v.push(c);
    }
    v
}

/// Whether `c` has the Unicode property White_Space.
pub open spec fn white_space(c: char) -> bool {
    let u = c as u32;
    ||| 0x09 <= u <= 0x0D
    ||| u == 0x20
    ||| u == 0x85
    ||| u == 0xA0
    ||| u == 0x1680
    ||| 0x2000 <= u <= 0x200A
    ||| u == 0x2028
    ||| u == 0x2029
    ||| u == 0x202F
    ||| u == 0x205F
    ||| u == 0x3000
}

/// Decides `white_space`.
pub fn is_whitespace(c: char) -> (r: bool)
    ensures
        r == white_space(c),
{
    let u: u32 = c as u32;
    (0x09 <= u && u <= 0x0D) || u == 0x20 || u == 0x85 || u == 0xA0 || u == 0x1680 || (0x2000 <= u
        && u <= 0x200A) || u == 0x2028 || u == 0x2029 || u == 0x202F || u == 0x205F || u == 0x3000
}

/// `s` without the white space it begins with.
pub open spec fn trim_start(s: Seq<char>) -> Seq<char>
    decreases s.len(),
{
    if s.len() > 0 && white_space(s.first()) {
        trim_start(s.drop_first())
    } else {
        s
    }
}

/// `s` without the white space it ends with.
pub open spec fn trim_end(s: Seq<char>) -> Seq<char>
    decreases s.len(),
{
    if s.len() > 0 && white_space(s.last()) {
        trim_end(s.drop_last())
    } else {
        s
    }
}

/// `s` without the white space at either end.
pub open spec fn trim(s: Seq<char>) -> Seq<char> {
    trim_end(trim_start(s))
}

/// A sequence that holds no white space at all is its own trimmed form.
pub proof fn lemma_trim_without_whitespace(s: Seq<char>)
    requires
        forall|i: int| 0 <= i < s.len() ==> !white_space(#[trigger] s[i]),
    ensures
        trim(s) == s,
{
}

/// Trimming takes characters away and brings none in.
pub proof fn lemma_trim_within(s: Seq<char>, c: char)
    requires
        trim(s).contains(c),
    ensures
        s.contains(c),
{
    lemma_trim_end_within(trim_start(s), c);
    lemma_trim_start_within(s, c);
}

proof fn lemma_trim_start_within(s: Seq<char>, c: char)
    requires
        trim_start(s).contains(c),
    ensures
        s.contains(c),
    decreases s.len(),
{
    if s.len() > 0 && white_space(s.first()) {
        lemma_trim_start_within(s.drop_first(), c);
        let i = choose|i: int| 0 <= i < s.drop_first().len() && s.drop_first()[i] == c;
        assert(s[i + 1] == c);
    }
}

proof fn lemma_trim_end_within(s: Seq<char>, c: char)
    requires
        trim_end(s).contains(c),
    ensures
        s.contains(c),
    decreases s.len(),
{
    if s.len() > 0 && white_space(s.last()) {
        lemma_trim_end_within(s.drop_last(), c);
        let i = choose|i: int| 0 <= i < s.drop_last().len() && s.drop_last()[i] == c;
        assert(s[i] == c);
    }
}

/// The window of `v` that is left of `[lo, hi)` once the white space at both
/// of its ends is gone.
pub(crate) fn trim_window(v: &Vec<char>, lo: usize, hi: usize) -> (r: (usize, usize))
    requires
        lo <= hi <= v.len(),
    ensures
        lo <= r.0 <= r.1 <= hi,
        v@.subrange(r.0 as int, r.1 as int) == trim(v@.subrange(lo as int, hi as int)),
{
    let mut a: usize = lo;
    while a < hi && is_whitespace(v[a])
        invariant
            lo <= a <= hi <= v.len(),
            trim_start(v@.subrange(a as int, hi as int)) == trim_start(
                v@.subrange(lo as int, hi as int),
            ),
        decreases hi - a,
    {
        assert(v@.subrange(a as int, hi as int).drop_first() == v@.subrange(a + 1, hi as int));
        a += 1;
    }
    let mut b: usize = hi;
    while b > a && is_whitespace(v[b - 1])
        invariant
            a <= b <= hi <= v.len(),
            trim_end(v@.subrange(a as int, b as int)) == trim_end(v@.subrange(a as int, hi as int)),
        decreases b - a,
    {
        assert(v@.subrange(a as int, b as int).drop_last() == v@.subrange(a as int, b - 1));
        b -= 1;
    }
    (a, b)
}

/// Where the last segment of `s` begins: just behind the last `sep`, or at 0
/// where `s` holds none.
pub open spec fn last_segment_start(s: Seq<char>, sep: char) -> int
    decreases s.len(),
{
    if s.len() == 0 {
        0
    } else if s.last() == sep {
        s.len() as int
    } else {
        last_segment_start(s.drop_last(), sep)
    }
}

/// What follows the last `sep` in `s`; all of `s` where it holds none.
pub open spec fn last_segment(s: Seq<char>, sep: char) -> Seq<char> {
    s.skip(last_segment_start(s, sep))
}

/// The last segment lies within `s`, holds no separator, and a separator
/// stands right before it unless it is all of `s`.
pub proof fn lemma_last_segment(s: Seq<char>, sep: char)
    ensures
        0 <= last_segment_start(s, sep) <= s.len(),
        forall|i: int| last_segment_start(s, sep) <= i < s.len() ==> s[i] != sep,
        last_segment_start(s, sep) > 0 ==> s[last_segment_start(s, sep) - 1] == sep,
        !last_segment(s, sep).contains(sep),
    decreases s.len(),
{
    let start = last_segment_start(s, sep);
    if s.len() > 0 && s.last() != sep {
        lemma_last_segment(s.drop_last(), sep);
        assert forall|i: int| start <= i < s.len() implies s[i] != sep by {
            if i < s.len() - 1 {
                assert(s.drop_last()[i] == s[i]);
            }
        }
    }
    assert forall|i: int| 0 <= i < s.skip(start).len() implies s.skip(start)[i] != sep by {
        assert(s.skip(start)[i] == s[start + i]);
    }
}

/// A tail without a separator, behind a separator, is the last segment.
pub proof fn lemma_last_segment_of_join(head: Seq<char>, sep: char, tail: Seq<char>)
    requires
        !tail.contains(sep),
    ensures
        last_segment(head.push(sep) + tail, sep) == tail,
    decreases tail.len(),
{
    let s = head.push(sep) + tail;
    if tail.len() == 0 {
        assert(s == head.push(sep));
        assert(s.skip(s.len() as int) == tail);
    } else {
        assert(tail.contains(tail.last()));
        assert(s.drop_last() == head.push(sep) + tail.drop_last());
        assert forall|i: int| 0 <= i < tail.drop_last().len() implies tail.drop_last()[i] != sep by {
            assert(tail.contains(tail[i]));
        }
        lemma_last_segment_of_join(head, sep, tail.drop_last());
        assert(s.skip(head.len() as int + 1) == tail);
        assert(s.drop_last().skip(head.len() as int + 1) == tail.drop_last());
        lemma_last_segment(s.drop_last(), sep);
    }
}

/// Where the last segment of the window `[0, hi)` of `v` begins.
pub(crate) fn find_last_segment(v: &Vec<char>, hi: usize, sep: char) -> (start: usize)
    requires
        hi <= v.len(),
    ensures
        start <= hi,
        start == last_segment_start(v@.take(hi as int), sep),
        v@.subrange(start as int, hi as int) == last_segment(v@.take(hi as int), sep),
{
    let mut i: usize = hi;
    while i > 0 && v[i - 1] != sep
        invariant
            i <= hi <= v.len(),
            last_segment_start(v@.take(i as int), sep) == last_segment_start(
                v@.take(hi as int),
                sep,
            ),
        decreases i,
    {
        assert(v@.take(i as int).drop_last() == v@.take(i - 1));
        i -= 1;
    }
    assert(v@.take(hi as int).skip(i as int) == v@.subrange(i as int, hi as int));
    i
}

/// Whether the window `[0, hi)` of `v` begins with `prefix`.
pub(crate) fn window_starts_with(v: &Vec<char>, hi: usize, prefix: &Vec<char>) -> (r: bool)
    requires
        hi <= v.len(),
    ensures
        r == prefix@.is_prefix_of(v@.take(hi as int)),
{
    if prefix.len() > hi {
        return false;
    }
    let mut i: usize = 0;
    while i < prefix.len()
        invariant
            i <= prefix.len() <= hi <= v.len(),
            forall|j: int| 0 <= j < i ==> prefix@[j] == v@[j],
        decreases prefix.len() - i,
    {
        if prefix[i] != v[i] {
            assert(v@.take(hi as int).subrange(0, prefix@.len() as int)[i as int] != prefix@[i as int]);
            return false;
        }
        i += 1;
    }
    assert(prefix@ =~= v@.take(hi as int).subrange(0, prefix@.len() as int));
    true
}

} // verus!
