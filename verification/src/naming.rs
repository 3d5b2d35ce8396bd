//! The next unused sequential name among the entries of a folder.
//!
//! A folder named `base` holds its videos as `base-0.mp4`, `base-1.mp4` and
//! so on. Whatever else lies in the folder is passed over: only an entry that
//! begins with `base` and ends, before its extension, in a number counts.

use vstd::prelude::*;
use vstd::string::*;
use crate::number::{
    decimal, decimal_string, is_digit, lemma_decimal_reads_back, lemma_parse_without_minus,
    parse_i32, parse_window,
};
use crate::text::{
    chars_of, find_last_segment, last_segment, lemma_last_segment, lemma_last_segment_of_join,
    lemma_trim_within, lemma_trim_without_whitespace, trim, trim_window, white_space,
    window_starts_with,
};

verus! {

/// The extension of a stored video, `.mp4`.
pub open spec fn extension() -> Seq<char> {
    seq!['.', 'm', 'p', '4']
}

/// `name` without its extension, where it ends in `.mp4`.
pub open spec fn stem(name: Seq<char>) -> Seq<char> {
    if extension().is_suffix_of(name) {
        name.take(name.len() - extension().len())
    } else {
        name
    }
}

/// The number that the entry `name` carries in a folder named `base`: what
/// the stem of `name` holds behind its last `-`, trimmed and read as a signed
/// 32-bit integer, provided the stem begins with `base`.
pub open spec fn suffix_number(base: Seq<char>, name: Seq<char>) -> Option<i32> {
    if base.is_prefix_of(stem(name)) {
        parse_i32(trim(last_segment(stem(name), '-')))
    } else {
        None
    }
}

/// Whether the entry `name` carries the number `n`.
pub open spec fn carries(base: Seq<char>, name: Seq<char>, n: int) -> bool {
    suffix_number(base, name) matches Some(m) && m == n
}

/// The greatest number that an entry among `names` carries; -1 where none
/// carries a number.
pub open spec fn highest_number(base: Seq<char>, names: Seq<Seq<char>>) -> int
    decreases names.len(),
{
    if names.len() == 0 {
        -1
    } else {
        let rest = highest_number(base, names.drop_last());
        match suffix_number(base, names.last()) {
            Some(n) if n > rest => n as int,
            _ => rest,
        }
    }
}

/// What makes `h` the greatest number among `names`: no entry carries a
/// greater one, and `h` is -1 or carried by an entry.
pub open spec fn is_highest(base: Seq<char>, names: Seq<Seq<char>>, h: int) -> bool {
    &&& h >= -1
    &&& forall|i: int|
        0 <= i < names.len() ==> (#[trigger] suffix_number(base, names[i]) matches Some(n) ==> n
            <= h)
    &&& (h == -1 || exists|i: int| 0 <= i < names.len() && #[trigger] carries(base, names[i], h))
}

/// The name for the next video: `base`, a `-`, and one more than the
/// greatest number in use.
pub open spec fn next_name(base: Seq<char>, names: Seq<Seq<char>>) -> Seq<char> {
    base.push('-') + decimal((highest_number(base, names) + 1) as nat)
}

/// The name under which video `n` of the folder `base` is stored.
pub open spec fn numbered(base: Seq<char>, n: nat) -> Seq<char> {
    base.push('-') + decimal(n) + extension()
}

/// The names that a listing holds.
pub open spec fn names_of(entries: Seq<String>) -> Seq<Seq<char>> {
    Seq::new(entries.len(), |i: int| entries[i]@)
}

/// `highest_number` is the one value that `is_highest` describes.
pub proof fn lemma_highest_number(base: Seq<char>, names: Seq<Seq<char>>)
    ensures
        is_highest(base, names, highest_number(base, names)),
        -1 <= highest_number(base, names) <= i32::MAX,
    decreases names.len(),
{
    let h = highest_number(base, names);
    if names.len() > 0 {
        let front = names.drop_last();
        let rest = highest_number(base, front);
        lemma_highest_number(base, front);
        assert forall|i: int| 0 <= i < names.len() implies (#[trigger] suffix_number(
            base,
            names[i],
        ) matches Some(n) ==> n <= h) by {
            if i < front.len() {
                assert(front[i] == names[i]);
            }
        }
        if h != -1 {
            if h == rest {
                let i = choose|i: int| 0 <= i < front.len() && #[trigger] carries(base, front[i], rest);
                assert(front[i] == names[i]);
                assert(carries(base, names[i], h));
            } else {
                assert(carries(base, names[names.len() - 1], h));
            }
        }
    }
}

/// Only one value is the greatest number among `names`.
pub proof fn lemma_highest_is_unique(base: Seq<char>, names: Seq<Seq<char>>, h: int)
    requires
        is_highest(base, names, h),
    ensures
        h == highest_number(base, names),
{
    lemma_highest_number(base, names);
    let g = highest_number(base, names);
    if h != -1 {
        let i = choose|i: int| 0 <= i < names.len() && #[trigger] carries(base, names[i], h);
        assert(suffix_number(base, names[i]) matches Some(n) ==> n <= g);
    }
    if g != -1 {
        let j = choose|j: int| 0 <= j < names.len() && #[trigger] carries(base, names[j], g);
        assert(suffix_number(base, names[j]) matches Some(n) ==> n <= h);
    }
}

/// No entry carries a negative number: what follows the last `-` holds no
/// `-` of its own.
pub proof fn lemma_suffix_number_not_negative(base: Seq<char>, name: Seq<char>)
    ensures
        suffix_number(base, name) matches Some(n) ==> n >= 0,
{
    let segment = last_segment(stem(name), '-');
    lemma_last_segment(stem(name), '-');
    if trim(segment).contains('-') {
        lemma_trim_within(segment, '-');
    }
    lemma_parse_without_minus(trim(segment));
}

/// The entry `base-n.mp4` carries `n`, and so does `base-n`, as long as `n`
/// fits in 32 bits with sign; a greater `n` they do not carry.
pub proof fn lemma_numbered_carries(base: Seq<char>, n: nat)
    ensures
        suffix_number(base, numbered(base, n)) == if n <= i32::MAX {
            Some(n as i32)
        } else {
            None
        },
        suffix_number(base, base.push('-') + decimal(n)) == suffix_number(
            base,
            numbered(base, n),
        ),
{
    let name = numbered(base, n);
    let bare = base.push('-') + decimal(n);
    lemma_decimal_reads_back(n);
    assert(extension().len() == 4);
    assert(name.subrange(name.len() - 4, name.len() as int) == extension());
    assert(name.take(name.len() - 4) == bare);
    assert(stem(name) == bare);
    assert(stem(bare) == bare) by {
        if extension().is_suffix_of(bare) {
            let tail = bare.subrange(bare.len() - 4, bare.len() as int);
            assert(tail[2] == 'p');
            assert(bare[bare.len() - 2] == 'p');
            if decimal(n).len() >= 2 {
                assert(bare[bare.len() - 2] == decimal(n)[decimal(n).len() - 2]);
                assert(is_digit(decimal(n)[decimal(n).len() - 2]));
            } else {
                assert(bare[bare.len() - 2] == '-');
            }
        }
    }
    assert(bare.subrange(0, base.len() as int) == base);
    assert forall|i: int| 0 <= i < decimal(n).len() implies !white_space(
        #[trigger] decimal(n)[i],
    ) && decimal(n)[i] != '-' by {
        assert(is_digit(decimal(n)[i]));
    }
    lemma_last_segment_of_join(base, '-', decimal(n));
    lemma_trim_without_whitespace(decimal(n));
    assert(is_digit(decimal(n)[0]));
}

/// Whatever the base: where every entry is one of `base-0.mp4` to
/// `base-k.mp4` and `base-k.mp4` is among them, in any order and with any
/// of the others missing, the next name is `base-(k+1)`.
pub proof fn lemma_next_after_numbered(base: Seq<char>, names: Seq<Seq<char>>, k: nat)
    requires
        k <= i32::MAX,
        forall|i: int|
            0 <= i < names.len() ==> exists|j: nat| j <= k && #[trigger] names[i] == numbered(
                base,
                j,
            ),
        exists|i: int| 0 <= i < names.len() && #[trigger] names[i] == numbered(base, k),
    ensures
        next_name(base, names) == base.push('-') + decimal(k + 1),
{
    assert forall|i: int| 0 <= i < names.len() implies (#[trigger] suffix_number(
        base,
        names[i],
    ) matches Some(n) ==> n <= k) by {
        let j = choose|j: nat| j <= k && names[i] == numbered(base, j);
        lemma_numbered_carries(base, j);
    }
    let top = choose|i: int| 0 <= i < names.len() && #[trigger] names[i] == numbered(base, k);
    lemma_numbered_carries(base, k);
    assert(carries(base, names[top], k as int));
    lemma_highest_is_unique(base, names, k as int);
}

/// Where no entry carries a number, and so in an empty folder, the next
/// name is `base-0`.
pub proof fn lemma_next_without_numbers(base: Seq<char>, names: Seq<Seq<char>>)
    requires
        forall|i: int| 0 <= i < names.len() ==> #[trigger] suffix_number(base, names[i]) is None,
    ensures
        next_name(base, names) == base.push('-').push('0'),
{
    lemma_highest_is_unique(base, names, -1);
    assert(decimal(0) == seq!['0']);
    assert(base.push('-') + seq!['0'] == base.push('-').push('0'));
}

/// An entry that carries no number, such as `base-abc.mp4`, has no part in
/// the next name: the name is the same without it.
pub proof fn lemma_unnumbered_entry_is_ignored(base: Seq<char>, names: Seq<Seq<char>>, at: int)
    requires
        0 <= at < names.len(),
        suffix_number(base, names[at]) is None,
    ensures
        next_name(base, names.remove(at)) == next_name(base, names),
{
    let rest = names.remove(at);
    let h = highest_number(base, names);
    lemma_highest_number(base, names);
    assert forall|i: int| 0 <= i < rest.len() implies (#[trigger] suffix_number(
        base,
        rest[i],
    ) matches Some(n) ==> n <= h) by {
        if i < at {
            assert(rest[i] == names[i]);
        } else {
            assert(rest[i] == names[i + 1]);
        }
    }
    if h != -1 {
        let i = choose|i: int| 0 <= i < names.len() && #[trigger] carries(base, names[i], h);
        if i < at {
            assert(rest[i] == names[i]);
            assert(carries(base, rest[i], h));
        } else {
            assert(rest[i - 1] == names[i]);
            assert(carries(base, rest[i - 1], h));
        }
    }
    lemma_highest_is_unique(base, rest, h);
}

/// The next name depends on which names the folder holds and on nothing
/// else: not on the order in which they are listed, nor on how often. The
/// same folder, listed again, gives the same name.
pub proof fn lemma_next_name_by_contents(base: Seq<char>, a: Seq<Seq<char>>, b: Seq<Seq<char>>)
    requires
        forall|name: Seq<char>| a.contains(name) <==> b.contains(name),
    ensures
        next_name(base, a) == next_name(base, b),
{
    let h = highest_number(base, a);
    lemma_highest_number(base, a);
    assert forall|i: int| 0 <= i < b.len() implies (#[trigger] suffix_number(
        base,
        b[i],
    ) matches Some(n) ==> n <= h) by {
        assert(b.contains(b[i]));
        let j = choose|j: int| 0 <= j < a.len() && a[j] == b[i];
        assert(suffix_number(base, a[j]) matches Some(n) ==> n <= h);
    }
    if h != -1 {
        let i = choose|i: int| 0 <= i < a.len() && #[trigger] carries(base, a[i], h);
        assert(a.contains(a[i]));
        let j = choose|j: int| 0 <= j < b.len() && b[j] == a[i];
        assert(carries(base, b[j], h));
    }
    lemma_highest_is_unique(base, b, h);
}

/// The number in the next name is greater than every number that an entry
/// carries, and no entry that carries a number has the next name, with its
/// extension or without.
pub proof fn lemma_next_number_is_fresh(base: Seq<char>, names: Seq<Seq<char>>, at: int)
    requires
        0 <= at < names.len(),
        suffix_number(base, names[at]) is Some,
    ensures
        0 <= suffix_number(base, names[at])->0 < highest_number(base, names) + 1,
        names[at] != next_name(base, names) + extension(),
        names[at] != next_name(base, names),
{
    lemma_highest_number(base, names);
    lemma_suffix_number_not_negative(base, names[at]);
    let next = (highest_number(base, names) + 1) as nat;
    assert(suffix_number(base, names[at]) matches Some(n) ==> n < next);
    lemma_numbered_carries(base, next);
    assert(numbered(base, next) == next_name(base, names) + extension());
}

/// The end of the stem of `name`.
fn stem_end(name: &Vec<char>) -> (end: usize)
    ensures
        end <= name.len(),
        name@.take(end as int) == stem(name@),
{
    let n = name.len();
    if n >= 4 && name[n - 4] == '.' && name[n - 3] == 'm' && name[n - 2] == 'p' && name[n - 1]
        == '4' {
        assert(extension() =~= name@.subrange(n - 4, n as int));
        n - 4
    } else {
        if n >= 4 {
            let ghost tail = name@.subrange(n - 4, n as int);
            assert(tail[0] == name@[n - 4] && tail[1] == name@[n - 3] && tail[2] == name@[n - 2]
                && tail[3] == name@[n - 1]);
            assert(extension()[0] == '.' && extension()[1] == 'm' && extension()[2] == 'p'
                && extension()[3] == '4');
        }
        assert(name@.take(n as int) == name@);
        n
    }
}

/// The number that `name` carries, both given by their characters.
fn number_of(base: &Vec<char>, name: &Vec<char>) -> (r: Option<i32>)
    ensures
        r == suffix_number(base@, name@),
{
    let end = stem_end(name);
    if !window_starts_with(name, end, base) {
        return None;
    }
    let start = find_last_segment(name, end, '-');
    let (lo, hi) = trim_window(name, start, end);
    parse_window(name, lo, hi)
}

/// The number that the entry `name` carries in a folder named `base`.
pub fn entry_number(base: &str, name: &str) -> (r: Option<i32>)
    ensures
        r == suffix_number(base@, name@),
{
    let b = chars_of(base);
    let n = chars_of(name);
    number_of(&b, &n)
}

/// The greatest number that an entry of the listing carries; -1 where none
/// carries a number.
pub fn highest_suffix(base: &str, entries: &Vec<String>) -> (h: i32)
    ensures
        h == highest_number(base@, names_of(entries@)),
        is_highest(base@, names_of(entries@), h as int),
{
    let b = chars_of(base);
    let ghost names = names_of(entries@);
    let mut h: i32 = -1;
    let mut i: usize = 0;
    while i < entries.len()
        invariant
            i <= entries.len(),
            b@ == base@,
            names == names_of(entries@),
            h == highest_number(base@, names.take(i as int)),
        decreases entries.len() - i,
    {
        let name = chars_of(entries[i].as_str());
        assert(names.take(i + 1).drop_last() == names.take(i as int));
        assert(names.take(i + 1).last() == name@);
        match number_of(&b, &name) {
            Some(n) => {
                if n > h {
                    h = n;
                }
            },
            None => {},
        }
        i += 1;
    }
    proof {
        assert(names.take(i as int) == names);
        lemma_highest_number(base@, names);
    }
    h
}

/// The name for the next video of the folder `base`, whose entries are
/// `entries`: `base`, a `-`, and one more than the greatest number that an
/// entry carries, or 0 where none carries one. It has no extension.
pub fn next_filename(base: &str, entries: &Vec<String>) -> (name: String)
    ensures
        name@ == next_name(base@, names_of(entries@)),
{
    let h = highest_suffix(base, entries);
    let next: u32 = (h as i64 + 1) as u32;
    let mut name = String::from_str(base);
    proof {
        reveal_strlit("-");
    }
    name.append("-");
    name.append(decimal_string(next).as_str());
    assert(name@ =~= base@.push('-') + decimal(next as nat));
    name
}

} // verus!
