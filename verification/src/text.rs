//! Texts as sequences of characters: splitting at a separator and trimming
//! white space, as the parsers of the command line need them.

use vstd::prelude::*;

verus! {

/// Whether `c` is white space: a character with the Unicode property
/// `White_Space`.
pub open spec fn is_space(c: char) -> bool {
    let code = c as u32;
    ||| 0x09 <= code <= 0x0d
    ||| code == 0x20
    ||| code == 0x85
    ||| code == 0xa0
    ||| code == 0x1680
    ||| 0x2000 <= code <= 0x200a
    ||| code == 0x2028
    ||| code == 0x2029
    ||| code == 0x202f
    ||| code == 0x205f
    ||| code == 0x3000
}

/// `s` without the white space at its start.
pub open spec fn trim_start(s: Seq<char>) -> Seq<char>
    decreases s.len(),
{
    if s.len() > 0 && is_space(s[0]) {
        trim_start(s.drop_first())
    } else {
        s
    }
}

/// `s` without the white space at its end.
pub open spec fn trim_end(s: Seq<char>) -> Seq<char>
    decreases s.len(),
{
    if s.len() > 0 && is_space(s.last()) {
        trim_end(s.drop_last())
    } else {
        s
    }
}

/// `s` without the white space at its start and at its end.
pub open spec fn trim(s: Seq<char>) -> Seq<char> {
    trim_end(trim_start(s))
}

/// The pieces of `s` between the occurrences of `sep`, in order. There is one
/// piece more than there are separators, so an empty `s` has one empty piece.
pub open spec fn split<A>(s: Seq<A>, sep: A) -> Seq<Seq<A>>
    decreases s.len(),
{
    if s.len() == 0 {
        seq![Seq::<A>::empty()]
    } else {
        let before = split(s.drop_last(), sep);
        if s.last() == sep {
            before.push(Seq::<A>::empty())
        } else {
            before.drop_last().push(before.last().push(s.last()))
        }
    }
}

/// Whether `c` is white space.
pub fn is_space_char(c: char) -> (space: bool)
    ensures
        space == is_space(c),
{
    let code: u32 = c as u32;
    (0x09 <= code && code <= 0x0d) || code == 0x20 || code == 0x85 || code == 0xa0 || code
        == 0x1680 || (0x2000 <= code && code <= 0x200a) || code == 0x2028 || code == 0x2029
        || code == 0x202f || code == 0x205f || code == 0x3000
}

/// The characters of `s`, in order.
pub fn chars_of(s: &str) -> (chars: Vec<char>)
    ensures
        chars@ == s@,
{
    let mut chars: Vec<char> = Vec::new();
    for c in it: s.chars()
        invariant
            it.seq() == s@,
            chars@ == it.seq().take(it.index() as int),
    {
        chars.push(c);
    }
    chars
}

/// The characters of `s` from `from` up to `to`, as a string of their own.
pub(crate) fn slice_text(s: &str, from: usize, to: usize) -> (piece: String)
    requires
        from <= to <= s@.len(),
    ensures
        piece@ == s@.subrange(from as int, to as int),
{
    s.substring_char(from, to).to_owned()
}

/// Where the characters from `from` up to `to` begin and end once the white
/// space on both sides is left out.
pub(crate) fn trim_bounds(chars: &Vec<char>, from: usize, to: usize) -> (bounds: (usize, usize))
    requires
        from <= to <= chars@.len(),
    ensures
        from <= bounds.0 <= bounds.1 <= to,
        chars@.subrange(bounds.0 as int, bounds.1 as int) == trim(
            chars@.subrange(from as int, to as int),
        ),
{
    let mut a: usize = from;
    while a < to && is_space_char(chars[a])
        invariant
            from <= a <= to <= chars@.len(),
            trim_start(chars@.subrange(from as int, to as int)) == trim_start(
                chars@.subrange(a as int, to as int),
            ),
        decreases to - a,
    {
        assert(chars@.subrange(a as int, to as int).drop_first() =~= chars@.subrange(
            a + 1,
            to as int,
        ));
        a = a + 1;
    }
    let mut b: usize = to;
    while b > a && is_space_char(chars[b - 1])
        invariant
            a <= b <= to <= chars@.len(),
            trim_end(chars@.subrange(a as int, to as int)) == trim_end(
                chars@.subrange(a as int, b as int),
            ),
        decreases b - a,
    {
        assert(chars@.subrange(a as int, b as int).drop_last() =~= chars@.subrange(
            a as int,
            b - 1,
        ));
        b = b - 1;
    }
    (a, b)
}

/// Where the pieces of the characters from `from` on begin and end, split at
/// `sep`.
pub(crate) fn split_bounds(chars: &Vec<char>, from: usize, sep: char) -> (bounds: Vec<
    (usize, usize),
>)
    requires
        from <= chars@.len(),
    ensures
        bounds@.len() == split(chars@.skip(from as int), sep).len(),
        forall|k: int|
            0 <= k < bounds@.len() ==> from <= (#[trigger] bounds@[k]).0 <= bounds@[k].1
                <= chars@.len() && chars@.subrange(bounds@[k].0 as int, bounds@[k].1 as int)
                == split(chars@.skip(from as int), sep)[k],
{
    let ghost tail = chars@.skip(from as int);
    let mut bounds: Vec<(usize, usize)> = Vec::new();
    let mut start: usize = from;
    let mut j: usize = from;
    proof {
        assert(tail.take(0) =~= Seq::<char>::empty());
        assert(chars@.subrange(from as int, from as int) =~= Seq::<char>::empty());
    }
    while j < chars.len()
        invariant
            from <= start <= j <= chars@.len(),
            tail == chars@.skip(from as int),
            split(tail.take(j - from), sep).len() == bounds@.len() + 1,
            split(tail.take(j - from), sep)[bounds@.len() as int] == chars@.subrange(
                start as int,
                j as int,
            ),
            forall|k: int|
                0 <= k < bounds@.len() ==> from <= (#[trigger] bounds@[k]).0 <= bounds@[k].1
                    <= chars@.len() && chars@.subrange(bounds@[k].0 as int, bounds@[k].1 as int)
                    == split(tail.take(j - from), sep)[k],
        decreases chars@.len() - j,
    {
        let ghost before = split(tail.take(j - from), sep);
        proof {
            assert(tail.take(j + 1 - from).drop_last() =~= tail.take(j - from));
            assert(tail.take(j + 1 - from).last() == chars@[j as int]);
        }
        if chars[j] == sep {
            bounds.push((start, j));
            start = j + 1;
            proof {
                assert(chars@.subrange(start as int, start as int) =~= Seq::<char>::empty());
            }
        } else {
            proof {
                assert(chars@.subrange(start as int, j + 1) =~= chars@.subrange(
                    start as int,
                    j as int,
                ).push(chars@[j as int]));
            }
        }
        j = j + 1;
    }
    proof {
        assert(tail.take(j - from) =~= tail);
    }
    bounds.push((start, j));
    bounds
}

} // verus!
