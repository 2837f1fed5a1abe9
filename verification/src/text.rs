//! Character sequences: white space, lines, separated fields, and the
//! conversions between strings and vectors of characters.
//!
//! The executable functions work on a character slice and a half-open range
//! of positions in it, so that no piece of the input is copied before it is
//! known to be wanted.

use vstd::prelude::*;

verus! {

/// `String::push` appends one character to the end of the string and leaves
/// the characters before it as they were.
pub assume_specification[ String::push ](s: &mut String, c: char)
    ensures
        final(s)@ == old(s)@.push(c),
;

/// White space as Unicode defines it (`White_Space`).
pub open spec fn is_space(c: char) -> bool {
    let u = c as u32;
    ||| 0x09 <= u <= 0x0D
    ||| u == 0x20
    ||| u == 0x85
    ||| u == 0xA0
    ||| u == 0x1680
    ||| 0x2000 <= u <= 0x200A
    ||| u == 0x2028
    ||| u == 0x2029
    ||| u == 0x202F
    ||| u == 0x205F
    ||| u == 0x3000
}

/// Offset of the first `c` in `s`; the length of `s` where it holds none.
pub open spec fn first_index(s: Seq<char>, c: char) -> int
    decreases s.len(),
{
    if s.len() == 0 || s[0] == c {
        0
    } else {
        1 + first_index(s.drop_first(), c)
    }
}

/// `s` without its leading white space.
pub open spec fn trim_start(s: Seq<char>) -> Seq<char>
    decreases s.len(),
{
    if s.len() > 0 && is_space(s[0]) {
        trim_start(s.drop_first())
    } else {
        s
    }
}

/// `s` without its trailing white space.
pub open spec fn trim_end(s: Seq<char>) -> Seq<char>
    decreases s.len(),
{
    if s.len() > 0 && is_space(s.last()) {
        trim_end(s.drop_last())
    } else {
        s
    }
}

/// `s` without the white space at either end.
pub open spec fn trim(s: Seq<char>) -> Seq<char> {
    trim_end(trim_start(s))
}

/// A line that ended in a line feed, without the carriage return that may
/// have stood before the line feed.
pub open spec fn strip_cr(line: Seq<char>) -> Seq<char> {
    if line.len() > 0 && line.last() == '\r' {
        line.drop_last()
    } else {
        line
    }
}

/// The lines of `s`. A line ends at a line feed, or at a carriage return
/// followed by a line feed; neither belongs to the line. What follows the
/// last line feed is a line only if it is not empty.
pub open spec fn lines(s: Seq<char>) -> Seq<Seq<char>>
    decreases s.len(),
{
    let k = first_index(s, '\n');
    if s.len() == 0 {
        Seq::empty()
    } else if 0 <= k < s.len() {
        seq![strip_cr(s.subrange(0, k))] + lines(s.subrange(k + 1, s.len() as int))
    } else {
        seq![s]
    }
}

/// The piece of `s` with number `n`, counted from zero, when `s` is cut at
/// every `sep`; `None` where `s` has fewer pieces.
pub open spec fn nth_field(s: Seq<char>, sep: char, n: nat) -> Option<Seq<char>>
    decreases n,
{
    let k = first_index(s, sep);
    if n == 0 {
        Some(s.subrange(0, k))
    } else if 0 <= k < s.len() {
        nth_field(s.subrange(k + 1, s.len() as int), sep, (n - 1) as nat)
    } else {
        None
    }
}

/// `first_index` is in range, no `c` stands before it, and within `s` a `c`
/// stands at it.
pub proof fn lemma_first_index(s: Seq<char>, c: char)
    ensures
        0 <= first_index(s, c) <= s.len(),
        forall|i: int| 0 <= i < first_index(s, c) ==> s[i] != c,
        first_index(s, c) < s.len() ==> s[first_index(s, c)] == c,
    decreases s.len(),
{
    if s.len() == 0 || s[0] == c {
    } else {
        let rest = s.drop_first();
        lemma_first_index(rest, c);
        assert forall|i: int| 0 <= i < first_index(s, c) implies s[i] != c by {
            if i > 0 {
                assert(s[i] == rest[i - 1]);
            }
        }
        assert(first_index(rest, c) < rest.len() ==> rest[first_index(rest, c)] == s[first_index(
            s,
            c,
        )]);
    }
}

/// A position with no `c` before it, which holds a `c` or is the end of `s`,
/// is `first_index`.
pub proof fn lemma_first_index_unique(s: Seq<char>, c: char, k: int)
    requires
        0 <= k <= s.len(),
        forall|i: int| 0 <= i < k ==> s[i] != c,
        k < s.len() ==> s[k] == c,
    ensures
        first_index(s, c) == k,
{
    lemma_first_index(s, c);
    let f = first_index(s, c);
    if f < k {
        assert(s[f] == c);
    } else if k < f {
        assert(s[k] == c);
    }
}

/// What `trim_start` leaves: `s` from some position on, before which all
/// is white space and at which, if anything is left, no white space stands.
/// The position is returned.
pub proof fn lemma_trim_start(s: Seq<char>) -> (from: int)
    ensures
        0 <= from <= s.len(),
        trim_start(s) == s.subrange(from, s.len() as int),
        forall|i: int| 0 <= i < from ==> is_space(s[i]),
        from < s.len() ==> !is_space(s[from]),
    decreases s.len(),
{
    if s.len() > 0 && is_space(s[0]) {
        let rest = s.drop_first();
        let from = lemma_trim_start(rest);
        assert(rest.subrange(from, rest.len() as int) == s.subrange(from + 1, s.len() as int));
        assert forall|i: int| 0 <= i < from + 1 implies is_space(s[i]) by {
            if i > 0 {
                assert(s[i] == rest[i - 1]);
            }
        }
        assert(from < rest.len() ==> rest[from] == s[from + 1]);
        from + 1
    } else {
        assert(s.subrange(0, s.len() as int) == s);
        0
    }
}

/// What `trim_end` leaves: `s` up to some position, from which on all is
/// white space and before which, if anything is left, no white space
/// stands. The position is returned.
pub proof fn lemma_trim_end(s: Seq<char>) -> (to: int)
    ensures
        0 <= to <= s.len(),
        trim_end(s) == s.subrange(0, to),
        forall|i: int| to <= i < s.len() ==> is_space(s[i]),
        0 < to ==> !is_space(s[to - 1]),
    decreases s.len(),
{
    if s.len() > 0 && is_space(s.last()) {
        let rest = s.drop_last();
        let to = lemma_trim_end(rest);
        assert(rest.subrange(0, to) == s.subrange(0, to));
        assert forall|i: int| to <= i < s.len() implies is_space(s[i]) by {
            if i < s.len() - 1 {
                assert(s[i] == rest[i]);
            }
        }
        assert(0 < to ==> rest[to - 1] == s[to - 1]);
        to
    } else {
        assert(s.subrange(0, s.len() as int) == s);
        s.len() as int
    }
}

/// What `trim` leaves: the part of `s` between two positions, outside of
/// which all is white space, and which neither begins nor ends with white
/// space. The two positions are returned.
pub proof fn lemma_trim(s: Seq<char>) -> (r: (int, int))
    ensures
        0 <= r.0 <= r.1 <= s.len(),
        trim(s) == s.subrange(r.0, r.1),
        forall|i: int| 0 <= i < r.0 || r.1 <= i < s.len() ==> is_space(s[i]),
        r.0 < r.1 ==> !is_space(s[r.0]) && !is_space(s[r.1 - 1]),
{
    let from = lemma_trim_start(s);
    let tail = s.subrange(from, s.len() as int);
    let to = lemma_trim_end(tail);
    assert(tail.subrange(0, to) == s.subrange(from, from + to));
    assert forall|i: int| from + to <= i < s.len() implies is_space(s[i]) by {
        assert(s[i] == tail[i - from]);
    }
    if 0 < to {
        assert(tail[to - 1] == s[from + to - 1]);
    }
    (from, from + to)
}

/// Whether `c` is white space.
pub(crate) fn is_space_char(c: char) -> (b: bool)
    ensures
        b == is_space(c),
{
    let u: u32 = c as u32;
    (0x09 <= u && u <= 0x0D) || u == 0x20 || u == 0x85 || u == 0xA0 || u == 0x1680 || (0x2000 <= u
        && u <= 0x200A) || u == 0x2028 || u == 0x2029 || u == 0x202F || u == 0x205F || u == 0x3000
}

/// The characters of `s`, in order.
pub(crate) fn chars_of(s: &str) -> (chars: Vec<char>)
    ensures
        chars@ == s@,
{
    let mut chars: Vec<char> = Vec::new();
    for c in it: s.chars()
        invariant
            it.seq() == s@,
            chars@ == s@.take(it.index()),
    {
        chars.push(c);
    }
    chars
}

/// The string made of `text[start..end]`.
pub(crate) fn string_of(text: &[char], start: usize, end: usize) -> (s: String)
    requires
        start <= end <= text.len(),
    ensures
        s@ == text@.subrange(start as int, end as int),
{
    let mut s = String::new();
    let mut i: usize = start;
    while i < end
        invariant
            start <= i <= end <= text.len(),
            s@ == text@.subrange(start as int, i as int),
        decreases end - i,
    {
        s.push(text[i]);
        i += 1;
    }
    s
}

/// Position of the first `c` in `text[start..end]`; `end` where it holds none.
pub(crate) fn find_char(text: &[char], start: usize, end: usize, c: char) -> (at: usize)
    requires
        start <= end <= text.len(),
    ensures
        start <= at <= end,
        at == start + first_index(text@.subrange(start as int, end as int), c),
{
    let mut at: usize = start;
    while at < end && text[at] != c
        invariant
            start <= at <= end <= text.len(),
            forall|i: int| start <= i < at ==> text@[i] != c,
        decreases end - at,
    {
        at += 1;
    }
    proof {
        lemma_first_index_unique(text@.subrange(start as int, end as int), c, at - start);
    }
    at
}

/// Splits the first line off `text[pos..]`: the line is `text[pos..line_end]`,
/// and the lines after it are those of `text[next..]`.
pub(crate) fn next_line(text: &[char], pos: usize) -> (r: (usize, usize))
    requires
        pos < text.len(),
    ensures
        pos <= r.0 <= r.1 <= text.len(),
        pos < r.1,
        lines(text@.subrange(pos as int, text.len() as int)) == seq![
            text@.subrange(pos as int, r.0 as int),
        ] + lines(text@.subrange(r.1 as int, text.len() as int)),
{
    let len: usize = text.len();
    let k: usize = find_char(text, pos, len, '\n');
    let ghost rest = text@.subrange(pos as int, len as int);
    if k < len {
        let line_end: usize = if k > pos && text[k - 1] == '\r' {
            k - 1
        } else {
            k
        };
        proof {
            let raw = rest.subrange(0, k - pos);
            assert(raw == text@.subrange(pos as int, k as int));
            assert(strip_cr(raw) == text@.subrange(pos as int, line_end as int));
            assert(rest.subrange(k - pos + 1, rest.len() as int) == text@.subrange(
                k + 1,
                len as int,
            ));
        }
        (line_end, k + 1)
    } else {
        proof {
            assert(lines(text@.subrange(len as int, len as int)) == Seq::<Seq<char>>::empty());
        }
        (len, len)
    }
}

/// The range of `text[start..end]` that is left when the white space at
/// either end is taken away.
pub(crate) fn trim_range(text: &[char], start: usize, end: usize) -> (r: (usize, usize))
    requires
        start <= end <= text.len(),
    ensures
        start <= r.0 <= r.1 <= end,
        text@.subrange(r.0 as int, r.1 as int) == trim(text@.subrange(start as int, end as int)),
{
    let mut from: usize = start;
    while from < end && is_space_char(text[from])
        invariant
            start <= from <= end <= text.len(),
            trim_start(text@.subrange(start as int, end as int)) == trim_start(
                text@.subrange(from as int, end as int),
            ),
        decreases end - from,
    {
        proof {
            assert(text@.subrange(from as int, end as int).drop_first() == text@.subrange(
                from + 1,
                end as int,
            ));
        }
        from += 1;
    }
    let mut to: usize = end;
    while to > from && is_space_char(text[to - 1])
        invariant
            from <= to <= end <= text.len(),
            trim_end(text@.subrange(from as int, end as int)) == trim_end(
                text@.subrange(from as int, to as int),
            ),
        decreases to - from,
    {
        proof {
            assert(text@.subrange(from as int, to as int).drop_last() == text@.subrange(
                from as int,
                to - 1,
            ));
        }
        to -= 1;
    }
    (from, to)
}

/// The range of the piece with number `n` of `text[start..end]` cut at every
/// `sep`, if there are that many pieces.
pub(crate) fn field_range(text: &[char], start: usize, end: usize, sep: char, n: usize) -> (r: Option<
    (usize, usize),
>)
    requires
        start <= end <= text.len(),
    ensures
        match r {
            Some((from, to)) => start <= from <= to <= end && nth_field(
                text@.subrange(start as int, end as int),
                sep,
                n as nat,
            ) == Some(text@.subrange(from as int, to as int)),
            None => nth_field(text@.subrange(start as int, end as int), sep, n as nat) is None,
        },
{
    let mut from: usize = start;
    let mut left: usize = n;
    loop
        invariant
            start <= from <= end <= text.len(),
            left <= n,
            nth_field(text@.subrange(start as int, end as int), sep, n as nat) == nth_field(
                text@.subrange(from as int, end as int),
                sep,
                left as nat,
            ),
        decreases left,
    {
        let to: usize = find_char(text, from, end, sep);
        let ghost rest = text@.subrange(from as int, end as int);
        if left == 0 {
            proof {
                assert(rest.subrange(0, to - from) == text@.subrange(from as int, to as int));
            }
            return Some((from, to));
        }
        if to == end {
            return None;
        }
        proof {
            assert(rest.subrange(to - from + 1, rest.len() as int) == text@.subrange(
                to + 1,
                end as int,
            ));
        }
        from = to + 1;
        left -= 1;
    }
}

/// Whether `text[start..end]` begins with the characters of `prefix`.
pub(crate) fn starts_with(text: &[char], start: usize, end: usize, prefix: &str) -> (b: bool)
    requires
        start <= end <= text.len(),
    ensures
        b == prefix@.is_prefix_of(text@.subrange(start as int, end as int)),
{
    let n: usize = prefix.unicode_len();
    if n > end - start {
        return false;
    }
    let mut i: usize = 0;
    while i < n
        invariant
            start <= end <= text.len(),
            n == prefix@.len(),
            i <= n <= end - start,
            forall|j: int| 0 <= j < i ==> prefix@[j] == text@[start + j],
        decreases n - i,
    {
        if prefix.get_char(i) != text[start + i] {
            proof {
                let whole = text@.subrange(start as int, end as int);
                assert(whole.subrange(0, n as int)[i as int] == text@[start + i]);
            }
            return false;
        }
        i += 1;
    }
    proof {
        let whole = text@.subrange(start as int, end as int);
        assert(whole.subrange(0, n as int) =~= prefix@);
    }
    true
}

} // verus!
