//! Text as sequences of characters: finding a separator, cutting a text into
//! the pieces between separators, and comparing texts.
//!
//! Routes and URLs arrive as `&str`. The functions here work on the
//! characters of a text and on index ranges into them, so that a text is
//! decoded once and cut without copying.

use vstd::prelude::*;
use vstd::string::*;

verus! {

/// Where `c` first occurs in `s`; `s.len()` when it does not occur.
pub open spec fn first_index(s: Seq<char>, c: char) -> int
    decreases s.len(),
{
    if s.len() == 0 {
        0
    } else if s[0] == c {
        0
    } else {
        1 + first_index(s.drop_first(), c)
    }
}

/// `first_index` lands inside `0..=s.len()`, on `c` unless at the end, and
/// passes no `c` on its way.
pub proof fn lemma_first_index(s: Seq<char>, c: char)
    ensures
        0 <= first_index(s, c) <= s.len(),
        first_index(s, c) < s.len() ==> s[first_index(s, c)] == c,
        forall|j: int| 0 <= j < first_index(s, c) ==> s[j] != c,
    decreases s.len(),
{
    if s.len() > 0 && s[0] != c {
        let t = s.drop_first();
        lemma_first_index(t, c);
        assert forall|j: int| 0 <= j < first_index(s, c) implies s[j] != c by {
            if j > 0 {
                assert(s[j] == t[j - 1]);
            }
        }
    }
}

/// An index that is on `c` or at the end, with no `c` before it, is the
/// first index of `c`.
pub proof fn lemma_first_index_is(s: Seq<char>, c: char, k: int)
    requires
        0 <= k <= s.len(),
        k < s.len() ==> s[k] == c,
        forall|j: int| 0 <= j < k ==> s[j] != c,
    ensures
        first_index(s, c) == k,
{
    lemma_first_index(s, c);
    let f = first_index(s, c);
    if f < k {
        assert(s[f] != c);
    }
}

/// The non-empty pieces of `s` between occurrences of `sep`, in order.
pub open spec fn pieces(s: Seq<char>, sep: char) -> Seq<Seq<char>>
    decreases s.len(),
{
    let i = first_index(s, sep);
    if s.len() == 0 {
        Seq::empty()
    } else {
        let rest = if 0 <= i < s.len() {
            pieces(s.skip(i + 1), sep)
        } else {
            Seq::empty()
        };
        if i == 0 {
            rest
        } else {
            seq![s.take(i)] + rest
        }
    }
}

/// The first `sep` of a text that goes on after a `sep` is the first `sep`
/// of its part before that `sep`, or that `sep` itself.
proof fn lemma_first_index_joined(s: Seq<char>, t: Seq<char>, sep: char)
    ensures
        first_index(s + seq![sep] + t, sep) == first_index(s, sep),
    decreases s.len(),
{
    let joined = s + seq![sep] + t;
    if s.len() == 0 {
        assert(joined[0] == sep);
    } else {
        assert(joined[0] == s[0]);
        if s[0] != sep {
            assert(joined.drop_first() == s.drop_first() + seq![sep] + t);
            lemma_first_index_joined(s.drop_first(), t, sep);
        }
    }
}

/// The pieces of two texts joined by a separator are the pieces of the
/// first and then the pieces of the second.
pub proof fn lemma_pieces_joined(s: Seq<char>, t: Seq<char>, sep: char)
    ensures
        pieces(s + seq![sep] + t, sep) == pieces(s, sep) + pieces(t, sep),
    decreases s.len(),
{
    let joined = s + seq![sep] + t;
    let i = first_index(s, sep);
    lemma_first_index(s, sep);
    lemma_first_index_joined(s, t, sep);
    if s.len() == 0 {
        assert(joined.skip(1) == t);
        assert(pieces(s, sep) + pieces(t, sep) == pieces(t, sep));
    } else if i < s.len() {
        assert(joined.skip(i + 1) == s.skip(i + 1) + seq![sep] + t);
        assert(joined.take(i) == s.take(i));
        lemma_pieces_joined(s.skip(i + 1), t, sep);
        assert(seq![s.take(i)] + (pieces(s.skip(i + 1), sep) + pieces(t, sep)) == seq![s.take(i)]
            + pieces(s.skip(i + 1), sep) + pieces(t, sep));
    } else {
        assert(joined.skip(i + 1) == t);
        assert(joined.take(i) == s);
        assert(s.take(i) == s);
        assert(pieces(s, sep) == seq![s]);
    }
}

/// Where the non-empty pieces of `s` between occurrences of `sep` stand:
/// the range of each piece, in indices counted from `base`.
pub open spec fn piece_ranges(s: Seq<char>, sep: char, base: int) -> Seq<(int, int)>
    decreases s.len(),
{
    let i = first_index(s, sep);
    if s.len() == 0 {
        Seq::empty()
    } else {
        let rest = if 0 <= i < s.len() {
            piece_ranges(s.skip(i + 1), sep, base + i + 1)
        } else {
            Seq::empty()
        };
        if i == 0 {
            rest
        } else {
            seq![(base, base + i)] + rest
        }
    }
}

/// What `s` holds after its leading run of `c`.
pub open spec fn strip_leading(s: Seq<char>, c: char) -> Seq<char>
    decreases s.len(),
{
    if s.len() > 0 && s[0] == c {
        strip_leading(s.drop_first(), c)
    } else {
        s
    }
}

/// A range list as pairs of integers.
pub open spec fn spans(ranges: Seq<(usize, usize)>) -> Seq<(int, int)> {
    Seq::new(ranges.len(), |k: int| (ranges[k].0 as int, ranges[k].1 as int))
}

/// The characters of a range list, range by range.
pub open spec fn cut(s: Seq<char>, ranges: Seq<(usize, usize)>) -> Seq<Seq<char>> {
    Seq::new(ranges.len(), |k: int| s.subrange(ranges[k].0 as int, ranges[k].1 as int))
}

/// The characters of each text of a list.
pub open spec fn texts(list: Seq<&str>) -> Seq<Seq<char>> {
    Seq::new(list.len(), |k: int| list[k]@)
}

/// The characters of `s`, decoded once.
pub fn chars_of(s: &str) -> (v: Vec<char>)
    ensures
        v@ == s@,
{
    broadcast use group_string_axioms;

    let mut v: Vec<char> = Vec::new();
    for c in it: s.chars()
        invariant
            it.seq() == s@,
            v@ == it.seq().take(it.index() as int),
    {
        v.push(c);
    }
    assert(v@ == s@);
    v
}

/// Whether two byte strings are the same.
pub fn bytes_eq(x: &[u8], y: &[u8]) -> (same: bool)
    ensures
        same == (x@ == y@),
{
    if x.len() != y.len() {
        return false;
    }
    let mut i: usize = 0;
    while i < x.len()
        invariant
            i <= x.len(),
            x.len() == y.len(),
            forall|j: int| 0 <= j < i ==> x@[j] == y@[j],
        decreases x.len() - i,
    {
        if x[i] != y[i] {
            return false;
        }
        i += 1;
    }
    assert(x@ =~= y@);
    true
}

/// Whether two texts hold the same characters.
pub fn str_eq(a: &str, b: &str) -> (same: bool)
    ensures
        same == (a@ == b@),
{
    broadcast use vstd::utf8::encode_utf8_decode_utf8;

    assert(a@ == vstd::utf8::decode_utf8(a.spec_bytes()));
    assert(b@ == vstd::utf8::decode_utf8(b.spec_bytes()));
    bytes_eq(a.as_bytes(), b.as_bytes())
}

/// An ASCII capital letter as its small letter; any other byte as itself.
pub open spec fn ascii_lower(b: u8) -> u8 {
    if 65 <= b <= 90 {
        (b + 32) as u8
    } else {
        b
    }
}

/// Whether two byte strings are the same but for the case of ASCII letters.
pub open spec fn same_ignoring_case(a: Seq<u8>, b: Seq<u8>) -> bool {
    &&& a.len() == b.len()
    &&& forall|k: int| 0 <= k < a.len() ==> ascii_lower(#[trigger] a[k]) == ascii_lower(b[k])
}

/// Whether two texts, as UTF-8, are the same but for the case of ASCII
/// letters.
pub fn eq_ignore_ascii_case(a: &str, b: &str) -> (same: bool)
    ensures
        same == same_ignoring_case(a.spec_bytes(), b.spec_bytes()),
{
    let x = a.as_bytes();
    let y = b.as_bytes();
    if x.len() != y.len() {
        return false;
    }
    let mut i: usize = 0;
    while i < x.len()
        invariant
            i <= x.len(),
            x.len() == y.len(),
            x@ == a.spec_bytes(),
            y@ == b.spec_bytes(),
            forall|j: int| 0 <= j < i ==> ascii_lower(#[trigger] x@[j]) == ascii_lower(y@[j]),
        decreases x.len() - i,
    {
        let p = x[i];
        let q = y[i];
        let lp = if 65 <= p && p <= 90 {
            p + 32
        } else {
            p
        };
        let lq = if 65 <= q && q <= 90 {
            q + 32
        } else {
            q
        };
        if lp != lq {
            assert(ascii_lower(x@[i as int]) != ascii_lower(y@[i as int]));
            return false;
        }
        i += 1;
    }
    true
}

/// The first index in `from..to` that holds `c`; `to` when none does.
pub fn find_char(chars: &[char], from: usize, to: usize, c: char) -> (at: usize)
    requires
        from <= to <= chars@.len(),
    ensures
        from <= at <= to,
        at - from == first_index(chars@.subrange(from as int, to as int), c),
{
    let mut i: usize = from;
    while i < to && chars[i] != c
        invariant
            from <= i <= to <= chars@.len(),
            forall|j: int| from <= j < i ==> chars@[j] != c,
        decreases to - i,
    {
        i += 1;
    }
    proof {
        lemma_first_index_is(chars@.subrange(from as int, to as int), c, i - from);
    }
    i
}

/// The first index in `from..to` that does not hold `c`; `to` when all do.
pub fn skip_char(chars: &[char], from: usize, to: usize, c: char) -> (at: usize)
    requires
        from <= to <= chars@.len(),
    ensures
        from <= at <= to,
        chars@.subrange(at as int, to as int) == strip_leading(
            chars@.subrange(from as int, to as int),
            c,
        ),
{
    let mut i: usize = from;
    while i < to && chars[i] == c
        invariant
            from <= i <= to <= chars@.len(),
            strip_leading(chars@.subrange(i as int, to as int), c) == strip_leading(
                chars@.subrange(from as int, to as int),
                c,
            ),
        decreases to - i,
    {
        assert(chars@.subrange(i as int, to as int).drop_first() == chars@.subrange(
            i + 1,
            to as int,
        ));
        i += 1;
    }
    i
}

/// The ranges of the non-empty pieces between occurrences of `sep` in
/// `from..to`, in order.
pub fn split_ranges(chars: &[char], from: usize, to: usize, sep: char) -> (ranges: Vec<
    (usize, usize),
>)
    requires
        from <= to <= chars@.len(),
    ensures
        spans(ranges@) == piece_ranges(chars@.subrange(from as int, to as int), sep, from as int),
        cut(chars@, ranges@) == pieces(chars@.subrange(from as int, to as int), sep),
        forall|k: int|
            0 <= k < ranges@.len() ==> from <= (#[trigger] ranges@[k]).0 < ranges@[k].1 <= to,
{
    let ghost whole = chars@.subrange(from as int, to as int);
    assert(spans(Seq::<(usize, usize)>::empty()) =~= Seq::<(int, int)>::empty());
    let mut ranges: Vec<(usize, usize)> = Vec::new();
    let mut start: usize = from;
    while start < to
        invariant
            from <= start <= to <= chars@.len(),
            whole == chars@.subrange(from as int, to as int),
            pieces(whole, sep) == cut(chars@, ranges@) + pieces(
                chars@.subrange(start as int, to as int),
                sep,
            ),
            piece_ranges(whole, sep, from as int) == spans(ranges@) + piece_ranges(
                chars@.subrange(start as int, to as int),
                sep,
                start as int,
            ),
            forall|k: int|
                0 <= k < ranges@.len() ==> from <= (#[trigger] ranges@[k]).0 < ranges@[k].1 <= to,
        decreases to - start,
    {
        let end = find_char(chars, start, to, sep);
        let ghost tail = chars@.subrange(start as int, to as int);
        let ghost before = ranges@;
        if end > start {
            ranges.push((start, end));
        }
        let next = if end < to {
            end + 1
        } else {
            to
        };
        proof {
            assert(tail.take(end - start) == chars@.subrange(start as int, end as int));
            if end < to {
                assert(tail.skip(end - start + 1) == chars@.subrange(next as int, to as int));
            } else {
                assert(chars@.subrange(next as int, to as int).len() == 0);
            }
            if end > start {
                assert(cut(chars@, ranges@) == cut(chars@, before) + seq![
                    chars@.subrange(start as int, end as int),
                ]);
                assert(spans(ranges@) == spans(before) + seq![(start as int, end as int)]);
            }
        }
        start = next;
    }
    ranges
}

/// The parts of `text` that the ranges name, borrowed from it.
pub fn substrings<'a>(text: &'a str, ranges: &Vec<(usize, usize)>) -> (parts: Vec<&'a str>)
    requires
        forall|k: int|
            0 <= k < ranges@.len() ==> (#[trigger] ranges@[k]).0 <= ranges@[k].1 <= text@.len(),
    ensures
        texts(parts@) == cut(text@, ranges@),
{
    let mut parts: Vec<&'a str> = Vec::new();
    let mut k: usize = 0;
    while k < ranges.len()
        invariant
            k <= ranges@.len(),
            parts@.len() == k,
            forall|j: int|
                0 <= j < ranges@.len() ==> (#[trigger] ranges@[j]).0 <= ranges@[j].1
                    <= text@.len(),
            forall|j: int|
                0 <= j < k ==> (#[trigger] parts@[j])@ == text@.subrange(
                    ranges@[j].0 as int,
                    ranges@[j].1 as int,
                ),
        decreases ranges@.len() - k,
    {
        let (from, to) = ranges[k];
        parts.push(text.substring_char(from, to));
        k += 1;
    }
    assert(texts(parts@) =~= cut(text@, ranges@));
    parts
}

} // verus!
