//! Text as sequences of characters: conversion, splitting and trimming.

use vstd::prelude::*;
use vstd::string::*;

verus! {

/// Whether Unicode gives a character the property `White_Space`: the
/// controls from tab to carriage return, the space, next line, the
/// no-break space, the Ogham space mark, the spaces from en quad to hair
/// space, the line and paragraph separators, the narrow no-break space,
/// the medium mathematical space and the ideographic space.
pub open spec fn is_whitespace(c: char) -> bool {
    let n = c as u32;
    ||| 0x09 <= n <= 0x0d
    ||| n == 0x20
    ||| n == 0x85
    ||| n == 0xa0
    ||| n == 0x1680
    ||| 0x2000 <= n <= 0x200a
    ||| n == 0x2028
    ||| n == 0x2029
    ||| n == 0x202f
    ||| n == 0x205f
    ||| n == 0x3000
}

/// The texts that a sequence of string slices holds.
pub open spec fn views(strs: Seq<&str>) -> Seq<Seq<char>> {
    Seq::new(strs.len(), |i: int| strs[i]@)
}

/// The texts that a sequence of strings holds.
pub open spec fn string_views(strs: Seq<String>) -> Seq<Seq<char>> {
    Seq::new(strs.len(), |i: int| strs[i]@)
}

/// The pieces of `s` between the occurrences of `sep`. There is always at
/// least one piece; a text without `sep` is its own single piece, and a
/// text that ends in `sep` has an empty last piece.
pub open spec fn split(s: Seq<char>, sep: char) -> Seq<Seq<char>>
    decreases s.len(),
{
    if s.len() == 0 {
        seq![Seq::empty()]
    } else {
        let before = split(s.drop_last(), sep);
        if s.last() == sep {
            before.push(Seq::empty())
        } else {
            before.drop_last().push(before.last().push(s.last()))
        }
    }
}

/// `s` without its leading whitespace.
pub open spec fn trim_start(s: Seq<char>) -> Seq<char>
    decreases s.len(),
{
    if s.len() > 0 && is_whitespace(s.first()) {
        trim_start(s.drop_first())
    } else {
        s
    }
}

/// `s` without its trailing whitespace.
pub open spec fn trim_end(s: Seq<char>) -> Seq<char>
    decreases s.len(),
{
    if s.len() > 0 && is_whitespace(s.last()) {
        trim_end(s.drop_last())
    } else {
        s
    }
}

/// `s` without its leading and trailing whitespace.
pub open spec fn trim(s: Seq<char>) -> Seq<char> {
    trim_end(trim_start(s))
}

/// The index of the first occurrence of `c` in `s`, or the length of `s`
/// where there is none.
pub open spec fn first_index_of(s: Seq<char>, c: char) -> int
    decreases s.len(),
{
    if s.len() == 0 {
        0
    } else if s.first() == c {
        0
    } else {
        1 + first_index_of(s.drop_first(), c)
    }
}

/// The character of a decimal digit.
pub open spec fn digit_char(d: int) -> char {
    if d == 0 {
        '0'
    } else if d == 1 {
        '1'
    } else if d == 2 {
        '2'
    } else if d == 3 {
        '3'
    } else if d == 4 {
        '4'
    } else if d == 5 {
        '5'
    } else if d == 6 {
        '6'
    } else if d == 7 {
        '7'
    } else if d == 8 {
        '8'
    } else {
        '9'
    }
}

/// The decimal digits of a number that is not negative, without leading
/// zeros; zero is the single digit `0`.
pub open spec fn digits(n: nat) -> Seq<char>
    decreases n,
{
    if n < 10 {
        seq![digit_char(n as int)]
    } else {
        digits(n / 10).push(digit_char((n % 10) as int))
    }
}

/// A number in decimal, with a minus sign before a negative one.
pub open spec fn decimal(n: int) -> Seq<char> {
    if n < 0 {
        seq!['-'] + digits((-n) as nat)
    } else {
        digits(n as nat)
    }
}

/// A text has at least one piece.
pub proof fn lemma_split_nonempty(s: Seq<char>, sep: char)
    ensures
        split(s, sep).len() >= 1,
    decreases s.len(),
{
    if s.len() > 0 {
        lemma_split_nonempty(s.drop_last(), sep);
    }
}

/// `first_index_of` is the least index that holds `c`.
pub proof fn lemma_first_index_of(s: Seq<char>, c: char)
    ensures
        0 <= first_index_of(s, c) <= s.len(),
        first_index_of(s, c) < s.len() ==> s[first_index_of(s, c)] == c,
        forall|i: int| 0 <= i < first_index_of(s, c) ==> s[i] != c,
        first_index_of(s, c) < s.len() <==> s.contains(c),
    decreases s.len(),
{
    if s.len() > 0 && s.first() != c {
        let rest = s.drop_first();
        lemma_first_index_of(rest, c);
        assert forall|i: int| 0 <= i < first_index_of(s, c) implies s[i] != c by {
            if i > 0 {
                assert(s[i] == rest[i - 1]);
            }
        }
        if first_index_of(s, c) < s.len() {
            assert(s[first_index_of(s, c)] == rest[first_index_of(rest, c)]);
        }
    }
}

/// Whether a character is whitespace.
pub fn char_is_whitespace(c: char) -> (answer: bool)
    ensures
        answer == is_whitespace(c),
{
    let n: u32 = c as u32;
    (0x09 <= n && n <= 0x0d) || n == 0x20 || n == 0x85 || n == 0xa0 || n == 0x1680 || (0x2000
        <= n && n <= 0x200a) || n == 0x2028 || n == 0x2029 || n == 0x202f || n == 0x205f || n
        == 0x3000
}

/// The characters of a string, in order.
pub fn chars_of(s: &str) -> (chars: Vec<char>)
    ensures
        chars@ == s@,
{
    let mut chars: Vec<char> = Vec::new();
    for c in it: s.chars()
        invariant
            chars@ == it.seq().take(it.index() as int),
            it.seq() == s@,
    {
        chars.push(c);
    }
    chars
}

/// The text of one decimal digit.
fn digit_str(d: u64) -> (text: &'static str)
    requires
        d < 10,
    ensures
        text@ == seq![digit_char(d as int)],
{
    proof {
        reveal_strlit("0");
        reveal_strlit("1");
        reveal_strlit("2");
        reveal_strlit("3");
        reveal_strlit("4");
        reveal_strlit("5");
        reveal_strlit("6");
        reveal_strlit("7");
        reveal_strlit("8");
        reveal_strlit("9");
    }
    let text = if d == 0 {
        "0"
    } else if d == 1 {
        "1"
    } else if d == 2 {
        "2"
    } else if d == 3 {
        "3"
    } else if d == 4 {
        "4"
    } else if d == 5 {
        "5"
    } else if d == 6 {
        "6"
    } else if d == 7 {
        "7"
    } else if d == 8 {
        "8"
    } else {
        "9"
    };
    assert(text@ =~= seq![digit_char(d as int)]);
    text
}

/// Adds the decimal digits of `n` to the end of `out`.
fn push_digits(out: &mut String, n: u64)
    ensures
        final(out)@ == old(out)@ + digits(n as nat),
    decreases n,
{
    if n >= 10 {
        push_digits(out, n / 10);
    }
    out.append(digit_str(n % 10));
    assert(out@ =~= old(out)@ + digits(n as nat));
}

/// Adds a number in decimal to the end of `out`.
pub fn push_decimal(out: &mut String, n: i32)
    ensures
        final(out)@ == old(out)@ + decimal(n as int),
{
    if n < 0 {
        out.append("-");
        proof {
            reveal_strlit("-");
        }
        let magnitude: u64 = (-(n as i64)) as u64;
        push_digits(out, magnitude);
        assert(out@ =~= old(out)@ + decimal(n as int));
    } else {
        push_digits(out, n as u64);
    }
}

/// The bounds of what trimming leaves of the characters from `lo` up to
/// `hi`.
pub fn trim_bounds(chars: &Vec<char>, lo: usize, hi: usize) -> (bounds: (usize, usize))
    requires
        lo <= hi <= chars@.len(),
    ensures
        lo <= bounds.0 <= bounds.1 <= hi,
        chars@.subrange(bounds.0 as int, bounds.1 as int) == trim(
            chars@.subrange(lo as int, hi as int),
        ),
{
    let mut from = lo;
    while from < hi && char_is_whitespace(chars[from])
        invariant
            lo <= from <= hi <= chars@.len(),
            trim_start(chars@.subrange(lo as int, hi as int)) == trim_start(
                chars@.subrange(from as int, hi as int),
            ),
        decreases hi - from,
    {
        assert(chars@.subrange(from as int, hi as int).drop_first() =~= chars@.subrange(
            from + 1,
            hi as int,
        ));
        from += 1;
    }
    let mut to = hi;
    while to > from && char_is_whitespace(chars[to - 1])
        invariant
            from <= to <= hi <= chars@.len(),
            trim_end(chars@.subrange(from as int, hi as int)) == trim_end(
                chars@.subrange(from as int, to as int),
            ),
        decreases to - from,
    {
        assert(chars@.subrange(from as int, to as int).drop_last() =~= chars@.subrange(
            from as int,
            to - 1,
        ));
        to -= 1;
    }
    (from, to)
}

/// A string without its leading and trailing whitespace.
pub fn trim_str<'a>(s: &'a str) -> (trimmed: &'a str)
    ensures
        trimmed@ == trim(s@),
{
    let chars = chars_of(s);
    let (from, to) = trim_bounds(&chars, 0, chars.len());
    assert(chars@.subrange(0, chars@.len() as int) =~= chars@);
    s.substring_char(from, to)
}

/// The pieces of a string between the occurrences of `sep`.
pub fn split_str<'a>(s: &'a str, sep: char) -> (pieces: Vec<&'a str>)
    ensures
        views(pieces@) == split(s@, sep),
{
    let chars = chars_of(s);
    let mut pieces: Vec<&'a str> = Vec::new();
    let mut start: usize = 0;
    let mut i: usize = 0;
    proof {
        assert(chars@.take(0).len() == 0);
        assert(chars@.subrange(0, 0) =~= Seq::<char>::empty());
        assert(views(pieces@).push(chars@.subrange(0, 0)) =~= seq![Seq::<char>::empty()]);
    }
    while i < chars.len()
        invariant
            0 <= start <= i <= chars@.len(),
            chars@ == s@,
            views(pieces@).push(chars@.subrange(start as int, i as int)) == split(
                chars@.take(i as int),
                sep,
            ),
        decreases chars@.len() - i,
    {
        let ghost before = split(chars@.take(i as int), sep);
        proof {
            assert(chars@.take(i + 1).drop_last() =~= chars@.take(i as int));
            assert(before.last() == chars@.subrange(start as int, i as int));
            assert(before.drop_last() =~= views(pieces@));
        }
        if chars[i] == sep {
            let piece = s.substring_char(start, i);
            let ghost earlier = pieces@;
            pieces.push(piece);
            start = i + 1;
            proof {
                assert(views(pieces@) =~= views(earlier).push(piece@));
                assert(chars@.subrange(start as int, i + 1) =~= Seq::<char>::empty());
            }
        } else {
            proof {
                assert(chars@.subrange(start as int, i + 1) =~= chars@.subrange(
                    start as int,
                    i as int,
                ).push(chars@[i as int]));
            }
        }
        i += 1;
    }
    let piece = s.substring_char(start, i);
    let ghost earlier = pieces@;
    pieces.push(piece);
    proof {
        assert(chars@.take(i as int) =~= chars@);
        assert(views(pieces@) =~= views(earlier).push(piece@));
    }
    pieces
}

/// Whether two strings hold the same text.
pub fn same_text(a: &str, b: &str) -> (same: bool)
    ensures
        same == (a@ == b@),
{
    let left = chars_of(a);
    let right = chars_of(b);
    if left.len() != right.len() {
        return false;
    }
    let mut i: usize = 0;
    while i < left.len()
        invariant
            0 <= i <= left@.len(),
            left@.len() == right@.len(),
            left@ == a@,
            right@ == b@,
            forall|j: int| 0 <= j < i ==> left@[j] == right@[j],
        decreases left@.len() - i,
    {
        if left[i] != right[i] {
            return false;
        }
        i += 1;
    }
    assert(left@ =~= right@);
    true
}

/// Whether a character occurs among the characters from `lo` up to `hi`.
pub fn range_contains(chars: &Vec<char>, lo: usize, hi: usize, c: char) -> (found: bool)
    requires
        lo <= hi <= chars@.len(),
    ensures
        found == chars@.subrange(lo as int, hi as int).contains(c),
{
    let mut i = lo;
    while i < hi
        invariant
            lo <= i <= hi <= chars@.len(),
            forall|j: int| lo <= j < i ==> chars@[j] != c,
        decreases hi - i,
    {
        if chars[i] == c {
            assert(chars@.subrange(lo as int, hi as int)[i - lo] == c);
            return true;
        }
        i += 1;
    }
    false
}

} // verus!
