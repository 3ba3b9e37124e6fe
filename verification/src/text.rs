//! Text as sequences of characters: conversions to and from strings,
//! positions expressed as line and column, and small building blocks for
//! assembling output.
//!
//! Offsets, lines and columns count characters. For a caller that holds
//! the text as a string, `byte_offset` turns an offset into the offset in
//! bytes of the UTF-8 encoding; for the source map, `unit_column_at` counts
//! a column in UTF-16 code units.

use vstd::prelude::*;
use vstd::string::StringSliceAdditionalSpecFns;
use vstd::utf8::{encode_scalar, encode_utf8};

verus! {

/// `String::push` of the standard library: the string afterwards is the
/// string before with `c` appended as its last character.
pub assume_specification[ String::push ](s: &mut String, c: char)
    ensures
        final(s)@ == old(s)@.push(c),
;

/// The characters of `s`, in order.
pub fn chars_of(s: &str) -> (v: Vec<char>)
    ensures
        v@ == s@,
{
    let mut v: Vec<char> = Vec::new();
    for c in iter: s.chars()
        invariant
            iter.seq() == s@,
            v@ == s@.take(iter.index()),
    {
        v.push(c);
    }
    assert(s@.take(s@.len() as int) == s@);
    v
}

/// A string holding exactly the characters of `v`.
pub fn string_of(v: &Vec<char>) -> (s: String)
    ensures
        s@ == v@,
{
    let mut s = String::new();
    let mut i: usize = 0;
    while i < v.len()
        invariant
            i <= v.len(),
            s@ == v@.take(i as int),
        decreases v.len() - i,
    {
        s.push(v[i]);
        i += 1;
    }
    assert(v@.take(v.len() as int) == v@);
    s
}

/// Zero-based line of offset `off`: the number of line feeds before it.
pub open spec fn line_at(src: Seq<char>, off: int) -> int
    decreases off,
{
    if off <= 0 || off > src.len() {
        0
    } else {
        line_at(src, off - 1) + if src[off - 1] == '\n' {
            1int
        } else {
            0int
        }
    }
}

/// Zero-based column of offset `off`: its distance from the start of its line.
pub open spec fn column_at(src: Seq<char>, off: int) -> int
    decreases off,
{
    if off <= 0 || off > src.len() {
        0
    } else if src[off - 1] == '\n' {
        0
    } else {
        column_at(src, off - 1) + 1
    }
}

/// Lines and columns never exceed the offset they describe.
pub proof fn lemma_position_bounds(src: Seq<char>, off: int)
    requires
        0 <= off <= src.len(),
    ensures
        0 <= line_at(src, off) <= off,
        0 <= column_at(src, off) <= off,
    decreases off,
{
    if off > 0 {
        lemma_position_bounds(src, off - 1);
    }
}

/// A position depends only on the text before it.
pub proof fn lemma_position_prefix(a: Seq<char>, b: Seq<char>, off: int)
    requires
        0 <= off <= a.len(),
        off <= b.len(),
        forall|k: int| 0 <= k < off ==> a[k] == b[k],
    ensures
        line_at(a, off) == line_at(b, off),
        column_at(a, off) == column_at(b, off),
    decreases off,
{
    if off > 0 {
        lemma_position_prefix(a, b, off - 1);
    }
}

/// Carries a line and column known at `from` forward to `to`.
pub fn advance(src: &Vec<char>, from: usize, to: usize, line: usize, column: usize) -> (r: (
    usize,
    usize,
))
    requires
        from <= to <= src.len(),
        line == line_at(src@, from as int),
        column == column_at(src@, from as int),
    ensures
        r.0 == line_at(src@, to as int),
        r.1 == column_at(src@, to as int),
{
    let mut l: usize = line;
    let mut c: usize = column;
    let mut i: usize = from;
    while i < to
        invariant
            from <= i <= to <= src.len(),
            l == line_at(src@, i as int),
            c == column_at(src@, i as int),
        decreases to - i,
    {
        proof {
            lemma_position_bounds(src@, i as int);
        }
        if src[i] == '\n' {
            l += 1;
            c = 0;
        } else {
            c += 1;
        }
        i += 1;
    }
    (l, c)
}

/// Whether the characters of `src` in `start..end` are exactly `lit`.
pub fn range_is(src: &Vec<char>, start: usize, end: usize, lit: &[char]) -> (r: bool)
    requires
        start <= end <= src.len(),
    ensures
        r == (src@.subrange(start as int, end as int) == lit@),
{
    if end - start != lit.len() {
        return false;
    }
    let mut k: usize = 0;
    while k < lit.len()
        invariant
            start <= end <= src.len(),
            end - start == lit.len(),
            k <= lit.len(),
            forall|j: int| 0 <= j < k ==> src@[start + j] == lit@[j],
        decreases lit.len() - k,
    {
        if src[start + k] != lit[k] {
            assert(src@.subrange(start as int, end as int)[k as int] != lit@[k as int]);
            return false;
        }
        k += 1;
    }
    assert(src@.subrange(start as int, end as int) =~= lit@);
    true
}

/// Appends all of `tail` to `out`.
pub fn append_all(out: &mut Vec<char>, tail: &Vec<char>)
    ensures
        final(out)@ == old(out)@ + tail@,
{
    append_range(out, tail, 0, tail.len());
    assert(tail@.subrange(0, tail.len() as int) == tail@);
}

/// Appends the characters of the string `tail` to `out`.
pub fn append_str(out: &mut Vec<char>, tail: &str)
    ensures
        final(out)@ == old(out)@ + tail@,
{
    let t = chars_of(tail);
    append_all(out, &t);
}

/// Appends the characters of `src` in `start..end` to `out`.
pub fn append_range(out: &mut Vec<char>, src: &Vec<char>, start: usize, end: usize)
    requires
        start <= end <= src.len(),
    ensures
        final(out)@ == old(out)@ + src@.subrange(start as int, end as int),
{
    let mut i: usize = start;
    while i < end
        invariant
            start <= i <= end <= src.len(),
            out@ == old(out)@ + src@.subrange(start as int, i as int),
        decreases end - i,
    {
        out.push(src[i]);
        assert(src@.subrange(start as int, i + 1) =~= src@.subrange(start as int, i as int).push(
            src@[i as int],
        ));
        i += 1;
    }
}

/// The decimal digit for a value below ten.
pub open spec fn digit(d: int) -> char {
    if d == 0 {
        '0'
    } else if d == 1 {
        '1'
    } else if d == 2 {
        '2'
    } else if d == 3 {
        '3'
    } else if d == 4 {
        '4'
    } else if d == 5 {
        '5'
    } else if d == 6 {
        '6'
    } else if d == 7 {
        '7'
    } else if d == 8 {
        '8'
    } else {
        '9'
    }
}

/// Decimal notation of `n`, without leading zeros.
pub open spec fn decimal(n: nat) -> Seq<char>
    decreases n,
{
    if n < 10 {
        seq![digit(n as int)]
    } else {
        decimal(n / 10).push(digit((n % 10) as int))
    }
}

fn digit_char(d: u128) -> (c: char)
    requires
        d < 10,
    ensures
        c == digit(d as int),
{
    if d == 0 {
        '0'
    } else if d == 1 {
        '1'
    } else if d == 2 {
        '2'
    } else if d == 3 {
        '3'
    } else if d == 4 {
        '4'
    } else if d == 5 {
        '5'
    } else if d == 6 {
        '6'
    } else if d == 7 {
        '7'
    } else if d == 8 {
        '8'
    } else {
        '9'
    }
}

/// The decimal notation of `n` as characters.
pub fn decimal_chars(n: u128) -> (v: Vec<char>)
    ensures
        v@ == decimal(n as nat),
    decreases n,
{
    if n < 10 {
        let mut v: Vec<char> = Vec::new();
        v.push(digit_char(n));
        v
    } else {
        let mut v = decimal_chars(n / 10);
        v.push(digit_char(n % 10));
        v
    }
}

/// Offset in bytes, in the UTF-8 encoding of `src`, of the character
/// offset `off`: the length of the encoding of the first `off` characters.
pub open spec fn utf8_offset(src: Seq<char>, off: int) -> int {
    encode_utf8(src.subrange(0, off)).len() as int
}

/// The number of UTF-16 code units that a character takes: two beyond the
/// basic plane, else one.
pub open spec fn unit_width(c: char) -> int {
    if (c as u32) < 0x10000 {
        1
    } else {
        2
    }
}

/// Zero-based column of offset `off` in UTF-16 code units: the number of
/// code units between the start of its line and the offset.
pub open spec fn unit_column_at(src: Seq<char>, off: int) -> int
    decreases off,
{
    if off <= 0 || off > src.len() {
        0
    } else if src[off - 1] == '\n' {
        0
    } else {
        unit_column_at(src, off - 1) + unit_width(src[off - 1])
    }
}

/// A count as a machine word; the largest word where it does not fit.
pub open spec fn capped(x: int) -> usize {
    if x > usize::MAX {
        usize::MAX
    } else {
        x as usize
    }
}

/// Caps a count at the largest machine word.
pub fn cap(x: u128) -> (r: usize)
    ensures
        r == capped(x as int),
{
    if x > usize::MAX as u128 {
        usize::MAX
    } else {
        x as usize
    }
}

/// A column in code units is at most twice the offset.
pub proof fn lemma_unit_column_bounds(src: Seq<char>, off: int)
    requires
        0 <= off <= src.len(),
    ensures
        0 <= unit_column_at(src, off) <= 2 * off,
    decreases off,
{
    if off > 0 {
        lemma_unit_column_bounds(src, off - 1);
    }
}

/// A column in code units depends only on the text before it.
pub proof fn lemma_unit_column_prefix(a: Seq<char>, b: Seq<char>, off: int)
    requires
        0 <= off <= a.len(),
        off <= b.len(),
        forall|k: int| 0 <= k < off ==> a[k] == b[k],
    ensures
        unit_column_at(a, off) == unit_column_at(b, off),
    decreases off,
{
    if off > 0 {
        lemma_unit_column_prefix(a, b, off - 1);
    }
}

/// The encoding of a text with one more character is the encoding of the
/// text followed by that of the character.
pub proof fn lemma_encode_push(text: Seq<char>, c: char)
    ensures
        encode_utf8(text.push(c)) == encode_utf8(text) + encode_scalar(c as u32),
    decreases text.len(),
{
    if text.len() == 0 {
        assert(text.push(c).drop_first() =~= text);
        assert(encode_utf8(text.push(c)) =~= encode_scalar(c as u32) + encode_utf8(text));
        assert(encode_utf8(text) =~= Seq::<u8>::empty());
        assert(encode_scalar(c as u32) + Seq::<u8>::empty() =~= Seq::<u8>::empty()
            + encode_scalar(c as u32));
    } else {
        let rest = text.drop_first();
        lemma_encode_push(rest, c);
        assert(text.push(c).drop_first() =~= rest.push(c));
        assert(text.push(c)[0] == text[0]);
        assert(encode_scalar(text[0] as u32) + (encode_utf8(rest) + encode_scalar(c as u32))
            =~= (encode_scalar(text[0] as u32) + encode_utf8(rest)) + encode_scalar(c as u32));
    }
}

/// Offsets in bytes are offsets into the string: the offset in bytes of
/// the end of the text is the length in bytes of a string that holds it.
pub proof fn law_byte_offsets_fit_strings(text: &str)
    ensures
        utf8_offset(text@, text@.len() as int) == text.spec_bytes().len(),
{
    assert(text@.subrange(0, text@.len() as int) =~= text@);
}

/// Carries a column in code units known at `from` forward to `to`.
pub fn advance_units(src: &Vec<char>, from: usize, to: usize, column: u128) -> (r: u128)
    requires
        from <= to <= src.len(),
        column == unit_column_at(src@, from as int),
    ensures
        r == unit_column_at(src@, to as int),
{
    let mut c: u128 = column;
    let mut i: usize = from;
    while i < to
        invariant
            from <= i <= to <= src.len(),
            c == unit_column_at(src@, i as int),
        decreases to - i,
    {
        proof {
            lemma_unit_column_bounds(src@, i as int);
        }
        if src[i] == '\n' {
            c = 0;
        } else if (src[i] as u32) < 0x10000 {
            c += 1;
        } else {
            c += 2;
        }
        i += 1;
    }
    c
}

/// The offset in bytes, in the UTF-8 encoding of `src`, of the character
/// offset `offset`; nothing where it does not fit the machine's word.
pub fn byte_offset(src: &Vec<char>, offset: usize) -> (r: Option<usize>)
    requires
        offset <= src.len(),
    ensures
        match r {
            Some(b) => b == utf8_offset(src@, offset as int),
            None => utf8_offset(src@, offset as int) > usize::MAX,
        },
{
    let mut bytes: usize = 0;
    let mut i: usize = 0;
    while i < offset
        invariant
            i <= offset <= src.len(),
            bytes == utf8_offset(src@, i as int),
        decreases offset - i,
    {
        let code = src[i] as u32;
        let width: usize = if code < 0x80 {
            1
        } else if code < 0x800 {
            2
        } else if code < 0x10000 {
            3
        } else {
            4
        };
        proof {
            lemma_encode_push(src@.subrange(0, i as int), src@[i as int]);
            assert(src@.subrange(0, i as int).push(src@[i as int]) =~= src@.subrange(0, i + 1));
            vstd::utf8::char_is_scalar(src@[i as int]);
            assert(encode_scalar(code).len() == width);
        }
        if width > usize::MAX - bytes {
            proof {
                lemma_utf8_offset_grows(src@, i + 1, offset as int);
            }
            return None;
        }
        bytes += width;
        i += 1;
    }
    Some(bytes)
}

/// A later offset in characters is a later offset in bytes.
pub proof fn lemma_utf8_offset_grows(src: Seq<char>, a: int, b: int)
    requires
        0 <= a <= b <= src.len(),
    ensures
        utf8_offset(src, a) <= utf8_offset(src, b),
    decreases b - a,
{
    if a < b {
        lemma_utf8_offset_grows(src, a, b - 1);
        lemma_encode_push(src.subrange(0, b - 1), src[b - 1]);
        assert(src.subrange(0, b - 1).push(src[b - 1]) =~= src.subrange(0, b));
    }
}

} // verus!
