//! The source map: the position table of the emitter written down in the
//! common format, version 3, with its `mappings` in base-64 VLQ.

use crate::emit::Mapping;
use crate::text::{append_all, append_str};
use vstd::prelude::*;

verus! {

/// The base-64 digit of a value below 64: `A`..`Z`, `a`..`z`, `0`..`9`,
/// `+`, `/`.
pub open spec fn base64_digit(d: int) -> char {
    if d < 26 {
        (65 + d) as char
    } else if d < 52 {
        (97 + d - 26) as char
    } else if d < 62 {
        (48 + d - 52) as char
    } else if d == 62 {
        '+'
    } else {
        '/'
    }
}

/// The digits of `n`, five bits each, lowest first; every digit but the
/// last has its sixth bit set.
pub open spec fn vlq_digits(n: nat) -> Seq<char>
    decreases n,
{
    if n < 32 {
        seq![base64_digit(n as int)]
    } else {
        seq![base64_digit(32 + (n % 32) as int)] + vlq_digits(n / 32)
    }
}

/// The VLQ of a signed value: its magnitude shifted left by one, with the
/// sign in the lowest bit.
pub open spec fn vlq(v: int) -> Seq<char> {
    vlq_digits(
        if v < 0 {
            (-v * 2 + 1) as nat
        } else {
            (v * 2) as nat
        },
    )
}

/// The value of a base-64 digit.
pub open spec fn digit_value(c: char) -> int {
    if 'A' <= c && c <= 'Z' {
        c as int - 65
    } else if 'a' <= c && c <= 'z' {
        c as int - 97 + 26
    } else if '0' <= c && c <= '9' {
        c as int - 48 + 52
    } else if c == '+' {
        62
    } else {
        63
    }
}

/// The number whose digits stand in `s` from offset `pos` on, and the
/// offset after its last digit; nothing where the digits break off.
pub open spec fn read_digits(s: Seq<char>, pos: int) -> Option<(nat, int)>
    decreases s.len() - pos,
{
    if pos < 0 || pos >= s.len() {
        None
    } else {
        let d = digit_value(s[pos]);
        if d < 32 {
            Some((d as nat, pos + 1))
        } else {
            match read_digits(s, pos + 1) {
                Some((rest, end)) => Some(((d - 32 + 32 * rest) as nat, end)),
                None => None,
            }
        }
    }
}

/// The signed value whose VLQ stands in `s` from offset `pos` on, and the
/// offset after it.
pub open spec fn read_vlq(s: Seq<char>, pos: int) -> Option<(int, int)> {
    match read_digits(s, pos) {
        Some((n, end)) => Some(
            (
                if n % 2 == 1 {
                    -(n / 2)
                } else {
                    n as int / 2
                },
                end,
            ),
        ),
        None => None,
    }
}

/// A base-64 digit has the value it was made from.
pub proof fn lemma_digit_value(d: int)
    requires
        0 <= d < 64,
    ensures
        digit_value(base64_digit(d)) == d,
{
}

/// The digits of a number read back as that number, whatever stands
/// before and after them.
pub proof fn lemma_read_digits(before: Seq<char>, n: nat, after: Seq<char>)
    ensures
        read_digits(before + vlq_digits(n) + after, before.len() as int) == Some(
            (n, (before.len() + vlq_digits(n).len()) as int),
        ),
    decreases n,
{
    let s = before + vlq_digits(n) + after;
    let pos = before.len() as int;
    if n < 32 {
        lemma_digit_value(n as int);
        assert(s[pos] == base64_digit(n as int));
    } else {
        let d = 32 + (n % 32) as int;
        lemma_digit_value(d);
        assert(s[pos] == base64_digit(d));
        let before2 = before.push(base64_digit(d));
        lemma_read_digits(before2, n / 32, after);
        assert(before2 + vlq_digits(n / 32) + after =~= s);
    }
}

/// A VLQ reads back as the value it was made from: the encoding loses
/// nothing and needs no separator.
pub proof fn law_vlq_reads_back(before: Seq<char>, v: int, after: Seq<char>)
    ensures
        read_vlq(before + vlq(v) + after, before.len() as int) == Some(
            (v, (before.len() + vlq(v).len()) as int),
        ),
{
    let n = if v < 0 {
        (-v * 2 + 1) as nat
    } else {
        (v * 2) as nat
    };
    lemma_read_digits(before, n, after);
}

/// `n` semicolons.
pub open spec fn line_breaks(n: int) -> Seq<char> {
    Seq::new(
        if n > 0 {
            n as nat
        } else {
            0
        },
        |i: int| ';',
    )
}

/// The table entry before entry `k`; for the first entry, the origin.
pub open spec fn previous(mappings: Seq<Mapping>, k: int) -> Mapping {
    if k <= 0 {
        Mapping { generated_line: 0, generated_column: 0, source_line: 0, source_column: 0 }
    } else {
        mappings[k - 1]
    }
}

/// What entry `k` of the table adds to `mappings`.
///
/// An entry on a later line than the one before it is preceded by one
/// semicolon for each line in between, and its column counts from zero. An
/// entry on the same line is preceded by a comma, unless it is the first
/// of all, and its column counts from the column before. Then follow the
/// column, the index of the source, which is always the first, and the
/// line and column in the source, each as its difference from the entry
/// before.
pub open spec fn entry(mappings: Seq<Mapping>, k: int) -> Seq<char> {
    let m = mappings[k];
    let p = previous(mappings, k);
    let gap = m.generated_line - p.generated_line;
    let lead = if gap > 0 {
        line_breaks(gap)
    } else if k == 0 {
        Seq::empty()
    } else {
        seq![',']
    };
    let base = if gap > 0 {
        0int
    } else {
        p.generated_column as int
    };
    lead + vlq(m.generated_column - base) + vlq(0) + vlq(m.source_line - p.source_line) + vlq(
        m.source_column - p.source_column,
    )
}

/// The first `k` entries of the table, encoded.
pub open spec fn encode_upto(mappings: Seq<Mapping>, k: int) -> Seq<char>
    decreases k,
{
    if k <= 0 {
        Seq::empty()
    } else {
        encode_upto(mappings, k - 1) + entry(mappings, k - 1)
    }
}

/// The `mappings` text of a position table.
pub open spec fn encode(mappings: Seq<Mapping>) -> Seq<char> {
    encode_upto(mappings, mappings.len() as int)
}

/// The hexadecimal digit of a value below 16, in lower case.
pub open spec fn hex_digit(d: int) -> char {
    if d < 10 {
        (48 + d) as char
    } else {
        (97 + d - 10) as char
    }
}

/// A character as it stands inside a JSON string.
pub open spec fn escape_char(c: char) -> Seq<char> {
    if c == '"' {
        seq!['\\', '"']
    } else if c == '\\' {
        seq!['\\', '\\']
    } else if c == '\n' {
        seq!['\\', 'n']
    } else if c == '\r' {
        seq!['\\', 'r']
    } else if c == '\t' {
        seq!['\\', 't']
    } else if (c as u32) < 32 {
        seq!['\\', 'u', '0', '0', hex_digit((c as int) / 16), hex_digit((c as int) % 16)]
    } else {
        seq![c]
    }
}

/// The first `k` characters of `s`, escaped.
pub open spec fn escape_upto(s: Seq<char>, k: int) -> Seq<char>
    decreases k,
{
    if k <= 0 {
        Seq::empty()
    } else {
        escape_upto(s, k - 1) + escape_char(s[k - 1])
    }
}

/// The source map of a module known as `specifier`, with the given
/// position table.
pub open spec fn source_map_model(specifier: Seq<char>, mappings: Seq<Mapping>) -> Seq<char> {
    "{\"version\":3,\"sources\":[\""@ + escape_upto(specifier, specifier.len() as int)
        + "\"],\"names\":[],\"mappings\":\""@ + encode(mappings) + "\"}"@
}

fn base64_char(d: u8) -> (c: char)
    requires
        d < 64,
    ensures
        c == base64_digit(d as int),
{
    if d < 26 {
        (65 + d) as char
    } else if d < 52 {
        (97 + d - 26) as char
    } else if d < 62 {
        (48 + d - 52) as char
    } else if d == 62 {
        '+'
    } else {
        '/'
    }
}

fn hex_char(d: u8) -> (c: char)
    requires
        d < 16,
    ensures
        c == hex_digit(d as int),
{
    if d < 10 {
        (48 + d) as char
    } else {
        (97 + d - 10) as char
    }
}

fn push_digits(out: &mut Vec<char>, n: u128)
    ensures
        final(out)@ == old(out)@ + vlq_digits(n as nat),
{
    let mut rest: u128 = n;
    while rest >= 32
        invariant
            old(out)@ + vlq_digits(n as nat) == out@ + vlq_digits(rest as nat),
        decreases rest,
    {
        let ghost before = out@;
        let d = (rest % 32) as u8;
        out.push(base64_char(32 + d));
        assert(before + vlq_digits(rest as nat) =~= out@ + vlq_digits((rest / 32) as nat));
        rest = rest / 32;
    }
    let ghost before = out@;
    out.push(base64_char(rest as u8));
    assert(before + vlq_digits(rest as nat) =~= out@);
}

/// Appends the VLQ of `a - b`.
fn push_delta(out: &mut Vec<char>, a: usize, b: usize)
    ensures
        final(out)@ == old(out)@ + vlq(a - b),
{
    if a >= b {
        push_digits(out, (a - b) as u128 * 2);
    } else {
        push_digits(out, (b - a) as u128 * 2 + 1);
    }
}

fn push_line_breaks(out: &mut Vec<char>, n: usize)
    ensures
        final(out)@ == old(out)@ + line_breaks(n as int),
{
    let mut k: usize = 0;
    while k < n
        invariant
            k <= n,
            out@ == old(out)@ + line_breaks(k as int),
        decreases n - k,
    {
        let ghost before = out@;
        out.push(';');
        k += 1;
        assert(out@ =~= old(out)@ + line_breaks(k as int));
    }
    assert(old(out)@ + line_breaks(0) =~= old(out)@);
}

/// Encodes a position table as `mappings` text.
pub fn encode_mappings(mappings: &Vec<Mapping>) -> (r: Vec<char>)
    ensures
        r@ == encode(mappings@),
{
    let mut out: Vec<char> = Vec::new();
    let mut prev = Mapping {
        generated_line: 0,
        generated_column: 0,
        source_line: 0,
        source_column: 0,
    };
    let mut k: usize = 0;
    while k < mappings.len()
        invariant
            k <= mappings.len(),
            prev == previous(mappings@, k as int),
            out@ == encode_upto(mappings@, k as int),
        decreases mappings.len() - k,
    {
        let ghost before = out@;
        let m = mappings[k];
        let base: usize;
        if m.generated_line > prev.generated_line {
            push_line_breaks(&mut out, m.generated_line - prev.generated_line);
            base = 0;
        } else {
            if k != 0 {
                out.push(',');
            }
            base = prev.generated_column;
        }
        push_delta(&mut out, m.generated_column, base);
        push_delta(&mut out, 0, 0);
        push_delta(&mut out, m.source_line, prev.source_line);
        push_delta(&mut out, m.source_column, prev.source_column);
        assert(out@ =~= before + entry(mappings@, k as int));
        prev = m;
        k += 1;
    }
    out
}

fn push_escaped(out: &mut Vec<char>, c: char)
    ensures
        final(out)@ == old(out)@ + escape_char(c),
{
    if c == '"' {
        out.push('\\');
        out.push('"');
    } else if c == '\\' {
        out.push('\\');
        out.push('\\');
    } else if c == '\n' {
        out.push('\\');
        out.push('n');
    } else if c == '\r' {
        out.push('\\');
        out.push('r');
    } else if c == '\t' {
        out.push('\\');
        out.push('t');
    } else if (c as u32) < 32 {
        let code = c as u32;
        out.push('\\');
        out.push('u');
        out.push('0');
        out.push('0');
        out.push(hex_char((code / 16) as u8));
        out.push(hex_char((code % 16) as u8));
    } else {
        out.push(c);
    }
    assert(out@ =~= old(out)@ + escape_char(c));
}

/// Writes the source map of the module known as `specifier`.
pub fn source_map(specifier: &Vec<char>, mappings: &Vec<Mapping>) -> (r: Vec<char>)
    ensures
        r@ == source_map_model(specifier@, mappings@),
{
    let mut out: Vec<char> = Vec::new();
    append_str(&mut out, "{\"version\":3,\"sources\":[\"");
    let ghost head = out@;
    let mut k: usize = 0;
    while k < specifier.len()
        invariant
            k <= specifier.len(),
            out@ == head + escape_upto(specifier@, k as int),
        decreases specifier.len() - k,
    {
        let ghost before = out@;
        push_escaped(&mut out, specifier[k]);
        k += 1;
        assert(out@ =~= head + escape_upto(specifier@, k as int));
    }
    append_str(&mut out, "\"],\"names\":[],\"mappings\":\"");
    let encoded = encode_mappings(mappings);
    append_all(&mut out, &encoded);
    append_str(&mut out, "\"}");
    assert(head =~= "{\"version\":3,\"sources\":[\""@);
    out
}

} // verus!
