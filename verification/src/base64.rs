//! Base64, in which the clipboard of a terminal takes its text.

use vstd::prelude::*;

verus! {

/// The character for a value below 64.
pub open spec fn letter(v: int) -> char {
    if v < 26 {
        (0x41 + v) as char
    } else if v < 52 {
        (0x61 + v - 26) as char
    } else if v < 62 {
        (0x30 + v - 52) as char
    } else if v == 62 {
        '+'
    } else {
        '/'
    }
}

/// Three bytes as one number; those that are missing count as zero.
pub open spec fn triple(d: Seq<u8>) -> int {
    d[0] * 0x10000 + (if d.len() > 1 {
        d[1] as int
    } else {
        0
    }) * 0x100 + (if d.len() > 2 {
        d[2] as int
    } else {
        0
    })
}

/// The four characters for the first three bytes of `d`, or for as many as
/// there are.
pub open spec fn group(d: Seq<u8>) -> Seq<char> {
    let t = triple(d);
    seq![
        letter(t / 0x40000),
        letter(t / 0x1000 % 64),
        if d.len() > 1 {
            letter(t / 64 % 64)
        } else {
            '='
        },
        if d.len() > 2 {
            letter(t % 64)
        } else {
            '='
        },
    ]
}

/// What follows the first three bytes.
pub open spec fn behind_group(d: Seq<u8>) -> Seq<u8> {
    if d.len() > 3 {
        d.skip(3)
    } else {
        Seq::empty()
    }
}

/// `d` in base64.
pub open spec fn base64(d: Seq<u8>) -> Seq<char>
    decreases d.len(),
{
    if d.len() == 0 {
        Seq::empty()
    } else {
        group(d) + base64(behind_group(d))
    }
}

fn letter_of(v: u32) -> (r: char)
    requires
        v < 64,
    ensures
        r == letter(v as int),
{
    if v < 26 {
        (0x41 + v as u8) as char
    } else if v < 52 {
        (0x61 + (v as u8 - 26)) as char
    } else if v < 62 {
        (0x30 + (v as u8 - 52)) as char
    } else if v == 62 {
        '+'
    } else {
        '/'
    }
}

/// Data in base64, with padding.
pub fn base64_encode(data: &[u8]) -> (r: String)
    ensures
        r@ == base64(data@),
{
    let mut out = String::new();
    let mut i: usize = 0;
    assert(data@.skip(0) == data@);
    assert(out@ + base64(data@) =~= base64(data@));
    while i < data.len()
        invariant
            i <= data@.len(),
            base64(data@) == out@ + base64(data@.skip(i as int)),
        decreases data@.len() - i,
    {
        let ghost rest = data@.skip(i as int);
        let ghost before = out@;
        let n: usize = if data.len() - i > 3 { 3 } else { data.len() - i };
        let b0: u32 = data[i] as u32;
        let b1: u32 = if n > 1 { data[i + 1] as u32 } else { 0 };
        let b2: u32 = if n > 2 { data[i + 2] as u32 } else { 0 };
        let t: u32 = b0 * 0x10000 + b1 * 0x100 + b2;
        assert(t == triple(rest));
        out.push(letter_of(t / 0x40000));
        out.push(letter_of(t / 0x1000 % 64));
        out.push(if n > 1 { letter_of(t / 64 % 64) } else { '=' });
        out.push(if n > 2 { letter_of(t % 64) } else { '=' });
        i = i + n;
        proof {
            assert(out@ =~= before + group(rest));
            assert(behind_group(rest) =~= data@.skip(i as int));
            assert(before + (group(rest) + base64(behind_group(rest))) =~= out@ + base64(
                behind_group(rest),
            ));
        }
    }
    assert(data@.skip(i as int) =~= Seq::<u8>::empty());
    assert(out@ + Seq::empty() =~= out@);
    out
}

// ---- Laws ----

/// The value of a character; the padding counts as zero.
pub open spec fn letter_value(c: char) -> int {
    if 'A' <= c <= 'Z' {
        c as int - 0x41
    } else if 'a' <= c <= 'z' {
        c as int - 0x61 + 26
    } else if '0' <= c <= '9' {
        c as int - 0x30 + 52
    } else if c == '+' {
        62
    } else if c == '/' {
        63
    } else {
        0
    }
}

/// The bytes that four characters stand for.
pub open spec fn group_bytes(s: Seq<char>) -> Seq<u8> {
    let t = letter_value(s[0]) * 0x40000 + letter_value(s[1]) * 0x1000 + letter_value(s[2]) * 64
        + letter_value(s[3]);
    let all = seq![(t / 0x10000) as u8, (t / 0x100 % 0x100) as u8, (t % 0x100) as u8];
    if s[2] == '=' {
        all.take(1)
    } else if s[3] == '=' {
        all.take(2)
    } else {
        all
    }
}

/// What a text in base64 stands for.
pub open spec fn decoded(s: Seq<char>) -> Seq<u8>
    decreases s.len(),
{
    if s.len() < 4 {
        Seq::empty()
    } else {
        group_bytes(s) + decoded(s.skip(4))
    }
}

proof fn lemma_letter_value(v: int)
    requires
        0 <= v < 64,
    ensures
        letter_value(letter(v)) == v,
        letter(v) != '=',
{
}

/// A number is made up of its digits to the base 64.
proof fn lemma_sextets(t: int)
    requires
        0 <= t < 0x1000000,
    ensures
        t == (t / 0x40000) * 0x40000 + (t / 0x1000 % 64) * 0x1000 + (t / 64 % 64) * 64 + t % 64,
        0 <= t / 0x40000 < 64,
{
    assert(t / 0x1000 == (t / 64) / 64);
    assert(t / 0x40000 == (t / 0x1000) / 64);
}

/// A number made up of three bytes gives them back.
proof fn lemma_bytes(b0: int, b1: int, b2: int)
    requires
        0 <= b0 < 256,
        0 <= b1 < 256,
        0 <= b2 < 256,
    ensures
        ({
            let t = b0 * 0x10000 + b1 * 0x100 + b2;
            &&& 0 <= t < 0x1000000
            &&& t / 0x10000 == b0
            &&& t / 0x100 % 0x100 == b1
            &&& t % 0x100 == b2
            &&& b2 == 0 ==> t % 64 == 0
            &&& b1 == 0 && b2 == 0 ==> t / 64 % 64 == 0
        }),
{
    let t = b0 * 0x10000 + b1 * 0x100 + b2;
    assert(t / 0x100 == b0 * 0x100 + b1);
    assert(b2 == 0 ==> t == 64 * (b0 * 1024 + b1 * 4));
    assert(b1 == 0 && b2 == 0 ==> t / 64 == b0 * 1024);
}

proof fn lemma_group(d: Seq<u8>)
    requires
        d.len() > 0,
    ensures
        group_bytes(group(d)) == (if d.len() > 3 {
            d.take(3)
        } else {
            d
        }),
{
    let t = triple(d);
    let b0 = d[0] as int;
    let b1 = if d.len() > 1 {
        d[1] as int
    } else {
        0
    };
    let b2 = if d.len() > 2 {
        d[2] as int
    } else {
        0
    };
    lemma_bytes(b0, b1, b2);
    lemma_sextets(t);
    lemma_letter_value(t / 0x40000);
    lemma_letter_value(t / 0x1000 % 64);
    lemma_letter_value(t / 64 % 64);
    lemma_letter_value(t % 64);
    let g = group(d);
    assert(letter_value(g[0]) * 0x40000 + letter_value(g[1]) * 0x1000 + letter_value(g[2]) * 64
        + letter_value(g[3]) == t);
    let all = seq![b0 as u8, b1 as u8, b2 as u8];
    assert(group_bytes(g) == (if d.len() == 1 {
        all.take(1)
    } else if d.len() == 2 {
        all.take(2)
    } else {
        all
    }));
    let want = if d.len() > 3 {
        d.take(3)
    } else {
        d
    };
    assert(group_bytes(g) =~= want);
}

/// Nothing is lost: a text in base64 stands for the data that it was made of.
pub proof fn base64_round_trip(d: Seq<u8>)
    ensures
        decoded(base64(d)) == d,
    decreases d.len(),
{
    if d.len() > 0 {
        let rest = behind_group(d);
        base64_round_trip(rest);
        lemma_group(d);
        let all = base64(d);
        assert(all.skip(4) =~= base64(rest));
        assert(group_bytes(all) == group_bytes(group(d)));
        assert(decoded(all) =~= d);
    }
}

/// Every three bytes, begun ones too, take four characters.
pub proof fn base64_length(d: Seq<u8>)
    ensures
        base64(d).len() == (d.len() + 2) / 3 * 4,
    decreases d.len(),
{
    if d.len() > 0 {
        base64_length(behind_group(d));
    }
}

} // verus!
