//! Where control sequences end.

use vstd::prelude::*;

verus! {

pub const ESC: u8 = 0x1b;

pub const BEL: u8 = 0x07;

pub const CTRL_Q: u8 = 0x11;

/// An ASCII letter.
pub open spec fn is_letter(b: u8) -> bool {
    ||| 0x41 <= b <= 0x5a
    ||| 0x61 <= b <= 0x7a
}

/// The bytes that end a CSI sequence: a letter or `~`.
pub open spec fn ends_csi(b: u8) -> bool {
    is_letter(b) || b == 0x7e
}

/// Where the CSI sequence that `s` starts with ends: behind the first byte
/// from `at` on that ends one, or at the end of `s`.
pub open spec fn csi_end(s: Seq<u8>, at: int) -> int
    decreases s.len() - at,
{
    if at >= s.len() {
        s.len() as int
    } else if ends_csi(s[at]) {
        at + 1
    } else {
        csi_end(s, at + 1)
    }
}

/// Where the body of an OSC sequence ends, read from `at` on: in front of the
/// first BEL or behind the first ESC `\`, or at the end of `s`.
pub open spec fn osc_body_end(s: Seq<u8>, at: int) -> int
    decreases s.len() - at,
{
    if at >= s.len() {
        s.len() as int
    } else if s[at] == BEL {
        at
    } else if s[at] == ESC && at + 1 < s.len() && s[at + 1] == 0x5c {
        at + 2
    } else {
        osc_body_end(s, at + 1)
    }
}

/// Where the OSC sequence ends whose body starts at `at`: a BEL that stands at
/// the end of the body belongs to it.
pub open spec fn osc_end(s: Seq<u8>, at: int) -> int {
    let e = osc_body_end(s, at);
    if e < s.len() && s[e] == BEL {
        e + 1
    } else {
        e
    }
}

pub proof fn lemma_csi_end(s: Seq<u8>, at: int)
    requires
        0 <= at <= s.len(),
    ensures
        at <= csi_end(s, at) <= s.len(),
        at < s.len() ==> at < csi_end(s, at),
    decreases s.len() - at,
{
    if at < s.len() && !ends_csi(s[at]) {
        lemma_csi_end(s, at + 1);
    }
}

pub proof fn lemma_osc_end(s: Seq<u8>, at: int)
    requires
        0 <= at <= s.len(),
    ensures
        at <= osc_body_end(s, at) <= s.len(),
        at <= osc_end(s, at) <= s.len(),
    decreases s.len() - at,
{
    if at < s.len() && s[at] != BEL && !(s[at] == ESC && at + 1 < s.len() && s[at + 1] == 0x5c) {
        lemma_osc_end(s, at + 1);
    }
}

/// Where the CSI sequence that `s` starts with ends.
pub fn find_csi_end(s: &[u8], at: usize) -> (r: usize)
    requires
        at <= s@.len(),
    ensures
        r == csi_end(s@, at as int),
        at <= r <= s@.len(),
{
    proof {
        lemma_csi_end(s@, at as int);
    }
    let mut i: usize = at;
    while i < s.len()
        invariant
            at <= i <= s@.len(),
            csi_end(s@, at as int) == csi_end(s@, i as int),
            at <= csi_end(s@, at as int) <= s@.len(),
        decreases s@.len() - i,
    {
        let b: u8 = s[i];
        if (0x41 <= b && b <= 0x5a) || (0x61 <= b && b <= 0x7a) || b == 0x7e {
            return i + 1;
        }
        i = i + 1;
    }
    i
}

/// Where the OSC sequence ends whose body starts at `at`.
pub fn find_osc_end(s: &[u8], at: usize) -> (r: usize)
    requires
        at <= s@.len(),
    ensures
        r == osc_end(s@, at as int),
        at <= r <= s@.len(),
{
    proof {
        lemma_osc_end(s@, at as int);
    }
    let mut i: usize = at;
    while i < s.len()
        invariant
            at <= i <= s@.len(),
            osc_body_end(s@, at as int) == osc_body_end(s@, i as int),
            at <= osc_end(s@, at as int) <= s@.len(),
        decreases s@.len() - i,
    {
        if s[i] == BEL {
            return i + 1;
        }
        if s[i] == ESC && i + 1 < s.len() && s[i + 1] == 0x5c {
            let e: usize = i + 2;
            if e < s.len() && s[e] == BEL {
                return e + 1;
            }
            return e;
        }
        i = i + 1;
    }
    i
}

} // verus!
