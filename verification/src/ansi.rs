//! Control sequences in text: how they are written, and what of a text shows.

use vstd::prelude::*;

use crate::text;

verus! {

pub open spec fn esc() -> char {
    '\x1b'
}

pub open spec fn bel() -> char {
    '\x07'
}

// ---- Writing ----

/// Numbers in decimal with semicolons between them.
pub open spec fn codes_text(codes: Seq<u64>) -> Seq<char>
    decreases codes.len(),
{
    if codes.len() == 0 {
        Seq::empty()
    } else if codes.len() == 1 {
        text::decimal(codes[0] as nat)
    } else {
        codes_text(codes.drop_last()) + seq![';'] + text::decimal(codes.last() as nat)
    }
}

/// A CSI sequence: ESC, `[`, its numbers and the letter that ends it.
pub open spec fn csi(codes: Seq<u64>, end: char) -> Seq<char> {
    seq![esc(), '['] + codes_text(codes) + seq![end]
}

/// A sequence that sets how text looks.
pub open spec fn sgr(codes: Seq<u64>) -> Seq<char> {
    csi(codes, 'm')
}

/// All attributes back to normal.
pub open spec fn reset() -> Seq<char> {
    sgr(seq![0u64])
}

/// The color of the text.
pub open spec fn fg(r: u64, g: u64, b: u64) -> Seq<char> {
    sgr(seq![38u64, 2, r, g, b])
}

/// Bold text in the given color.
pub open spec fn bold_fg(r: u64, g: u64, b: u64) -> Seq<char> {
    sgr(seq![1u64, 38, 2, r, g, b])
}

/// The color behind the text.
pub open spec fn bg(r: u64, g: u64, b: u64) -> Seq<char> {
    sgr(seq![48u64, 2, r, g, b])
}

/// The cursor goes to a row and a column, both counted from one.
pub open spec fn goto(row: u64, col: u64) -> Seq<char> {
    csi(seq![row, col], 'H')
}

/// `label` as a link to `url`.
pub open spec fn link(url: Seq<char>, label: Seq<char>) -> Seq<char> {
    link_start(url) + label + link_start(Seq::empty())
}

/// What follows is a link to `url`; with an empty `url`, no link.
pub open spec fn link_start(url: Seq<char>) -> Seq<char> {
    seq![esc(), ']', '8', ';', ';'] + url + seq![bel()]
}

/// So many spaces.
pub open spec fn spaces(n: int) -> Seq<char> {
    Seq::new(n as nat, |i: int| ' ')
}

pub fn push_csi(out: &mut String, codes: &[u64], end: char)
    ensures
        final(out)@ == old(out)@ + csi(codes@, end),
{
    out.push('\x1b');
    out.push('[');
    let mut i: usize = 0;
    assert(out@ =~= old(out)@ + (seq![esc(), '['] + codes_text(codes@.take(0))));
    while i < codes.len()
        invariant
            i <= codes@.len(),
            out@ == old(out)@ + (seq![esc(), '['] + codes_text(codes@.take(i as int))),
        decreases codes@.len() - i,
    {
        assert(codes@.take(i + 1).drop_last() == codes@.take(i as int));
        assert(codes@.take(i + 1).last() == codes@[i as int]);
        if i > 0 {
            out.push(';');
        }
        text::push_decimal(out, codes[i]);
        i = i + 1;
        assert(out@ =~= old(out)@ + (seq![esc(), '['] + codes_text(codes@.take(i as int))));
    }
    assert(codes@.take(codes@.len() as int) == codes@);
    out.push(end);
    assert(out@ =~= old(out)@ + csi(codes@, end));
}

pub fn push_reset(out: &mut String)
    ensures
        final(out)@ == old(out)@ + reset(),
{
    push_csi(out, &[0], 'm');
}

pub fn push_fg(out: &mut String, r: u64, g: u64, b: u64)
    ensures
        final(out)@ == old(out)@ + fg(r, g, b),
{
    push_csi(out, &[38, 2, r, g, b], 'm');
    assert([38u64, 2, r, g, b]@ =~= seq![38u64, 2, r, g, b]);
}

pub fn push_bold_fg(out: &mut String, r: u64, g: u64, b: u64)
    ensures
        final(out)@ == old(out)@ + bold_fg(r, g, b),
{
    push_csi(out, &[1, 38, 2, r, g, b], 'm');
    assert([1u64, 38, 2, r, g, b]@ =~= seq![1u64, 38, 2, r, g, b]);
}

pub fn push_bg(out: &mut String, r: u64, g: u64, b: u64)
    ensures
        final(out)@ == old(out)@ + bg(r, g, b),
{
    push_csi(out, &[48, 2, r, g, b], 'm');
    assert([48u64, 2, r, g, b]@ =~= seq![48u64, 2, r, g, b]);
}

pub fn push_goto(out: &mut String, row: u64, col: u64)
    ensures
        final(out)@ == old(out)@ + goto(row, col),
{
    push_csi(out, &[row, col], 'H');
    assert([row, col]@ =~= seq![row, col]);
}

pub fn push_link(out: &mut String, url: &str, label: &str)
    ensures
        final(out)@ == old(out)@ + link(url@, label@),
{
    proof {
        reveal_strlit("\x1b]8;;");
        reveal_strlit("\x07");
        reveal_strlit("\x1b]8;;\x07");
    }
    out.append("\x1b]8;;");
    out.append(url);
    out.append("\x07");
    out.append(label);
    out.append("\x1b]8;;\x07");
    assert(out@ =~= old(out)@ + link(url@, label@));
}

pub fn push_spaces(out: &mut String, n: usize)
    ensures
        final(out)@ == old(out)@ + spaces(n as int),
{
    text::push_repeated(out, ' ', n);
    assert(out@ =~= old(out)@ + spaces(n as int));
}

// ---- Reading ----

/// An ASCII letter.
pub open spec fn is_letter(c: char) -> bool {
    ||| 'A' <= c <= 'Z'
    ||| 'a' <= c <= 'z'
}

/// What follows the CSI sequence whose numbers `s` starts with: all behind the
/// first letter.
pub open spec fn behind_csi(s: Seq<char>) -> Seq<char>
    decreases s.len(),
{
    if s.len() == 0 {
        s
    } else if is_letter(s[0]) {
        s.drop_first()
    } else {
        behind_csi(s.drop_first())
    }
}

/// What follows the OSC sequence whose body `s` starts with. The body ends
/// with a BEL, with ESC `\`, or in front of what follows another ESC.
pub open spec fn behind_osc(s: Seq<char>) -> Seq<char>
    decreases s.len(),
{
    if s.len() == 0 {
        s
    } else if s[0] == bel() {
        s.drop_first()
    } else if s[0] == esc() {
        if s.len() > 1 && s[1] == '\\' {
            s.skip(2)
        } else {
            s.drop_first()
        }
    } else {
        behind_osc(s.drop_first())
    }
}

/// No more follows a sequence than there is.
pub proof fn lemma_behind(s: Seq<char>)
    ensures
        behind_csi(s).len() <= s.len(),
        behind_osc(s).len() <= s.len(),
    decreases s.len(),
{
    if s.len() > 0 {
        lemma_behind(s.drop_first());
    }
}

/// What of a text shows: the characters outside of control sequences.
pub open spec fn visible(s: Seq<char>) -> Seq<char>
    decreases s.len(),
{
    if s.len() == 0 {
        Seq::empty()
    } else {
        proof {
            lemma_behind(s.skip(2));
        }
        if s[0] != esc() {
            seq![s[0]] + visible(s.drop_first())
        } else if s.len() > 1 && s[1] == '[' {
            visible(behind_csi(s.skip(2)))
        } else if s.len() > 1 && s[1] == ']' {
            visible(behind_osc(s.skip(2)))
        } else {
            visible(s.drop_first())
        }
    }
}

fn find_behind_csi(c: &[char], at: usize) -> (r: usize)
    requires
        at <= c@.len(),
    ensures
        at <= r <= c@.len(),
        c@.skip(r as int) == behind_csi(c@.skip(at as int)),
{
    let mut i: usize = at;
    while i < c.len()
        invariant
            at <= i <= c@.len(),
            behind_csi(c@.skip(at as int)) == behind_csi(c@.skip(i as int)),
        decreases c@.len() - i,
    {
        assert(c@.skip(i as int).drop_first() == c@.skip(i + 1));
        let x: char = c[i];
        i = i + 1;
        if ('A' <= x && x <= 'Z') || ('a' <= x && x <= 'z') {
            return i;
        }
    }
    i
}

fn find_behind_osc(c: &[char], at: usize) -> (r: usize)
    requires
        at <= c@.len(),
    ensures
        at <= r <= c@.len(),
        c@.skip(r as int) == behind_osc(c@.skip(at as int)),
{
    let mut i: usize = at;
    while i < c.len()
        invariant
            at <= i <= c@.len(),
            behind_osc(c@.skip(at as int)) == behind_osc(c@.skip(i as int)),
        decreases c@.len() - i,
    {
        assert(c@.skip(i as int).drop_first() == c@.skip(i + 1));
        if c[i] == '\x07' {
            return i + 1;
        }
        if c[i] == '\x1b' {
            if i + 1 < c.len() && c[i + 1] == '\\' {
                assert(c@.skip(i as int).skip(2) == c@.skip(i + 2));
                return i + 2;
            }
            return i + 1;
        }
        i = i + 1;
    }
    i
}

/// How many characters of `s` show.
pub fn visible_len(s: &str) -> (r: usize)
    ensures
        r == visible(s@).len(),
{
    let c = text::chars_of(s);
    let mut len: usize = 0;
    let mut i: usize = 0;
    assert(c@.skip(0) == s@);
    while i < c.len()
        invariant
            i <= c@.len(),
            len <= i,
            visible(s@).len() == len + visible(c@.skip(i as int)).len(),
        decreases c@.len() - i,
    {
        let ghost rest = c@.skip(i as int);
        assert(rest.drop_first() == c@.skip(i + 1));
        if c[i] != '\x1b' {
            len = len + 1;
            i = i + 1;
        } else if i + 1 < c.len() && c[i + 1] == '[' {
            assert(rest.skip(2) == c@.skip(i + 2));
            i = find_behind_csi(c.as_slice(), i + 2);
        } else if i + 1 < c.len() && c[i + 1] == ']' {
            assert(rest.skip(2) == c@.skip(i + 2));
            i = find_behind_osc(c.as_slice(), i + 2);
        } else {
            i = i + 1;
        }
    }
    len
}

// ---- What shows of what is written ----

/// Text without ESC.
pub open spec fn is_plain(s: Seq<char>) -> bool {
    forall|i: int| 0 <= i < s.len() ==> #[trigger] s[i] != esc()
}

/// Text that can stand in an OSC sequence: without ESC and BEL.
pub open spec fn is_osc_body(s: Seq<char>) -> bool {
    forall|i: int| 0 <= i < s.len() ==> #[trigger] s[i] != esc() && s[i] != bel()
}

/// Text without letters.
pub open spec fn no_letters(s: Seq<char>) -> bool {
    forall|i: int| 0 <= i < s.len() ==> !is_letter(#[trigger] s[i])
}

/// Plain text shows as it is.
pub proof fn lemma_visible_plain(s: Seq<char>, rest: Seq<char>)
    requires
        is_plain(s),
    ensures
        visible(s + rest) == s + visible(rest),
    decreases s.len(),
{
    if s.len() == 0 {
        assert(s + rest =~= rest);
        assert(s + visible(rest) =~= visible(rest));
    } else {
        assert((s + rest).drop_first() =~= s.drop_first() + rest);
        assert((s + rest)[0] == s[0]);
        lemma_visible_plain(s.drop_first(), rest);
        assert(seq![s[0]] + (s.drop_first() + visible(rest)) =~= s + visible(rest));
    }
}

proof fn lemma_behind_csi(s: Seq<char>, end: char, rest: Seq<char>)
    requires
        no_letters(s),
        is_letter(end),
    ensures
        behind_csi(s + seq![end] + rest) == rest,
    decreases s.len(),
{
    let all = s + seq![end] + rest;
    if s.len() == 0 {
        assert(all.drop_first() =~= rest);
    } else {
        assert(all.drop_first() =~= s.drop_first() + seq![end] + rest);
        assert(all[0] == s[0]);
        lemma_behind_csi(s.drop_first(), end, rest);
    }
}

proof fn lemma_behind_osc(s: Seq<char>, rest: Seq<char>)
    requires
        is_osc_body(s),
    ensures
        behind_osc(s + seq![bel()] + rest) == rest,
    decreases s.len(),
{
    let all = s + seq![bel()] + rest;
    if s.len() == 0 {
        assert(all.drop_first() =~= rest);
    } else {
        assert(all.drop_first() =~= s.drop_first() + seq![bel()] + rest);
        assert(all[0] == s[0]);
        lemma_behind_osc(s.drop_first(), rest);
    }
}

/// Numbers with semicolons between them have no letters.
pub proof fn lemma_codes_no_letters(codes: Seq<u64>)
    ensures
        no_letters(codes_text(codes)),
    decreases codes.len(),
{
    if codes.len() == 1 {
        text::lemma_decimal_digits(codes[0] as nat);
    } else if codes.len() > 1 {
        lemma_codes_no_letters(codes.drop_last());
        text::lemma_decimal_digits(codes.last() as nat);
    }
}

/// What stands between ESC `[` and the next letter does not show, nor do they.
pub proof fn lemma_visible_sequence(body: Seq<char>, end: char, rest: Seq<char>)
    requires
        no_letters(body),
        is_letter(end),
    ensures
        visible(seq![esc(), '['] + body + seq![end] + rest) == visible(rest),
{
    let all = seq![esc(), '['] + body + seq![end] + rest;
    assert(all.skip(2) =~= body + seq![end] + rest);
    lemma_behind_csi(body, end, rest);
    assert(all[0] == esc() && all[1] == '[');
}

/// A CSI sequence does not show.
pub proof fn lemma_visible_csi(codes: Seq<u64>, end: char, rest: Seq<char>)
    requires
        is_letter(end),
    ensures
        visible(csi(codes, end) + rest) == visible(rest),
{
    lemma_codes_no_letters(codes);
    lemma_visible_sequence(codes_text(codes), end, rest);
}

/// The start of a link does not show.
pub proof fn lemma_visible_link_start(url: Seq<char>, rest: Seq<char>)
    requires
        is_osc_body(url),
    ensures
        visible(link_start(url) + rest) == visible(rest),
{
    let all = link_start(url) + rest;
    let body = seq!['8', ';', ';'] + url;
    assert(all.skip(2) =~= body + seq![bel()] + rest);
    lemma_behind_osc(body, rest);
    assert(all[0] == esc() && all[1] == ']');
}

/// Of a link, its label shows.
pub proof fn lemma_visible_link(url: Seq<char>, label: Seq<char>, rest: Seq<char>)
    requires
        is_osc_body(url),
        is_plain(label),
    ensures
        visible(link(url, label) + rest) == label + visible(rest),
{
    let tail = link_start(Seq::empty()) + rest;
    assert(link(url, label) + rest =~= link_start(url) + (label + tail));
    lemma_visible_link_start(url, label + tail);
    lemma_visible_plain(label, tail);
    lemma_visible_link_start(Seq::empty(), rest);
}

} // verus!
