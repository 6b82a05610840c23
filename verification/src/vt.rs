//! What a terminal makes of a text: the characters that it puts on the screen and
//! how they look, and what else it is told to do. This is for statements about
//! what is written to a terminal; nothing here runs.

use vstd::prelude::*;

use crate::ansi;
use crate::text;

verus! {

/// A color as a terminal has it.
pub enum Ink {
    Default,
    /// One of the eight colors, or one of their bright forms from eight on.
    Basic(int),
    Indexed(int),
    Rgb(int, int, int),
}

/// How a character looks. The underline is none, single, double, curly, dotted or
/// dashed, from zero on.
pub struct Look {
    pub fg: Ink,
    pub bg: Ink,
    pub bold: bool,
    pub dim: bool,
    pub italic: bool,
    pub underline: int,
    pub inverse: bool,
    pub hidden: bool,
    pub strike: bool,
}

/// The look after a reset.
pub open spec fn normal() -> Look {
    Look {
        fg: Ink::Default,
        bg: Ink::Default,
        bold: false,
        dim: false,
        italic: false,
        underline: 0,
        inverse: false,
        hidden: false,
        strike: false,
    }
}

/// Text in a color, on a color.
pub open spec fn colored(fg: Ink, bg: Ink) -> Look {
    Look { fg, bg, ..normal() }
}

/// One thing that a terminal does.
pub enum Act {
    /// A character, by its number, is put where the cursor is.
    Put(int, Look),
    /// The cursor goes to a row and a column, counted from one.
    Goto(int, int),
    ClearScreen,
    ClearLine,
    /// The place of the cursor is kept.
    Save,
    /// The cursor goes back to that place.
    Restore,
    /// A private mode goes on or off.
    Switch(int, bool),
    /// The rows between which text scrolls.
    Region(int, int),
    /// The shape of the cursor.
    Shape(int),
    /// An OSC sequence, by its body.
    Osc(Seq<char>),
    /// Anything else.
    Other,
}

/// Where in a sequence the terminal is.
pub enum Reading {
    Ground,
    Escape,
    Csi(Seq<char>),
    Osc(Seq<char>),
}

/// A terminal: what it reads, the look of the next character, and what it did.
pub struct Vt {
    pub reading: Reading,
    pub look: Look,
    pub acts: Seq<Act>,
}

// ---- Reading ----

/// The number of a parameter; `4:3` is told from `4` as 403.
pub open spec fn code(field: Seq<char>) -> int {
    match text::unsigned(field, u64::MAX as nat) {
        Some(n) => n as int,
        None => if field.len() == 3 && field[0] == '4' && field[1] == ':' {
            400 + (field[2] as int - '0' as int)
        } else {
            -1
        },
    }
}

/// The parameters between ESC `[` and the letter.
pub open spec fn params(body: Seq<char>) -> Seq<int> {
    let f = text::fields(body, ';');
    Seq::new(f.len(), |i: int| code(f[i]))
}

/// The parameter at an index, which counts as one where it is missing.
pub open spec fn param_or_one(p: Seq<int>, i: int) -> int {
    if i < p.len() && p[i] > 0 {
        p[i]
    } else {
        1
    }
}

/// What one number does to the look.
pub open spec fn restyled(look: Look, n: int) -> Look {
    if n == 0 {
        normal()
    } else if n == 1 {
        Look { bold: true, ..look }
    } else if n == 2 {
        Look { dim: true, ..look }
    } else if n == 3 {
        Look { italic: true, ..look }
    } else if n == 4 {
        Look { underline: 1, ..look }
    } else if n == 21 {
        Look { underline: 2, ..look }
    } else if 403 <= n <= 405 {
        Look { underline: n - 400, ..look }
    } else if n == 7 {
        Look { inverse: true, ..look }
    } else if n == 8 {
        Look { hidden: true, ..look }
    } else if n == 9 {
        Look { strike: true, ..look }
    } else if n == 22 {
        Look { bold: false, dim: false, ..look }
    } else if 30 <= n <= 37 {
        Look { fg: Ink::Basic(n - 30), ..look }
    } else if n == 39 {
        Look { fg: Ink::Default, ..look }
    } else if 40 <= n <= 47 {
        Look { bg: Ink::Basic(n - 40), ..look }
    } else if n == 49 {
        Look { bg: Ink::Default, ..look }
    } else if 90 <= n <= 97 {
        Look { fg: Ink::Basic(n - 90 + 8), ..look }
    } else if 100 <= n <= 107 {
        Look { bg: Ink::Basic(n - 100 + 8), ..look }
    } else {
        look
    }
}

/// The look with another color of the text, or behind it.
pub open spec fn inked(look: Look, is_fg: bool, ink: Ink) -> Look {
    if is_fg {
        Look { fg: ink, ..look }
    } else {
        Look { bg: ink, ..look }
    }
}

/// What a row of numbers does to the look: 38 and 48 take the numbers behind them
/// for a color.
pub open spec fn styled(look: Look, p: Seq<int>) -> Look
    decreases p.len(),
{
    if p.len() == 0 {
        look
    } else if (p[0] == 38 || p[0] == 48) && p.len() >= 5 && p[1] == 2 {
        styled(inked(look, p[0] == 38, Ink::Rgb(p[2], p[3], p[4])), p.skip(5))
    } else if (p[0] == 38 || p[0] == 48) && p.len() >= 3 && p[1] == 5 {
        styled(inked(look, p[0] == 38, Ink::Indexed(p[2])), p.skip(3))
    } else {
        styled(restyled(look, p[0]), p.skip(1))
    }
}

/// What a CSI sequence other than one for the look tells the terminal to do.
pub open spec fn told(body: Seq<char>, end: char) -> Act {
    let p = params(body);
    if end == 'H' {
        Act::Goto(param_or_one(p, 0), param_or_one(p, 1))
    } else if end == 'J' && p == seq![2int] {
        Act::ClearScreen
    } else if end == 'K' && p == seq![2int] {
        Act::ClearLine
    } else if end == 'r' && p.len() == 2 {
        Act::Region(p[0], p[1])
    } else if (end == 'h' || end == 'l') && body.len() > 0 && body[0] == '?' {
        Act::Switch(code(body.drop_first()), end == 'h')
    } else if end == 'q' && body.len() > 0 && body.last() == ' ' {
        Act::Shape(code(body.drop_last()))
    } else {
        Act::Other
    }
}

/// The terminal after one character.
pub open spec fn step(t: Vt, c: char) -> Vt {
    match t.reading {
        Reading::Ground => if c == ansi::esc() {
            Vt { reading: Reading::Escape, ..t }
        } else {
            Vt { acts: t.acts.push(Act::Put(c as int, t.look)), ..t }
        },
        Reading::Escape => if c == '[' {
            Vt { reading: Reading::Csi(Seq::empty()), ..t }
        } else if c == ']' {
            Vt { reading: Reading::Osc(Seq::empty()), ..t }
        } else {
            Vt {
                reading: Reading::Ground,
                acts: t.acts.push(
                    if c == '7' {
                        Act::Save
                    } else if c == '8' {
                        Act::Restore
                    } else {
                        Act::Other
                    },
                ),
                ..t
            }
        },
        Reading::Csi(body) => if !ansi::is_letter(c) {
            Vt { reading: Reading::Csi(body.push(c)), ..t }
        } else if c == 'm' {
            Vt { reading: Reading::Ground, look: styled(t.look, params(body)), ..t }
        } else {
            Vt { reading: Reading::Ground, acts: t.acts.push(told(body, c)), ..t }
        },
        Reading::Osc(body) => if c == ansi::bel() {
            Vt { reading: Reading::Ground, acts: t.acts.push(Act::Osc(body)), ..t }
        } else {
            Vt { reading: Reading::Osc(body.push(c)), ..t }
        },
    }
}

/// The terminal after a text.
pub open spec fn run(t: Vt, s: Seq<char>) -> Vt
    decreases s.len(),
{
    if s.len() == 0 {
        t
    } else {
        step(run(t, s.drop_last()), s.last())
    }
}

/// A terminal between sequences.
pub open spec fn ready(t: Vt) -> bool {
    t.reading is Ground
}

/// The terminal with another look.
pub open spec fn looking(t: Vt, look: Look) -> Vt {
    Vt { look, ..t }
}

/// The terminal after it did one more thing.
pub open spec fn did(t: Vt, a: Act) -> Vt {
    Vt { acts: t.acts.push(a), ..t }
}

/// The terminal after it did more things.
pub open spec fn did_all(t: Vt, a: Seq<Act>) -> Vt {
    Vt { acts: t.acts + a, ..t }
}

/// A text put on the screen in one look.
pub open spec fn puts(s: Seq<char>, look: Look) -> Seq<Act>
    decreases s.len(),
{
    if s.len() == 0 {
        Seq::empty()
    } else {
        puts(s.drop_last(), look).push(Act::Put(s.last() as int, look))
    }
}

// ---- How texts are read ----

/// A text is read from its start to its end.
pub proof fn lemma_run_concat(t: Vt, a: Seq<char>, b: Seq<char>)
    ensures
        run(t, a + b) == run(run(t, a), b),
    decreases b.len(),
{
    if b.len() == 0 {
        assert(a + b =~= a);
    } else {
        assert((a + b).drop_last() =~= a + b.drop_last());
        lemma_run_concat(t, a, b.drop_last());
    }
}

/// Plain text is put on the screen as it is.
pub proof fn lemma_run_plain(t: Vt, s: Seq<char>)
    requires
        ready(t),
        ansi::is_plain(s),
    ensures
        run(t, s) == did_all(t, puts(s, t.look)),
    decreases s.len(),
{
    if s.len() == 0 {
        assert(t.acts + puts(s, t.look) =~= t.acts);
    } else {
        assert(s.last() == s[s.len() - 1]);
        lemma_run_plain(t, s.drop_last());
        let before = puts(s.drop_last(), t.look);
        let act = Act::Put(s.last() as int, t.look);
        assert((t.acts + before).push(act) =~= t.acts + before.push(act));
    }
}

proof fn lemma_run_start(t: Vt, c: char)
    requires
        ready(t),
        c == '[' || c == ']',
    ensures
        run(t, seq![ansi::esc(), c]) == (Vt {
            reading: if c == '[' {
                Reading::Csi(Seq::empty())
            } else {
                Reading::Osc(Seq::empty())
            },
            ..t
        }),
{
    let s = seq![ansi::esc(), c];
    assert(s.drop_last() =~= seq![ansi::esc()]);
    assert(s.drop_last().drop_last() =~= Seq::<char>::empty());
    reveal_with_fuel(run, 3);
}

proof fn lemma_run_csi_body(t: Vt, body: Seq<char>)
    requires
        t.reading == Reading::Csi(Seq::empty()),
        ansi::no_letters(body),
    ensures
        run(t, body) == (Vt { reading: Reading::Csi(body), ..t }),
    decreases body.len(),
{
    if body.len() == 0 {
        assert(body =~= Seq::<char>::empty());
    } else {
        assert(!ansi::is_letter(body[body.len() - 1]));
        lemma_run_csi_body(t, body.drop_last());
        assert(body.drop_last().push(body.last()) =~= body);
    }
}

proof fn lemma_run_osc_body(t: Vt, body: Seq<char>)
    requires
        t.reading == Reading::Osc(Seq::empty()),
        ansi::is_osc_body(body),
    ensures
        run(t, body) == (Vt { reading: Reading::Osc(body), ..t }),
    decreases body.len(),
{
    if body.len() == 0 {
        assert(body =~= Seq::<char>::empty());
    } else {
        assert(body[body.len() - 1] != ansi::bel());
        lemma_run_osc_body(t, body.drop_last());
        assert(body.drop_last().push(body.last()) =~= body);
    }
}

/// A CSI sequence is read as a whole.
pub proof fn lemma_run_sequence(t: Vt, body: Seq<char>, end: char)
    requires
        ready(t),
        ansi::no_letters(body),
        ansi::is_letter(end),
    ensures
        run(t, seq![ansi::esc(), '['] + body + seq![end]) == (if end == 'm' {
            looking(t, styled(t.look, params(body)))
        } else {
            did(t, told(body, end))
        }),
{
    let head = seq![ansi::esc(), '['];
    let u = run(t, head);
    lemma_run_start(t, '[');
    lemma_run_csi_body(u, body);
    lemma_run_concat(t, head, body);
    lemma_run_concat(t, head + body, seq![end]);
    assert(seq![end].drop_last() =~= Seq::<char>::empty());
    reveal_with_fuel(run, 2);
}

/// An OSC sequence is read as a whole.
pub proof fn lemma_run_osc(t: Vt, body: Seq<char>)
    requires
        ready(t),
        ansi::is_osc_body(body),
    ensures
        run(t, seq![ansi::esc(), ']'] + body + seq![ansi::bel()]) == did(t, Act::Osc(body)),
{
    let head = seq![ansi::esc(), ']'];
    let u = run(t, head);
    lemma_run_start(t, ']');
    lemma_run_osc_body(u, body);
    lemma_run_concat(t, head, body);
    lemma_run_concat(t, head + body, seq![ansi::bel()]);
    assert(seq![ansi::bel()].drop_last() =~= Seq::<char>::empty());
    reveal_with_fuel(run, 2);
}

/// ESC `7` and ESC `8` keep the place of the cursor and go back to it.
pub proof fn lemma_run_place(t: Vt, c: char)
    requires
        ready(t),
        c == '7' || c == '8',
    ensures
        run(t, seq![ansi::esc(), c]) == did(
            t,
            if c == '7' {
                Act::Save
            } else {
                Act::Restore
            },
        ),
{
    let s = seq![ansi::esc(), c];
    assert(s.drop_last() =~= seq![ansi::esc()]);
    assert(s.drop_last().drop_last() =~= Seq::<char>::empty());
    reveal_with_fuel(run, 3);
}

/// The numbers that are written are the numbers that are read.
pub proof fn lemma_params(codes: Seq<u64>)
    requires
        codes.len() > 0,
    ensures
        params(ansi::codes_text(codes)) == codes.map_values(|n: u64| n as int),
        text::fields(ansi::codes_text(codes), ';').len() == codes.len(),
        forall|i: int|
            0 <= i < codes.len() ==> #[trigger] text::fields(ansi::codes_text(codes), ';')[i]
                == text::decimal(codes[i] as nat),
    decreases codes.len(),
{
    let last = text::decimal(codes.last() as nat);
    assert(!text::is_digit(';'));
    text::lemma_decimal_field(codes.last() as nat);
    text::lemma_one_field(last, ';');
    let f = text::fields(ansi::codes_text(codes), ';');
    if codes.len() > 1 {
        let front = codes.drop_last();
        lemma_params(front);
        text::lemma_fields_concat(ansi::codes_text(front), ';', last);
        let g = text::fields(ansi::codes_text(front), ';');
        assert(f == g + seq![last]);
        assert forall|i: int| 0 <= i < codes.len() implies #[trigger] f[i] == text::decimal(
            codes[i] as nat,
        ) by {
            if i < front.len() {
                assert(g[i] == text::decimal(front[i] as nat));
            }
        }
    }
    assert forall|i: int| 0 <= i < codes.len() implies code(#[trigger] f[i]) == codes[i] as int by {
        text::lemma_decimal_field(codes[i] as nat);
    }
    assert(params(ansi::codes_text(codes)) =~= codes.map_values(|n: u64| n as int));
}

/// Numbers of a CSI sequence, as they are read.
pub open spec fn ints(codes: Seq<u64>) -> Seq<int> {
    codes.map_values(|n: u64| n as int)
}

/// A CSI sequence with numbers is read as a whole.
pub proof fn lemma_run_csi(t: Vt, codes: Seq<u64>, end: char)
    requires
        ready(t),
        codes.len() > 0,
        ansi::is_letter(end),
    ensures
        params(ansi::codes_text(codes)) == ints(codes),
        run(t, ansi::csi(codes, end)) == (if end == 'm' {
            looking(t, styled(t.look, ints(codes)))
        } else {
            did(t, told(ansi::codes_text(codes), end))
        }),
{
    ansi::lemma_codes_no_letters(codes);
    lemma_params(codes);
    lemma_run_sequence(t, ansi::codes_text(codes), end);
}

/// One number for the look.
pub proof fn lemma_run_sgr_one(t: Vt, n: u64)
    requires
        ready(t),
        n != 38 && n != 48,
    ensures
        run(t, ansi::sgr(seq![n])) == looking(t, restyled(t.look, n as int)),
{
    lemma_run_csi(t, seq![n], 'm');
    assert(ints(seq![n]) =~= seq![n as int]);
    assert(seq![n as int].skip(1) =~= Seq::<int>::empty());
    reveal_with_fuel(styled, 2);
}

/// A color by its parts.
pub proof fn lemma_run_rgb(t: Vt, is_fg: bool, r: u64, g: u64, b: u64)
    requires
        ready(t),
    ensures
        run(
            t,
            ansi::sgr(
                seq![
                    if is_fg {
                        38u64
                    } else {
                        48u64
                    },
                    2,
                    r,
                    g,
                    b,
                ],
            ),
        ) == looking(t, inked(t.look, is_fg, Ink::Rgb(r as int, g as int, b as int))),
{
    let c = if is_fg {
        38u64
    } else {
        48u64
    };
    let codes = seq![c, 2, r, g, b];
    lemma_run_csi(t, codes, 'm');
    assert(ints(codes).skip(5) =~= Seq::<int>::empty());
    reveal_with_fuel(styled, 2);
}

/// A bold text in a color by its parts.
pub proof fn lemma_run_bold_rgb(t: Vt, r: u64, g: u64, b: u64)
    requires
        ready(t),
    ensures
        run(t, ansi::bold_fg(r, g, b)) == looking(
            t,
            Look { bold: true, fg: Ink::Rgb(r as int, g as int, b as int), ..t.look },
        ),
{
    let codes = seq![1u64, 38, 2, r, g, b];
    lemma_run_csi(t, codes, 'm');
    let rest = ints(codes).skip(1);
    assert(rest =~= seq![38int, 2, r as int, g as int, b as int]);
    assert(rest.skip(5) =~= Seq::<int>::empty());
    reveal_with_fuel(styled, 3);
}

/// A color of the palette.
pub proof fn lemma_run_indexed(t: Vt, is_fg: bool, n: u64)
    requires
        ready(t),
    ensures
        run(
            t,
            ansi::sgr(
                seq![
                    if is_fg {
                        38u64
                    } else {
                        48u64
                    },
                    5,
                    n,
                ],
            ),
        ) == looking(t, inked(t.look, is_fg, Ink::Indexed(n as int))),
{
    let c = if is_fg {
        38u64
    } else {
        48u64
    };
    let codes = seq![c, 5, n];
    lemma_run_csi(t, codes, 'm');
    assert(ints(codes).skip(3) =~= Seq::<int>::empty());
    reveal_with_fuel(styled, 2);
}

/// The look goes back to normal.
pub proof fn lemma_run_reset(t: Vt)
    requires
        ready(t),
    ensures
        run(t, ansi::reset()) == looking(t, normal()),
{
    lemma_run_sgr_one(t, 0);
}

/// The cursor goes to its place.
pub proof fn lemma_run_goto(t: Vt, row: u64, col: u64)
    requires
        ready(t),
        row >= 1,
        col >= 1,
    ensures
        run(t, ansi::goto(row, col)) == did(t, Act::Goto(row as int, col as int)),
{
    lemma_run_csi(t, seq![row, col], 'H');
}

/// A link is opened, or ends where the address is empty.
pub proof fn lemma_run_link_start(t: Vt, url: Seq<char>)
    requires
        ready(t),
        ansi::is_osc_body(url),
    ensures
        run(t, ansi::link_start(url)) == did(t, Act::Osc(seq!['8', ';', ';'] + url)),
{
    let body = seq!['8', ';', ';'] + url;
    lemma_run_osc(t, body);
    assert(ansi::link_start(url) =~= seq![ansi::esc(), ']'] + body + seq![ansi::bel()]);
}

/// A link shows its label.
pub proof fn lemma_run_link(t: Vt, url: Seq<char>, label: Seq<char>)
    requires
        ready(t),
        ansi::is_osc_body(url),
        ansi::is_plain(label),
    ensures
        run(t, ansi::link(url, label)) == did_all(
            t,
            seq![Act::Osc(seq!['8', ';', ';'] + url)] + puts(label, t.look) + seq![
                Act::Osc(seq!['8', ';', ';']),
            ],
        ),
{
    let t1 = run(t, ansi::link_start(url));
    let t2 = run(t1, label);
    lemma_run_link_start(t, url);
    lemma_run_plain(t1, label);
    lemma_run_link_start(t2, Seq::empty());
    lemma_run_concat(t, ansi::link_start(url), label);
    lemma_run_concat(t, ansi::link_start(url) + label, ansi::link_start(Seq::empty()));
    assert(seq!['8', ';', ';'] + Seq::<char>::empty() =~= seq!['8', ';', ';']);
    let all = seq![Act::Osc(seq!['8', ';', ';'] + url)] + puts(label, t.look) + seq![
        Act::Osc(seq!['8', ';', ';']),
    ];
    assert(t.acts.push(Act::Osc(seq!['8', ';', ';'] + url)) + puts(label, t.look) + seq![
        Act::Osc(seq!['8', ';', ';']),
    ] =~= t.acts + all);
    assert((t.acts.push(Act::Osc(seq!['8', ';', ';'] + url)) + puts(label, t.look)).push(
        Act::Osc(seq!['8', ';', ';']),
    ) =~= t.acts + all);
}

// ---- What texts show ----

/// Whether a terminal with the look `from` does `acts` when it reads a text, and has
/// the look `to` behind it.
pub open spec fn shows(from: Look, s: Seq<char>, to: Look, acts: Seq<Act>) -> bool {
    forall|t: Vt|
        ready(t) && t.look == from ==> #[trigger] run(t, s) == did_all(looking(t, to), acts)
}

/// What two texts show, one behind the other.
pub proof fn lemma_shows_both(
    from: Look,
    a: Seq<char>,
    mid: Look,
    x: Seq<Act>,
    b: Seq<char>,
    to: Look,
    y: Seq<Act>,
)
    requires
        shows(from, a, mid, x),
        shows(mid, b, to, y),
    ensures
        shows(from, a + b, to, x + y),
{
    assert forall|t: Vt| ready(t) && t.look == from implies #[trigger] run(t, a + b) == did_all(
        looking(t, to),
        x + y,
    ) by {
        lemma_run_concat(t, a, b);
        let u = run(t, a);
        assert(run(u, b) == did_all(looking(u, to), y));
        assert(t.acts + x + y =~= t.acts + (x + y));
    }
}

/// Nothing shows nothing.
pub proof fn lemma_shows_nothing(look: Look)
    ensures
        shows(look, Seq::empty(), look, Seq::empty()),
{
    assert forall|t: Vt| ready(t) && t.look == look implies #[trigger] run(t, Seq::empty())
        == did_all(looking(t, look), Seq::empty()) by {
        assert(t.acts + Seq::<Act>::empty() =~= t.acts);
    }
}

/// Plain text shows as it is.
pub proof fn lemma_shows_plain(look: Look, s: Seq<char>)
    requires
        ansi::is_plain(s),
    ensures
        shows(look, s, look, puts(s, look)),
{
    assert forall|t: Vt| ready(t) && t.look == look implies #[trigger] run(t, s) == did_all(
        looking(t, look),
        puts(s, look),
    ) by {
        lemma_run_plain(t, s);
    }
}

/// What sets the color of the text shows nothing itself.
pub proof fn lemma_shows_fg(look: Look, r: u64, g: u64, b: u64)
    ensures
        shows(
            look,
            ansi::fg(r, g, b),
            Look { fg: Ink::Rgb(r as int, g as int, b as int), ..look },
            Seq::empty(),
        ),
{
    let to = Look { fg: Ink::Rgb(r as int, g as int, b as int), ..look };
    assert forall|t: Vt| ready(t) && t.look == look implies #[trigger] run(t, ansi::fg(r, g, b))
        == did_all(looking(t, to), Seq::empty()) by {
        lemma_run_rgb(t, true, r, g, b);
        assert(t.acts + Seq::<Act>::empty() =~= t.acts);
    }
}

/// What sets the color behind the text shows nothing itself.
pub proof fn lemma_shows_bg(look: Look, r: u64, g: u64, b: u64)
    ensures
        shows(
            look,
            ansi::bg(r, g, b),
            Look { bg: Ink::Rgb(r as int, g as int, b as int), ..look },
            Seq::empty(),
        ),
{
    let to = Look { bg: Ink::Rgb(r as int, g as int, b as int), ..look };
    assert forall|t: Vt| ready(t) && t.look == look implies #[trigger] run(t, ansi::bg(r, g, b))
        == did_all(looking(t, to), Seq::empty()) by {
        lemma_run_rgb(t, false, r, g, b);
        assert(t.acts + Seq::<Act>::empty() =~= t.acts);
    }
}

/// What sets bold text in a color shows nothing itself.
pub proof fn lemma_shows_bold_fg(look: Look, r: u64, g: u64, b: u64)
    ensures
        shows(
            look,
            ansi::bold_fg(r, g, b),
            Look { bold: true, fg: Ink::Rgb(r as int, g as int, b as int), ..look },
            Seq::empty(),
        ),
{
    let to = Look { bold: true, fg: Ink::Rgb(r as int, g as int, b as int), ..look };
    assert forall|t: Vt| ready(t) && t.look == look implies #[trigger] run(
        t,
        ansi::bold_fg(r, g, b),
    ) == did_all(looking(t, to), Seq::empty()) by {
        lemma_run_bold_rgb(t, r, g, b);
        assert(t.acts + Seq::<Act>::empty() =~= t.acts);
    }
}

/// One number for the look.
pub proof fn lemma_shows_one(look: Look, n: u64)
    requires
        n != 38 && n != 48,
    ensures
        shows(look, ansi::sgr(seq![n]), restyled(look, n as int), Seq::empty()),
{
    let s = ansi::sgr(seq![n]);
    assert forall|t: Vt| ready(t) && t.look == look implies #[trigger] run(t, s) == did_all(
        looking(t, restyled(look, n as int)),
        Seq::empty(),
    ) by {
        lemma_run_sgr_one(t, n);
        assert(t.acts + Seq::<Act>::empty() =~= t.acts);
    }
}

/// The cursor goes to its place.
pub proof fn lemma_shows_goto(look: Look, row: u64, col: u64)
    requires
        row >= 1,
        col >= 1,
    ensures
        shows(look, ansi::goto(row, col), look, seq![Act::Goto(row as int, col as int)]),
{
    let acts = seq![Act::Goto(row as int, col as int)];
    assert forall|t: Vt| ready(t) && t.look == look implies #[trigger] run(t, ansi::goto(row, col))
        == did_all(looking(t, look), acts) by {
        lemma_run_goto(t, row, col);
        assert(t.acts.push(acts[0]) =~= t.acts + acts);
    }
}

/// ESC `7` and ESC `8`.
pub proof fn lemma_shows_place(look: Look, c: char)
    requires
        c == '7' || c == '8',
    ensures
        shows(
            look,
            seq![ansi::esc(), c],
            look,
            seq![
                if c == '7' {
                    Act::Save
                } else {
                    Act::Restore
                },
            ],
        ),
{
    let acts = seq![
        if c == '7' {
            Act::Save
        } else {
            Act::Restore
        },
    ];
    let s = seq![ansi::esc(), c];
    assert forall|t: Vt| ready(t) && t.look == look implies #[trigger] run(t, s) == did_all(
        looking(t, look),
        acts,
    ) by {
        lemma_run_place(t, c);
        assert(t.acts.push(acts[0]) =~= t.acts + acts);
    }
}

/// A CSI sequence that is not for the look.
pub proof fn lemma_shows_sequence(look: Look, body: Seq<char>, end: char)
    requires
        ansi::no_letters(body),
        ansi::is_letter(end),
        end != 'm',
    ensures
        shows(look, seq![ansi::esc(), '['] + body + seq![end], look, seq![told(body, end)]),
{
    let s = seq![ansi::esc(), '['] + body + seq![end];
    let acts = seq![told(body, end)];
    assert forall|t: Vt| ready(t) && t.look == look implies #[trigger] run(t, s) == did_all(
        looking(t, look),
        acts,
    ) by {
        lemma_run_sequence(t, body, end);
        assert(t.acts.push(acts[0]) =~= t.acts + acts);
    }
}

/// A CSI sequence with numbers that is not for the look.
pub proof fn lemma_shows_csi(look: Look, codes: Seq<u64>, end: char)
    requires
        codes.len() > 0,
        ansi::is_letter(end),
        end != 'm',
    ensures
        params(ansi::codes_text(codes)) == ints(codes),
        shows(look, ansi::csi(codes, end), look, seq![told(ansi::codes_text(codes), end)]),
{
    ansi::lemma_codes_no_letters(codes);
    lemma_params(codes);
    lemma_shows_sequence(look, ansi::codes_text(codes), end);
}

/// An OSC sequence.
pub proof fn lemma_shows_osc(look: Look, body: Seq<char>)
    requires
        ansi::is_osc_body(body),
    ensures
        shows(
            look,
            seq![ansi::esc(), ']'] + body + seq![ansi::bel()],
            look,
            seq![Act::Osc(body)],
        ),
{
    let s = seq![ansi::esc(), ']'] + body + seq![ansi::bel()];
    let acts = seq![Act::Osc(body)];
    assert forall|t: Vt| ready(t) && t.look == look implies #[trigger] run(t, s) == did_all(
        looking(t, look),
        acts,
    ) by {
        lemma_run_osc(t, body);
        assert(t.acts.push(acts[0]) =~= t.acts + acts);
    }
}

/// A label that is a link to an address.
pub open spec fn linked(url: Seq<char>, label: Seq<char>, look: Look) -> Seq<Act> {
    seq![Act::Osc(seq!['8', ';', ';'] + url)] + puts(label, look) + seq![
        Act::Osc(seq!['8', ';', ';']),
    ]
}

/// A link shows its label.
pub proof fn lemma_shows_link(look: Look, url: Seq<char>, label: Seq<char>)
    requires
        ansi::is_osc_body(url),
        ansi::is_plain(label),
    ensures
        shows(look, ansi::link(url, label), look, linked(url, label, look)),
{
    assert forall|t: Vt| ready(t) && t.look == look implies #[trigger] run(
        t,
        ansi::link(url, label),
    ) == did_all(looking(t, look), linked(url, label, look)) by {
        lemma_run_link(t, url, label);
    }
}

/// A text in a color, on the look that there is.
pub proof fn lemma_shows_colored(look: Look, r: u64, g: u64, b: u64, s: Seq<char>)
    requires
        ansi::is_plain(s),
    ensures
        ({
            let to = Look { fg: Ink::Rgb(r as int, g as int, b as int), ..look };
            shows(look, ansi::fg(r, g, b) + s, to, puts(s, to))
        }),
{
    let to = Look { fg: Ink::Rgb(r as int, g as int, b as int), ..look };
    lemma_shows_fg(look, r, g, b);
    lemma_shows_plain(to, s);
    lemma_shows_both(look, ansi::fg(r, g, b), to, Seq::empty(), s, to, puts(s, to));
    assert(Seq::<Act>::empty() + puts(s, to) =~= puts(s, to));
}

/// Texts in one look, one behind the other, are one text.
pub proof fn lemma_puts_concat(a: Seq<char>, b: Seq<char>, look: Look)
    ensures
        puts(a + b, look) == puts(a, look) + puts(b, look),
    decreases b.len(),
{
    if b.len() == 0 {
        assert(a + b =~= a);
        assert(puts(a, look) + puts(b, look) =~= puts(a, look));
    } else {
        assert((a + b).drop_last() =~= a + b.drop_last());
        lemma_puts_concat(a, b.drop_last(), look);
        assert(puts(a + b, look) =~= puts(a, look) + puts(b, look));
    }
}

} // verus!
