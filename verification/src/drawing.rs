//! What a terminal shows of what is drawn: every cell with its look, the cursor and
//! the status bar.

use vstd::prelude::*;

use crate::ansi;
use crate::render;
use crate::render::Pen;
use crate::terminal::{
    CellFlags, Color, Damage, LineDamage, NamedColor, Screen, BOLD, DASHED_UNDERLINE, DIM,
    DOTTED_UNDERLINE, DOUBLE_UNDERLINE, HIDDEN, INVERSE, ITALIC, LEADING_WIDE_CHAR_SPACER,
    STRIKEOUT, UNDERCURL, UNDERLINE, WIDE_CHAR, WIDE_CHAR_SPACER, WRAPLINE,
};
use crate::text;
use crate::vt;
use crate::vt::{Act, Ink, Look, Vt};

verus! {

// ---- Looks ----

/// A color of a cell as a terminal has it. Dim colors are shown as the normal ones,
/// and colors without a number of their own as the default.
pub open spec fn ink_of(color: Color) -> Ink {
    match color {
        Color::Spec { r, g, b } => Ink::Rgb(r as int, g as int, b as int),
        Color::Indexed(i) => Ink::Indexed(i as int),
        Color::Named(NamedColor::Black) | Color::Named(NamedColor::DimBlack) => Ink::Basic(0),
        Color::Named(NamedColor::Red) | Color::Named(NamedColor::DimRed) => Ink::Basic(1),
        Color::Named(NamedColor::Green) | Color::Named(NamedColor::DimGreen) => Ink::Basic(2),
        Color::Named(NamedColor::Yellow) | Color::Named(NamedColor::DimYellow) => Ink::Basic(3),
        Color::Named(NamedColor::Blue) | Color::Named(NamedColor::DimBlue) => Ink::Basic(4),
        Color::Named(NamedColor::Magenta) | Color::Named(NamedColor::DimMagenta) => Ink::Basic(5),
        Color::Named(NamedColor::Cyan) | Color::Named(NamedColor::DimCyan) => Ink::Basic(6),
        Color::Named(NamedColor::White) | Color::Named(NamedColor::DimWhite) => Ink::Basic(7),
        Color::Named(NamedColor::BrightBlack) => Ink::Basic(8),
        Color::Named(NamedColor::BrightRed) => Ink::Basic(9),
        Color::Named(NamedColor::BrightGreen) => Ink::Basic(10),
        Color::Named(NamedColor::BrightYellow) => Ink::Basic(11),
        Color::Named(NamedColor::BrightBlue) => Ink::Basic(12),
        Color::Named(NamedColor::BrightMagenta) => Ink::Basic(13),
        Color::Named(NamedColor::BrightCyan) => Ink::Basic(14),
        Color::Named(NamedColor::BrightWhite) => Ink::Basic(15),
        _ => Ink::Default,
    }
}

/// The underline of a cell, of which the first one counts.
pub open spec fn underline_of(flags: CellFlags) -> int {
    if flags.has(UNDERLINE) {
        1
    } else if flags.has(DOUBLE_UNDERLINE) {
        2
    } else if flags.has(UNDERCURL) {
        3
    } else if flags.has(DOTTED_UNDERLINE) {
        4
    } else if flags.has(DASHED_UNDERLINE) {
        5
    } else {
        0
    }
}

/// How text with these attributes looks; what is selected is inverse.
pub open spec fn look_of(fg: Color, bg: Color, flags: CellFlags, selected: bool) -> Look {
    Look {
        fg: ink_of(fg),
        bg: ink_of(bg),
        bold: flags.has(BOLD),
        dim: flags.has(DIM),
        italic: flags.has(ITALIC),
        underline: underline_of(flags),
        inverse: selected || flags.has(INVERSE),
        hidden: flags.has(HIDDEN),
        strike: flags.has(STRIKEOUT),
    }
}

proof fn lemma_run_color(t: Vt, color: Color, is_fg: bool)
    requires
        vt::ready(t),
    ensures
        vt::run(t, render::color_text(color, is_fg)) == vt::looking(
            t,
            vt::inked(t.look, is_fg, ink_of(color)),
        ),
{
    match color {
        Color::Spec { r, g, b } => {
            vt::lemma_run_rgb(t, is_fg, r as u64, g as u64, b as u64);
        },
        Color::Indexed(i) => {
            vt::lemma_run_indexed(t, is_fg, i as u64);
        },
        Color::Named(name) => {
            let more: u64 = if is_fg {
                0
            } else {
                10
            };
            vt::lemma_run_sgr_one(t, (render::named_code(name) + more) as u64);
        },
    }
}

/// A color of a cell is shown as the color of the text or behind it, as it was asked
/// for, and changes nothing else.
pub proof fn colors_are_shown(t: Vt, color: Color)
    requires
        vt::ready(t),
    ensures
        vt::run(t, render::color_text(color, true)) == vt::looking(
            t,
            Look { fg: ink_of(color), ..t.look },
        ),
        vt::run(t, render::color_text(color, false)) == vt::looking(
            t,
            Look { bg: ink_of(color), ..t.look },
        ),
{
    lemma_run_color(t, color, true);
    lemma_run_color(t, color, false);
}

proof fn lemma_run_flag(t: Vt, flags: CellFlags, flag: u16, code: u64)
    requires
        vt::ready(t),
        code != 38 && code != 48,
    ensures
        vt::run(t, render::flag_text(flags, flag, code)) == (if flags.has(flag) {
            vt::looking(t, vt::restyled(t.look, code as int))
        } else {
            t
        }),
{
    if flags.has(flag) {
        vt::lemma_run_sgr_one(t, code);
    }
}

proof fn lemma_run_curly(t: Vt, s: Seq<char>, c: char)
    requires
        vt::ready(t),
        '3' <= c <= '5',
        s == seq![ansi::esc(), '[', '4', ':', c, 'm'],
    ensures
        vt::run(t, s) == vt::looking(t, Look { underline: c as int - '0' as int, ..t.look }),
{
    let body = seq!['4', ':', c];
    assert(s =~= seq![ansi::esc(), '['] + body + seq!['m']);
    vt::lemma_run_sequence(t, body, 'm');
    assert(!body.contains(';'));
    text::lemma_one_field(body, ';');
    assert(text::without_plus(body) == body);
    assert(!text::is_digit(body[1]));
    assert(vt::params(body) =~= seq![400 + (c as int - '0' as int)]);
    let p = seq![400 + (c as int - '0' as int)];
    assert(p.skip(1) =~= Seq::<int>::empty());
    reveal_with_fuel(vt::styled, 2);
}

proof fn lemma_run_underline(t: Vt, flags: CellFlags)
    requires
        vt::ready(t),
        t.look.underline == 0,
    ensures
        vt::run(t, render::underline_text(flags)) == vt::looking(
            t,
            Look { underline: underline_of(flags), ..t.look },
        ),
{
    reveal_strlit("\x1b[4:3m");
    reveal_strlit("\x1b[4:4m");
    reveal_strlit("\x1b[4:5m");
    if flags.has(UNDERLINE) {
        vt::lemma_run_sgr_one(t, 4);
    } else if flags.has(DOUBLE_UNDERLINE) {
        vt::lemma_run_sgr_one(t, 21);
    } else if flags.has(UNDERCURL) {
        assert("\x1b[4:3m"@ =~= seq![ansi::esc(), '[', '4', ':', '3', 'm']);
        lemma_run_curly(t, "\x1b[4:3m"@, '3');
    } else if flags.has(DOTTED_UNDERLINE) {
        assert("\x1b[4:4m"@ =~= seq![ansi::esc(), '[', '4', ':', '4', 'm']);
        lemma_run_curly(t, "\x1b[4:4m"@, '4');
    } else if flags.has(DASHED_UNDERLINE) {
        assert("\x1b[4:5m"@ =~= seq![ansi::esc(), '[', '4', ':', '5', 'm']);
        lemma_run_curly(t, "\x1b[4:5m"@, '5');
    }
}

/// The attributes of a cell are shown: each one that it has, and no other.
#[verifier::rlimit(50)]
#[verifier::spinoff_prover]
pub proof fn attributes_are_shown(t: Vt, flags: CellFlags)
    requires
        vt::ready(t),
        t.look.underline == 0,
    ensures
        vt::run(t, render::flags_text(flags)) == vt::looking(
            t,
            Look {
                bold: t.look.bold || flags.has(BOLD),
                dim: t.look.dim || flags.has(DIM),
                italic: t.look.italic || flags.has(ITALIC),
                underline: underline_of(flags),
                inverse: t.look.inverse || flags.has(INVERSE),
                hidden: t.look.hidden || flags.has(HIDDEN),
                strike: t.look.strike || flags.has(STRIKEOUT),
                ..t.look
            },
        ),
{
    let a = render::flag_text(flags, BOLD, 1);
    let b = render::flag_text(flags, DIM, 2);
    let c = render::flag_text(flags, ITALIC, 3);
    let d = render::underline_text(flags);
    let e = render::flag_text(flags, INVERSE, 7);
    let f = render::flag_text(flags, HIDDEN, 8);
    let g = render::flag_text(flags, STRIKEOUT, 9);
    let t1 = vt::run(t, a);
    let t2 = vt::run(t1, b);
    let t3 = vt::run(t2, c);
    let t4 = vt::run(t3, d);
    let t5 = vt::run(t4, e);
    let t6 = vt::run(t5, f);
    lemma_run_flag(t, flags, BOLD, 1);
    lemma_run_flag(t1, flags, DIM, 2);
    lemma_run_flag(t2, flags, ITALIC, 3);
    lemma_run_underline(t3, flags);
    lemma_run_flag(t4, flags, INVERSE, 7);
    lemma_run_flag(t5, flags, HIDDEN, 8);
    lemma_run_flag(t6, flags, STRIKEOUT, 9);
    vt::lemma_run_concat(t, a, b);
    vt::lemma_run_concat(t, a + b, c);
    vt::lemma_run_concat(t, a + b + c, d);
    vt::lemma_run_concat(t, a + b + c + d, e);
    vt::lemma_run_concat(t, a + b + c + d + e, f);
    vt::lemma_run_concat(t, a + b + c + d + e + f, g);
}

/// What a pen writes makes the terminal show text as the pen says, whatever it showed
/// before: the color of the text and the one behind it, each attribute, and inverse
/// where it is selected.
#[verifier::rlimit(50)]
#[verifier::spinoff_prover]
pub proof fn pens_are_shown(t: Vt, pen: Pen)
    requires
        vt::ready(t),
    ensures
        vt::run(t, render::pen_text(pen)) == vt::looking(
            t,
            look_of(pen.fg, pen.bg, pen.flags, pen.selected),
        ),
{
    let none = Seq::<char>::empty();
    let a = ansi::reset();
    let b = if pen.selected {
        ansi::sgr(seq![7u64])
    } else {
        none
    };
    let c = render::flags_text(pen.flags);
    let d = if pen.fg != render::normal_pen().fg {
        render::color_text(pen.fg, true)
    } else {
        none
    };
    let e = if pen.bg != render::normal_pen().bg {
        render::color_text(pen.bg, false)
    } else {
        none
    };
    let t1 = vt::run(t, a);
    let t2 = vt::run(t1, b);
    let t3 = vt::run(t2, c);
    let t4 = vt::run(t3, d);
    vt::lemma_run_reset(t);
    if pen.selected {
        vt::lemma_run_sgr_one(t1, 7);
    }
    attributes_are_shown(t2, pen.flags);
    lemma_run_color(t3, pen.fg, true);
    lemma_run_color(t4, pen.bg, false);
    vt::lemma_run_concat(t, a, b);
    vt::lemma_run_concat(t, a + b, c);
    vt::lemma_run_concat(t, a + b + c, d);
    vt::lemma_run_concat(t, a + b + c + d, e);
    assert(render::pen_text(pen) == a + b + c + d + e);
}

// ---- Cells ----

/// Whether a cell that the view shows is selected.
pub open spec fn is_selected(screen: &Screen, line: int, col: int) -> bool {
    screen.selection matches Some(s) && s.selects(line - screen.display_offset, col)
}

/// A cell as a terminal shows it.
pub open spec fn shown_cell(screen: &Screen, line: int, col: int) -> Act {
    let cell = screen.lines@[line]@[col];
    Act::Put(
        cell.c as int,
        look_of(cell.fg, cell.bg, cell.flags, is_selected(screen, line, col)),
    )
}

/// The cells of a line from `left` up to `end` as a terminal shows them: the second half
/// of a wide character comes with the first.
pub open spec fn shown_cells(screen: &Screen, line: int, left: int, end: int) -> Seq<Act>
    decreases end - left,
{
    if end <= left {
        Seq::empty()
    } else {
        let flags = screen.lines@[line]@[end - 1].flags;
        let before = shown_cells(screen, line, left, end - 1);
        if flags.has(WIDE_CHAR_SPACER) || flags.has(LEADING_WIDE_CHAR_SPACER) {
            before
        } else {
            before.push(shown_cell(screen, line, end - 1))
        }
    }
}

/// The cells of a line from `left` to `right`, at their place.
pub open spec fn shown_part(screen: &Screen, line: int, left: int, right: int) -> Seq<Act> {
    seq![Act::Goto(line + 1, left + 1)] + shown_cells(screen, line, left, right + 1)
}

proof fn lemma_shown_flag(flags: CellFlags, flag: u16)
    requires
        flag & (WRAPLINE | WIDE_CHAR) == 0,
    ensures
        flags.visible().has(flag) == flags.has(flag),
{
    let b = flags.bits;
    assert((b & !(0x10u16 | 0x20u16)) & flag == flag <==> b & flag == flag) by (bit_vector)
        requires
            flag & (0x10u16 | 0x20u16) == 0,
    ;
}

#[verifier::rlimit(50)]
#[verifier::spinoff_prover]
proof fn lemma_shown_look(fg: Color, bg: Color, flags: CellFlags, selected: bool)
    ensures
        look_of(fg, bg, flags.visible(), selected) == look_of(fg, bg, flags, selected),
{
    assert({
        &&& 0x1u16 & (0x10u16 | 0x20u16) == 0
        &&& 0x2u16 & (0x10u16 | 0x20u16) == 0
        &&& 0x4u16 & (0x10u16 | 0x20u16) == 0
        &&& 0x8u16 & (0x10u16 | 0x20u16) == 0
        &&& 0x80u16 & (0x10u16 | 0x20u16) == 0
        &&& 0x100u16 & (0x10u16 | 0x20u16) == 0
        &&& 0x200u16 & (0x10u16 | 0x20u16) == 0
        &&& 0x800u16 & (0x10u16 | 0x20u16) == 0
        &&& 0x1000u16 & (0x10u16 | 0x20u16) == 0
        &&& 0x2000u16 & (0x10u16 | 0x20u16) == 0
        &&& 0x4000u16 & (0x10u16 | 0x20u16) == 0
    })
        by (bit_vector);
    lemma_shown_flag(flags, INVERSE);
    lemma_shown_flag(flags, BOLD);
    lemma_shown_flag(flags, ITALIC);
    lemma_shown_flag(flags, UNDERLINE);
    lemma_shown_flag(flags, DIM);
    lemma_shown_flag(flags, HIDDEN);
    lemma_shown_flag(flags, STRIKEOUT);
    lemma_shown_flag(flags, DOUBLE_UNDERLINE);
    lemma_shown_flag(flags, UNDERCURL);
    lemma_shown_flag(flags, DOTTED_UNDERLINE);
    lemma_shown_flag(flags, DASHED_UNDERLINE);
}

proof fn lemma_normal_look()
    ensures
        look_of(
            render::normal_pen().fg,
            render::normal_pen().bg,
            render::normal_pen().flags,
            false,
        ) == vt::normal(),
{
    assert(0u16 & 0x1u16 == 0 && 0u16 & 0x2u16 == 0 && 0u16 & 0x4u16 == 0 && 0u16 & 0x8u16 == 0
        && 0u16 & 0x80u16 == 0 && 0u16 & 0x100u16 == 0 && 0u16 & 0x200u16 == 0 && 0u16 & 0x800u16
        == 0 && 0u16 & 0x1000u16 == 0 && 0u16 & 0x2000u16 == 0 && 0u16 & 0x4000u16 == 0)
        by (bit_vector);
}

#[verifier::rlimit(50)]
#[verifier::spinoff_prover]
proof fn lemma_run_cells(t: Vt, screen: &Screen, line: int, left: int, end: int)
    requires
        vt::ready(t),
        t.look == vt::normal(),
        forall|i: int| left <= i < end ==> (#[trigger] screen.lines@[line]@[i]).c != ansi::esc(),
    ensures
        ({
            let (s, pen) = render::cells_text(screen, line, left, end);
            vt::run(t, s) == vt::did_all(
                vt::looking(t, look_of(pen.fg, pen.bg, pen.flags, pen.selected)),
                shown_cells(screen, line, left, end),
            )
        }),
    decreases end - left,
{
    lemma_normal_look();
    if end <= left {
        assert(t.acts + Seq::<Act>::empty() =~= t.acts);
    } else {
        let (before, pen) = render::cells_text(screen, line, left, end - 1);
        let cell = screen.lines@[line]@[end - 1];
        let next = render::cell_pen(screen, line, end - 1);
        lemma_run_cells(t, screen, line, left, end - 1);
        let u = vt::run(t, before);
        lemma_shown_look(cell.fg, cell.bg, cell.flags, next.selected);
        if !render::is_spacer(cell) {
            let c = seq![cell.c];
            assert(ansi::is_plain(c));
            if next == pen {
                vt::lemma_run_plain(u, c);
                vt::lemma_run_concat(t, before, c);
                assert(before + c =~= before.push(cell.c));
            } else {
                pens_are_shown(u, next);
                let v = vt::run(u, render::pen_text(next));
                vt::lemma_run_plain(v, c);
                vt::lemma_run_concat(t, before, render::pen_text(next));
                vt::lemma_run_concat(t, before + render::pen_text(next), c);
                assert(before + render::pen_text(next) + c =~= (before + render::pen_text(next)).push(
                    cell.c,
                ));
            }
            let look = look_of(next.fg, next.bg, next.flags, next.selected);
            assert(c.drop_last() =~= Seq::<char>::empty());
            reveal_with_fuel(vt::puts, 2);
            assert(vt::puts(c, look) =~= seq![Act::Put(cell.c as int, look)]);
            let cells = shown_cells(screen, line, left, end - 1);
            assert(t.acts + cells + vt::puts(c, look) =~= t.acts + cells.push(
                Act::Put(cell.c as int, look),
            ));
        }
    }
}

/// Of a line that is drawn, a terminal shows every cell from the first column to the last
/// one, at its place and with its look, and nothing else; the look is normal behind it.
pub proof fn drawn_lines_are_shown(t: Vt, screen: &Screen, line: int, left: int, right: int)
    requires
        vt::ready(t),
        0 <= line < u64::MAX,
        0 <= left < u64::MAX,
        forall|i: int| left <= i <= right ==> (#[trigger] screen.lines@[line]@[i]).c != ansi::esc(),
    ensures
        vt::run(t, render::line_text(screen, line, left, right)) == vt::did_all(
            vt::looking(t, vt::normal()),
            shown_part(screen, line, left, right),
        ),
{
    let a = ansi::goto((line + 1) as u64, (left + 1) as u64);
    let b = ansi::reset();
    let c = render::cells_text(screen, line, left, right + 1).0;
    let t1 = vt::run(t, a);
    let t2 = vt::run(t1, b);
    let t3 = vt::run(t2, c);
    vt::lemma_run_goto(t, (line + 1) as u64, (left + 1) as u64);
    vt::lemma_run_reset(t1);
    lemma_run_cells(t2, screen, line, left, right + 1);
    vt::lemma_run_reset(t3);
    vt::lemma_run_concat(t, a, b);
    vt::lemma_run_concat(t, a + b, c);
    vt::lemma_run_concat(t, a + b + c, b);
    assert(t.acts.push(Act::Goto(line + 1, left + 1)) + shown_cells(screen, line, left, right + 1)
        =~= t.acts + shown_part(screen, line, left, right));
}

// ---- The screen ----

/// The first `n` lines of the screen, each at its place.
pub open spec fn shown_lines(screen: &Screen, n: int) -> Seq<Act>
    decreases n,
{
    if n <= 0 {
        Seq::empty()
    } else {
        shown_lines(screen, n - 1) + shown_part(screen, n - 1, 0, screen.columns - 1)
    }
}

/// The whole screen, on a cleared one.
pub open spec fn shown_screen(screen: &Screen) -> Seq<Act> {
    seq![Act::Goto(1, 1), Act::ClearScreen] + shown_lines(screen, screen.lines@.len() as int)
}

/// Parts of lines, each at its place.
pub open spec fn shown_parts(screen: &Screen, parts: Seq<LineDamage>) -> Seq<Act>
    decreases parts.len(),
{
    if parts.len() == 0 {
        Seq::empty()
    } else {
        let d = parts.last();
        shown_parts(screen, parts.drop_last()) + shown_part(
            screen,
            d.line as int,
            d.left as int,
            d.right as int,
        )
    }
}

/// What is shown of a damage: the whole screen, or each of its parts.
pub open spec fn shown_damage(screen: &Screen, damage: Damage) -> Seq<Act> {
    match damage {
        Damage::Full => shown_screen(screen),
        Damage::Partial(parts) => shown_parts(screen, parts@),
    }
}

proof fn lemma_run_lines(t: Vt, screen: &Screen, n: int)
    requires
        vt::ready(t),
        t.look == vt::normal(),
        screen.wf(),
        render::holds_no_esc(screen),
        0 <= n <= screen.lines@.len(),
    ensures
        vt::run(t, render::lines_text(screen, n)) == vt::did_all(t, shown_lines(screen, n)),
    decreases n,
{
    if n == 0 {
        assert(t.acts + Seq::<Act>::empty() =~= t.acts);
    } else {
        lemma_run_lines(t, screen, n - 1);
        let a = render::lines_text(screen, n - 1);
        let b = render::line_text(screen, n - 1, 0, screen.columns - 1);
        let u = vt::run(t, a);
        drawn_lines_are_shown(u, screen, n - 1, 0, screen.columns - 1);
        vt::lemma_run_concat(t, a, b);
        assert(t.acts + shown_lines(screen, n - 1) + shown_part(
            screen,
            n - 1,
            0,
            screen.columns - 1,
        ) =~= t.acts + shown_lines(screen, n));
    }
}

/// A screen that is drawn is shown whole, on a cleared screen.
pub proof fn drawn_screen_is_shown(t: Vt, screen: &Screen)
    requires
        vt::ready(t),
        t.look == vt::normal(),
        screen.wf(),
        render::holds_no_esc(screen),
    ensures
        vt::run(t, render::full_text(screen)) == vt::did_all(t, shown_screen(screen)),
{
    let none = Seq::<char>::empty();
    let a = ansi::csi(Seq::empty(), 'H');
    let b = ansi::csi(seq![2u64], 'J');
    let c = render::lines_text(screen, screen.lines@.len() as int);
    let t1 = vt::run(t, a);
    let t2 = vt::run(t1, b);
    assert(ansi::codes_text(Seq::<u64>::empty()) =~= none);
    vt::lemma_run_sequence(t, none, 'H');
    text::lemma_one_field(none, ';');
    assert(vt::params(none).len() == 1);
    assert(!text::all_digits(none));
    assert(vt::params(none)[0] == -1);
    vt::lemma_run_csi(t1, seq![2u64], 'J');
    assert(vt::ints(seq![2u64]) =~= seq![2int]);
    lemma_run_lines(t2, screen, screen.lines@.len() as int);
    vt::lemma_run_concat(t, a, b);
    vt::lemma_run_concat(t, a + b, c);
    assert(t.acts.push(Act::Goto(1, 1)).push(Act::ClearScreen) + shown_lines(
        screen,
        screen.lines@.len() as int,
    ) =~= t.acts + shown_screen(screen));
}

proof fn lemma_run_parts(t: Vt, screen: &Screen, parts: Seq<LineDamage>)
    requires
        vt::ready(t),
        t.look == vt::normal(),
        screen.wf(),
        render::holds_no_esc(screen),
        forall|i: int| 0 <= i < parts.len() ==> render::on_screen(screen, #[trigger] parts[i]),
    ensures
        vt::run(t, render::parts_text(screen, parts)) == vt::did_all(t, shown_parts(screen, parts)),
    decreases parts.len(),
{
    if parts.len() == 0 {
        assert(t.acts + Seq::<Act>::empty() =~= t.acts);
    } else {
        let d = parts.last();
        let front = parts.drop_last();
        assert forall|i: int| 0 <= i < front.len() implies render::on_screen(
            screen,
            #[trigger] front[i],
        ) by {
            assert(front[i] == parts[i]);
        }
        lemma_run_parts(t, screen, front);
        assert(render::on_screen(screen, parts[parts.len() - 1]));
        let a = render::parts_text(screen, front);
        let b = render::line_text(screen, d.line as int, d.left as int, d.right as int);
        let u = vt::run(t, a);
        drawn_lines_are_shown(u, screen, d.line as int, d.left as int, d.right as int);
        vt::lemma_run_concat(t, a, b);
        assert(t.acts + shown_parts(screen, front) + shown_part(
            screen,
            d.line as int,
            d.left as int,
            d.right as int,
        ) =~= t.acts + shown_parts(screen, parts));
    }
}

/// What is drawn of a damage is shown: all of the screen, or each damaged part.
pub proof fn drawn_damage_is_shown(t: Vt, screen: &Screen, damage: Damage)
    requires
        vt::ready(t),
        t.look == vt::normal(),
        screen.wf(),
        render::holds_no_esc(screen),
        render::damage_on_screen(screen, damage),
    ensures
        vt::run(t, render::damage_text(screen, damage)) == vt::did_all(
            t,
            shown_damage(screen, damage),
        ),
{
    match damage {
        Damage::Full => {
            drawn_screen_is_shown(t, screen);
        },
        Damage::Partial(parts) => {
            lemma_run_parts(t, screen, parts@);
        },
    }
}

/// The cursor of the terminal goes where the cursor of the screen is.
pub proof fn cursor_is_shown(t: Vt, screen: &Screen)
    requires
        vt::ready(t),
        screen.wf(),
        screen.cursor_line >= 0,
    ensures
        vt::run(t, render::cursor_text(screen)) == vt::did(
            t,
            Act::Goto(screen.cursor_line + 1, screen.cursor_column + 1),
        ),
{
    let row = (screen.cursor_line + 1) as u64;
    let col = (screen.cursor_column + 1) as u64;
    vt::lemma_run_goto(t, row, col);
    assert(seq![row, col].drop_last() =~= seq![row]);
    assert(ansi::codes_text(seq![row]) == text::decimal(row as nat));
    assert(ansi::codes_text(seq![row, col]) =~= text::decimal(row as nat) + seq![';']
        + text::decimal(col as nat));
    assert(render::cursor_text(screen) =~= ansi::goto(row, col));
}

// ---- The status bar ----

/// Text in a color on the ground of the bar.
pub open spec fn on_bar(r: int, g: int, b: int) -> Look {
    vt::colored(Ink::Rgb(r, g, b), Ink::Rgb(38, 38, 38))
}

/// How many clients there are, behind a dot that is lit where there is one.
pub open spec fn shown_clients(clients: nat) -> Seq<Act> {
    vt::puts(
        "\u{25cf} "@,
        if clients == 0 {
            on_bar(82, 82, 82)
        } else {
            on_bar(34, 197, 94)
        },
    ) + vt::puts(text::decimal(clients) + " connected"@, on_bar(163, 163, 163))
}

/// The left part of the bar: where the session is shared, a link to it first.
pub open spec fn shown_left(url: Option<Seq<char>>, slug: Option<Seq<char>>, clients: nat) -> Seq<
    Act,
> {
    let white = on_bar(250, 250, 250);
    vt::puts(" "@, white) + (match (url, slug) {
        (Some(display), Some(s)) => vt::linked("https://remux.sh/"@ + s, display, white) + vt::puts(
            " "@,
            white,
        ) + vt::puts("\u{2502} "@, on_bar(82, 82, 82)),
        _ => Seq::empty(),
    }) + shown_clients(clients)
}

/// The right part of the bar: the key of the dialog, behind a note that something was
/// copied.
pub open spec fn shown_right(flash_copied: bool) -> Seq<Act> {
    (if flash_copied {
        vt::puts("Copied! "@, Look { bold: true, ..on_bar(34, 197, 94) })
    } else {
        Seq::empty()
    }) + vt::puts("Ctrl+Q"@, on_bar(250, 250, 250)) + vt::puts(": "@, on_bar(82, 82, 82))
        + vt::puts("share "@, on_bar(163, 163, 163))
}

/// How many cells acts take.
pub open spec fn cells_taken(acts: Seq<Act>) -> int
    decreases acts.len(),
{
    if acts.len() == 0 {
        0
    } else {
        cells_taken(acts.drop_last()) + if acts.last() is Put {
            1int
        } else {
            0
        }
    }
}

/// The bar: its left part, spaces, and its right part at the end of the row where both
/// fit.
pub open spec fn shown_row(
    cols: int,
    url: Option<Seq<char>>,
    slug: Option<Seq<char>>,
    clients: nat,
    flash_copied: bool,
) -> Seq<Act> {
    let left = shown_left(url, slug, clients);
    let right = shown_right(flash_copied);
    let grey = on_bar(163, 163, 163);
    let room = cols - cells_taken(left);
    left + (if room >= cells_taken(right) {
        vt::puts(ansi::spaces(room - cells_taken(right)), grey) + right
    } else if room > 0 {
        vt::puts(ansi::spaces(room), grey)
    } else {
        Seq::empty()
    })
}

proof fn lemma_cells_of_puts(s: Seq<char>, look: Look)
    ensures
        cells_taken(vt::puts(s, look)) == s.len(),
    decreases s.len(),
{
    if s.len() > 0 {
        lemma_cells_of_puts(s.drop_last(), look);
        assert(vt::puts(s, look).drop_last() =~= vt::puts(s.drop_last(), look));
    }
}

proof fn lemma_cells_of_both(a: Seq<Act>, b: Seq<Act>)
    ensures
        cells_taken(a + b) == cells_taken(a) + cells_taken(b),
    decreases b.len(),
{
    if b.len() == 0 {
        assert(a + b =~= a);
    } else {
        assert((a + b).drop_last() =~= a + b.drop_last());
        lemma_cells_of_both(a, b.drop_last());
    }
}

proof fn lemma_cells_of_osc(body: Seq<char>)
    ensures
        cells_taken(seq![Act::Osc(body)]) == 0,
{
    assert(seq![Act::Osc(body)].drop_last() =~= Seq::<Act>::empty());
    reveal_with_fuel(cells_taken, 2);
}

proof fn lemma_clients_shown(clients: nat, from: Look)
    requires
        from.bg == Ink::Rgb(38, 38, 38),
        from == (Look { fg: from.fg, bg: from.bg, ..vt::normal() }),
    ensures
        vt::shows(
            from,
            render::clients_text(clients),
            on_bar(163, 163, 163),
            shown_clients(clients),
        ),
        cells_taken(shown_clients(clients)) == 12 + text::decimal(clients).len(),
{
    reveal_strlit("\u{25cf} ");
    reveal_strlit(" connected");
    text::lemma_decimal_digits(clients);
    let dot = "\u{25cf} "@;
    let tail = text::decimal(clients) + " connected"@;
    let grey = on_bar(163, 163, 163);
    let color = if clients == 0 {
        on_bar(82, 82, 82)
    } else {
        on_bar(34, 197, 94)
    };
    let a = if clients >= 1 {
        render::bar_live()
    } else {
        render::bar_muted()
    };
    if clients >= 1 {
        vt::lemma_shows_colored(from, 34, 197, 94, dot);
    } else {
        vt::lemma_shows_colored(from, 82, 82, 82, dot);
    }
    assert(vt::shows(from, a + dot, color, vt::puts(dot, color)));
    vt::lemma_shows_colored(color, 163, 163, 163, tail);
    vt::lemma_shows_both(
        from,
        a + dot,
        color,
        vt::puts(dot, color),
        render::bar_secondary() + tail,
        grey,
        vt::puts(tail, grey),
    );
    assert(render::clients_text(clients) =~= (a + dot) + (render::bar_secondary() + tail));
    lemma_cells_of_puts(dot, color);
    lemma_cells_of_puts(tail, grey);
    lemma_cells_of_both(vt::puts(dot, color), vt::puts(tail, grey));
}

proof fn lemma_left_shown(url: Option<Seq<char>>, slug: Option<Seq<char>>, clients: nat)
    requires
        url matches Some(u) ==> ansi::is_plain(u),
        slug matches Some(s) ==> ansi::is_osc_body(s),
    ensures
        vt::shows(
            on_bar(250, 250, 250),
            render::bar_left(url, slug, clients),
            on_bar(163, 163, 163),
            shown_left(url, slug, clients),
        ),
        cells_taken(shown_left(url, slug, clients)) == render::bar_left_width(url, slug, clients),
{
    reveal_strlit(" ");
    reveal_strlit("\u{2502} ");
    reveal_strlit("https://remux.sh/");
    let white = on_bar(250, 250, 250);
    let dark = on_bar(82, 82, 82);
    let grey = on_bar(163, 163, 163);
    let sp = vt::puts(" "@, white);
    vt::lemma_shows_plain(white, " "@);
    lemma_cells_of_puts(" "@, white);
    match (url, slug) {
        (Some(display), Some(s)) => {
            let address = "https://remux.sh/"@ + s;
            let bar = "\u{2502} "@;
            assert forall|i: int| 0 <= i < address.len() implies #[trigger] address[i]
                != ansi::esc() && address[i] != ansi::bel() by {
                if i >= 17 {
                    assert(address[i] == s[i - 17]);
                } else {
                    assert(address[i] == "https://remux.sh/"@[i]);
                }
            }
            vt::lemma_shows_fg(white, 250, 250, 250);
            vt::lemma_shows_link(white, address, display);
            vt::lemma_shows_colored(white, 82, 82, 82, bar);
            lemma_clients_shown(clients, dark);
            let a = " "@;
            let b = render::bar_primary();
            let c = ansi::link(address, display);
            let d = render::bar_muted() + bar;
            let e = render::clients_text(clients);
            let l = vt::linked(address, display, white);
            let p = vt::puts(bar, dark);
            let none = Seq::<Act>::empty();
            vt::lemma_shows_both(white, a, white, sp, b, white, none);
            vt::lemma_shows_both(white, a + b, white, sp + none, c, white, l);
            vt::lemma_shows_both(white, a + b + c, white, sp + none + l, a, white, sp);
            vt::lemma_shows_both(white, a + b + c + a, white, sp + none + l + sp, d, dark, p);
            vt::lemma_shows_both(
                white,
                a + b + c + a + d,
                dark,
                sp + none + l + sp + p,
                e,
                grey,
                shown_clients(clients),
            );
            assert(render::bar_left(url, slug, clients) =~= a + b + c + a + d + e);
            assert(sp + none + l + sp + p + shown_clients(clients) =~= shown_left(
                url,
                slug,
                clients,
            ));
            lemma_cells_of_osc(seq!['8', ';', ';'] + address);
            lemma_cells_of_osc(seq!['8', ';', ';']);
            lemma_cells_of_puts(display, white);
            lemma_cells_of_puts(bar, dark);
            let o1 = seq![Act::Osc(seq!['8', ';', ';'] + address)];
            let o2 = seq![Act::Osc(seq!['8', ';', ';'])];
            lemma_cells_of_both(o1, vt::puts(display, white));
            lemma_cells_of_both(o1 + vt::puts(display, white), o2);
            lemma_cells_of_both(l, sp);
            lemma_cells_of_both(l + sp, p);
            lemma_cells_of_both(sp, l + sp + p);
            lemma_cells_of_both(sp + (l + sp + p), shown_clients(clients));
        },
        _ => {
            lemma_clients_shown(clients, white);
            vt::lemma_shows_both(
                white,
                " "@,
                white,
                sp,
                render::clients_text(clients),
                grey,
                shown_clients(clients),
            );
            assert(sp + Seq::<Act>::empty() + shown_clients(clients) =~= sp + shown_clients(
                clients,
            ));
            lemma_cells_of_both(sp, shown_clients(clients));
        },
    }
}

proof fn lemma_right_shown(flash_copied: bool)
    ensures
        vt::shows(
            on_bar(163, 163, 163),
            render::bar_right(flash_copied),
            on_bar(163, 163, 163),
            shown_right(flash_copied),
        ),
        cells_taken(shown_right(flash_copied)) == render::bar_right_width(flash_copied),
{
    reveal_strlit("Copied! ");
    reveal_strlit("Ctrl+Q");
    reveal_strlit(": ");
    reveal_strlit("share ");
    let none = Seq::<Act>::empty();
    let white = on_bar(250, 250, 250);
    let dark = on_bar(82, 82, 82);
    let grey = on_bar(163, 163, 163);
    let green = on_bar(34, 197, 94);
    let bold = Look { bold: true, ..green };
    let head = if flash_copied {
        ansi::bold_fg(34, 197, 94) + "Copied! "@ + ansi::sgr(seq![22u64])
    } else {
        Seq::empty()
    };
    let shown = if flash_copied {
        vt::puts("Copied! "@, bold)
    } else {
        none
    };
    let mid = if flash_copied {
        green
    } else {
        grey
    };
    if flash_copied {
        vt::lemma_shows_bold_fg(grey, 34, 197, 94);
        vt::lemma_shows_plain(bold, "Copied! "@);
        vt::lemma_shows_one(bold, 22);
        vt::lemma_shows_both(
            grey,
            ansi::bold_fg(34, 197, 94),
            bold,
            none,
            "Copied! "@,
            bold,
            shown,
        );
        vt::lemma_shows_both(
            grey,
            ansi::bold_fg(34, 197, 94) + "Copied! "@,
            bold,
            none + shown,
            ansi::sgr(seq![22u64]),
            green,
            none,
        );
        assert(none + shown + none =~= shown);
        lemma_cells_of_puts("Copied! "@, bold);
    } else {
        vt::lemma_shows_nothing(grey);
    }
    assert(vt::shows(grey, head, mid, shown));
    let b = render::bar_primary() + "Ctrl+Q"@;
    let c = render::bar_muted() + ": "@;
    let d = render::bar_secondary() + "share "@;
    let x = vt::puts("Ctrl+Q"@, white);
    let y = vt::puts(": "@, dark);
    let z = vt::puts("share "@, grey);
    vt::lemma_shows_colored(mid, 250, 250, 250, "Ctrl+Q"@);
    vt::lemma_shows_colored(white, 82, 82, 82, ": "@);
    vt::lemma_shows_colored(dark, 163, 163, 163, "share "@);
    vt::lemma_shows_both(grey, head, mid, shown, b, white, x);
    vt::lemma_shows_both(grey, head + b, white, shown + x, c, dark, y);
    vt::lemma_shows_both(grey, head + b + c, dark, shown + x + y, d, grey, z);
    assert(render::bar_right(flash_copied) =~= head + b + c + d);
    lemma_cells_of_puts("Ctrl+Q"@, white);
    lemma_cells_of_puts(": "@, dark);
    lemma_cells_of_puts("share "@, grey);
    lemma_cells_of_both(shown, x);
    lemma_cells_of_both(shown + x, y);
    lemma_cells_of_both(shown + x + y, z);
}

/// The status bar that is drawn is shown in the last row, over a cleared line: a link to
/// the session where it is shared, how many clients there are, and the key of the dialog
/// at the right end. The cursor goes back to its place.
pub proof fn drawn_bar_is_shown(
    look: Look,
    cols: u16,
    rows: u16,
    url: Option<Seq<char>>,
    slug: Option<Seq<char>>,
    clients: nat,
    flash_copied: bool,
)
    requires
        rows >= 1,
        look == vt::normal(),
        url matches Some(u) ==> ansi::is_plain(u),
        slug matches Some(s) ==> ansi::is_osc_body(s),
    ensures
        vt::shows(
            look,
            render::bar_text(cols, rows, url, slug, clients, flash_copied),
            vt::normal(),
            seq![Act::Save, Act::Goto(rows as int, 1), Act::ClearLine] + shown_row(
                cols as int,
                url,
                slug,
                clients,
                flash_copied,
            ) + seq![Act::Restore],
        ),
{
    reveal_strlit("\x1b7");
    reveal_strlit("\x1b8");
    assert("\x1b7"@ =~= seq![ansi::esc(), '7']);
    assert("\x1b8"@ =~= seq![ansi::esc(), '8']);
    let none = Seq::<Act>::empty();
    let n = vt::normal();
    let ground = Look { bg: Ink::Rgb(38, 38, 38), ..n };
    let white = on_bar(250, 250, 250);
    let grey = on_bar(163, 163, 163);
    let a = "\x1b7"@;
    let b = ansi::goto(rows as u64, 1);
    let c = ansi::bg(38, 38, 38);
    let d = render::bar_primary();
    let e = ansi::csi(seq![2u64], 'K');
    let f = render::bar_body(cols as int, url, slug, clients, flash_copied);
    let g = ansi::reset();
    let h = "\x1b8"@;
    let sa = seq![Act::Save];
    let sb = seq![Act::Goto(rows as int, 1)];
    let se = seq![Act::ClearLine];
    let sf = shown_row(cols as int, url, slug, clients, flash_copied);
    let sh = seq![Act::Restore];
    vt::lemma_shows_place(n, '7');
    vt::lemma_shows_goto(n, rows as u64, 1);
    vt::lemma_shows_bg(n, 38, 38, 38);
    vt::lemma_shows_fg(ground, 250, 250, 250);
    vt::lemma_shows_csi(white, seq![2u64], 'K');
    assert(vt::ints(seq![2u64]) =~= seq![2int]);
    lemma_row_shown(cols as int, url, slug, clients, flash_copied);
    vt::lemma_shows_one(grey, 0);
    vt::lemma_shows_place(n, '8');
    vt::lemma_shows_both(n, a, n, sa, b, n, sb);
    vt::lemma_shows_both(n, a + b, n, sa + sb, c, ground, none);
    vt::lemma_shows_both(n, a + b + c, ground, sa + sb + none, d, white, none);
    vt::lemma_shows_both(n, a + b + c + d, white, sa + sb + none + none, e, white, se);
    vt::lemma_shows_both(n, a + b + c + d + e, white, sa + sb + none + none + se, f, grey, sf);
    vt::lemma_shows_both(
        n,
        a + b + c + d + e + f,
        grey,
        sa + sb + none + none + se + sf,
        g,
        n,
        none,
    );
    vt::lemma_shows_both(
        n,
        a + b + c + d + e + f + g,
        n,
        sa + sb + none + none + se + sf + none,
        h,
        n,
        sh,
    );
    assert(sa + sb + none + none + se + sf + none + sh =~= seq![
        Act::Save,
        Act::Goto(rows as int, 1),
        Act::ClearLine,
    ] + sf + sh);
    assert(render::bar_text(cols, rows, url, slug, clients, flash_copied) == a + b + c + d + e + f
        + g + h);
}

proof fn lemma_row_shown(
    cols: int,
    url: Option<Seq<char>>,
    slug: Option<Seq<char>>,
    clients: nat,
    flash_copied: bool,
)
    requires
        url matches Some(u) ==> ansi::is_plain(u),
        slug matches Some(s) ==> ansi::is_osc_body(s),
    ensures
        vt::shows(
            on_bar(250, 250, 250),
            render::bar_body(cols, url, slug, clients, flash_copied),
            on_bar(163, 163, 163),
            shown_row(cols, url, slug, clients, flash_copied),
        ),
{
    let white = on_bar(250, 250, 250);
    let grey = on_bar(163, 163, 163);
    let left = render::bar_left_width(url, slug, clients);
    let right = render::bar_right_width(flash_copied);
    let a = render::bar_left(url, slug, clients);
    let x = shown_left(url, slug, clients);
    lemma_left_shown(url, slug, clients);
    lemma_right_shown(flash_copied);
    if left + right <= cols {
        let gap = ansi::spaces(cols - left - right);
        let b = render::bar_right(flash_copied);
        let y = shown_right(flash_copied);
        vt::lemma_shows_plain(grey, gap);
        vt::lemma_shows_both(grey, gap, grey, vt::puts(gap, grey), b, grey, y);
        vt::lemma_shows_both(white, a, grey, x, gap + b, grey, vt::puts(gap, grey) + y);
    } else if left < cols {
        let gap = ansi::spaces(cols - left);
        vt::lemma_shows_plain(grey, gap);
        vt::lemma_shows_both(white, a, grey, x, gap, grey, vt::puts(gap, grey));
    } else {
        assert(a + Seq::empty() =~= a);
        assert(x + Seq::empty() =~= x);
    }
}

/// The bar takes the whole row, and no more unless its left part does.
pub proof fn shown_row_fills_the_line(
    cols: int,
    url: Option<Seq<char>>,
    slug: Option<Seq<char>>,
    clients: nat,
    flash_copied: bool,
)
    ensures
        cells_taken(shown_row(cols, url, slug, clients, flash_copied)) == text::max(
            cols,
            cells_taken(shown_left(url, slug, clients)),
        ),
{
    let left = shown_left(url, slug, clients);
    let right = shown_right(flash_copied);
    let grey = on_bar(163, 163, 163);
    let room = cols - cells_taken(left);
    lemma_right_shown(flash_copied);
    if room >= cells_taken(right) {
        let gap = ansi::spaces(room - cells_taken(right));
        lemma_cells_of_puts(gap, grey);
        lemma_cells_of_both(vt::puts(gap, grey), right);
        lemma_cells_of_both(left, vt::puts(gap, grey) + right);
    } else if room > 0 {
        let gap = ansi::spaces(room);
        lemma_cells_of_puts(gap, grey);
        lemma_cells_of_both(left, vt::puts(gap, grey));
    } else {
        assert(left + Seq::<Act>::empty() =~= left);
    }
}

} // verus!
