//! What is written to the outer terminal: the lines of the screen, the status
//! bar and the clipboard.

use vstd::prelude::*;
use vstd::utf8::*;

use crate::ansi;
use crate::terminal;
use crate::terminal::{
    Cell, CellFlags, Color, Damage, LineDamage, NamedColor, Screen, BOLD, DASHED_UNDERLINE, DIM,
    DOTTED_UNDERLINE, DOUBLE_UNDERLINE, HIDDEN, INVERSE, ITALIC, LEADING_WIDE_CHAR_SPACER, STRIKEOUT,
    UNDERCURL, UNDERLINE, WIDE_CHAR_SPACER,
};
use crate::text;

verus! {

/// Adds a text to the end of `buf`, in UTF-8.
pub fn append_text(buf: &mut Vec<u8>, s: &str)
    ensures
        final(buf)@ == old(buf)@ + encode_utf8(s@),
{
    buf.extend_from_slice(s.as_bytes());
    assert(buf@ =~= old(buf)@ + encode_utf8(s@));
}

// ---- Colors and attributes ----

/// The code of a named color for text: the eight colors from 30 on, the bright
/// ones from 90 on, and 39 for all others. Dim colors are drawn as normal ones.
pub open spec fn named_code(name: NamedColor) -> u64 {
    match name {
        NamedColor::Black | NamedColor::DimBlack => 30,
        NamedColor::Red | NamedColor::DimRed => 31,
        NamedColor::Green | NamedColor::DimGreen => 32,
        NamedColor::Yellow | NamedColor::DimYellow => 33,
        NamedColor::Blue | NamedColor::DimBlue => 34,
        NamedColor::Magenta | NamedColor::DimMagenta => 35,
        NamedColor::Cyan | NamedColor::DimCyan => 36,
        NamedColor::White | NamedColor::DimWhite => 37,
        NamedColor::BrightBlack => 90,
        NamedColor::BrightRed => 91,
        NamedColor::BrightGreen => 92,
        NamedColor::BrightYellow => 93,
        NamedColor::BrightBlue => 94,
        NamedColor::BrightMagenta => 95,
        NamedColor::BrightCyan => 96,
        NamedColor::BrightWhite => 97,
        _ => 39,
    }
}

/// The sequence that sets a color of the text, or of what is behind it, whose
/// codes are greater by ten.
pub open spec fn color_text(color: Color, is_fg: bool) -> Seq<char> {
    let more: u64 = if is_fg { 0 } else { 10 };
    match color {
        Color::Spec { r, g, b } => ansi::sgr(
            seq![(38 + more) as u64, 2u64, r as u64, g as u64, b as u64],
        ),
        Color::Indexed(i) => ansi::sgr(seq![(38 + more) as u64, 5u64, i as u64]),
        Color::Named(name) => ansi::sgr(seq![(named_code(name) + more) as u64]),
    }
}

fn code_of(name: NamedColor) -> (r: u64)
    ensures
        r == named_code(name),
        r <= 97,
{
    match name {
        NamedColor::Black | NamedColor::DimBlack => 30,
        NamedColor::Red | NamedColor::DimRed => 31,
        NamedColor::Green | NamedColor::DimGreen => 32,
        NamedColor::Yellow | NamedColor::DimYellow => 33,
        NamedColor::Blue | NamedColor::DimBlue => 34,
        NamedColor::Magenta | NamedColor::DimMagenta => 35,
        NamedColor::Cyan | NamedColor::DimCyan => 36,
        NamedColor::White | NamedColor::DimWhite => 37,
        NamedColor::BrightBlack => 90,
        NamedColor::BrightRed => 91,
        NamedColor::BrightGreen => 92,
        NamedColor::BrightYellow => 93,
        NamedColor::BrightBlue => 94,
        NamedColor::BrightMagenta => 95,
        NamedColor::BrightCyan => 96,
        NamedColor::BrightWhite => 97,
        _ => 39,
    }
}

fn push_color(out: &mut String, color: Color, is_fg: bool)
    ensures
        final(out)@ == old(out)@ + color_text(color, is_fg),
{
    let more: u64 = if is_fg { 0 } else { 10 };
    match color {
        Color::Spec { r, g, b } => {
            ansi::push_csi(out, &[38 + more, 2, r as u64, g as u64, b as u64], 'm');
            assert([(38 + more) as u64, 2u64, r as u64, g as u64, b as u64]@ =~= seq![
                (38 + more) as u64, 2u64, r as u64, g as u64, b as u64]);
        },
        Color::Indexed(i) => {
            ansi::push_csi(out, &[38 + more, 5, i as u64], 'm');
            assert([(38 + more) as u64, 5u64, i as u64]@ =~= seq![
                (38 + more) as u64, 5u64, i as u64]);
        },
        Color::Named(name) => {
            let code: u64 = code_of(name) + more;
            ansi::push_csi(out, &[code], 'm');
            assert([code]@ =~= seq![code]);
        },
    }
}

/// Writes the sequence that sets a color.
pub fn write_color(buf: &mut Vec<u8>, color: Color, is_fg: bool)
    ensures
        final(buf)@ == old(buf)@ + encode_utf8(color_text(color, is_fg)),
{
    let mut out = String::new();
    push_color(&mut out, color, is_fg);
    assert(out@ =~= color_text(color, is_fg));
    append_text(buf, out.as_str());
}

/// The sequence for one attribute, where the cell has it.
pub open spec fn flag_text(flags: CellFlags, flag: u16, code: u64) -> Seq<char> {
    if flags.has(flag) {
        ansi::sgr(seq![code])
    } else {
        Seq::empty()
    }
}

/// The sequence for the underline. Of several, the first one counts.
pub open spec fn underline_text(flags: CellFlags) -> Seq<char> {
    if flags.has(UNDERLINE) {
        ansi::sgr(seq![4u64])
    } else if flags.has(DOUBLE_UNDERLINE) {
        ansi::sgr(seq![21u64])
    } else if flags.has(UNDERCURL) {
        "\x1b[4:3m"@
    } else if flags.has(DOTTED_UNDERLINE) {
        "\x1b[4:4m"@
    } else if flags.has(DASHED_UNDERLINE) {
        "\x1b[4:5m"@
    } else {
        Seq::empty()
    }
}

/// The sequences that set the attributes of a cell.
pub open spec fn flags_text(flags: CellFlags) -> Seq<char> {
    flag_text(flags, BOLD, 1) + flag_text(flags, DIM, 2) + flag_text(flags, ITALIC, 3)
        + underline_text(flags) + flag_text(flags, INVERSE, 7) + flag_text(flags, HIDDEN, 8)
        + flag_text(flags, STRIKEOUT, 9)
}

fn push_flag(out: &mut String, flags: CellFlags, flag: u16, code: u64)
    ensures
        final(out)@ == old(out)@ + flag_text(flags, flag, code),
{
    if flags.contains(flag) {
        ansi::push_csi(out, &[code], 'm');
        assert([code]@ =~= seq![code]);
    } else {
        assert(out@ =~= old(out)@ + flag_text(flags, flag, code));
    }
}

fn push_underline(out: &mut String, flags: CellFlags)
    ensures
        final(out)@ == old(out)@ + underline_text(flags),
{
    if flags.contains(UNDERLINE) {
        ansi::push_csi(out, &[4], 'm');
        assert([4u64]@ =~= seq![4u64]);
    } else if flags.contains(DOUBLE_UNDERLINE) {
        ansi::push_csi(out, &[21], 'm');
        assert([21u64]@ =~= seq![21u64]);
    } else if flags.contains(UNDERCURL) {
        out.append("\x1b[4:3m");
    } else if flags.contains(DOTTED_UNDERLINE) {
        out.append("\x1b[4:4m");
    } else if flags.contains(DASHED_UNDERLINE) {
        out.append("\x1b[4:5m");
    } else {
        assert(out@ =~= old(out)@ + underline_text(flags));
    }
}

fn push_flags(out: &mut String, flags: CellFlags)
    ensures
        final(out)@ == old(out)@ + flags_text(flags),
{
    push_flag(out, flags, BOLD, 1);
    push_flag(out, flags, DIM, 2);
    push_flag(out, flags, ITALIC, 3);
    push_underline(out, flags);
    push_flag(out, flags, INVERSE, 7);
    push_flag(out, flags, HIDDEN, 8);
    push_flag(out, flags, STRIKEOUT, 9);
    assert(out@ =~= old(out)@ + flags_text(flags));
}

/// Writes the sequences that set the attributes of a cell.
pub fn write_flags(buf: &mut Vec<u8>, flags: CellFlags)
    ensures
        final(buf)@ == old(buf)@ + encode_utf8(flags_text(flags)),
{
    let mut out = String::new();
    push_flags(&mut out, flags);
    assert(out@ =~= flags_text(flags));
    append_text(buf, out.as_str());
}

// ---- Lines ----

/// How the text that is written next looks.
#[derive(Clone, Copy, PartialEq, Eq, Structural, Debug)]
pub struct Pen {
    pub fg: Color,
    pub bg: Color,
    pub flags: CellFlags,
    pub selected: bool,
}

/// The look of text after a reset.
pub open spec fn normal_pen() -> Pen {
    Pen {
        fg: Color::Named(NamedColor::Foreground),
        bg: Color::Named(NamedColor::Background),
        flags: CellFlags { bits: 0 },
        selected: false,
    }
}

/// The sequences that make text look as the pen says, whatever it was before.
/// Selected text is inverse.
pub open spec fn pen_text(pen: Pen) -> Seq<char> {
    ansi::reset() + (if pen.selected {
        ansi::sgr(seq![7u64])
    } else {
        Seq::empty()
    }) + flags_text(pen.flags) + (if pen.fg != normal_pen().fg {
        color_text(pen.fg, true)
    } else {
        Seq::empty()
    }) + (if pen.bg != normal_pen().bg {
        color_text(pen.bg, false)
    } else {
        Seq::empty()
    })
}

/// Cells that hold the second half of a wide character, or stand in for one
/// that did not fit.
pub open spec fn is_spacer(cell: Cell) -> bool {
    cell.flags.has(WIDE_CHAR_SPACER) || cell.flags.has(LEADING_WIDE_CHAR_SPACER)
}

/// How the cell at a line and a column of the screen looks.
pub open spec fn cell_pen(screen: &Screen, line: int, col: int) -> Pen {
    let cell = screen.lines@[line]@[col];
    Pen {
        fg: cell.fg,
        bg: cell.bg,
        flags: cell.flags.visible(),
        selected: screen.selection matches Some(s) && s.selects(
            terminal::shown_line(line, screen.display_offset as int),
            col,
        ),
    }
}

/// The cells of a line from `left` up to `end`, and the pen behind them. The
/// look is set only where it changes.
pub open spec fn cells_text(screen: &Screen, line: int, left: int, end: int) -> (Seq<char>, Pen)
    decreases end - left,
{
    if end <= left {
        (Seq::empty(), normal_pen())
    } else {
        let (before, pen) = cells_text(screen, line, left, end - 1);
        let cell = screen.lines@[line]@[end - 1];
        let next = cell_pen(screen, line, end - 1);
        if is_spacer(cell) {
            (before, pen)
        } else if next == pen {
            (before.push(cell.c), pen)
        } else {
            ((before + pen_text(next)).push(cell.c), next)
        }
    }
}

/// The cells of a line from `left` to `right`, drawn at their place.
pub open spec fn line_text(screen: &Screen, line: int, left: int, right: int) -> Seq<char> {
    ansi::goto((line + 1) as u64, (left + 1) as u64) + ansi::reset() + cells_text(
        screen,
        line,
        left,
        right + 1,
    ).0 + ansi::reset()
}

fn push_pen(out: &mut String, pen: Pen)
    ensures
        final(out)@ == old(out)@ + pen_text(pen),
{
    ansi::push_reset(out);
    if pen.selected {
        ansi::push_csi(out, &[7], 'm');
        assert([7u64]@ =~= seq![7u64]);
    }
    push_flags(out, pen.flags);
    if pen.fg != Color::Named(NamedColor::Foreground) {
        push_color(out, pen.fg, true);
    }
    if pen.bg != Color::Named(NamedColor::Background) {
        push_color(out, pen.bg, false);
    }
    assert(out@ =~= old(out)@ + pen_text(pen));
}

fn pen_of(screen: &Screen, line: usize, col: usize) -> (r: Pen)
    requires
        screen.wf(),
        line < screen.lines@.len(),
        col < screen.columns,
    ensures
        r == cell_pen(screen, line as int, col as int),
{
    let cell: Cell = screen.lines[line][col];
    let selected: bool = match screen.selection {
        Some(s) => {
            let at: i32 = terminal::grid_line(line, screen.display_offset);
            terminal::selection_contains(&s, at, col)
        },
        None => false,
    };
    Pen { fg: cell.fg, bg: cell.bg, flags: cell.flags.shown(), selected }
}

fn push_line(out: &mut String, screen: &Screen, line: usize, left: usize, right: usize)
    requires
        screen.wf(),
        line < screen.lines@.len(),
        left < usize::MAX,
        left <= right ==> right < screen.columns,
    ensures
        final(out)@ == old(out)@ + line_text(screen, line as int, left as int, right as int),
{
    ansi::push_goto(out, line as u64 + 1, left as u64 + 1);
    ansi::push_reset(out);
    let ghost start = out@;
    let mut pen = Pen {
        fg: Color::Named(NamedColor::Foreground),
        bg: Color::Named(NamedColor::Background),
        flags: CellFlags { bits: 0 },
        selected: false,
    };
    let mut col: usize = left;
    if left <= right {
        assert(out@ =~= start + cells_text(screen, line as int, left as int, left as int).0);
        while col <= right
            invariant
                screen.wf(),
                line < screen.lines@.len(),
                left <= right < screen.columns,
                left <= col <= right + 1,
                out@ == start + cells_text(screen, line as int, left as int, col as int).0,
                pen == cells_text(screen, line as int, left as int, col as int).1,
            decreases right + 1 - col,
        {
            let cell: Cell = screen.lines[line][col];
            let ghost before = out@;
            if !(cell.flags.contains(WIDE_CHAR_SPACER) || cell.flags.contains(
                LEADING_WIDE_CHAR_SPACER,
            )) {
                let next = pen_of(screen, line, col);
                if next != pen {
                    push_pen(out, next);
                    pen = next;
                }
                out.push(cell.c);
            }
            col = col + 1;
            assert(out@ =~= start + cells_text(screen, line as int, left as int, col as int).0);
        }
    }
    assert(cells_text(screen, line as int, left as int, right + 1).0 == cells_text(
        screen,
        line as int,
        left as int,
        col as int,
    ).0);
    ansi::push_reset(out);
    assert(out@ =~= old(out)@ + line_text(screen, line as int, left as int, right as int));
}

/// Draws the cells of a line from `left` to `right`.
pub fn render_line(buf: &mut Vec<u8>, screen: &Screen, line: usize, left: usize, right: usize)
    requires
        screen.wf(),
        line < screen.lines@.len(),
        left < usize::MAX,
        left <= right ==> right < screen.columns,
    ensures
        final(buf)@ == old(buf)@ + encode_utf8(
            line_text(screen, line as int, left as int, right as int),
        ),
{
    let mut out = String::new();
    push_line(&mut out, screen, line, left, right);
    assert(out@ =~= line_text(screen, line as int, left as int, right as int));
    append_text(buf, out.as_str());
}

// ---- The screen ----

/// The first `n` lines of the screen, drawn at their place.
pub open spec fn lines_text(screen: &Screen, n: int) -> Seq<char>
    decreases n,
{
    if n <= 0 {
        Seq::empty()
    } else {
        lines_text(screen, n - 1) + line_text(screen, n - 1, 0, screen.columns - 1)
    }
}

/// The whole screen, drawn over a cleared one.
pub open spec fn full_text(screen: &Screen) -> Seq<char> {
    ansi::csi(Seq::empty(), 'H') + ansi::csi(seq![2u64], 'J') + lines_text(
        screen,
        screen.lines@.len() as int,
    )
}

/// The damaged parts of the screen, drawn at their place.
pub open spec fn parts_text(screen: &Screen, parts: Seq<LineDamage>) -> Seq<char>
    decreases parts.len(),
{
    if parts.len() == 0 {
        Seq::empty()
    } else {
        let d = parts.last();
        parts_text(screen, parts.drop_last()) + line_text(
            screen,
            d.line as int,
            d.left as int,
            d.right as int,
        )
    }
}

/// What draws the damage.
pub open spec fn damage_text(screen: &Screen, damage: Damage) -> Seq<char> {
    match damage {
        Damage::Full => full_text(screen),
        Damage::Partial(parts) => parts_text(screen, parts@),
    }
}

/// Whether a damaged part lies on the screen.
pub open spec fn on_screen(screen: &Screen, d: LineDamage) -> bool {
    &&& d.line < screen.lines@.len()
    &&& d.left < usize::MAX
    &&& d.left <= d.right ==> d.right < screen.columns
}

/// Whether all that is damaged lies on the screen.
pub open spec fn damage_on_screen(screen: &Screen, damage: Damage) -> bool {
    match damage {
        Damage::Full => true,
        Damage::Partial(parts) => forall|i: int|
            0 <= i < parts@.len() ==> on_screen(screen, #[trigger] parts@[i]),
    }
}

fn push_full(out: &mut String, screen: &Screen)
    requires
        screen.wf(),
    ensures
        final(out)@ == old(out)@ + full_text(screen),
{
    ansi::push_csi(out, &[], 'H');
    assert([0u64; 0]@ =~= Seq::<u64>::empty());
    ansi::push_csi(out, &[2], 'J');
    assert([2u64]@ =~= seq![2u64]);
    let ghost start = out@;
    let mut line: usize = 0;
    assert(out@ =~= start + lines_text(screen, 0));
    while line < screen.lines.len()
        invariant
            screen.wf(),
            line <= screen.lines@.len(),
            out@ == start + lines_text(screen, line as int),
        decreases screen.lines@.len() - line,
    {
        push_line(out, screen, line, 0, screen.columns - 1);
        line = line + 1;
        assert(out@ =~= start + lines_text(screen, line as int));
    }
    assert(out@ =~= old(out)@ + full_text(screen));
}

/// Draws the whole screen.
pub fn render_full(buf: &mut Vec<u8>, screen: &Screen)
    requires
        screen.wf(),
    ensures
        final(buf)@ == old(buf)@ + encode_utf8(full_text(screen)),
{
    let mut out = String::new();
    push_full(&mut out, screen);
    assert(out@ =~= full_text(screen));
    append_text(buf, out.as_str());
}

/// Draws what is damaged.
pub fn render_damage(buf: &mut Vec<u8>, screen: &Screen, damage: &Damage)
    requires
        screen.wf(),
        damage_on_screen(screen, *damage),
    ensures
        final(buf)@ == old(buf)@ + encode_utf8(damage_text(screen, *damage)),
{
    let mut out = String::new();
    match damage {
        Damage::Full => {
            push_full(&mut out, screen);
        },
        Damage::Partial(parts) => {
            let mut i: usize = 0;
            assert(out@ =~= parts_text(screen, parts@.take(0)));
            while i < parts.len()
                invariant
                    screen.wf(),
                    forall|k: int|
                        0 <= k < parts@.len() ==> on_screen(screen, #[trigger] parts@[k]),
                    i <= parts@.len(),
                    out@ == parts_text(screen, parts@.take(i as int)),
                decreases parts@.len() - i,
            {
                let d: LineDamage = parts[i];
                push_line(&mut out, screen, d.line, d.left, d.right);
                i = i + 1;
                assert(parts@.take(i as int).drop_last() == parts@.take(i - 1));
            }
            assert(parts@.take(parts@.len() as int) == parts@);
        },
    }
    assert(out@ =~= damage_text(screen, *damage));
    append_text(buf, out.as_str());
}

/// The cursor at its place.
pub open spec fn cursor_text(screen: &Screen) -> Seq<char> {
    seq![ansi::esc(), '['] + text::signed_decimal(screen.cursor_line + 1) + seq![';']
        + text::decimal((screen.cursor_column + 1) as nat) + seq!['H']
}

/// Puts the cursor of the outer terminal where that of the screen is.
pub fn position_cursor(buf: &mut Vec<u8>, screen: &Screen)
    requires
        screen.wf(),
    ensures
        final(buf)@ == old(buf)@ + encode_utf8(cursor_text(screen)),
{
    let mut out = String::new();
    out.push('\x1b');
    out.push('[');
    text::push_signed(&mut out, screen.cursor_line as i64 + 1);
    out.push(';');
    text::push_decimal(&mut out, screen.cursor_column as u64 + 1);
    out.push('H');
    assert(out@ =~= cursor_text(screen));
    append_text(buf, out.as_str());
}

// ---- The status bar ----

pub open spec fn bar_primary() -> Seq<char> {
    ansi::fg(250, 250, 250)
}

pub open spec fn bar_secondary() -> Seq<char> {
    ansi::fg(163, 163, 163)
}

pub open spec fn bar_muted() -> Seq<char> {
    ansi::fg(82, 82, 82)
}

pub open spec fn bar_live() -> Seq<char> {
    ansi::fg(34, 197, 94)
}

/// The address under which a session is shared.
pub open spec fn share_url(slug: Seq<char>) -> Seq<char> {
    "https://remux.sh/"@ + slug
}

/// How many are connected, behind a dot that is lit where anybody is.
pub open spec fn clients_text(clients: nat) -> Seq<char> {
    (if clients >= 1 {
        bar_live()
    } else {
        bar_muted()
    }) + "\u{25cf} "@ + bar_secondary() + text::decimal(clients) + " connected"@
}

/// The left part of the bar: the link to the session, where it is shared, and
/// the clients.
pub open spec fn bar_left(
    url: Option<Seq<char>>,
    slug: Option<Seq<char>>,
    clients: nat,
) -> Seq<char> {
    match (url, slug) {
        (Some(display), Some(s)) => " "@ + bar_primary() + ansi::link(share_url(s), display) + " "@
            + bar_muted() + "\u{2502} "@ + clients_text(clients),
        _ => " "@ + clients_text(clients),
    }
}

/// How many cells the left part takes.
pub open spec fn bar_left_width(
    url: Option<Seq<char>>,
    slug: Option<Seq<char>>,
    clients: nat,
) -> nat {
    match (url, slug) {
        (Some(display), Some(s)) => 16 + display.len() + text::decimal(clients).len(),
        _ => 13 + text::decimal(clients).len(),
    }
}

/// The right part of the bar: the key of the dialog, behind a note that
/// something was copied.
pub open spec fn bar_right(flash_copied: bool) -> Seq<char> {
    (if flash_copied {
        ansi::bold_fg(34, 197, 94) + "Copied! "@ + ansi::sgr(seq![22u64])
    } else {
        Seq::empty()
    }) + bar_primary() + "Ctrl+Q"@ + bar_muted() + ": "@ + bar_secondary() + "share "@
}

/// How many cells the right part takes.
pub open spec fn bar_right_width(flash_copied: bool) -> nat {
    if flash_copied {
        22
    } else {
        14
    }
}

/// The bar as it fills `cols` cells: both parts with a gap between them, or
/// the left one alone where both do not fit.
pub open spec fn bar_body(
    cols: int,
    url: Option<Seq<char>>,
    slug: Option<Seq<char>>,
    clients: nat,
    flash_copied: bool,
) -> Seq<char> {
    let left = bar_left_width(url, slug, clients);
    let right = bar_right_width(flash_copied);
    bar_left(url, slug, clients) + (if left + right <= cols {
        ansi::spaces(cols - left - right) + bar_right(flash_copied)
    } else if left < cols {
        ansi::spaces(cols - left)
    } else {
        Seq::empty()
    })
}

/// The status bar in the last row; the cursor comes back to where it was.
pub open spec fn bar_text(
    cols: u16,
    rows: u16,
    url: Option<Seq<char>>,
    slug: Option<Seq<char>>,
    clients: nat,
    flash_copied: bool,
) -> Seq<char> {
    "\x1b7"@ + ansi::goto(rows as u64, 1) + ansi::bg(38, 38, 38) + bar_primary() + ansi::csi(
        seq![2u64],
        'K',
    ) + bar_body(cols as int, url, slug, clients, flash_copied) + ansi::reset() + "\x1b8"@
}

fn push_clients(out: &mut String, clients: usize)
    ensures
        final(out)@ == old(out)@ + clients_text(clients as nat),
{
    if clients >= 1 {
        ansi::push_fg(out, 34, 197, 94);
    } else {
        ansi::push_fg(out, 82, 82, 82);
    }
    out.append("\u{25cf} ");
    ansi::push_fg(out, 163, 163, 163);
    text::push_decimal(out, clients as u64);
    out.append(" connected");
    assert(out@ =~= old(out)@ + clients_text(clients as nat));
}

fn push_left(out: &mut String, bar_url: Option<&str>, slug: Option<&str>, clients: usize)
    ensures
        final(out)@ == old(out)@ + bar_left(
            text::held_str(bar_url),
            text::held_str(slug),
            clients as nat,
        ),
{
    out.append(" ");
    if let (Some(display), Some(s)) = (bar_url, slug) {
        let mut url = "https://remux.sh/".to_string();
        url.append(s);
        ansi::push_fg(out, 250, 250, 250);
        ansi::push_link(out, url.as_str(), display);
        out.append(" ");
        ansi::push_fg(out, 82, 82, 82);
        out.append("\u{2502} ");
        push_clients(out, clients);
    } else {
        push_clients(out, clients);
    }
    assert(out@ =~= old(out)@ + bar_left(
        text::held_str(bar_url),
        text::held_str(slug),
        clients as nat,
    ));
}

fn push_right(out: &mut String, flash_copied: bool)
    ensures
        final(out)@ == old(out)@ + bar_right(flash_copied),
{
    if flash_copied {
        ansi::push_bold_fg(out, 34, 197, 94);
        out.append("Copied! ");
        ansi::push_csi(out, &[22], 'm');
        assert([22u64]@ =~= seq![22u64]);
    }
    ansi::push_fg(out, 250, 250, 250);
    out.append("Ctrl+Q");
    ansi::push_fg(out, 82, 82, 82);
    out.append(": ");
    ansi::push_fg(out, 163, 163, 163);
    out.append("share ");
    assert(out@ =~= old(out)@ + bar_right(flash_copied));
}

fn left_width(bar_url: Option<&str>, slug: Option<&str>, clients: usize) -> (r: u128)
    ensures
        r == bar_left_width(text::held_str(bar_url), text::held_str(slug), clients as nat),
{
    let mut digits = String::new();
    text::push_decimal(&mut digits, clients as u64);
    assert(digits@ =~= text::decimal(clients as nat));
    let count: u128 = digits.as_str().unicode_len() as u128;
    if let (Some(display), Some(_)) = (bar_url, slug) {
        16 + display.unicode_len() as u128 + count
    } else {
        13 + count
    }
}

/// Draws the status bar.
pub fn draw_bar(
    buf: &mut Vec<u8>,
    cols: u16,
    rows: u16,
    bar_url: Option<&str>,
    slug: Option<&str>,
    clients: usize,
    flash_copied: bool,
)
    ensures
        final(buf)@ == old(buf)@ + encode_utf8(
            bar_text(
                cols,
                rows,
                text::held_str(bar_url),
                text::held_str(slug),
                clients as nat,
                flash_copied,
            ),
        ),
{
    let w: u128 = cols as u128;
    let left: u128 = left_width(bar_url, slug, clients);
    let right: u128 = if flash_copied { 22 } else { 14 };
    let mut out = "\x1b7".to_string();
    ansi::push_goto(&mut out, rows as u64, 1);
    ansi::push_bg(&mut out, 38, 38, 38);
    ansi::push_fg(&mut out, 250, 250, 250);
    ansi::push_csi(&mut out, &[2], 'K');
    assert([2u64]@ =~= seq![2u64]);
    let ghost start = out@;
    push_left(&mut out, bar_url, slug, clients);
    if left <= w && right <= w - left {
        ansi::push_spaces(&mut out, (w - left - right) as usize);
        push_right(&mut out, flash_copied);
    } else if left < w {
        ansi::push_spaces(&mut out, (w - left) as usize);
    }
    assert(out@ =~= start + bar_body(
        cols as int,
        text::held_str(bar_url),
        text::held_str(slug),
        clients as nat,
        flash_copied,
    ));
    ansi::push_reset(&mut out);
    out.append("\x1b8");
    assert(out@ =~= bar_text(
        cols,
        rows,
        text::held_str(bar_url),
        text::held_str(slug),
        clients as nat,
        flash_copied,
    ));
    append_text(buf, out.as_str());
}

// ---- What shows ----

proof fn lemma_visible_color(color: Color, is_fg: bool, rest: Seq<char>)
    ensures
        ansi::visible(color_text(color, is_fg) + rest) == ansi::visible(rest),
{
    let more: u64 = if is_fg { 0 } else { 10 };
    match color {
        Color::Spec { r, g, b } => {
            ansi::lemma_visible_csi(
                seq![(38 + more) as u64, 2u64, r as u64, g as u64, b as u64],
                'm',
                rest,
            );
        },
        Color::Indexed(i) => {
            ansi::lemma_visible_csi(seq![(38 + more) as u64, 5u64, i as u64], 'm', rest);
        },
        Color::Named(name) => {
            ansi::lemma_visible_csi(seq![(named_code(name) + more) as u64], 'm', rest);
        },
    }
}

proof fn lemma_visible_flag(flags: CellFlags, flag: u16, code: u64, rest: Seq<char>)
    ensures
        ansi::visible(flag_text(flags, flag, code) + rest) == ansi::visible(rest),
{
    if flags.has(flag) {
        ansi::lemma_visible_csi(seq![code], 'm', rest);
    } else {
        assert(flag_text(flags, flag, code) + rest =~= rest);
    }
}

proof fn lemma_visible_underline(flags: CellFlags, rest: Seq<char>)
    ensures
        ansi::visible(underline_text(flags) + rest) == ansi::visible(rest),
{
    reveal_strlit("\x1b[4:3m");
    reveal_strlit("\x1b[4:4m");
    reveal_strlit("\x1b[4:5m");
    if flags.has(UNDERLINE) {
        ansi::lemma_visible_csi(seq![4u64], 'm', rest);
    } else if flags.has(DOUBLE_UNDERLINE) {
        ansi::lemma_visible_csi(seq![21u64], 'm', rest);
    } else if flags.has(UNDERCURL) {
        assert("\x1b[4:3m"@ =~= seq![ansi::esc(), '['] + seq!['4', ':', '3'] + seq!['m']);
        ansi::lemma_visible_sequence(seq!['4', ':', '3'], 'm', rest);
    } else if flags.has(DOTTED_UNDERLINE) {
        assert("\x1b[4:4m"@ =~= seq![ansi::esc(), '['] + seq!['4', ':', '4'] + seq!['m']);
        ansi::lemma_visible_sequence(seq!['4', ':', '4'], 'm', rest);
    } else if flags.has(DASHED_UNDERLINE) {
        assert("\x1b[4:5m"@ =~= seq![ansi::esc(), '['] + seq!['4', ':', '5'] + seq!['m']);
        ansi::lemma_visible_sequence(seq!['4', ':', '5'], 'm', rest);
    } else {
        assert(underline_text(flags) + rest =~= rest);
    }
}

proof fn lemma_regroup_seven(
    a: Seq<char>,
    b: Seq<char>,
    c: Seq<char>,
    d: Seq<char>,
    e: Seq<char>,
    f: Seq<char>,
    g: Seq<char>,
    rest: Seq<char>,
)
    ensures
        a + b + c + d + e + f + g + rest == a + (b + (c + (d + (e + (f + (g + rest)))))),
{
    assert(a + b + c + d + e + f + g + rest =~= a + (b + (c + (d + (e + (f + (g + rest)))))));
}

proof fn lemma_visible_flags(flags: CellFlags, rest: Seq<char>)
    ensures
        ansi::visible(flags_text(flags) + rest) == ansi::visible(rest),
{
    let r7 = flag_text(flags, STRIKEOUT, 9) + rest;
    let r6 = flag_text(flags, HIDDEN, 8) + r7;
    let r5 = flag_text(flags, INVERSE, 7) + r6;
    let r4 = underline_text(flags) + r5;
    let r3 = flag_text(flags, ITALIC, 3) + r4;
    let r2 = flag_text(flags, DIM, 2) + r3;
    lemma_visible_flag(flags, STRIKEOUT, 9, rest);
    lemma_visible_flag(flags, HIDDEN, 8, r7);
    lemma_visible_flag(flags, INVERSE, 7, r6);
    lemma_visible_underline(flags, r5);
    lemma_visible_flag(flags, ITALIC, 3, r4);
    lemma_visible_flag(flags, DIM, 2, r3);
    lemma_visible_flag(flags, BOLD, 1, r2);
    lemma_regroup_seven(
        flag_text(flags, BOLD, 1),
        flag_text(flags, DIM, 2),
        flag_text(flags, ITALIC, 3),
        underline_text(flags),
        flag_text(flags, INVERSE, 7),
        flag_text(flags, HIDDEN, 8),
        flag_text(flags, STRIKEOUT, 9),
        rest,
    );
}

proof fn lemma_regroup_five(
    a: Seq<char>,
    b: Seq<char>,
    c: Seq<char>,
    d: Seq<char>,
    e: Seq<char>,
    rest: Seq<char>,
)
    ensures
        a + b + c + d + e + rest == a + (b + (c + (d + (e + rest)))),
{
    assert(a + b + c + d + e + rest =~= a + (b + (c + (d + (e + rest)))));
}

proof fn lemma_visible_pen(pen: Pen, rest: Seq<char>)
    ensures
        ansi::visible(pen_text(pen) + rest) == ansi::visible(rest),
{
    let sel = if pen.selected {
        ansi::sgr(seq![7u64])
    } else {
        Seq::empty()
    };
    let f = if pen.fg != normal_pen().fg {
        color_text(pen.fg, true)
    } else {
        Seq::empty()
    };
    let b = if pen.bg != normal_pen().bg {
        color_text(pen.bg, false)
    } else {
        Seq::empty()
    };
    let r4 = b + rest;
    let r3 = f + r4;
    let r2 = flags_text(pen.flags) + r3;
    let r1 = sel + r2;
    assert(Seq::<char>::empty() + rest =~= rest);
    assert(Seq::<char>::empty() + r4 =~= r4);
    assert(Seq::<char>::empty() + r2 =~= r2);
    lemma_visible_color(pen.bg, false, rest);
    lemma_visible_color(pen.fg, true, r4);
    lemma_visible_flags(pen.flags, r3);
    ansi::lemma_visible_csi(seq![7u64], 'm', r2);
    ansi::lemma_visible_csi(seq![0u64], 'm', r1);
    lemma_regroup_five(ansi::reset(), sel, flags_text(pen.flags), f, b, rest);
}

/// The characters of a line from `left` up to `end`, without spacers.
pub open spec fn line_chars(screen: &Screen, line: int, left: int, end: int) -> Seq<char>
    decreases end - left,
{
    if end <= left {
        Seq::empty()
    } else {
        let before = line_chars(screen, line, left, end - 1);
        let cell = screen.lines@[line]@[end - 1];
        if is_spacer(cell) {
            before
        } else {
            before.push(cell.c)
        }
    }
}

proof fn lemma_visible_cells(screen: &Screen, line: int, left: int, end: int, rest: Seq<char>)
    requires
        forall|i: int| left <= i < end ==> (#[trigger] screen.lines@[line]@[i]).c != ansi::esc(),
    ensures
        ansi::visible(cells_text(screen, line, left, end).0 + rest) == line_chars(
            screen,
            line,
            left,
            end,
        ) + ansi::visible(rest),
    decreases end - left,
{
    if end <= left {
        assert(Seq::<char>::empty() + rest =~= rest);
        assert(Seq::<char>::empty() + ansi::visible(rest) =~= ansi::visible(rest));
    } else {
        let (before, pen) = cells_text(screen, line, left, end - 1);
        let cell = screen.lines@[line]@[end - 1];
        let next = cell_pen(screen, line, end - 1);
        let chars = line_chars(screen, line, left, end - 1);
        let shown = seq![cell.c] + rest;
        if is_spacer(cell) {
            lemma_visible_cells(screen, line, left, end - 1, rest);
        } else {
            assert(cell.c != ansi::esc());
            ansi::lemma_visible_plain(seq![cell.c], rest);
            if next == pen {
                lemma_visible_cells(screen, line, left, end - 1, shown);
                assert(before.push(cell.c) + rest =~= before + shown);
            } else {
                lemma_visible_cells(screen, line, left, end - 1, pen_text(next) + shown);
                lemma_visible_pen(next, shown);
                assert((before + pen_text(next)).push(cell.c) + rest =~= before + (pen_text(next)
                    + shown));
            }
            assert(chars + (seq![cell.c] + ansi::visible(rest)) =~= chars.push(cell.c)
                + ansi::visible(rest));
        }
    }
}

/// Of a drawn line the characters of its cells show, and nothing else: what
/// sets the look and the place leaves no trace in the text.
pub proof fn drawn_line_shows_its_cells(screen: &Screen, line: int, left: int, right: int)
    requires
        forall|i: int| left <= i <= right ==> (#[trigger] screen.lines@[line]@[i]).c != ansi::esc(),
    ensures
        ansi::visible(line_text(screen, line, left, right)) == line_chars(
            screen,
            line,
            left,
            right + 1,
        ),
{
    let drawn = line_text(screen, line, left, right);
    let chars = line_chars(screen, line, left, right + 1);
    lemma_visible_line(screen, line, left, right, Seq::empty());
    assert(drawn + Seq::empty() =~= drawn);
    assert(chars + Seq::empty() =~= chars);
}

proof fn lemma_visible_clients(clients: nat, rest: Seq<char>)
    ensures
        ansi::visible(clients_text(clients) + rest) == "\u{25cf} "@ + text::decimal(clients)
            + " connected"@ + ansi::visible(rest),
{
    reveal_strlit("\u{25cf} ");
    reveal_strlit(" connected");
    text::lemma_decimal_digits(clients);
    let dot = "\u{25cf} "@;
    let tail = text::decimal(clients) + " connected"@;
    let r2 = bar_secondary() + (tail + rest);
    let r1 = dot + r2;
    ansi::lemma_visible_plain(tail, rest);
    ansi::lemma_visible_csi(seq![38u64, 2, 163, 163, 163], 'm', tail + rest);
    ansi::lemma_visible_plain(dot, r2);
    if clients >= 1 {
        ansi::lemma_visible_csi(seq![38u64, 2, 34, 197, 94], 'm', r1);
        assert(clients_text(clients) + rest =~= bar_live() + r1);
    } else {
        ansi::lemma_visible_csi(seq![38u64, 2, 82, 82, 82], 'm', r1);
        assert(clients_text(clients) + rest =~= bar_muted() + r1);
    }
    assert(dot + (tail + ansi::visible(rest)) =~= dot + text::decimal(clients) + " connected"@
        + ansi::visible(rest));
}

proof fn lemma_visible_left(
    url: Option<Seq<char>>,
    slug: Option<Seq<char>>,
    clients: nat,
    rest: Seq<char>,
)
    requires
        url matches Some(u) ==> ansi::is_plain(u),
        slug matches Some(s) ==> ansi::is_osc_body(s),
    ensures
        ansi::visible(bar_left(url, slug, clients) + rest).len() == bar_left_width(
            url,
            slug,
            clients,
        ) + ansi::visible(rest).len(),
{
    reveal_strlit(" ");
    reveal_strlit("\u{25cf} ");
    reveal_strlit("\u{2502} ");
    reveal_strlit(" connected");
    reveal_strlit("https://remux.sh/");
    let r = clients_text(clients) + rest;
    lemma_visible_clients(clients, rest);
    match (url, slug) {
        (Some(display), Some(s)) => {
            let bar = "\u{2502} "@;
            let r4 = bar + r;
            let r3 = bar_muted() + r4;
            let r2 = " "@ + r3;
            let r1 = ansi::link(share_url(s), display) + r2;
            let r0 = bar_primary() + r1;
            ansi::lemma_visible_plain(bar, r);
            ansi::lemma_visible_csi(seq![38u64, 2, 82, 82, 82], 'm', r4);
            ansi::lemma_visible_plain(" "@, r3);
            assert forall|i: int| 0 <= i < share_url(s).len() implies #[trigger] share_url(s)[i]
                != ansi::esc() && share_url(s)[i] != ansi::bel() by {
                if i >= 17 {
                    assert(share_url(s)[i] == s[i - 17]);
                } else {
                    assert(share_url(s)[i] == "https://remux.sh/"@[i]);
                }
            }
            ansi::lemma_visible_link(share_url(s), display, r2);
            ansi::lemma_visible_csi(seq![38u64, 2, 250, 250, 250], 'm', r1);
            ansi::lemma_visible_plain(" "@, r0);
            assert(bar_left(url, slug, clients) + rest =~= " "@ + r0);
        },
        _ => {
            ansi::lemma_visible_plain(" "@, r);
            assert(bar_left(url, slug, clients) + rest =~= " "@ + r);
        },
    }
}

#[verifier::rlimit(50)]
#[verifier::spinoff_prover]
proof fn lemma_visible_right(flash_copied: bool)
    ensures
        ansi::visible(bar_right(flash_copied)).len() == bar_right_width(flash_copied),
{
    reveal_strlit("Copied! ");
    reveal_strlit("Ctrl+Q");
    reveal_strlit(": ");
    reveal_strlit("share ");
    let none = Seq::<char>::empty();
    let r5 = "share "@ + none;
    let r4 = bar_secondary() + r5;
    let r3 = ": "@ + r4;
    let r2 = bar_muted() + r3;
    let r1 = "Ctrl+Q"@ + r2;
    let r0 = bar_primary() + r1;
    ansi::lemma_visible_plain("share "@, none);
    ansi::lemma_visible_csi(seq![38u64, 2, 163, 163, 163], 'm', r5);
    ansi::lemma_visible_plain(": "@, r4);
    ansi::lemma_visible_csi(seq![38u64, 2, 82, 82, 82], 'm', r3);
    ansi::lemma_visible_plain("Ctrl+Q"@, r2);
    ansi::lemma_visible_csi(seq![38u64, 2, 250, 250, 250], 'm', r1);
    if flash_copied {
        let s1 = ansi::sgr(seq![22u64]) + r0;
        let s0 = "Copied! "@ + s1;
        ansi::lemma_visible_csi(seq![22u64], 'm', r0);
        ansi::lemma_visible_plain("Copied! "@, s1);
        ansi::lemma_visible_csi(seq![1u64, 38, 2, 34, 197, 94], 'm', s0);
        assert(bar_right(flash_copied) =~= ansi::bold_fg(34, 197, 94) + s0);
    } else {
        assert(bar_right(flash_copied) =~= r0);
    }
}

/// The bar shows in exactly as many cells as the screen has columns. Only
/// where its left part alone is wider, it takes the width of that part.
pub proof fn bar_fills_its_row(
    cols: int,
    url: Option<Seq<char>>,
    slug: Option<Seq<char>>,
    clients: nat,
    flash_copied: bool,
)
    requires
        cols >= 0,
        url matches Some(u) ==> ansi::is_plain(u),
        slug matches Some(s) ==> ansi::is_osc_body(s),
    ensures
        ansi::visible(bar_body(cols, url, slug, clients, flash_copied)).len() == (if bar_left_width(
            url,
            slug,
            clients,
        ) < cols {
            cols
        } else {
            bar_left_width(url, slug, clients) as int
        }),
{
    let left = bar_left_width(url, slug, clients);
    let right = bar_right_width(flash_copied);
    if left + right <= cols {
        let gap = ansi::spaces(cols - left - right);
        lemma_visible_left(url, slug, clients, gap + bar_right(flash_copied));
        ansi::lemma_visible_plain(gap, bar_right(flash_copied));
        lemma_visible_right(flash_copied);
    } else if left < cols {
        let gap = ansi::spaces(cols - left);
        lemma_visible_left(url, slug, clients, gap);
        ansi::lemma_visible_plain(gap, Seq::empty());
        assert(gap + Seq::empty() =~= gap);
    } else {
        lemma_visible_left(url, slug, clients, Seq::empty());
    }
}

proof fn lemma_visible_line(screen: &Screen, line: int, left: int, right: int, rest: Seq<char>)
    requires
        forall|i: int| left <= i <= right ==> (#[trigger] screen.lines@[line]@[i]).c != ansi::esc(),
    ensures
        ansi::visible(line_text(screen, line, left, right) + rest) == line_chars(
            screen,
            line,
            left,
            right + 1,
        ) + ansi::visible(rest),
{
    let cells = cells_text(screen, line, left, right + 1).0;
    let r3 = ansi::reset() + rest;
    let r2 = cells + r3;
    let r1 = ansi::reset() + r2;
    let place = seq![(line + 1) as u64, (left + 1) as u64];
    ansi::lemma_visible_csi(seq![0u64], 'm', rest);
    lemma_visible_cells(screen, line, left, right + 1, r3);
    ansi::lemma_visible_csi(seq![0u64], 'm', r2);
    ansi::lemma_visible_csi(place, 'H', r1);
    assert(line_text(screen, line, left, right) + rest =~= ansi::csi(place, 'H') + r1);
}

/// What the first `n` lines of the screen show.
pub open spec fn lines_chars(screen: &Screen, n: int) -> Seq<char>
    decreases n,
{
    if n <= 0 {
        Seq::empty()
    } else {
        lines_chars(screen, n - 1) + line_chars(screen, n - 1, 0, screen.columns as int)
    }
}

/// What parts of the screen show.
pub open spec fn parts_chars(screen: &Screen, parts: Seq<LineDamage>) -> Seq<char>
    decreases parts.len(),
{
    if parts.len() == 0 {
        Seq::empty()
    } else {
        let d = parts.last();
        parts_chars(screen, parts.drop_last()) + line_chars(
            screen,
            d.line as int,
            d.left as int,
            d.right + 1,
        )
    }
}

/// Whether no cell of the screen holds an ESC.
pub open spec fn holds_no_esc(screen: &Screen) -> bool {
    forall|line: int, i: int|
        0 <= line < screen.lines@.len() && 0 <= i < screen.columns ==> (
        #[trigger] screen.lines@[line]@[i]).c != ansi::esc()
}

proof fn lemma_visible_lines(screen: &Screen, n: int, rest: Seq<char>)
    requires
        screen.wf(),
        holds_no_esc(screen),
        0 <= n <= screen.lines@.len(),
    ensures
        ansi::visible(lines_text(screen, n) + rest) == lines_chars(screen, n) + ansi::visible(rest),
    decreases n,
{
    if n == 0 {
        assert(lines_text(screen, n) + rest =~= rest);
        assert(lines_chars(screen, n) + ansi::visible(rest) =~= ansi::visible(rest));
    } else {
        let a = lines_text(screen, n - 1);
        let b = line_text(screen, n - 1, 0, screen.columns - 1);
        lemma_visible_line(screen, n - 1, 0, screen.columns - 1, rest);
        lemma_visible_lines(screen, n - 1, b + rest);
        assert(a + b + rest =~= a + (b + rest));
        assert(ansi::visible(lines_text(screen, n) + rest) =~= lines_chars(screen, n)
            + ansi::visible(rest));
    }
}

proof fn lemma_visible_parts(screen: &Screen, parts: Seq<LineDamage>, rest: Seq<char>)
    requires
        screen.wf(),
        holds_no_esc(screen),
        forall|i: int| 0 <= i < parts.len() ==> on_screen(screen, #[trigger] parts[i]),
    ensures
        ansi::visible(parts_text(screen, parts) + rest) == parts_chars(screen, parts)
            + ansi::visible(rest),
    decreases parts.len(),
{
    if parts.len() == 0 {
        assert(parts_text(screen, parts) + rest =~= rest);
        assert(parts_chars(screen, parts) + ansi::visible(rest) =~= ansi::visible(rest));
    } else {
        let d = parts.last();
        let front = parts.drop_last();
        let a = parts_text(screen, front);
        let b = line_text(screen, d.line as int, d.left as int, d.right as int);
        assert(on_screen(screen, parts[parts.len() - 1]));
        assert forall|i: int| 0 <= i < front.len() implies on_screen(
            screen,
            #[trigger] front[i],
        ) by {
            assert(front[i] == parts[i]);
        }
        lemma_visible_line(screen, d.line as int, d.left as int, d.right as int, rest);
        lemma_visible_parts(screen, front, b + rest);
        assert(a + b + rest =~= a + (b + rest));
        assert(ansi::visible(parts_text(screen, parts) + rest) =~= parts_chars(screen, parts)
            + ansi::visible(rest));
    }
}

/// What is drawn of the screen shows before anything behind it: every line of it, or every
/// damaged part.
pub proof fn drawn_damage_shows(screen: &Screen, damage: Damage, rest: Seq<char>)
    requires
        screen.wf(),
        holds_no_esc(screen),
        damage_on_screen(screen, damage),
    ensures
        ansi::visible(damage_text(screen, damage) + rest) == (match damage {
            Damage::Full => lines_chars(screen, screen.lines@.len() as int),
            Damage::Partial(parts) => parts_chars(screen, parts@),
        }) + ansi::visible(rest),
{
    match damage {
        Damage::Full => {
            let n = screen.lines@.len() as int;
            let r2 = lines_text(screen, n) + rest;
            let r1 = ansi::csi(seq![2u64], 'J') + r2;
            lemma_visible_lines(screen, n, rest);
            ansi::lemma_visible_csi(seq![2u64], 'J', r2);
            ansi::lemma_visible_csi(Seq::empty(), 'H', r1);
            assert(full_text(screen) + rest =~= ansi::csi(Seq::empty(), 'H') + r1);
        },
        Damage::Partial(parts) => {
            lemma_visible_parts(screen, parts@, rest);
        },
    }
}

} // verus!
