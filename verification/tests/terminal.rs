use alacritty_terminal::index::{Column, Line, Point};
use alacritty_terminal::selection::SelectionRange;
use alacritty_terminal::term::cell::Flags;
use alacritty_terminal::term::TermMode;

use remux::ansi::visible_len;
use remux::base64::base64_encode;
use remux::debug::{format_bytes, format_mode};
use remux::render::{
    draw_bar, position_cursor, render_damage, render_full, render_line, write_color, write_flags,
};
use remux::sync::{
    sync_cursor_style, sync_mode, sync_modes, CursorShape, CursorStyle, RawModeGuard,
};
use remux::terminal::{
    grid_line, Cell, CellFlags, Color, Damage, LineDamage, Modes, NamedColor, Screen,
    SelectionSpan, TermSize, ALTERNATE_SCROLL, ALT_SCREEN, APP_CURSOR, BOLD, BRACKETED_PASTE,
    DASHED_UNDERLINE, DIM, DOTTED_UNDERLINE, DOUBLE_UNDERLINE, FOCUS_IN_OUT, HIDDEN, INVERSE,
    ITALIC, KITTY_KEYBOARD_PROTOCOL, LEADING_WIDE_CHAR_SPACER, MOUSE_DRAG, MOUSE_MODE,
    MOUSE_MOTION, MOUSE_REPORT_CLICK, SGR_MOUSE, SHOW_CURSOR, STRIKEOUT, UNDERCURL, UNDERLINE,
    UTF8_MOUSE, WIDE_CHAR, WIDE_CHAR_SPACER, WRAPLINE,
};

fn text(f: impl Fn(&mut Vec<u8>)) -> String {
    let mut buf = Vec::new();
    f(&mut buf);
    String::from_utf8(buf).unwrap()
}

#[test]
fn modes_have_the_bits_of_the_terminal() {
    for (bits, mode) in [
        (SHOW_CURSOR, TermMode::SHOW_CURSOR),
        (APP_CURSOR, TermMode::APP_CURSOR),
        (MOUSE_REPORT_CLICK, TermMode::MOUSE_REPORT_CLICK),
        (BRACKETED_PASTE, TermMode::BRACKETED_PASTE),
        (SGR_MOUSE, TermMode::SGR_MOUSE),
        (MOUSE_MOTION, TermMode::MOUSE_MOTION),
        (FOCUS_IN_OUT, TermMode::FOCUS_IN_OUT),
        (ALT_SCREEN, TermMode::ALT_SCREEN),
        (MOUSE_DRAG, TermMode::MOUSE_DRAG),
        (UTF8_MOUSE, TermMode::UTF8_MOUSE),
        (ALTERNATE_SCROLL, TermMode::ALTERNATE_SCROLL),
        (MOUSE_MODE, TermMode::MOUSE_MODE),
        (KITTY_KEYBOARD_PROTOCOL, TermMode::KITTY_KEYBOARD_PROTOCOL),
    ] {
        assert_eq!(bits, mode.bits());
    }
}

#[test]
fn cell_flags_have_the_bits_of_the_terminal() {
    for (bits, flags) in [
        (INVERSE, Flags::INVERSE),
        (BOLD, Flags::BOLD),
        (ITALIC, Flags::ITALIC),
        (UNDERLINE, Flags::UNDERLINE),
        (WRAPLINE, Flags::WRAPLINE),
        (WIDE_CHAR, Flags::WIDE_CHAR),
        (WIDE_CHAR_SPACER, Flags::WIDE_CHAR_SPACER),
        (DIM, Flags::DIM),
        (HIDDEN, Flags::HIDDEN),
        (STRIKEOUT, Flags::STRIKEOUT),
        (LEADING_WIDE_CHAR_SPACER, Flags::LEADING_WIDE_CHAR_SPACER),
        (DOUBLE_UNDERLINE, Flags::DOUBLE_UNDERLINE),
        (UNDERCURL, Flags::UNDERCURL),
        (DOTTED_UNDERLINE, Flags::DOTTED_UNDERLINE),
        (DASHED_UNDERLINE, Flags::DASHED_UNDERLINE),
    ] {
        assert_eq!(bits, flags.bits());
    }
}

#[test]
fn modes_are_tested_bit_by_bit() {
    let m = Modes { bits: SHOW_CURSOR | MOUSE_DRAG };
    assert!(m.contains(SHOW_CURSOR));
    assert!(!m.contains(APP_CURSOR));
    assert!(!m.contains(MOUSE_MODE));
    assert!(m.intersects(MOUSE_MODE));
    assert!(m.wants_mouse());
    assert!(!Modes { bits: SHOW_CURSOR | SGR_MOUSE }.wants_mouse());
    let f = CellFlags { bits: BOLD | WRAPLINE | WIDE_CHAR };
    assert!(f.contains(BOLD));
    assert!(!f.contains(ITALIC));
    assert_eq!(f.shown(), CellFlags { bits: BOLD });
}

#[test]
fn sizes_and_lines() {
    let s = TermSize::new(24, 80);
    assert_eq!((s.lines, s.cols), (24, 80));
    assert_eq!(grid_line(5, 0), 5);
    assert_eq!(grid_line(2, 10), -8);
}

fn cell(c: char) -> Cell {
    Cell {
        c,
        fg: Color::Named(NamedColor::Foreground),
        bg: Color::Named(NamedColor::Background),
        flags: CellFlags { bits: 0 },
    }
}

fn screen(lines: &[&str]) -> Screen {
    Screen {
        columns: lines[0].chars().count(),
        lines: lines.iter().map(|l| l.chars().map(cell).collect()).collect(),
        display_offset: 0,
        selection: None,
        cursor_line: 0,
        cursor_column: 0,
    }
}

#[test]
fn colors_are_written() {
    let fg = |c: Color| text(|b| write_color(b, c, true));
    let bg = |c: Color| text(|b| write_color(b, c, false));
    assert_eq!(fg(Color::Spec { r: 1, g: 20, b: 255 }), "\x1b[38;2;1;20;255m");
    assert_eq!(bg(Color::Spec { r: 1, g: 20, b: 255 }), "\x1b[48;2;1;20;255m");
    assert_eq!(fg(Color::Indexed(200)), "\x1b[38;5;200m");
    assert_eq!(bg(Color::Indexed(0)), "\x1b[48;5;0m");
    assert_eq!(fg(Color::Named(NamedColor::Red)), "\x1b[31m");
    assert_eq!(bg(Color::Named(NamedColor::DimCyan)), "\x1b[46m");
    assert_eq!(fg(Color::Named(NamedColor::BrightWhite)), "\x1b[97m");
    assert_eq!(bg(Color::Named(NamedColor::BrightBlack)), "\x1b[100m");
    assert_eq!(fg(Color::Named(NamedColor::Foreground)), "\x1b[39m");
    assert_eq!(bg(Color::Named(NamedColor::Cursor)), "\x1b[49m");
}

#[test]
fn attributes_are_written_in_order() {
    let f = |bits: u16| text(|b| write_flags(b, CellFlags { bits }));
    assert_eq!(f(0), "");
    assert_eq!(
        f(BOLD | DIM | ITALIC | UNDERLINE | INVERSE | HIDDEN | STRIKEOUT),
        "\x1b[1m\x1b[2m\x1b[3m\x1b[4m\x1b[7m\x1b[8m\x1b[9m"
    );
    assert_eq!(f(DOUBLE_UNDERLINE), "\x1b[21m");
    assert_eq!(f(UNDERCURL), "\x1b[4:3m");
    assert_eq!(f(DOTTED_UNDERLINE), "\x1b[4:4m");
    assert_eq!(f(DASHED_UNDERLINE), "\x1b[4:5m");
    assert_eq!(f(UNDERLINE | UNDERCURL), "\x1b[4m");
}

#[test]
fn lines_are_drawn_with_as_few_changes_as_needed() {
    let mut s = screen(&["abcd", "wxyz"]);
    assert_eq!(text(|b| render_line(b, &s, 1, 0, 3)), "\x1b[2;1H\x1b[0mwxyz\x1b[0m");
    s.lines[0][1].flags.bits = BOLD;
    s.lines[0][2].flags.bits = BOLD | WRAPLINE;
    s.lines[0][2].fg = Color::Indexed(3);
    assert_eq!(
        text(|b| render_line(b, &s, 0, 0, 3)),
        "\x1b[1;1H\x1b[0ma\x1b[0m\x1b[1mb\x1b[0m\x1b[1m\x1b[38;5;3mc\x1b[0md\x1b[0m"
    );
    assert_eq!(
        text(|b| render_line(b, &s, 0, 2, 2)),
        "\x1b[1;3H\x1b[0m\x1b[0m\x1b[1m\x1b[38;5;3mc\x1b[0m"
    );
}

#[test]
fn wide_characters_are_drawn_once() {
    let mut s = screen(&["\u{4f60} x"]);
    s.lines[0][0].flags.bits = WIDE_CHAR;
    s.lines[0][1].flags.bits = WIDE_CHAR_SPACER;
    assert_eq!(text(|b| render_line(b, &s, 0, 0, 2)), "\x1b[1;1H\x1b[0m\u{4f60}x\x1b[0m");
}

#[test]
fn selected_cells_are_inverted() {
    let mut s = screen(&["abcd", "efgh"]);
    s.selection = Some(SelectionSpan {
        start_line: 0,
        start_column: 2,
        end_line: 1,
        end_column: 1,
        is_block: false,
    });
    assert_eq!(
        text(|b| render_line(b, &s, 0, 0, 3)),
        "\x1b[1;1H\x1b[0mab\x1b[0m\x1b[7mcd\x1b[0m"
    );
    assert_eq!(
        text(|b| render_line(b, &s, 1, 0, 3)),
        "\x1b[2;1H\x1b[0m\x1b[0m\x1b[7mef\x1b[0mgh\x1b[0m"
    );
    // Scrolled back by a line, the selection moves down with the text.
    s.display_offset = 1;
    assert_eq!(text(|b| render_line(b, &s, 0, 0, 3)), "\x1b[1;1H\x1b[0mabcd\x1b[0m");
    assert_eq!(
        text(|b| render_line(b, &s, 1, 0, 3)),
        "\x1b[2;1H\x1b[0mef\x1b[0m\x1b[7mgh\x1b[0m"
    );
}

#[test]
fn selections_select_what_the_terminal_says() {
    for is_block in [false, true] {
        let range = SelectionRange {
            start: Point::new(Line(0), Column(1)),
            end: Point::new(Line(2), Column(2)),
            is_block,
        };
        for line in 0..4 {
            for col in 0..4 {
                let mut s = screen(&["....", "....", "....", "...."]);
                s.selection = Some(SelectionSpan {
                    start_line: 0,
                    start_column: 1,
                    end_line: 2,
                    end_column: 2,
                    is_block,
                });
                let drawn = text(|b| render_line(b, &s, line, col, col));
                let inside = range.contains(Point::new(Line(line as i32), Column(col)));
                assert_eq!(drawn.contains("\x1b[7m"), inside, "{} {}", line, col);
            }
        }
    }
}

#[test]
fn the_screen_is_drawn_whole_or_in_part() {
    let s = screen(&["ab", "cd"]);
    let full = "\x1b[H\x1b[2J\x1b[1;1H\x1b[0mab\x1b[0m\x1b[2;1H\x1b[0mcd\x1b[0m";
    assert_eq!(text(|b| render_full(b, &s)), full);
    assert_eq!(text(|b| render_damage(b, &s, &Damage::Full)), full);
    let parts = Damage::Partial(vec![
        LineDamage { line: 1, left: 1, right: 1 },
        LineDamage { line: 0, left: 0, right: 1 },
    ]);
    assert_eq!(
        text(|b| render_damage(b, &s, &parts)),
        "\x1b[2;2H\x1b[0md\x1b[0m\x1b[1;1H\x1b[0mab\x1b[0m"
    );
    assert_eq!(text(|b| render_damage(b, &s, &Damage::Partial(Vec::new()))), "");
}

#[test]
fn the_cursor_is_placed() {
    let mut s = screen(&["ab", "cd"]);
    s.cursor_line = 1;
    s.cursor_column = 1;
    assert_eq!(text(|b| position_cursor(b, &s)), "\x1b[2;2H");
    s.cursor_line = -3;
    assert_eq!(text(|b| position_cursor(b, &s)), "\x1b[-2;2H");
}

#[test]
fn drawn_lines_show_their_cells() {
    let mut s = screen(&["hello"]);
    s.lines[0][2].fg = Color::Spec { r: 9, g: 9, b: 9 };
    s.lines[0][3].flags.bits = UNDERCURL;
    assert_eq!(visible_len(&text(|b| render_line(b, &s, 0, 0, 4))), 5);
}

#[test]
fn the_bar_with_an_address() {
    let bar = text(|b| draw_bar(b, 60, 24, Some("remux.sh/abc"), Some("abc"), 2, false));
    assert_eq!(
        bar,
        format!(
            "\x1b7\x1b[24;1H\x1b[48;2;38;38;38m\x1b[38;2;250;250;250m\x1b[2K \
             \x1b[38;2;250;250;250m\x1b]8;;https://remux.sh/abc\x07remux.sh/abc\x1b]8;;\x07 \
             \x1b[38;2;82;82;82m\u{2502} \x1b[38;2;34;197;94m\u{25cf} \x1b[38;2;163;163;163m2 connected\
             {}\x1b[38;2;250;250;250mCtrl+Q\x1b[38;2;82;82;82m: \x1b[38;2;163;163;163mshare \x1b[0m\x1b8",
            " ".repeat(60 - 29 - 14)
        )
    );
}

#[test]
fn the_bar_without_an_address() {
    let bar = text(|b| draw_bar(b, 40, 5, None, Some("abc"), 0, true));
    assert_eq!(
        bar,
        format!(
            "\x1b7\x1b[5;1H\x1b[48;2;38;38;38m\x1b[38;2;250;250;250m\x1b[2K \
             \x1b[38;2;82;82;82m\u{25cf} \x1b[38;2;163;163;163m0 connected{}\
             \x1b[1;38;2;34;197;94mCopied! \x1b[22m\x1b[38;2;250;250;250mCtrl+Q\x1b[38;2;82;82;82m: \
             \x1b[38;2;163;163;163mshare \x1b[0m\x1b8",
            " ".repeat(40 - 14 - 22)
        )
    );
}

#[test]
fn the_bar_fills_its_row() {
    for cols in [29u16, 30, 36, 37, 80] {
        let bar = text(|b| draw_bar(b, cols, 9, Some("h.de/x"), Some("x"), 12, false));
        // Two sequences of two characters save and restore the cursor.
        assert_eq!(visible_len(&bar), cols as usize + 2);
    }
    let narrow = text(|b| draw_bar(b, 5, 9, None, None, 7, false));
    assert!(!narrow.contains("Ctrl+Q"));
}

#[test]
fn base64_has_known_values() {
    for (plain, coded) in [
        ("", ""),
        ("f", "Zg=="),
        ("fo", "Zm8="),
        ("foo", "Zm9v"),
        ("foob", "Zm9vYg=="),
        ("fooba", "Zm9vYmE="),
        ("foobar", "Zm9vYmFy"),
    ] {
        assert_eq!(base64_encode(plain.as_bytes()), coded);
    }
    assert_eq!(base64_encode(&[0xfb, 0xff, 0xfe, 0x00]), "+//+AA==");
}

#[test]
fn base64_can_be_undone() {
    let alphabet = "ABCDEFGHIJKLMNOPQRSTUVWXYZabcdefghijklmnopqrstuvwxyz0123456789+/";
    let data: Vec<u8> = (0..=255u8).chain(7..60).collect();
    for n in 0..data.len() {
        let coded = base64_encode(&data[..n]);
        assert_eq!(coded.len(), (n + 2) / 3 * 4);
        let mut bits: u32 = 0;
        let mut count = 0;
        let mut plain = Vec::new();
        for c in coded.chars().filter(|c| *c != '=') {
            bits = bits << 6 | alphabet.find(c).unwrap() as u32;
            count += 6;
            if count >= 8 {
                count -= 8;
                plain.push((bits >> count) as u8);
                bits &= (1 << count) - 1;
            }
        }
        assert_eq!(plain, &data[..n]);
    }
}

#[test]
fn control_sequences_do_not_show() {
    assert_eq!(visible_len(""), 0);
    assert_eq!(visible_len("abc"), 3);
    assert_eq!(visible_len("\x1b[1;38;2;1;2;3mab\x1b[0m"), 2);
    assert_eq!(visible_len("\x1b]8;;http://x\x07link\x1b]8;;\x07"), 4);
    assert_eq!(visible_len("\x1b]0;t\x1b\\ab"), 2);
    assert_eq!(visible_len("\x1b]0;t\x1bab"), 2);
    assert_eq!(visible_len("\x1bXY"), 2);
    assert_eq!(visible_len("\x1b[12"), 0);
    assert_eq!(visible_len("\u{4f60}\u{597d}"), 2);
}

#[test]
fn modes_read_well_in_the_log() {
    assert_eq!(format_mode(Modes { bits: 0 }), "");
    assert_eq!(format_mode(Modes { bits: SHOW_CURSOR }), "SHOW_CURSOR");
    assert_eq!(
        format_mode(Modes { bits: ALTERNATE_SCROLL | UTF8_MOUSE | SGR_MOUSE | 0x40000 }),
        "SGR_MOUSE | UTF8_MOUSE | ALT_SCROLL | KITTY_KB"
    );
    assert_eq!(
        format_mode(Modes { bits: TermMode::all().bits() }),
        "SHOW_CURSOR | APP_CURSOR | MOUSE_CLICK | MOUSE_DRAG | MOUSE_MOTION | SGR_MOUSE | UTF8_MOUSE \
         | BRACKETED_PASTE | FOCUS_IN_OUT | ALT_SCREEN | ALT_SCROLL | KITTY_KB"
    );
}

#[test]
fn bytes_read_well_in_the_log() {
    assert_eq!(format_bytes(b"a~ \x1b[A\x00\x7f\xff\x0a"), "a~ ESC [A\\x00 \\x7f \\xff \\x0a ");
}

#[test]
fn changed_modes_are_told_in_order() {
    let none = Modes { bits: 0 };
    let all = Modes { bits: TermMode::all().bits() };
    assert_eq!(
        text(|b| sync_modes(b, none, all)),
        "\x1b[?25h\x1b[?1h\x1b[?1000h\x1b[?1002h\x1b[?1003h\x1b[?1005h\x1b[?1006h\x1b[?1004h\x1b[?2004h\x1b[?1007h"
    );
    assert_eq!(
        text(|b| sync_modes(b, Modes { bits: SHOW_CURSOR | SGR_MOUSE }, Modes { bits: SGR_MOUSE | BRACKETED_PASTE })),
        "\x1b[?25l\x1b[?2004h"
    );
    assert_eq!(text(|b| sync_modes(b, all, all)), "");
    assert_eq!(text(|b| sync_mode(b, none, all, APP_CURSOR, 1)), "\x1b[?1h");
    assert_eq!(text(|b| sync_mode(b, all, none, FOCUS_IN_OUT, 1004)), "\x1b[?1004l");
    assert_eq!(text(|b| sync_mode(b, none, none, APP_CURSOR, 1)), "");
}

#[test]
fn the_cursor_looks_the_same_outside() {
    let style = |shape: CursorShape, blinking: bool| CursorStyle { shape, blinking };
    let old = style(CursorShape::Hidden, true);
    for (s, t) in [
        (style(CursorShape::Block, true), "\x1b[1 q"),
        (style(CursorShape::Block, false), "\x1b[2 q"),
        (style(CursorShape::Underline, true), "\x1b[3 q"),
        (style(CursorShape::Underline, false), "\x1b[4 q"),
        (style(CursorShape::Beam, true), "\x1b[5 q"),
        (style(CursorShape::Beam, false), "\x1b[6 q"),
        (style(CursorShape::HollowBlock, false), "\x1b[0 q"),
        (style(CursorShape::Hidden, false), "\x1b[0 q"),
        (style(CursorShape::Hidden, true), ""),
    ] {
        assert_eq!(text(|b| sync_cursor_style(b, old, s)), t);
    }
}

#[test]
fn the_outer_screen_is_taken_and_given_back() {
    assert_eq!(RawModeGuard::enter(), b"\x1b[?1049h\x1b[H\x1b[2J\x1b[?1002h\x1b[?1006h");
    assert_eq!(RawModeGuard::leave(), b"\x1b[?1002l\x1b[?1006l\x1b[?1049l\x1b[?25h");
}
