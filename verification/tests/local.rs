use remux::input::StdinEvent;
use remux::local::{
    extract_osc7, pty_rows, screen_bytes, send_event, share_address, Action, Clicks, Clipboard,
    Local, LocalEvent, Reaction, SelectionKind, TermEvent, ViewState,
};
use remux::render::draw_bar;
use remux::sync::{CursorShape, CursorStyle};
use remux::terminal::{
    Cell, CellFlags, Color, Damage, LineDamage, Modes, NamedColor, Screen, MOUSE_DRAG, SHOW_CURSOR,
};

const MS: u64 = 1_000_000;

fn block() -> CursorStyle {
    CursorStyle { shape: CursorShape::Block, blinking: false }
}

fn local(slug: Option<&str>) -> Local {
    Local::new(
        80,
        24,
        slug.map(|s| format!("remux.sh/{}", s)),
        slug.map(|s| s.to_string()),
        true,
        Modes { bits: SHOW_CURSOR },
        block(),
        0,
    )
}

fn calm() -> ViewState {
    ViewState { display_offset: 0, selecting: false, selected: None }
}

/// A short form of the actions, for comparison.
fn show(actions: Vec<Action>) -> Vec<String> {
    actions
        .into_iter()
        .map(|a| match a {
            Action::Write(b) => format!("write {}", String::from_utf8(b).unwrap()),
            Action::Flush => "flush".to_string(),
            Action::DrawScreen => "screen".to_string(),
            Action::DrawBar(flash) => format!("bar {}", flash),
            Action::Sleep(ms) => format!("sleep {}", ms),
            Action::ClearSelection => "clear".to_string(),
            Action::Select { kind, line, column } => format!("select {:?} {} {}", kind, line, column),
            Action::ExtendSelection { line, column } => format!("extend {} {}", line, column),
            Action::Scroll(n) => format!("scroll {}", n),
            Action::ScrollToBottom => "bottom".to_string(),
            Action::Resize(s) => format!("resize {} {}", s.cols, s.lines),
            Action::Input(b) => format!("input {}", String::from_utf8(b).unwrap()),
            Action::Quit => "quit".to_string(),
        })
        .collect()
}

#[test]
fn reports_of_the_terminal_are_passed_on() {
    let screen = |r: Reaction| match r {
        Reaction::ToScreen(t) => t,
        _ => panic!("not for the screen"),
    };
    assert!(matches!(send_event(TermEvent::PtyWrite("x".to_string())), Reaction::ToShell(t) if t == "x"));
    assert_eq!(screen(send_event(TermEvent::Title("vim".to_string()))), "\x1b]2;vim\x07");
    assert_eq!(screen(send_event(TermEvent::ResetTitle)), "\x1b]2;\x07");
    assert_eq!(
        screen(send_event(TermEvent::ClipboardStore(Clipboard::Clipboard, "foo".to_string()))),
        "\x1b]52;c;Zm9v\x07"
    );
    assert_eq!(
        screen(send_event(TermEvent::ClipboardStore(Clipboard::Selection, "f".to_string()))),
        "\x1b]52;p;Zg==\x07"
    );
    assert!(matches!(send_event(TermEvent::Other), Reaction::Nothing));
}

#[test]
fn the_working_directory_is_passed_on() {
    assert_eq!(extract_osc7(b"plain \x1b]0;title\x07"), None);
    assert_eq!(extract_osc7(b""), None);
    assert_eq!(
        extract_osc7(b"a\x1b]7;file://h/tmp\x07b\x1b]7;file://h/x\x1b\\c").unwrap(),
        b"\x1b]7;file://h/tmp\x07\x1b]7;file://h/x\x1b\\"
    );
    assert_eq!(extract_osc7(b"x\x1b]7;cut").unwrap(), b"\x1b]7;cut");
    assert_eq!(extract_osc7(b"x\x1b]7;").unwrap(), b"\x1b]7;");
    assert_eq!(extract_osc7(b"x\x1b]7"), None);
    assert_eq!(extract_osc7(b"x\x1b]"), None);
}

#[test]
fn other_sequences_are_not_the_working_directory() {
    assert_eq!(extract_osc7(b"\x1b]777;notify;a;b\x07"), None);
    assert_eq!(extract_osc7(b"\x1b]7\x07"), None);
    assert_eq!(
        extract_osc7(b"\x1b]777;n\x07\x1b]7;file://h/\x07\x1b]70;x\x07").unwrap(),
        b"\x1b]7;file://h/\x07"
    );
}

#[test]
fn the_bar_has_the_last_row() {
    assert_eq!(pty_rows(24), 23);
    assert_eq!(pty_rows(2), 1);
    assert_eq!(pty_rows(1), 1);
    assert_eq!(pty_rows(0), 1);
    assert_eq!(share_address("abc"), "https://remux.sh/abc");
}

#[test]
fn there_is_a_dialog_where_there_is_an_address() {
    let l = local(Some("abc"));
    let d = l.dialog.as_ref().unwrap();
    assert_eq!(d.url, "https://remux.sh/abc");
    assert_eq!(d.display_url, "remux.sh/abc");
    assert!(!d.qr_lines.is_empty());
    assert!(local(None).dialog.is_none());
    assert!(!l.modal_open);
    assert_eq!(l.clicks, Clicks { time: 0, col: 0, row: 0, count: 0 });
}

#[test]
fn typing_goes_to_the_shell() {
    let mut l = local(None);
    let data = || StdinEvent::Data(b"ls".to_vec());
    assert_eq!(show(l.handle_stdin(data(), &calm(), 0)), ["clear", "input ls"]);
    let scrolled = ViewState { display_offset: 5, selecting: false, selected: None };
    assert_eq!(
        show(l.handle_stdin(data(), &scrolled, 0)),
        ["clear", "bottom", "screen", "bar false", "input ls"]
    );
    let selecting = ViewState { display_offset: 0, selecting: true, selected: None };
    assert_eq!(
        show(l.handle_stdin(data(), &selecting, 0)),
        ["clear", "screen", "bar false", "input ls"]
    );
    assert_eq!(show(l.handle_stdin(StdinEvent::Mouse(b"m".to_vec()), &scrolled, 0)), ["input m"]);
    assert_eq!(show(l.handle_stdin(StdinEvent::Focus(b"f".to_vec()), &scrolled, 0)), ["input f"]);
}

#[test]
fn the_wheel_scrolls() {
    let mut l = local(None);
    assert_eq!(
        show(l.handle_stdin(StdinEvent::ScrollUp(3), &calm(), 0)),
        ["scroll 3", "screen", "bar false"]
    );
    assert_eq!(
        show(l.handle_stdin(StdinEvent::ScrollDown(3), &calm(), 0)),
        ["scroll -3", "screen", "bar false"]
    );
    assert!(l.can_handle(&StdinEvent::ScrollDown(3)));
    assert!(!l.can_handle(&StdinEvent::ScrollDown(i32::MIN)));
}

#[test]
fn clicks_select_places_words_and_lines() {
    let mut l = local(None);
    let press = || StdinEvent::SelectStart { col: 4, row: 6, alt: false };
    let at = |l: &mut Local, t: u64| show(l.handle_stdin(press(), &calm(), t));
    assert_eq!(at(&mut l, 1000 * MS), ["clear", "select Simple 6 4", "screen", "bar false"]);
    assert_eq!(
        at(&mut l, 1299 * MS),
        ["clear", "select Semantic 6 4", "extend 6 4", "screen", "bar false"]
    );
    assert_eq!(
        at(&mut l, 1598 * MS),
        ["clear", "select Lines 6 4", "extend 6 4", "screen", "bar false"]
    );
    assert_eq!(at(&mut l, 1700 * MS), ["clear", "select Simple 6 4", "screen", "bar false"]);
    // Too late, or elsewhere.
    assert_eq!(at(&mut l, 2000 * MS), ["clear", "select Simple 6 4", "screen", "bar false"]);
    assert_eq!(l.clicks.count, 1);
    let elsewhere = StdinEvent::SelectStart { col: 5, row: 6, alt: false };
    l.handle_stdin(elsewhere, &calm(), 2001 * MS);
    assert_eq!(l.clicks, Clicks { time: 2001 * MS, col: 5, row: 6, count: 1 });
    let alt = StdinEvent::SelectStart { col: 5, row: 6, alt: true };
    let scrolled = ViewState { display_offset: 10, selecting: false, selected: None };
    assert_eq!(
        show(l.handle_stdin(alt, &scrolled, 2002 * MS)),
        ["clear", "select Block -4 5", "extend -4 5", "screen", "bar false"]
    );
    assert_eq!(SelectionKind::Block, SelectionKind::Block);
}

#[test]
fn selections_follow_the_mouse_and_are_copied() {
    let mut l = local(None);
    assert!(show(l.handle_stdin(StdinEvent::SelectUpdate(1, 2), &calm(), 0)).is_empty());
    let view = ViewState { display_offset: 1, selecting: true, selected: Some("foo".to_string()) };
    assert_eq!(
        show(l.handle_stdin(StdinEvent::SelectUpdate(1, 2), &view, 0)),
        ["extend 1 1", "screen", "bar false"]
    );
    assert_eq!(
        show(l.handle_stdin(StdinEvent::SelectEnd, &view, 0)),
        ["write \x1b]52;c;Zm9v\x07", "clear", "screen", "bar false", "flush"]
    );
    l.clicks.count = 2;
    assert_eq!(
        show(l.handle_stdin(StdinEvent::SelectEnd, &view, 0)),
        ["write \x1b]52;c;Zm9v\x07", "flush"]
    );
    let empty = ViewState { display_offset: 1, selecting: true, selected: Some(String::new()) };
    assert_eq!(show(l.handle_stdin(StdinEvent::SelectEnd, &empty, 0)), ["flush"]);
}

#[test]
fn ctrl_q_opens_and_closes_the_dialog() {
    let mut l = local(Some("abc"));
    let frames: Vec<String> = (0..3u8)
        .map(|f| {
            let d = l.dialog.as_ref().unwrap();
            format!("write {}", String::from_utf8(d.render_frame(80, 24, f, true)).unwrap())
        })
        .collect();
    assert!(l.can_handle(&StdinEvent::ModalToggle));
    let opened = show(l.handle_stdin(StdinEvent::ModalToggle, &calm(), 0));
    assert!(l.modal_open);
    assert_eq!(opened.len(), 9);
    assert_eq!(opened[0], "write \x1b[?25l");
    assert_eq!((&opened[1], &opened[4], &opened[7]), (&frames[0], &frames[1], &frames[2]));
    assert_eq!([&opened[2][..], &opened[3], &opened[5], &opened[6], &opened[8]], [
        "flush", "sleep 33", "flush", "sleep 33", "flush"
    ]);
    let closing = ["write \x1b[1;23r\x1b[H\x1b[2J", "screen", "write \x1b[?25h", "bar false"];
    assert_eq!(show(l.handle_stdin(StdinEvent::ModalToggle, &calm(), 0)), closing);
    assert!(!l.modal_open);
    assert!(show(l.handle_stdin(StdinEvent::ModalDismiss, &calm(), 0)).is_empty());
    l.handle_stdin(StdinEvent::ModalToggle, &calm(), 0);
    assert_eq!(show(l.handle_stdin(StdinEvent::ModalDismiss, &calm(), 0)), closing);
    assert!(!l.modal_open);

    let mut bare = local(None);
    assert!(show(bare.handle_stdin(StdinEvent::ModalToggle, &calm(), 0)).is_empty());
    assert!(!bare.modal_open);
    assert!(show(bare.handle_stdin(StdinEvent::ModalCopy, &calm(), 0)).is_empty());
}

#[test]
fn the_address_is_copied_from_the_dialog() {
    let mut l = local(Some("abc"));
    l.handle_stdin(StdinEvent::ModalToggle, &calm(), 0);
    let frame = l.dialog.as_ref().unwrap().render_frame(80, 24, 2, true);
    assert_eq!(
        show(l.handle_stdin(StdinEvent::ModalCopy, &calm(), 0)),
        [
            // "https://remux.sh/abc"
            "write \x1b]52;c;aHR0cHM6Ly9yZW11eC5zaC9hYmM=\x07".to_string(),
            "bar true".to_string(),
            "sleep 1000".to_string(),
            format!("write {}", String::from_utf8(frame).unwrap()),
            "bar false".to_string(),
        ]
    );
    assert!(l.modal_open);
}

#[test]
fn a_dialog_that_cannot_be_laid_out_is_not_asked_for() {
    let mut l = local(Some("abc"));
    l.cols = 36;
    assert!(!l.can_handle(&StdinEvent::ModalToggle));
    assert!(!l.can_handle(&StdinEvent::ModalCopy));
    assert!(!l.can_handle(&StdinEvent::SelectStart { col: 30, row: 23, alt: false }));
    assert!(l.can_handle(&StdinEvent::SelectStart { col: 0, row: 23, alt: false }));
    assert!(l.can_handle(&StdinEvent::SelectStart { col: 30, row: 22, alt: false }));
    l.modal_open = true;
    assert!(l.can_handle(&StdinEvent::ModalToggle));
}

#[test]
fn clicks_on_the_bar() {
    let mut l = local(Some("abc"));
    let left = StdinEvent::SelectStart { col: 66, row: 23, alt: false };
    assert_eq!(
        show(l.handle_stdin(left, &calm(), 0)),
        [
            "write \x1b]52;c;aHR0cHM6Ly9yZW11eC5zaC9hYmM=\x07",
            "write \x1b7\x1b[24;2H\x1b[48;2;180;189;104m\x1b[1;38;2;29;31;33mCopied!     \x1b[0m\x1b8",
            "flush",
            "sleep 800",
            "bar false",
        ]
    );
    assert!(!l.modal_open);
    let right = StdinEvent::SelectStart { col: 67, row: 23, alt: false };
    assert_eq!(show(l.handle_stdin(right, &calm(), 0)).len(), 9);
    assert!(l.modal_open);
    assert_eq!(l.clicks.count, 0);

    let mut bare = local(None);
    for col in [0, 79] {
        let press = StdinEvent::SelectStart { col, row: 23, alt: false };
        assert!(show(bare.handle_stdin(press, &calm(), 0)).is_empty());
    }
    assert!(!bare.modal_open);
}

#[test]
fn the_program_ends_from_the_dialog_alone() {
    let mut l = local(Some("abc"));
    assert_eq!(show(l.handle_stdin(StdinEvent::ModalQuit, &calm(), 0)), ["quit"]);
    assert_eq!(show(l.handle(LocalEvent::Closed, &calm(), 0)), ["quit"]);
    for e in l.read_input(b"qQ exit\x1b") {
        assert!(!show(l.handle_stdin(e, &calm(), 0)).contains(&"quit".to_string()));
    }
    l.modal_open = true;
    assert!(matches!(l.read_input(b"q")[0], StdinEvent::ModalQuit));
}

#[test]
fn input_is_read_as_the_modes_say() {
    let mut l = local(None);
    assert!(matches!(l.read_input(b"\x1b[<64;1;1M")[0], StdinEvent::ScrollUp(3)));
    l.modes = Modes { bits: MOUSE_DRAG };
    assert!(matches!(l.read_input(b"\x1b[<64;1;1M")[0], StdinEvent::Mouse(_)));
}

#[test]
fn the_loop_wakes_up_for_more_than_keys() {
    let mut l = local(None);
    assert_eq!(
        show(l.handle(LocalEvent::Resized { cols: 100, rows: 40 }, &calm(), 0)),
        ["resize 100 39", "write \x1b[1;39r", "screen", "bar false"]
    );
    assert_eq!((l.cols, l.rows), (100, 40));
    assert_eq!(show(l.handle(LocalEvent::Lagged, &calm(), 0)), ["screen", "flush"]);
    assert_eq!(
        show(l.handle(LocalEvent::Reply("\x1b[0n".to_string()), &calm(), 0)),
        ["input \x1b[0n"]
    );
    assert_eq!(
        show(l.handle(LocalEvent::Stdin(StdinEvent::ScrollUp(1)), &calm(), 0)),
        ["scroll 1", "screen", "bar false"]
    );
}

fn screen() -> Screen {
    let cell = |c: char| Cell {
        c,
        fg: Color::Named(NamedColor::Foreground),
        bg: Color::Named(NamedColor::Background),
        flags: CellFlags { bits: 0 },
    };
    Screen {
        columns: 2,
        lines: vec![vec![cell('h'), cell('i')]],
        display_offset: 0,
        selection: None,
        cursor_line: 0,
        cursor_column: 1,
    }
}

fn bar(slug: &str) -> String {
    let mut buf = Vec::new();
    draw_bar(&mut buf, 80, 24, Some(&format!("remux.sh/{}", slug)), Some(slug), 3, false);
    String::from_utf8(buf).unwrap()
}

#[test]
fn everything_is_drawn_at_the_start() {
    let mut l = local(Some("abc"));
    let beam = CursorStyle { shape: CursorShape::Beam, blinking: false };
    let t = String::from_utf8(l.start(&screen(), Modes { bits: 0 }, beam, 3)).unwrap();
    assert_eq!(
        t,
        format!(
            "\x1b[1;23r\x1b[H\x1b[2J\x1b[1;1H\x1b[0mhi\x1b[0m\x1b[?25l\x1b[6 q\x1b[1;2H{}",
            bar("abc")
        )
    );
    assert_eq!(l.modes, Modes { bits: 0 });
    assert_eq!(l.cursor, beam);
    assert_eq!(
        String::from_utf8(screen_bytes(&screen())).unwrap(),
        "\x1b[H\x1b[2J\x1b[1;1H\x1b[0mhi\x1b[0m\x1b[1;2H"
    );
    assert_eq!(String::from_utf8(l.bar_bytes(3, false)).unwrap(), bar("abc"));
}

#[test]
fn output_is_drawn_unless_the_dialog_is_open() {
    let mut l = local(Some("abc"));
    let part = Damage::Partial(vec![LineDamage { line: 0, left: 1, right: 1 }]);
    let same = Modes { bits: SHOW_CURSOR };
    let t = String::from_utf8(l.output(&screen(), &part, same, block(), 3)).unwrap();
    assert_eq!(t, format!("\x1b[1;2H\x1b[0mi\x1b[0m\x1b[1;2H{}", bar("abc")));
    l.modal_open = true;
    assert!(l.output(&screen(), &Damage::Full, same, block(), 3).is_empty());
    let t = String::from_utf8(l.output(&screen(), &Damage::Full, Modes { bits: 0 }, block(), 3)).unwrap();
    assert_eq!(t, "\x1b[?25l");
    assert_eq!(remux::ansi::visible_len(&t), 0);
    assert_eq!(l.modes, Modes { bits: 0 });
}
