use remux::input::{parse_stdin, StdinEvent};

/// A short form of the events, for comparison.
fn read(bytes: &[u8], mouse: bool, modal: bool) -> Vec<String> {
    parse_stdin(bytes, mouse, modal)
        .into_iter()
        .map(|e| match e {
            StdinEvent::Data(d) => format!("data {:?}", String::from_utf8_lossy(&d)),
            StdinEvent::ScrollUp(n) => format!("up {}", n),
            StdinEvent::ScrollDown(n) => format!("down {}", n),
            StdinEvent::Mouse(d) => format!("mouse {:?}", String::from_utf8_lossy(&d)),
            StdinEvent::Focus(d) => format!("focus {:?}", String::from_utf8_lossy(&d)),
            StdinEvent::SelectStart { col, row, alt } => format!("start {} {} {}", col, row, alt),
            StdinEvent::SelectUpdate(col, row) => format!("update {} {}", col, row),
            StdinEvent::SelectEnd => "end".to_string(),
            StdinEvent::ModalToggle => "toggle".to_string(),
            StdinEvent::ModalCopy => "copy".to_string(),
            StdinEvent::ModalQuit => "quit".to_string(),
            StdinEvent::ModalDismiss => "dismiss".to_string(),
        })
        .collect()
}

#[test]
fn keys_are_data() {
    assert_eq!(read(b"ls -l\r", false, false), ["data \"ls -l\\r\""]);
    assert_eq!(read("h\u{e9}".as_bytes(), true, false), ["data \"h\u{e9}\""]);
    assert_eq!(read(b"", false, false), Vec::<String>::new());
    assert_eq!(
        read(b"a\x1b[Ab\x1b[5~\x1bx", false, false),
        ["data \"a\"", "data \"\\u{1b}[A\"", "data \"b\"", "data \"\\u{1b}[5~\"", "data \"\\u{1b}x\""]
    );
    assert_eq!(
        read(b"\x1b]11;rgb:0/0/0\x07z\x1b]x\x1b\\y\x1b", false, false),
        [
            "data \"\\u{1b}]11;rgb:0/0/0\\u{7}\"",
            "data \"z\"",
            "data \"\\u{1b}]x\\u{1b}\\\\\"",
            "data \"y\"",
            "data \"\\u{1b}\"",
        ]
    );
}

#[test]
fn ctrl_q_toggles_the_dialog() {
    assert_eq!(read(b"a\x11b", false, false), ["data \"a\"", "toggle", "data \"b\""]);
    assert_eq!(read(b"\x11\x11", true, true), ["toggle", "toggle"]);
}

#[test]
fn the_open_dialog_takes_all_keys() {
    assert_eq!(
        read(b"xcCqQ\x1b[<0;1;1Mz\x1b\x1b[A\x1b[200~", false, true),
        ["copy", "copy", "quit", "quit", "dismiss"]
    );
    assert_eq!(read(b"\x1b", false, true), ["dismiss"]);
    assert_eq!(read(b"\x1b[12", false, true), Vec::<String>::new());
}

#[test]
fn the_closed_dialog_takes_no_keys() {
    assert_eq!(read(b"cqCQ", false, false), ["data \"cqCQ\""]);
}

#[test]
fn the_mouse_scrolls_and_selects() {
    assert_eq!(
        read(
            b"\x1b[<64;1;1M\x1b[<65;1;1M\x1b[<0;10;5M\x1b[<32;12;6M\x1b[<0;12;6m\x1b[<8;1;1M",
            false,
            false
        ),
        ["up 3", "down 3", "start 9 4 false", "update 11 5", "end", "start 0 0 true"]
    );
    // Shift and control do not matter; other buttons are dropped.
    assert_eq!(read(b"\x1b[<68;1;1M\x1b[<16;3;4M\x1b[<1;1;1M\x1b[<2;1;1M", false, false), ["up 3", "start 2 3 false"]);
    // Numbers that cannot be read, and too few of them.
    assert_eq!(read(b"\x1b[<0;x;99999M", false, false), ["start 0 0 false"]);
    assert_eq!(read(b"\x1b[<0;0;0M", false, false), ["start 0 0 false"]);
    assert_eq!(read(b"\x1b[<0;1M\x1b[<\xff;1;1Ma", false, false), ["data \"a\""]);
    // A report without an end ends the input.
    assert_eq!(read(b"a\x1b[<0;1;1", false, false), ["data \"a\""]);
}

#[test]
fn programs_get_the_mouse_that_they_ask_for() {
    assert_eq!(read(b"\x1b[<64;1;1M", true, false), ["mouse \"\\u{1b}[<64;1;1M\""]);
    assert_eq!(read(b"\x1b[<64;1M", true, false), Vec::<String>::new());
}

#[test]
fn focus_is_passed_on() {
    assert_eq!(read(b"\x1b[I\x1b[O", false, false), ["focus \"\\u{1b}[I\"", "focus \"\\u{1b}[O\""]);
}

#[test]
fn ordinary_input_reaches_the_shell_byte_for_byte() {
    let input = b"echo \x1b[1;5C hi \x1b]0;t\x07\x1bOP\xff\x00\x1b[I";
    let mut sent = Vec::new();
    for e in parse_stdin(input, false, false) {
        match e {
            StdinEvent::Data(d) | StdinEvent::Focus(d) | StdinEvent::Mouse(d) => sent.extend(d),
            _ => panic!("not passed on"),
        }
    }
    assert_eq!(sent, input);
}

#[test]
fn reports_say_what_their_numbers_say() {
    for (button, col, row) in [(0u32, 1u16, 1u16), (64, 80, 24), (40, 65535, 300), (999, 0, 0)] {
        for end in ["M", "m"] {
            let report = format!("\x1b[<{};{};{}{}", button, col, row, end);
            let cell = format!("{} {}", col.max(1) - 1, row.max(1) - 1);
            let expected: Vec<String> = match button {
                0 if end == "m" => vec!["end".to_string()],
                0 => vec![format!("start {} false", cell)],
                64 => vec!["up 3".to_string()],
                40 => vec![format!("update {}", cell)],
                _ => Vec::new(),
            };
            assert_eq!(read(report.as_bytes(), false, false), expected);
            assert_eq!(read(report.as_bytes(), true, false), [format!("mouse {:?}", report)]);
        }
    }
}
