use remux::ansi::visible_len;
use remux::modal::ModalContent;

const BG: &str = "\x1b[48;2;38;38;38m";

fn dialog() -> ModalContent {
    ModalContent::new("https://remux.sh/calm-sea", "remux.sh/calm-sea")
}

#[test]
fn the_dialog_has_the_code_of_the_address() {
    let d = dialog();
    let code = fast_qr::QRBuilder::new("https://remux.sh/calm-sea").build().unwrap().to_str();
    let expected: Vec<String> = code.lines().map(|l| l.to_string()).collect();
    assert!(!expected.is_empty());
    assert_eq!(d.qr_lines, expected);
    assert_eq!(d.url, "https://remux.sh/calm-sea");
    assert_eq!(d.display_url, "remux.sh/calm-sea");
    let other = ModalContent::new("https://remux.sh/other", "x");
    assert!(other.qr_lines != d.qr_lines);
    let too_long = "x".repeat(10_000);
    assert!(ModalContent::new(&too_long, "x").qr_lines.is_empty());
}

#[test]
fn a_picture_is_taken_line_by_line() {
    let d = ModalContent::with_picture("u", "d", Some("##\n##\n".to_string()));
    assert_eq!(d.qr_lines, vec!["##", "##"]);
    assert!(ModalContent::with_picture("u", "d", None).qr_lines.is_empty());
}

#[test]
fn the_box_without_a_code() {
    let d = ModalContent::with_picture("https://r.sh/a", "r.sh/a", None);
    let lines = d.build_content_lines(80, true);
    let blank = format!("{}{}", BG, " ".repeat(41));
    assert_eq!(lines.len(), 9);
    assert_eq!(lines[0], blank);
    assert_eq!(
        lines[1],
        format!("{BG}   \x1b[38;2;163;163;163mopen this terminal from any browser\x1b[0m{BG}   ")
    );
    assert_eq!(lines[2], blank);
    assert_eq!(
        lines[3],
        format!(
            "{BG}{}\x1b[1;38;2;250;250;250m\x1b]8;;https://r.sh/a\x07r.sh/a\x1b]8;;\x07\x1b[0m{BG}{}",
            " ".repeat(17),
            " ".repeat(18)
        )
    );
    assert_eq!(lines[4], blank);
    assert_eq!(
        lines[5],
        format!(
            "{BG}   \x1b[38;2;250;250;250m[c]\x1b[38;2;154;154;154m copy    \x1b[38;2;250;250;250m[q]\
             \x1b[38;2;154;154;154m quit    \x1b[38;2;250;250;250m[esc]\x1b[38;2;154;154;154m close\x1b[0m{BG}   "
        )
    );
    assert_eq!(lines[6], blank);
    assert_eq!(
        lines[7],
        format!(
            "{BG}{}\x1b[38;2;250;250;250m[d] \x1b[38;2;154;154;154mshow on startup \x1b[38;2;34;197;94m\u{2713}\x1b[0m{BG}{}",
            " ".repeat(10),
            " ".repeat(10)
        )
    );
    assert_eq!(lines[8], blank);
    assert!(d.build_content_lines(80, false)[7].contains("\x1b[38;2;154;154;154m\u{2717}"));
}

#[test]
fn the_box_is_a_rectangle() {
    let lines = dialog().build_content_lines(100, false);
    let width = visible_len(&lines[0]);
    assert!(lines.iter().all(|l| visible_len(l) == width));
    assert_eq!(lines.len(), 10 + dialog().qr_lines.len());
}

#[test]
fn only_the_switch_differs() {
    let d = dialog();
    let (on, off) = (d.build_content_lines(100, true), d.build_content_lines(100, false));
    assert_eq!(on.len(), off.len());
    for i in 0..on.len() {
        assert_eq!(on[i] == off[i], i != on.len() - 2);
    }
    assert!(on[on.len() - 2].contains('\u{2713}'));
    assert!(off[off.len() - 2].contains('\u{2717}'));
}

#[test]
fn small_screens_get_two_lines() {
    let d = dialog();
    let lines = d.build_content_lines(40, true);
    assert_eq!(lines.len(), 2);
    assert_eq!(
        lines[0],
        format!(
            "{BG}\x1b[1;38;2;250;250;250m\x1b]8;;https://remux.sh/calm-sea\x07remux.sh/calm-sea\x1b]8;;\x07\x1b[0m{BG}{}",
            " ".repeat(36 - 17)
        )
    );
    assert_eq!(
        lines[1],
        format!(
            "{BG}\x1b[38;2;250;250;250m[c]\x1b[38;2;154;154;154m copy \x1b[38;2;250;250;250m[q]\x1b[38;2;154;154;154m quit \
             \x1b[38;2;250;250;250m[d]\x1b[38;2;154;154;154m startup \x1b[38;2;34;197;94m\u{2713} \x1b[38;2;250;250;250m[esc]\x1b[0m{BG}"
        )
    );
    assert_eq!(d.build_compact_lines(40, true), lines);
    assert!(d.build_content_lines(13, true).is_empty());
    // The address is cut to the width.
    assert!(d.build_content_lines(14, true)[0].contains("\x07remux.sh/c\x1b]8"));
}

#[test]
fn what_cannot_be_laid_out_is_known() {
    let d = dialog();
    assert!(d.can_render(120));
    assert!(d.can_render(13));
    assert!(d.can_render(34));
    assert!(!d.can_render(35));
    assert!(!d.can_render(36));
    assert!(d.can_render(37));
    let accents = ModalContent::with_picture("u", &"\u{e9}".repeat(30), None);
    assert!(accents.can_render(20));
    assert!(!accents.can_render(21));
}

#[test]
fn frames_open_from_the_middle() {
    let d = ModalContent::with_picture("https://r.sh/a", "r.sh/a", None);
    let lines = d.build_content_lines(80, true);
    let rows = |frame: u8| {
        let t = String::from_utf8(d.render_frame(80, 24, frame, true)).unwrap();
        assert!(t.starts_with("\x1b7"));
        assert!(t.ends_with("\x1b[0m\x1b8"));
        (0..9usize)
            .filter(|i| t.contains(&format!("\x1b[{};20H{}", 7 + i, lines[*i])))
            .collect::<Vec<usize>>()
    };
    assert_eq!(rows(0), vec![3, 4, 5]);
    assert_eq!(rows(1), vec![1, 2, 3, 4, 5, 6]);
    assert_eq!(rows(2), (0..9).collect::<Vec<usize>>());
}

#[test]
fn the_dialog_keeps_off_the_bar() {
    let d = ModalContent::with_picture("https://r.sh/a", "r.sh/a", None);
    let t = String::from_utf8(d.render_frame(80, 6, 2, true)).unwrap();
    for row in 1..5 {
        assert!(t.contains(&format!("\x1b[{};20H", row)));
    }
    assert!(!t.contains("\x1b[5;20H"));
    assert!(d.render_frame(80, 3, 2, true).is_empty());
    assert!(d.render_frame(10, 24, 2, true).is_empty());
}
