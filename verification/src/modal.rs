//! The dialog that shows how to open the session in a browser.

use vstd::prelude::*;
use vstd::utf8::*;

use crate::ansi;
use crate::text;

verus! {

// ---- The QR code ----

/// The picture that `fast_qr` draws of the QR code for a text, or `None` where
/// the text is too long for one.
pub uninterp spec fn qr_code(url: Seq<char>) -> Option<Seq<char>>;

/// The characters that QR codes are drawn with, and the line feed.
pub open spec fn is_qr_char(c: char) -> bool {
    c == ' ' || c == '\u{2588}' || c == '\u{2580}' || c == '\u{2584}' || c == '\n'
}

/// A picture made of blocks and spaces, with lines of the same length.
pub open spec fn is_qr_picture(t: Seq<char>) -> bool {
    &&& forall|i: int| 0 <= i < t.len() ==> is_qr_char(#[trigger] t[i])
    &&& forall|i: int|
        0 <= i < text::text_lines(t).len() ==> (#[trigger] text::text_lines(t)[i]).len()
            == text::text_lines(t)[0].len()
}

/// `fast_qr::QRBuilder::build` on a text with all other settings left open,
/// and `QRCode::to_str` on the code. Which picture comes out is a function of
/// the text; it is drawn with blocks and spaces, in lines of the same length.
#[verifier::external_body]
fn draw_qr(url: &str) -> (r: Option<String>)
    ensures
        r is Some == qr_code(url@) is Some,
        r matches Some(t) ==> Some(t@) == qr_code(url@) && is_qr_picture(t@),
{
    match fast_qr::QRBuilder::new(url).build() {
        Ok(code) => Some(code.to_str()),
        Err(_) => None,
    }
}

// ---- Colors ----

pub open spec fn modal_bg() -> Seq<char> {
    ansi::bg(38, 38, 38)
}

pub open spec fn primary() -> Seq<char> {
    ansi::fg(250, 250, 250)
}

pub open spec fn bold_primary() -> Seq<char> {
    ansi::bold_fg(250, 250, 250)
}

pub open spec fn secondary() -> Seq<char> {
    ansi::fg(163, 163, 163)
}

pub open spec fn muted() -> Seq<char> {
    ansi::fg(154, 154, 154)
}

pub open spec fn live() -> Seq<char> {
    ansi::fg(34, 197, 94)
}

fn push_modal_bg(out: &mut String)
    ensures
        final(out)@ == old(out)@ + modal_bg(),
{
    ansi::push_bg(out, 38, 38, 38);
}

fn push_primary(out: &mut String)
    ensures
        final(out)@ == old(out)@ + primary(),
{
    ansi::push_fg(out, 250, 250, 250);
}

fn push_muted(out: &mut String)
    ensures
        final(out)@ == old(out)@ + muted(),
{
    ansi::push_fg(out, 154, 154, 154);
}

// ---- The lines of the dialog ----

/// The width of a QR code: that of its first line.
pub open spec fn qr_width(qr: Seq<Seq<char>>) -> int {
    if qr.len() > 0 {
        qr[0].len() as int
    } else {
        0
    }
}

/// The width of the box: its widest content and three cells on both sides. The
/// title and the hints are 35 cells wide, the line with the switch 21.
pub open spec fn box_width(display_url: Seq<char>, qr: Seq<Seq<char>>) -> int {
    text::max(text::max(qr_width(qr), text::byte_len(display_url) as int), 35) + 6
}

/// An empty line of the box.
pub open spec fn blank_line(w: int) -> Seq<char> {
    modal_bg() + ansi::spaces(w)
}

/// A line of the box with its content, `n` cells wide, in the middle.
pub open spec fn centered(w: int, content: Seq<char>, n: int) -> Seq<char> {
    let left = text::minus(w, n) / 2;
    modal_bg() + ansi::spaces(left) + content + ansi::reset() + modal_bg() + ansi::spaces(
        text::minus(w, left + n),
    )
}

pub open spec fn title_text() -> Seq<char> {
    secondary() + "open this terminal from any browser"@
}

pub open spec fn hint_text() -> Seq<char> {
    primary() + "[c]"@ + muted() + " copy    "@ + primary() + "[q]"@ + muted() + " quit    "@
        + primary() + "[esc]"@ + muted() + " close"@
}

/// The switch: a green check mark where the dialog opens on start, and a cross
/// where it does not.
pub open spec fn mark_text(show_on_start: bool) -> Seq<char> {
    if show_on_start {
        live() + "\u{2713}"@
    } else {
        muted() + "\u{2717}"@
    }
}

pub open spec fn toggle_text(show_on_start: bool) -> Seq<char> {
    primary() + "[d] "@ + muted() + "show on startup "@ + mark_text(show_on_start)
}

pub open spec fn url_text(url: Seq<char>, display_url: Seq<char>) -> Seq<char> {
    bold_primary() + ansi::link(url, display_url)
}

/// The first `n` lines of the QR code, in the box.
pub open spec fn qr_box_lines(w: int, qr: Seq<Seq<char>>, n: int) -> Seq<Seq<char>> {
    Seq::new(n as nat, |i: int| centered(w, primary() + qr[i], qr[i].len() as int))
}

/// The lines of the box: the title, the QR code where there is one, the
/// address, the keys and the switch.
pub open spec fn box_lines(
    url: Seq<char>,
    display_url: Seq<char>,
    qr: Seq<Seq<char>>,
    show_on_start: bool,
) -> Seq<Seq<char>> {
    let w = box_width(display_url, qr);
    seq![blank_line(w), centered(w, title_text(), 35), blank_line(w)] + (if qr.len() > 0 {
        qr_box_lines(w, qr, qr.len() as int).push(blank_line(w))
    } else {
        Seq::empty()
    }) + seq![
        centered(w, url_text(url, display_url), text::byte_len(display_url) as int),
        blank_line(w),
        centered(w, hint_text(), 35),
        blank_line(w),
        centered(w, toggle_text(show_on_start), 21),
        blank_line(w),
    ]
}

/// A text cut to at most `w` bytes.
pub open spec fn cut(s: Seq<char>, w: int) -> Seq<char> {
    if text::byte_len(s) > w {
        decode_utf8(encode_utf8(s).take(w))
    } else {
        s
    }
}

/// Whether a text can be cut to `w` bytes without cutting a character.
pub open spec fn can_cut(s: Seq<char>, w: int) -> bool {
    text::byte_len(s) > w ==> is_char_boundary(encode_utf8(s), w)
}

pub open spec fn compact_hint_text(show_on_start: bool) -> Seq<char> {
    primary() + "[c]"@ + muted() + " copy "@ + primary() + "[q]"@ + muted() + " quit "@ + primary()
        + "[d]"@ + muted() + " startup "@ + mark_text(show_on_start) + " "@ + primary() + "[esc]"@
}

/// The two lines of the dialog where there is no room for the box: the address,
/// as far as it fits, and the keys. There is none on less than fourteen columns.
/// The keys take 39 bytes without their colors.
pub open spec fn compact_lines(
    url: Seq<char>,
    display_url: Seq<char>,
    cols: int,
    show_on_start: bool,
) -> Seq<Seq<char>> {
    let w = text::minus(cols, 4);
    let shown = cut(display_url, w);
    if w < 10 {
        Seq::empty()
    } else {
        seq![
            modal_bg() + bold_primary() + ansi::link(url, shown) + ansi::reset() + modal_bg()
                + ansi::spaces(text::minus(w, text::byte_len(shown) as int)),
            modal_bg() + compact_hint_text(show_on_start) + ansi::reset() + modal_bg()
                + ansi::spaces(text::minus(w, 39)),
        ]
    }
}

/// Whether the dialog can be laid out on so many columns. Where there is no
/// room for the box, the address and the keys are cut to four columns less
/// than there are, and no character may be cut in two: in the keys the mark
/// takes the bytes from 30 to 33.
pub open spec fn can_lay_out(display_url: Seq<char>, qr: Seq<Seq<char>>, cols: int) -> bool {
    box_width(display_url, qr) > cols && cols >= 14 ==> can_cut(display_url, cols - 4) && cols - 4
        != 31 && cols - 4 != 32
}

/// The lines of the dialog on so many columns.
pub open spec fn content_lines(
    url: Seq<char>,
    display_url: Seq<char>,
    qr: Seq<Seq<char>>,
    cols: int,
    show_on_start: bool,
) -> Seq<Seq<char>> {
    if box_width(display_url, qr) > cols {
        compact_lines(url, display_url, cols, show_on_start)
    } else {
        box_lines(url, display_url, qr, show_on_start)
    }
}

fn blank(w: usize) -> (r: String)
    ensures
        r@ == blank_line(w as int),
{
    let mut out = String::new();
    push_modal_bg(&mut out);
    ansi::push_spaces(&mut out, w);
    assert(out@ =~= blank_line(w as int));
    out
}

fn centered_line(w: usize, content: &str, n: usize) -> (r: String)
    ensures
        r@ == centered(w as int, content@, n as int),
{
    let left: usize = w.saturating_sub(n) / 2;
    let right: usize = if n >= w { 0 } else { w - n - left };
    let mut out = String::new();
    push_modal_bg(&mut out);
    ansi::push_spaces(&mut out, left);
    out.append(content);
    ansi::push_reset(&mut out);
    push_modal_bg(&mut out);
    ansi::push_spaces(&mut out, right);
    assert(out@ =~= centered(w as int, content@, n as int));
    out
}

fn push_mark(out: &mut String, show_on_start: bool)
    ensures
        final(out)@ == old(out)@ + mark_text(show_on_start),
{
    if show_on_start {
        ansi::push_fg(out, 34, 197, 94);
        out.append("\u{2713}");
    } else {
        push_muted(out);
        out.append("\u{2717}");
    }
    assert(out@ =~= old(out)@ + mark_text(show_on_start));
}

fn title() -> (r: String)
    ensures
        r@ == title_text(),
{
    let mut out = String::new();
    ansi::push_fg(&mut out, 163, 163, 163);
    out.append("open this terminal from any browser");
    assert(out@ =~= title_text());
    out
}

fn hint() -> (r: String)
    ensures
        r@ == hint_text(),
{
    let mut out = String::new();
    push_primary(&mut out);
    out.append("[c]");
    push_muted(&mut out);
    out.append(" copy    ");
    push_primary(&mut out);
    out.append("[q]");
    push_muted(&mut out);
    out.append(" quit    ");
    push_primary(&mut out);
    out.append("[esc]");
    push_muted(&mut out);
    out.append(" close");
    assert(out@ =~= hint_text());
    out
}

fn toggle(show_on_start: bool) -> (r: String)
    ensures
        r@ == toggle_text(show_on_start),
{
    let mut out = String::new();
    push_primary(&mut out);
    out.append("[d] ");
    push_muted(&mut out);
    out.append("show on startup ");
    push_mark(&mut out, show_on_start);
    assert(out@ =~= toggle_text(show_on_start));
    out
}

fn compact_hint(show_on_start: bool) -> (r: String)
    ensures
        r@ == compact_hint_text(show_on_start),
{
    let mut out = String::new();
    push_primary(&mut out);
    out.append("[c]");
    push_muted(&mut out);
    out.append(" copy ");
    push_primary(&mut out);
    out.append("[q]");
    push_muted(&mut out);
    out.append(" quit ");
    push_primary(&mut out);
    out.append("[d]");
    push_muted(&mut out);
    out.append(" startup ");
    push_mark(&mut out, show_on_start);
    out.append(" ");
    push_primary(&mut out);
    out.append("[esc]");
    assert(out@ =~= compact_hint_text(show_on_start));
    out
}

// ---- Frames ----

/// How many of `height` lines a frame of the animation shows: three tenths of
/// them, thirteen twentieths, or all, rounded up, but at least three.
pub open spec fn frame_lines(height: int, frame: u8) -> int {
    let n = if frame == 0 {
        (3 * height + 9) / 10
    } else if frame == 1 {
        (13 * height + 19) / 20
    } else {
        height
    };
    if text::max(n, 3) < height {
        text::max(n, 3)
    } else {
        height
    }
}

/// The first line of the box that a frame shows: the lines in the middle come
/// first.
pub open spec fn frame_start(height: int, frame: u8) -> int {
    (height - frame_lines(height, frame)) / 2
}

/// The rows of the screen above the status bar.
pub open spec fn screen_rows(rows: u16) -> int {
    text::max(rows - 1, 1)
}

/// The row in which the first line of the box stands.
pub open spec fn start_row(height: int, rows: u16) -> int {
    text::max(text::minus(screen_rows(rows), height) / 2, 1)
}

/// The column in which the box starts.
pub open spec fn start_col(width: int, cols: u16) -> int {
    text::minus(cols as int, width) / 2 + 1
}

/// The greatest number of cells that one of the first `n` lines takes.
pub open spec fn widest(lines: Seq<Seq<char>>, n: int) -> int
    decreases n,
{
    if n <= 0 {
        0
    } else {
        text::max(widest(lines, n - 1), ansi::visible(lines[n - 1]).len() as int)
    }
}

/// Whether a frame shows line `i` of the box. Nothing is drawn below the rows
/// of the screen.
pub open spec fn in_frame(height: int, rows: u16, frame: u8, i: int) -> bool {
    &&& frame_start(height, frame) <= i < frame_start(height, frame) + frame_lines(height, frame)
    &&& start_row(height, rows) + i < screen_rows(rows)
}

/// The first `n` lines of the box as far as a frame shows them, each at its
/// place.
pub open spec fn frame_rows(lines: Seq<Seq<char>>, cols: u16, rows: u16, frame: u8, n: int) -> Seq<
    char,
>
    decreases n,
{
    if n <= 0 {
        Seq::empty()
    } else {
        let height = lines.len() as int;
        let col = start_col(widest(lines, height), cols);
        let before = frame_rows(lines, cols, rows, frame, n - 1);
        if in_frame(height, rows, frame, n - 1) {
            before + ansi::goto((start_row(height, rows) + n - 1) as u64, col as u64) + lines[n - 1]
        } else {
            before
        }
    }
}

/// One frame of the dialog in the middle of the screen; nothing where there is
/// nothing to show or the screen has less than three rows.
pub open spec fn frame_text(lines: Seq<Seq<char>>, cols: u16, rows: u16, frame: u8) -> Seq<char> {
    let height = lines.len() as int;
    if height == 0 || widest(lines, height) == 0 || screen_rows(rows) < 3 {
        Seq::empty()
    } else {
        "\x1b7"@ + frame_rows(lines, cols, rows, frame, height) + ansi::reset() + "\x1b8"@
    }
}

fn count_frame_lines(height: usize, frame: u8) -> (r: usize)
    ensures
        r == frame_lines(height as int, frame),
{
    let n: usize = if frame == 0 {
        height / 10 * 3 + (height % 10 * 3 + 9) / 10
    } else if frame == 1 {
        height / 20 * 13 + (height % 20 * 13 + 19) / 20
    } else {
        height
    };
    let n: usize = if n >= 3 { n } else { 3 };
    if n < height {
        n
    } else {
        height
    }
}

/// The address of a session, and how it is shown.
pub struct ModalContent {
    pub url: String,
    pub display_url: String,
    pub qr_lines: Vec<String>,
}

/// The lines of a picture, none where there is no picture.
pub open spec fn picture_lines(picture: Option<Seq<char>>) -> Seq<Seq<char>> {
    match picture {
        Some(t) => text::text_lines(t),
        None => Seq::empty(),
    }
}

impl ModalContent {
    /// The lines of the QR code.
    pub open spec fn qr(&self) -> Seq<Seq<char>> {
        text::texts(self.qr_lines@)
    }

    /// The dialog for an address with the picture of its QR code.
    pub fn with_picture(full_url: &str, display_url: &str, picture: Option<String>) -> (r: Self)
        ensures
            r.url@ == full_url@,
            r.display_url@ == display_url@,
            r.qr() == picture_lines(text::held(picture)),
    {
        let qr_lines = match picture {
            Some(t) => text::lines(t.as_str()),
            None => Vec::new(),
        };
        let r = ModalContent {
            url: full_url.to_string(),
            display_url: display_url.to_string(),
            qr_lines,
        };
        assert(r.qr() =~= picture_lines(text::held(picture)));
        r
    }

    /// The dialog for an address, with its QR code where the address has one.
    pub fn new(full_url: &str, display_url: &str) -> (r: Self)
        ensures
            r.url@ == full_url@,
            r.display_url@ == display_url@,
            r.qr() == picture_lines(qr_code(full_url@)),
            qr_code(full_url@) matches Some(t) ==> is_qr_picture(t),
    {
        let picture = draw_qr(full_url);
        assert(text::held(picture) == qr_code(full_url@));
        Self::with_picture(full_url, display_url, picture)
    }

    /// The lines of the dialog on so many columns.
    pub open spec fn lines(&self, cols: int, show_on_start: bool) -> Seq<Seq<char>> {
        content_lines(self.url@, self.display_url@, self.qr(), cols, show_on_start)
    }

    /// Whether the dialog can be laid out on so many columns.
    pub open spec fn fits(&self, cols: int) -> bool {
        can_lay_out(self.display_url@, self.qr(), cols)
    }

    /// The width of the content of the box.
    fn content_width(&self) -> (r: usize)
        ensures
            r == box_width(self.display_url@, self.qr()) - 6,
    {
        let mut n: usize = 35;
        if self.qr_lines.len() > 0 {
            assert(self.qr()[0] == self.qr_lines@[0]@);
            let q: usize = self.qr_lines[0].as_str().unicode_len();
            if q > n {
                n = q;
            }
        }
        let u: usize = self.display_url.as_str().as_bytes().len();
        if u > n {
            n = u;
        }
        n
    }

    /// Whether the dialog can be laid out on so many columns.
    pub fn can_render(&self, cols: u16) -> (r: bool)
        ensures
            r == self.fits(cols as int),
    {
        let content: usize = self.content_width();
        if cols < 14 || (content <= cols as usize && 6 <= cols as usize - content) {
            return true;
        }
        let w: usize = cols as usize - 4;
        let n: usize = self.display_url.as_str().as_bytes().len();
        (n <= w || self.display_url.as_str().is_char_boundary(w)) && w != 31 && w != 32
    }

    /// The lines of the dialog on so many columns: the box, or two lines where
    /// there is no room for it.
    pub fn build_content_lines(&self, cols: u16, show_on_start: bool) -> (r: Vec<String>)
        requires
            self.fits(cols as int),
        ensures
            text::texts(r@) == self.lines(cols as int, show_on_start),
    {
        let content: usize = self.content_width();
        if !(content <= cols as usize && 6 <= cols as usize - content) {
            return self.build_compact_lines(cols as usize, show_on_start);
        }
        let w: usize = content + 6;
        let mut lines: Vec<String> = Vec::new();
        lines.push(blank(w));
        lines.push(centered_line(w, title().as_str(), 35));
        lines.push(blank(w));
        let ghost qr = self.qr();
        let ghost head = seq![
            blank_line(w as int),
            centered(w as int, title_text(), 35),
            blank_line(w as int),
        ];
        assert(text::texts(lines@) =~= head);
        if self.qr_lines.len() > 0 {
            let mut i: usize = 0;
            assert(head + qr_box_lines(w as int, qr, 0) =~= head);
            while i < self.qr_lines.len()
                invariant
                    qr == text::texts(self.qr_lines@),
                    i <= self.qr_lines@.len(),
                    text::texts(lines@) == head + qr_box_lines(w as int, qr, i as int),
                decreases self.qr_lines@.len() - i,
            {
                let ghost before = text::texts(lines@);
                assert(qr[i as int] == self.qr_lines@[i as int]@);
                let n: usize = self.qr_lines[i].as_str().unicode_len();
                let mut styled = String::new();
                push_primary(&mut styled);
                styled.append(self.qr_lines[i].as_str());
                assert(styled@ =~= primary() + qr[i as int]);
                let line = centered_line(w, styled.as_str(), n);
                let ghost new = line@;
                lines.push(line);
                i = i + 1;
                assert(text::texts(lines@) =~= before.push(new));
                assert(text::texts(lines@) =~= head + qr_box_lines(w as int, qr, i as int));
            }
            let ghost before = text::texts(lines@);
            assert(before == head + qr_box_lines(w as int, qr, qr.len() as int));
            lines.push(blank(w));
            assert(text::texts(lines@) =~= before.push(blank_line(w as int)));
            assert(text::texts(lines@) =~= head + qr_box_lines(w as int, qr, qr.len() as int).push(
                blank_line(w as int),
            ));
        } else {
            assert(text::texts(lines@) =~= head + Seq::<Seq<char>>::empty());
        }
        let ghost upper = head + (if qr.len() > 0 {
            qr_box_lines(w as int, qr, qr.len() as int).push(blank_line(w as int))
        } else {
            Seq::empty()
        });
        assert(text::texts(lines@) == upper);
        let mut address = String::new();
        ansi::push_bold_fg(&mut address, 250, 250, 250);
        ansi::push_link(&mut address, self.url.as_str(), self.display_url.as_str());
        assert(address@ =~= url_text(self.url@, self.display_url@));
        let n: usize = self.display_url.as_str().as_bytes().len();
        lines.push(centered_line(w, address.as_str(), n));
        lines.push(blank(w));
        lines.push(centered_line(w, hint().as_str(), 35));
        lines.push(blank(w));
        lines.push(centered_line(w, toggle(show_on_start).as_str(), 21));
        lines.push(blank(w));
        assert(text::texts(lines@) =~= upper + seq![
            centered(w as int, url_text(self.url@, self.display_url@), n as int),
            blank_line(w as int),
            centered(w as int, hint_text(), 35),
            blank_line(w as int),
            centered(w as int, toggle_text(show_on_start), 21),
            blank_line(w as int),
        ]);
        lines
    }

    /// The two lines of the dialog where there is no room for the box.
    pub fn build_compact_lines(&self, cols: usize, show_on_start: bool) -> (r: Vec<String>)
        requires
            cols >= 14 ==> can_cut(self.display_url@, cols - 4) && cols - 4 != 31 && cols - 4 != 32,
        ensures
            text::texts(r@) == compact_lines(
                self.url@,
                self.display_url@,
                cols as int,
                show_on_start,
            ),
    {
        let w: usize = cols.saturating_sub(4);
        let mut lines: Vec<String> = Vec::new();
        if w < 10 {
            assert(text::texts(lines@) =~= Seq::<Seq<char>>::empty());
            return lines;
        }
        let full = self.display_url.as_str();
        let display: &str = if full.as_bytes().len() > w {
            let parts = full.split_at(w);
            proof {
                encode_utf8_decode_utf8(parts.0@);
                assert(encode_utf8(full@).subrange(0, w as int) == encode_utf8(full@).take(w as int));
            }
            parts.0
        } else {
            full
        };
        assert(display@ == cut(self.display_url@, w as int));
        let pad: usize = w.saturating_sub(display.as_bytes().len());
        let mut first = String::new();
        push_modal_bg(&mut first);
        ansi::push_bold_fg(&mut first, 250, 250, 250);
        ansi::push_link(&mut first, self.url.as_str(), display);
        ansi::push_reset(&mut first);
        push_modal_bg(&mut first);
        ansi::push_spaces(&mut first, pad);
        let mut second = String::new();
        push_modal_bg(&mut second);
        let keys = compact_hint(show_on_start);
        second.append(keys.as_str());
        ansi::push_reset(&mut second);
        push_modal_bg(&mut second);
        ansi::push_spaces(&mut second, w.saturating_sub(39));
        let ghost want = compact_lines(self.url@, self.display_url@, cols as int, show_on_start);
        assert(first@ =~= want[0]);
        assert(second@ =~= want[1]);
        lines.push(first);
        lines.push(second);
        assert(text::texts(lines@) =~= want);
        lines
    }

    /// One frame of the dialog: it opens from its middle line on.
    pub fn render_frame(&self, cols: u16, rows: u16, frame: u8, show_on_start: bool) -> (r: Vec<u8>)
        requires
            self.fits(cols as int),
        ensures
            r@ == encode_utf8(
                frame_text(self.lines(cols as int, show_on_start), cols, rows, frame),
            ),
    {
        let pty_rows: usize = if rows >= 2 { rows as usize - 1 } else { 1 };
        let all = self.build_content_lines(cols, show_on_start);
        let ghost lines = self.lines(cols as int, show_on_start);
        let height: usize = all.len();
        let mut width: usize = 0;
        let mut i: usize = 0;
        while i < all.len()
            invariant
                text::texts(all@) == lines,
                i <= all@.len(),
                width == widest(lines, i as int),
            decreases all@.len() - i,
        {
            assert(lines[i as int] == all@[i as int]@);
            let n: usize = ansi::visible_len(all[i].as_str());
            if n > width {
                width = n;
            }
            i = i + 1;
        }
        if height == 0 || width == 0 || pty_rows < 3 {
            return Vec::new();
        }
        let count: usize = count_frame_lines(height, frame);
        let top: usize = (height - count) / 2;
        let half: usize = pty_rows.saturating_sub(height) / 2;
        let first_row: usize = if half >= 1 { half } else { 1 };
        let col: usize = (cols as usize).saturating_sub(width) / 2 + 1;
        let mut out = "\x1b7".to_string();
        let ghost start = out@;
        let mut i: usize = 0;
        assert(out@ =~= start + frame_rows(lines, cols, rows, frame, 0));
        while i < all.len()
            invariant
                text::texts(all@) == lines,
                height == all@.len(),
                width == widest(lines, height as int),
                pty_rows == screen_rows(rows),
                count == frame_lines(height as int, frame),
                top == frame_start(height as int, frame),
                top + count <= height,
                first_row == start_row(height as int, rows),
                first_row <= u16::MAX,
                col == start_col(width as int, cols),
                i <= all@.len(),
                out@ == start + frame_rows(lines, cols, rows, frame, i as int),
            decreases all@.len() - i,
        {
            assert(lines[i as int] == all@[i as int]@);
            if i >= top && i < top + count && i < pty_rows && first_row + i < pty_rows {
                ansi::push_goto(&mut out, (first_row + i) as u64, col as u64);
                out.append(all[i].as_str());
            }
            i = i + 1;
            assert(out@ =~= start + frame_rows(lines, cols, rows, frame, i as int));
        }
        ansi::push_reset(&mut out);
        out.append("\x1b8");
        assert(out@ =~= frame_text(lines, cols, rows, frame));
        out.as_str().as_bytes_vec()
    }
}

// ---- Laws ----

/// The dialog opens from its middle: what one frame shows, the next one shows
/// too, and the last one shows every line for which there is a row.
pub proof fn frames_grow(height: int, rows: u16, i: int)
    requires
        height >= 0,
    ensures
        in_frame(height, rows, 0, i) ==> in_frame(height, rows, 1, i),
        in_frame(height, rows, 1, i) ==> in_frame(height, rows, 2, i),
        in_frame(height, rows, 2, i) <==> 0 <= i < height && start_row(height, rows) + i
            < screen_rows(rows),
{
    assert(frame_lines(height, 0) <= frame_lines(height, 1) <= frame_lines(height, 2));
}

/// The dialog is drawn in rows of the screen, and never over the status bar in
/// the last one.
pub proof fn dialog_keeps_off_the_bar(height: int, rows: u16, frame: u8, i: int)
    requires
        rows >= 2,
        in_frame(height, rows, frame, i),
        0 <= i,
    ensures
        1 <= start_row(height, rows) + i < rows,
{
}

/// A text with as many spaces on both sides, or one more behind it, as make it `w`
/// cells wide.
pub open spec fn in_the_middle(w: int, shown: Seq<char>) -> Seq<char> {
    let left = text::minus(w, shown.len() as int) / 2;
    ansi::spaces(left) + shown + ansi::spaces(text::minus(w, left + shown.len()))
}

/// What the line with the switch shows.
pub open spec fn switch_shown(show_on_start: bool) -> Seq<char> {
    "[d] "@ + "show on startup "@ + if show_on_start {
        "\u{2713}"@
    } else {
        "\u{2717}"@
    }
}

/// What the line with the keys shows.
pub open spec fn keys_shown() -> Seq<char> {
    "[c] copy    [q] quit    [esc] close"@
}

/// What stands behind the content of a line of the box.
spec fn centered_tail(w: int, n: int) -> Seq<char> {
    ansi::reset() + (modal_bg() + ansi::spaces(text::minus(w, text::minus(w, n) / 2 + n)))
}

proof fn lemma_blank_width(w: int)
    requires
        w >= 0,
    ensures
        ansi::visible(blank_line(w)) == ansi::spaces(w),
        ansi::visible(blank_line(w)).len() == w,
{
    ansi::lemma_visible_csi(seq![48u64, 2, 38, 38, 38], 'm', ansi::spaces(w));
    ansi::lemma_visible_plain(ansi::spaces(w), Seq::empty());
    assert(ansi::spaces(w) + Seq::empty() =~= ansi::spaces(w));
}

proof fn lemma_centered_width(w: int, content: Seq<char>, shown: Seq<char>)
    requires
        shown.len() <= w,
        ansi::visible(content + centered_tail(w, shown.len() as int)) == shown + ansi::visible(
            centered_tail(w, shown.len() as int),
        ),
    ensures
        ansi::visible(centered(w, content, shown.len() as int)) == in_the_middle(w, shown),
        in_the_middle(w, shown).len() == w,
{
    let n = shown.len() as int;
    let left = ansi::spaces(text::minus(w, n) / 2);
    let right = ansi::spaces(text::minus(w, text::minus(w, n) / 2 + n));
    let tail = centered_tail(w, n);
    let after = modal_bg() + right;
    lemma_line_parts(modal_bg(), left, content, ansi::reset(), modal_bg(), right);
    assert(centered(w, content, n) == modal_bg() + (left + (content + tail)));
    ansi::lemma_visible_csi(seq![48u64, 2, 38, 38, 38], 'm', left + (content + tail));
    ansi::lemma_visible_plain(left, content + tail);
    ansi::lemma_visible_csi(seq![0u64], 'm', after);
    ansi::lemma_visible_csi(seq![48u64, 2, 38, 38, 38], 'm', right);
    ansi::lemma_visible_plain(right, Seq::empty());
    assert(right + Seq::empty() =~= right);
    assert(left + (shown + right) =~= in_the_middle(w, shown));
}

proof fn lemma_line_parts(
    a: Seq<char>,
    b: Seq<char>,
    c: Seq<char>,
    d: Seq<char>,
    e: Seq<char>,
    f: Seq<char>,
)
    ensures
        a + b + c + d + e + f == a + (b + (c + (d + (e + f)))),
{
    assert(a + b + c + d + e + f =~= a + (b + (c + (d + (e + f)))));
}

proof fn lemma_title_width(w: int)
    requires
        w >= 35,
    ensures
        ansi::visible(centered(w, title_text(), 35)) == in_the_middle(
            w,
            "open this terminal from any browser"@,
        ),
        ansi::visible(centered(w, title_text(), 35)).len() == w,
{
    let words = "open this terminal from any browser"@;
    reveal_strlit("open this terminal from any browser");
    let tail = centered_tail(w, 35);
    ansi::lemma_visible_csi(seq![38u64, 2, 163, 163, 163], 'm', words + tail);
    ansi::lemma_visible_plain(words, tail);
    assert(title_text() + tail =~= secondary() + (words + tail));
    lemma_centered_width(w, title_text(), words);
}

/// A color, a plain text and what follows: the text shows.
proof fn lemma_colored(codes: Seq<u64>, words: Seq<char>, rest: Seq<char>)
    requires
        ansi::is_plain(words),
    ensures
        ansi::visible(ansi::sgr(codes) + (words + rest)) == words + ansi::visible(rest),
{
    ansi::lemma_visible_csi(codes, 'm', words + rest);
    ansi::lemma_visible_plain(words, rest);
}

proof fn lemma_hint_width(w: int)
    requires
        w >= 35,
    ensures
        ansi::visible(centered(w, hint_text(), 35)) == in_the_middle(w, keys_shown()),
        ansi::visible(centered(w, hint_text(), 35)).len() == w,
{
    reveal_strlit("[c]");
    reveal_strlit(" copy    ");
    reveal_strlit("[q]");
    reveal_strlit(" quit    ");
    reveal_strlit("[esc]");
    reveal_strlit(" close");
    let tail = centered_tail(w, 35);
    let p = seq![38u64, 2, 250, 250, 250];
    let m = seq![38u64, 2, 154, 154, 154];
    let r6 = muted() + (" close"@ + tail);
    let r5 = primary() + ("[esc]"@ + r6);
    let r4 = muted() + (" quit    "@ + r5);
    let r3 = primary() + ("[q]"@ + r4);
    let r2 = muted() + (" copy    "@ + r3);
    let r1 = primary() + ("[c]"@ + r2);
    lemma_colored(m, " close"@, tail);
    lemma_colored(p, "[esc]"@, r6);
    lemma_colored(m, " quit    "@, r5);
    lemma_colored(p, "[q]"@, r4);
    lemma_colored(m, " copy    "@, r3);
    lemma_colored(p, "[c]"@, r2);
    lemma_hint_parts(
        primary(),
        muted(),
        "[c]"@,
        " copy    "@,
        "[q]"@,
        " quit    "@,
        "[esc]"@,
        " close"@,
        tail,
    );
    reveal_strlit("[c] copy    [q] quit    [esc] close");
    let shown = "[c]"@ + " copy    "@ + "[q]"@ + " quit    "@ + "[esc]"@ + " close"@;
    assert(shown =~= keys_shown());
    assert(ansi::visible(r1) =~= shown + ansi::visible(tail));
    lemma_centered_width(w, hint_text(), shown);
}

proof fn lemma_hint_parts(
    p: Seq<char>,
    m: Seq<char>,
    a: Seq<char>,
    b: Seq<char>,
    c: Seq<char>,
    d: Seq<char>,
    e: Seq<char>,
    f: Seq<char>,
    rest: Seq<char>,
)
    ensures
        p + a + m + b + p + c + m + d + p + e + m + f + rest == p + (a + (m + (b + (p + (c + (m + (d
            + (p + (e + (m + (f + rest))))))))))),
{
    assert(p + a + m + b + p + c + m + d + p + e + m + f + rest =~= p + (a + (m + (b + (p + (c + (m
        + (d + (p + (e + (m + (f + rest))))))))))));
}

proof fn lemma_toggle_width(w: int, show_on_start: bool)
    requires
        w >= 21,
    ensures
        switch_shown(show_on_start).len() == 21,
        ansi::visible(centered(w, toggle_text(show_on_start), 21)) == in_the_middle(
            w,
            switch_shown(show_on_start),
        ),
        ansi::visible(centered(w, toggle_text(show_on_start), 21)).len() == w,
{
    reveal_strlit("[d] ");
    reveal_strlit("show on startup ");
    reveal_strlit("\u{2713}");
    reveal_strlit("\u{2717}");
    let tail = centered_tail(w, 21);
    let mark = if show_on_start {
        "\u{2713}"@
    } else {
        "\u{2717}"@
    };
    let color = if show_on_start {
        seq![38u64, 2, 34, 197, 94]
    } else {
        seq![38u64, 2, 154, 154, 154]
    };
    let r3 = ansi::sgr(color) + (mark + tail);
    let r2 = muted() + ("show on startup "@ + r3);
    let r1 = primary() + ("[d] "@ + r2);
    lemma_colored(color, mark, tail);
    lemma_colored(seq![38u64, 2, 154, 154, 154], "show on startup "@, r3);
    lemma_colored(seq![38u64, 2, 250, 250, 250], "[d] "@, r2);
    assert(mark_text(show_on_start) == ansi::sgr(color) + mark);
    lemma_toggle_parts(
        primary(),
        "[d] "@,
        muted(),
        "show on startup "@,
        ansi::sgr(color),
        mark,
        tail,
    );
    let shown = switch_shown(show_on_start);
    assert(ansi::visible(r1) =~= shown + ansi::visible(tail));
    lemma_centered_width(w, toggle_text(show_on_start), shown);
}

proof fn lemma_toggle_parts(
    p: Seq<char>,
    a: Seq<char>,
    m: Seq<char>,
    b: Seq<char>,
    c: Seq<char>,
    d: Seq<char>,
    rest: Seq<char>,
)
    ensures
        p + a + m + b + (c + d) + rest == p + (a + (m + (b + (c + (d + rest))))),
{
    assert(p + a + m + b + (c + d) + rest =~= p + (a + (m + (b + (c + (d + rest))))));
}

proof fn lemma_url_width(w: int, url: Seq<char>, display_url: Seq<char>)
    requires
        w >= display_url.len(),
        ansi::is_osc_body(url),
        ansi::is_plain(display_url),
    ensures
        ansi::visible(centered(w, url_text(url, display_url), display_url.len() as int))
            == in_the_middle(w, display_url),
        ansi::visible(centered(w, url_text(url, display_url), display_url.len() as int)).len() == w,
{
    let tail = centered_tail(w, display_url.len() as int);
    let rest = ansi::link(url, display_url) + tail;
    ansi::lemma_visible_csi(seq![1u64, 38, 2, 250, 250, 250], 'm', rest);
    ansi::lemma_visible_link(url, display_url, tail);
    assert(url_text(url, display_url) + tail =~= bold_primary() + rest);
    lemma_centered_width(w, url_text(url, display_url), display_url);
}

proof fn lemma_qr_width(w: int, line: Seq<char>)
    requires
        w >= line.len(),
        ansi::is_plain(line),
    ensures
        ansi::visible(centered(w, primary() + line, line.len() as int)) == in_the_middle(w, line),
        ansi::visible(centered(w, primary() + line, line.len() as int)).len() == w,
{
    let tail = centered_tail(w, line.len() as int);
    lemma_colored(seq![38u64, 2, 250, 250, 250], line, tail);
    assert(primary() + line + tail =~= primary() + (line + tail));
    lemma_centered_width(w, primary() + line, line);
}

/// The box is a rectangle: all of its lines show in the same number of cells,
/// for an address in ASCII without control characters and a QR code of plain
/// lines, none of which is wider than the first.
#[verifier::rlimit(50)]
#[verifier::spinoff_prover]
pub proof fn box_is_a_rectangle(
    url: Seq<char>,
    display_url: Seq<char>,
    qr: Seq<Seq<char>>,
    show_on_start: bool,
)
    requires
        ansi::is_osc_body(url),
        ansi::is_plain(display_url),
        is_ascii_chars(display_url),
        forall|k: int|
            0 <= k < qr.len() ==> ansi::is_plain(#[trigger] qr[k]) && qr[k].len() <= qr[0].len(),
    ensures
        forall|i: int|
            0 <= i < box_lines(url, display_url, qr, show_on_start).len() ==> ansi::visible(
                #[trigger] box_lines(url, display_url, qr, show_on_start)[i],
            ).len() == box_width(display_url, qr),
{
    let w = box_width(display_url, qr);
    let lines = box_lines(url, display_url, qr, show_on_start);
    is_ascii_chars_encode_utf8(display_url);
    lemma_blank_width(w);
    lemma_title_width(w);
    lemma_hint_width(w);
    lemma_toggle_width(w, show_on_start);
    lemma_url_width(w, url, display_url);
    assert forall|i: int| 0 <= i < lines.len() implies ansi::visible(#[trigger] lines[i]).len()
        == w by {
        if 3 <= i < 3 + qr.len() {
            lemma_qr_width(w, qr[i - 3]);
        }
    }
}

/// The box shows the title, the QR code line by line, the address, the keys and the
/// switch, each in the middle of a line of its own, with empty lines between them.
#[verifier::rlimit(50)]
#[verifier::spinoff_prover]
pub proof fn box_shows_its_content(
    url: Seq<char>,
    display_url: Seq<char>,
    qr: Seq<Seq<char>>,
    show_on_start: bool,
)
    requires
        ansi::is_osc_body(url),
        ansi::is_plain(display_url),
        is_ascii_chars(display_url),
        forall|k: int|
            0 <= k < qr.len() ==> ansi::is_plain(#[trigger] qr[k]) && qr[k].len() <= qr[0].len(),
    ensures
        ({
            let w = box_width(display_url, qr);
            let lines = box_lines(url, display_url, qr, show_on_start);
            let n = lines.len();
            &&& n == qr.len() + (if qr.len() == 0 {
                9int
            } else {
                10
            })
            &&& ansi::visible(lines[0]) == ansi::spaces(w)
            &&& ansi::visible(lines[1]) == in_the_middle(w, "open this terminal from any browser"@)
            &&& ansi::visible(lines[2]) == ansi::spaces(w)
            &&& forall|i: int|
                0 <= i < qr.len() ==> ansi::visible(#[trigger] lines[3 + i]) == in_the_middle(
                    w,
                    qr[i],
                )
            &&& qr.len() > 0 ==> ansi::visible(lines[qr.len() as int + 3]) == ansi::spaces(w)
            &&& ansi::visible(lines[n - 6]) == in_the_middle(w, display_url)
            &&& ansi::visible(lines[n - 5]) == ansi::spaces(w)
            &&& ansi::visible(lines[n - 4]) == in_the_middle(
                w,
                "[c] copy    [q] quit    [esc] close"@,
            )
            &&& ansi::visible(lines[n - 3]) == ansi::spaces(w)
            &&& ansi::visible(lines[n - 2]) == in_the_middle(w, switch_shown(show_on_start))
            &&& ansi::visible(lines[n - 1]) == ansi::spaces(w)
        }),
{
    let w = box_width(display_url, qr);
    let lines = box_lines(url, display_url, qr, show_on_start);
    is_ascii_chars_encode_utf8(display_url);
    lemma_blank_width(w);
    lemma_title_width(w);
    lemma_hint_width(w);
    lemma_toggle_width(w, show_on_start);
    lemma_url_width(w, url, display_url);
    assert forall|i: int| 0 <= i < qr.len() implies ansi::visible(#[trigger] lines[3 + i])
        == in_the_middle(w, qr[i]) by {
        lemma_qr_width(w, qr[i]);
    }
}

/// The box is as wide as its widest content and six cells more: nothing in it is wider,
/// and something in it takes just that width.
pub proof fn box_is_as_wide_as_its_content(display_url: Seq<char>, qr: Seq<Seq<char>>)
    requires
        is_ascii_chars(display_url),
    ensures
        ({
            let w = box_width(display_url, qr);
            &&& w >= 35 + 6 && w >= display_url.len() + 6
            &&& qr.len() > 0 ==> w >= qr[0].len() + 6
            &&& {
                ||| w == 35 + 6
                ||| w == display_url.len() + 6
                ||| qr.len() > 0 && w == qr[0].len() + 6
            }
        }),
{
    is_ascii_chars_encode_utf8(display_url);
}

/// The box has nine lines, or ten and those of the QR code.
pub proof fn box_height(
    url: Seq<char>,
    display_url: Seq<char>,
    qr: Seq<Seq<char>>,
    show_on_start: bool,
)
    ensures
        box_lines(url, display_url, qr, show_on_start).len() == if qr.len() == 0 {
            9
        } else {
            10 + qr.len()
        },
{
}

/// Whether the dialog opens on start shows in the last line but one of the box, as a
/// check mark or a cross, and nowhere else.
pub proof fn only_the_switch_differs(url: Seq<char>, display_url: Seq<char>, qr: Seq<Seq<char>>)
    ensures
        ({
            let w = box_width(display_url, qr);
            let on = box_lines(url, display_url, qr, true);
            let off = box_lines(url, display_url, qr, false);
            let last = on.len() - 2;
            &&& on.len() == off.len()
            &&& forall|i: int| 0 <= i < on.len() && i != last ==> #[trigger] on[i] == off[i]
            &&& on[last] != off[last]
            &&& ansi::visible(on[last]) == in_the_middle(w, switch_shown(true))
            &&& ansi::visible(off[last]) == in_the_middle(w, switch_shown(false))
        }),
{
    let w = box_width(display_url, qr);
    let on = box_lines(url, display_url, qr, true);
    let off = box_lines(url, display_url, qr, false);
    let last = on.len() - 2;
    box_height(url, display_url, qr, true);
    box_height(url, display_url, qr, false);
    lemma_toggle_width(w, true);
    lemma_toggle_width(w, false);
    assert(on[last] == centered(w, toggle_text(true), 21));
    assert(off[last] == centered(w, toggle_text(false), 21));
    reveal_strlit("[d] ");
    reveal_strlit("show on startup ");
    reveal_strlit("\u{2713}");
    reveal_strlit("\u{2717}");
    let mark = (w - 21) / 2 + 20;
    assert(in_the_middle(w, switch_shown(true))[mark] == '\u{2713}');
    assert(in_the_middle(w, switch_shown(false))[mark] == '\u{2717}');
}

/// A line of a picture is plain, and no wider than the first.
pub proof fn lemma_picture_lines(t: Seq<char>, k: int)
    requires
        is_qr_picture(t),
        0 <= k < text::text_lines(t).len(),
    ensures
        ansi::is_plain(text::text_lines(t)[k]),
        text::text_lines(t)[k].len() <= text::text_lines(t)[0].len(),
{
    let line = text::text_lines(t)[k];
    text::lemma_line_chars(t, k);
    assert forall|i: int| 0 <= i < line.len() implies #[trigger] line[i] != ansi::esc() by {
        let j = choose|j: int| 0 <= j < t.len() && t[j] == line[i];
        assert(is_qr_char(t[j]));
    }
}

/// The dialog for an address in ASCII, with the QR code of the address, is a
/// rectangle wherever there is room for the box.
pub proof fn dialog_is_a_rectangle(d: ModalContent, cols: int, show_on_start: bool)
    requires
        d.qr() == picture_lines(qr_code(d.url@)),
        qr_code(d.url@) matches Some(t) ==> is_qr_picture(t),
        ansi::is_osc_body(d.url@),
        ansi::is_plain(d.display_url@),
        is_ascii_chars(d.display_url@),
        box_width(d.display_url@, d.qr()) <= cols,
    ensures
        d.lines(cols, show_on_start).len() == if d.qr().len() == 0 {
            9
        } else {
            10 + d.qr().len()
        },
        forall|i: int|
            0 <= i < d.lines(cols, show_on_start).len() ==> ansi::visible(
                #[trigger] d.lines(cols, show_on_start)[i],
            ).len() == box_width(d.display_url@, d.qr()),
{
    let qr = d.qr();
    assert forall|k: int| 0 <= k < qr.len() implies ansi::is_plain(#[trigger] qr[k])
        && qr[k].len() <= qr[0].len() by {
        lemma_picture_lines(qr_code(d.url@)->0, k);
    }
    box_is_a_rectangle(d.url@, d.display_url@, qr, show_on_start);
    box_height(d.url@, d.display_url@, qr, show_on_start);
}

/// A dialog for an address in ASCII can be laid out on any number of columns but two, on
/// which the mark would be cut in two.
pub proof fn dialog_can_be_laid_out(display_url: Seq<char>, qr: Seq<Seq<char>>, cols: int)
    requires
        is_ascii_chars(display_url),
        cols != 35 && cols != 36,
    ensures
        can_lay_out(display_url, qr, cols),
{
    is_ascii_chars_encode_utf8(display_url);
    let bytes = encode_utf8(display_url);
    let w = cols - 4;
    if cols >= 14 && bytes.len() > w {
        let c = display_url[w];
        assert(bytes[w] == c as u8);
        assert('\0' <= c <= '\u{7f}');
        encode_utf8_valid_utf8(display_url);
        is_char_boundary_iff_not_is_continuation_byte(bytes, w);
    }
}

} // verus!
