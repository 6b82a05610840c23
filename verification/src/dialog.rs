//! What a terminal shows of the dialog: each line with its colors and its link, and each
//! frame with its lines in their places.

use vstd::prelude::*;
use vstd::utf8::*;

use crate::ansi;
use crate::modal;
use crate::modal::ModalContent;
use crate::outer;
use crate::text;
use crate::vt;
use crate::vt::{Act, Ink, Look, Vt};

verus! {

// ---- Lines ----

/// The ground of the dialog.
pub open spec fn ground() -> Look {
    vt::colored(Ink::Default, Ink::Rgb(38, 38, 38))
}

/// Text in a grey on that ground.
pub open spec fn grey(n: int) -> Look {
    vt::colored(Ink::Rgb(n, n, n), Ink::Rgb(38, 38, 38))
}

/// The look of the keys and of the QR code.
pub open spec fn white() -> Look {
    grey(250)
}

/// The look of the address.
pub open spec fn strong() -> Look {
    Look { bold: true, ..grey(250) }
}

/// The look of the mark where the dialog opens on start.
pub open spec fn green() -> Look {
    vt::colored(Ink::Rgb(34, 197, 94), Ink::Rgb(38, 38, 38))
}

/// An empty line.
pub open spec fn shown_blank(w: int) -> Seq<Act> {
    vt::puts(ansi::spaces(w), ground())
}

/// Something that takes `n` of `w` cells, with the other cells before and behind it, and
/// the odd one behind.
pub open spec fn shown_middle(w: int, n: int, content: Seq<Act>) -> Seq<Act> {
    let left = if n < w {
        (w - n) / 2
    } else {
        0
    };
    let right = if n < w {
        w - n - left
    } else {
        0
    };
    vt::puts(ansi::spaces(left), ground()) + content + vt::puts(ansi::spaces(right), ground())
}

/// The mark: a green check or a grey cross.
pub open spec fn shown_mark(show_on_start: bool) -> Seq<Act> {
    if show_on_start {
        vt::puts("\u{2713}"@, green())
    } else {
        vt::puts("\u{2717}"@, grey(154))
    }
}

/// The keys of the box.
pub open spec fn shown_keys() -> Seq<Act> {
    vt::puts("[c]"@, white()) + vt::puts(" copy    "@, grey(154)) + vt::puts("[q]"@, white())
        + vt::puts(" quit    "@, grey(154)) + vt::puts("[esc]"@, white()) + vt::puts(
        " close"@,
        grey(154),
    )
}

/// The switch.
pub open spec fn shown_switch(show_on_start: bool) -> Seq<Act> {
    vt::puts("[d] "@, white()) + vt::puts("show on startup "@, grey(154)) + shown_mark(
        show_on_start,
    )
}

/// The keys where there is no room for the box.
pub open spec fn shown_short_keys(show_on_start: bool) -> Seq<Act> {
    vt::puts("[c]"@, white()) + vt::puts(" copy "@, grey(154)) + vt::puts("[q]"@, white())
        + vt::puts(" quit "@, grey(154)) + vt::puts("[d]"@, white()) + vt::puts(
        " startup "@,
        grey(154),
    ) + shown_mark(show_on_start) + vt::puts(
        " "@,
        if show_on_start {
            green()
        } else {
            grey(154)
        },
    ) + vt::puts("[esc]"@, white())
}

/// Whether a text shows the given things when the look is normal or that of the ground, and
/// leaves the look of the ground.
pub open spec fn shows_line(s: Seq<char>, acts: Seq<Act>) -> bool {
    vt::shows(vt::normal(), s, ground(), acts) && vt::shows(ground(), s, ground(), acts)
}

proof fn lemma_blank_shown(w: int)
    ensures
        shows_line(modal::blank_line(w), shown_blank(w)),
{
    let s = ansi::spaces(w);
    let none = Seq::<Act>::empty();
    vt::lemma_shows_bg(vt::normal(), 38, 38, 38);
    vt::lemma_shows_bg(ground(), 38, 38, 38);
    vt::lemma_shows_plain(ground(), s);
    let g = ground();
    let x = shown_blank(w);
    vt::lemma_shows_both(vt::normal(), modal::modal_bg(), g, none, s, g, x);
    vt::lemma_shows_both(g, modal::modal_bg(), g, none, s, g, x);
    assert(none + x =~= x);
}

/// A line that starts with the ground and ends with it.
proof fn lemma_line_shown(
    left: int,
    content: Seq<char>,
    look: Look,
    acts: Seq<Act>,
    right: int,
)
    requires
        vt::shows(ground(), content, look, acts),
    ensures
        shows_line(
            modal::modal_bg() + ansi::spaces(left) + content + ansi::reset() + modal::modal_bg()
                + ansi::spaces(right),
            vt::puts(ansi::spaces(left), ground()) + acts + vt::puts(ansi::spaces(right), ground()),
        ),
{
    let none = Seq::<Act>::empty();
    let n = vt::normal();
    let g = ground();
    let a = modal::modal_bg();
    let b = ansi::spaces(left);
    let c = content;
    let d = ansi::reset();
    let f = ansi::spaces(right);
    let x = vt::puts(b, g);
    let z = vt::puts(f, g);
    vt::lemma_shows_bg(n, 38, 38, 38);
    vt::lemma_shows_bg(g, 38, 38, 38);
    vt::lemma_shows_plain(g, b);
    vt::lemma_shows_one(look, 0);
    vt::lemma_shows_plain(g, f);
    vt::lemma_shows_both(n, a, g, none, b, g, x);
    vt::lemma_shows_both(g, a, g, none, b, g, x);
    vt::lemma_shows_both(n, a + b, g, none + x, c, look, acts);
    vt::lemma_shows_both(g, a + b, g, none + x, c, look, acts);
    let y = none + x + acts;
    vt::lemma_shows_both(n, a + b + c, look, y, d, n, none);
    vt::lemma_shows_both(g, a + b + c, look, y, d, n, none);
    vt::lemma_shows_both(n, a + b + c + d, n, y + none, a, g, none);
    vt::lemma_shows_both(g, a + b + c + d, n, y + none, a, g, none);
    vt::lemma_shows_both(n, a + b + c + d + a, g, y + none + none, f, g, z);
    vt::lemma_shows_both(g, a + b + c + d + a, g, y + none + none, f, g, z);
    assert(y + none + none + z =~= x + acts + z);
}

proof fn lemma_centered_shown(w: int, content: Seq<char>, n: int, look: Look, acts: Seq<Act>)
    requires
        n >= 0,
        vt::shows(ground(), content, look, acts),
    ensures
        shows_line(modal::centered(w, content, n), shown_middle(w, n, acts)),
{
    let left = text::minus(w, n) / 2;
    lemma_line_shown(left, content, look, acts, text::minus(w, left + n));
}

/// A text in a grey behind another text.
proof fn lemma_more(from: Look, s: Seq<char>, mid: Look, acts: Seq<Act>, n: u64, more: Seq<char>)
    requires
        vt::shows(from, s, mid, acts),
        mid == (Look { fg: mid.fg, ..ground() }),
        ansi::is_plain(more),
    ensures
        vt::shows(
            from,
            s + ansi::fg(n, n, n) + more,
            grey(n as int),
            acts + vt::puts(more, grey(n as int)),
        ),
{
    vt::lemma_shows_colored(mid, n, n, n, more);
    vt::lemma_shows_both(
        from,
        s,
        mid,
        acts,
        ansi::fg(n, n, n) + more,
        grey(n as int),
        vt::puts(more, grey(n as int)),
    );
    assert(s + (ansi::fg(n, n, n) + more) =~= s + ansi::fg(n, n, n) + more);
}

proof fn lemma_mark_shown(from: Look, s: Seq<char>, mid: Look, acts: Seq<Act>, on: bool)
    requires
        vt::shows(from, s, mid, acts),
        mid == (Look { fg: mid.fg, ..ground() }),
    ensures
        vt::shows(
            from,
            s + modal::mark_text(on),
            if on {
                green()
            } else {
                grey(154)
            },
            acts + shown_mark(on),
        ),
{
    reveal_strlit("\u{2713}");
    reveal_strlit("\u{2717}");
    if on {
        vt::lemma_shows_colored(mid, 34, 197, 94, "\u{2713}"@);
    } else {
        vt::lemma_shows_colored(mid, 154, 154, 154, "\u{2717}"@);
    }
    vt::lemma_shows_both(
        from,
        s,
        mid,
        acts,
        modal::mark_text(on),
        if on {
            green()
        } else {
            grey(154)
        },
        shown_mark(on),
    );
}

proof fn lemma_title_shown()
    ensures
        vt::shows(
            ground(),
            modal::title_text(),
            grey(163),
            vt::puts("open this terminal from any browser"@, grey(163)),
        ),
{
    reveal_strlit("open this terminal from any browser");
    vt::lemma_shows_colored(ground(), 163, 163, 163, "open this terminal from any browser"@);
}

proof fn lemma_keys_shown()
    ensures
        vt::shows(ground(), modal::hint_text(), grey(154), shown_keys()),
{
    reveal_strlit("[c]");
    reveal_strlit(" copy    ");
    reveal_strlit("[q]");
    reveal_strlit(" quit    ");
    reveal_strlit("[esc]");
    reveal_strlit(" close");
    let g = ground();
    let p = modal::primary();
    let m = modal::muted();
    vt::lemma_shows_colored(g, 250, 250, 250, "[c]"@);
    let s1 = p + "[c]"@;
    let x1 = vt::puts("[c]"@, white());
    lemma_more(g, s1, white(), x1, 154, " copy    "@);
    let s2 = s1 + m + " copy    "@;
    let x2 = x1 + vt::puts(" copy    "@, grey(154));
    lemma_more(g, s2, grey(154), x2, 250, "[q]"@);
    let s3 = s2 + p + "[q]"@;
    let x3 = x2 + vt::puts("[q]"@, white());
    lemma_more(g, s3, white(), x3, 154, " quit    "@);
    let s4 = s3 + m + " quit    "@;
    let x4 = x3 + vt::puts(" quit    "@, grey(154));
    lemma_more(g, s4, grey(154), x4, 250, "[esc]"@);
    let s5 = s4 + p + "[esc]"@;
    let x5 = x4 + vt::puts("[esc]"@, white());
    lemma_more(g, s5, white(), x5, 154, " close"@);
}

proof fn lemma_switch_shown(on: bool)
    ensures
        vt::shows(
            ground(),
            modal::toggle_text(on),
            if on {
                green()
            } else {
                grey(154)
            },
            shown_switch(on),
        ),
{
    reveal_strlit("[d] ");
    reveal_strlit("show on startup ");
    let g = ground();
    vt::lemma_shows_colored(g, 250, 250, 250, "[d] "@);
    let s1 = modal::primary() + "[d] "@;
    let x1 = vt::puts("[d] "@, white());
    lemma_more(g, s1, white(), x1, 154, "show on startup "@);
    let s2 = s1 + modal::muted() + "show on startup "@;
    let x2 = x1 + vt::puts("show on startup "@, grey(154));
    lemma_mark_shown(g, s2, grey(154), x2, on);
}

proof fn lemma_short_keys_shown(on: bool)
    ensures
        vt::shows(ground(), modal::compact_hint_text(on), white(), shown_short_keys(on)),
{
    reveal_strlit("[c]");
    reveal_strlit(" copy ");
    reveal_strlit("[q]");
    reveal_strlit(" quit ");
    reveal_strlit("[d]");
    reveal_strlit(" startup ");
    reveal_strlit(" ");
    reveal_strlit("[esc]");
    let g = ground();
    let p = modal::primary();
    let m = modal::muted();
    vt::lemma_shows_colored(g, 250, 250, 250, "[c]"@);
    let s1 = p + "[c]"@;
    let x1 = vt::puts("[c]"@, white());
    lemma_more(g, s1, white(), x1, 154, " copy "@);
    let s2 = s1 + m + " copy "@;
    let x2 = x1 + vt::puts(" copy "@, grey(154));
    lemma_more(g, s2, grey(154), x2, 250, "[q]"@);
    let s3 = s2 + p + "[q]"@;
    let x3 = x2 + vt::puts("[q]"@, white());
    lemma_more(g, s3, white(), x3, 154, " quit "@);
    let s4 = s3 + m + " quit "@;
    let x4 = x3 + vt::puts(" quit "@, grey(154));
    lemma_more(g, s4, grey(154), x4, 250, "[d]"@);
    let s5 = s4 + p + "[d]"@;
    let x5 = x4 + vt::puts("[d]"@, white());
    lemma_more(g, s5, white(), x5, 154, " startup "@);
    let s6 = s5 + m + " startup "@;
    let x6 = x5 + vt::puts(" startup "@, grey(154));
    let look = if on {
        green()
    } else {
        grey(154)
    };
    lemma_mark_shown(g, s6, grey(154), x6, on);
    let s7 = s6 + modal::mark_text(on);
    let x7 = x6 + shown_mark(on);
    vt::lemma_shows_plain(look, " "@);
    vt::lemma_shows_both(g, s7, look, x7, " "@, look, vt::puts(" "@, look));
    lemma_more(g, s7 + " "@, look, x7 + vt::puts(" "@, look), 250, "[esc]"@);
}

proof fn lemma_address_shown(url: Seq<char>, label: Seq<char>)
    requires
        ansi::is_osc_body(url),
        ansi::is_plain(label),
    ensures
        vt::shows(
            ground(),
            modal::bold_primary() + ansi::link(url, label),
            strong(),
            vt::linked(url, label, strong()),
        ),
{
    let none = Seq::<Act>::empty();
    let acts = vt::linked(url, label, strong());
    vt::lemma_shows_bold_fg(ground(), 250, 250, 250);
    vt::lemma_shows_link(strong(), url, label);
    vt::lemma_shows_both(
        ground(),
        modal::bold_primary(),
        strong(),
        none,
        ansi::link(url, label),
        strong(),
        acts,
    );
    assert(none + acts =~= acts);
}

// ---- The box ----

/// What line `i` of the box shows.
pub open spec fn shown_box_line(
    url: Seq<char>,
    display_url: Seq<char>,
    qr: Seq<Seq<char>>,
    show_on_start: bool,
    i: int,
) -> Seq<Act> {
    let w = modal::box_width(display_url, qr);
    let n = if qr.len() == 0 {
        9int
    } else {
        qr.len() as int + 10
    };
    if i == 1 {
        shown_middle(w, 35, vt::puts("open this terminal from any browser"@, grey(163)))
    } else if 3 <= i < 3 + qr.len() {
        shown_middle(w, qr[i - 3].len() as int, vt::puts(qr[i - 3], white()))
    } else if i == n - 6 {
        shown_middle(w, display_url.len() as int, vt::linked(url, display_url, strong()))
    } else if i == n - 4 {
        shown_middle(w, 35, shown_keys())
    } else if i == n - 2 {
        shown_middle(w, 21, shown_switch(show_on_start))
    } else {
        shown_blank(w)
    }
}

/// A terminal shows of every line of the box its content in the middle: the title, line
/// after line of the QR code, the address as a link to the session, the keys and the
/// switch; the other lines are empty.
pub proof fn box_lines_are_shown(
    url: Seq<char>,
    display_url: Seq<char>,
    qr: Seq<Seq<char>>,
    show_on_start: bool,
    i: int,
)
    requires
        ansi::is_osc_body(url),
        ansi::is_plain(display_url),
        is_ascii_chars(display_url),
        forall|k: int| 0 <= k < qr.len() ==> ansi::is_plain(#[trigger] qr[k]),
        0 <= i < modal::box_lines(url, display_url, qr, show_on_start).len(),
    ensures
        modal::box_lines(url, display_url, qr, show_on_start).len() == if qr.len() == 0 {
            9
        } else {
            10 + qr.len()
        },
        shows_line(
            modal::box_lines(url, display_url, qr, show_on_start)[i],
            shown_box_line(url, display_url, qr, show_on_start, i),
        ),
{
    let w = modal::box_width(display_url, qr);
    let lines = modal::box_lines(url, display_url, qr, show_on_start);
    is_ascii_chars_encode_utf8(display_url);
    lemma_blank_shown(w);
    if i == 1 {
        lemma_title_shown();
        lemma_centered_shown(
            w,
            modal::title_text(),
            35,
            grey(163),
            vt::puts("open this terminal from any browser"@, grey(163)),
        );
    } else if 3 <= i < 3 + qr.len() {
        let line = qr[i - 3];
        vt::lemma_shows_colored(ground(), 250, 250, 250, line);
        lemma_centered_shown(
            w,
            modal::primary() + line,
            line.len() as int,
            white(),
            vt::puts(line, white()),
        );
    } else if i == lines.len() - 6 {
        lemma_address_shown(url, display_url);
        lemma_centered_shown(
            w,
            modal::url_text(url, display_url),
            display_url.len() as int,
            strong(),
            vt::linked(url, display_url, strong()),
        );
    } else if i == lines.len() - 4 {
        lemma_keys_shown();
        lemma_centered_shown(w, modal::hint_text(), 35, grey(154), shown_keys());
    } else if i == lines.len() - 2 {
        let look = if show_on_start {
            green()
        } else {
            grey(154)
        };
        lemma_switch_shown(show_on_start);
        lemma_centered_shown(
            w,
            modal::toggle_text(show_on_start),
            21,
            look,
            shown_switch(show_on_start),
        );
    }
}

/// Where there is no room for the box, a terminal shows two lines, four cells less wide
/// than the screen: the address as far as it fits, as a link to the session, and the keys.
/// On less than fourteen columns it shows nothing.
pub proof fn compact_lines_are_shown(
    url: Seq<char>,
    display_url: Seq<char>,
    cols: int,
    show_on_start: bool,
)
    requires
        ansi::is_osc_body(url),
        ansi::is_plain(display_url),
        is_ascii_chars(display_url),
        cols >= 0,
    ensures
        ({
            let lines = modal::compact_lines(url, display_url, cols, show_on_start);
            let label = if display_url.len() <= cols - 4 {
                display_url
            } else {
                display_url.take(cols - 4)
            };
            &&& cols < 14 ==> lines.len() == 0
            &&& cols >= 14 ==> {
                &&& lines.len() == 2
                &&& shows_line(
                    lines[0],
                    vt::linked(url, label, strong()) + vt::puts(
                        ansi::spaces(cols - 4 - label.len()),
                        ground(),
                    ),
                )
                &&& shows_line(
                    lines[1],
                    shown_short_keys(show_on_start) + vt::puts(
                        ansi::spaces(
                            if cols > 43 {
                                cols - 43
                            } else {
                                0
                            },
                        ),
                        ground(),
                    ),
                )
            }
        }),
{
    let w = cols - 4;
    let lines = modal::compact_lines(url, display_url, cols, show_on_start);
    if cols >= 14 {
        let label = if display_url.len() <= w {
            display_url
        } else {
            display_url.take(w)
        };
        is_ascii_chars_encode_utf8(display_url);
        is_ascii_chars_encode_utf8(label);
        assert(modal::cut(display_url, w) == label) by {
            if display_url.len() > w {
                assert(encode_utf8(display_url).take(w) =~= encode_utf8(label));
                encode_utf8_decode_utf8(label);
            }
        }
        let none = ansi::spaces(0);
        assert(vt::puts(none, ground()) =~= Seq::<Act>::empty());
        lemma_address_shown(url, label);
        let address = modal::bold_primary() + ansi::link(url, label);
        let pad = text::minus(w, label.len() as int);
        let x = vt::linked(url, label, strong());
        lemma_line_shown(0, address, strong(), x, pad);
        assert(modal::modal_bg() + none + address =~= modal::modal_bg() + modal::bold_primary()
            + ansi::link(url, label));
        assert(vt::puts(none, ground()) + x =~= x);
        lemma_short_keys_shown(show_on_start);
        let keys = modal::compact_hint_text(show_on_start);
        let y = shown_short_keys(show_on_start);
        lemma_line_shown(0, keys, white(), y, text::minus(w, 39));
        assert(modal::modal_bg() + none + keys =~= modal::modal_bg() + keys);
        assert(vt::puts(none, ground()) + y =~= y);
    }
}

// ---- Frames ----

/// The rows above the status bar.
pub open spec fn rows_above(rows: u16) -> int {
    if rows >= 2 {
        rows - 1
    } else {
        1
    }
}

/// The row in which a dialog of so many lines starts: it stands in the middle, the odd row
/// being below it, but never above the first row.
pub open spec fn top_row(height: int, rows: u16) -> int {
    if rows_above(rows) >= height + 2 {
        (rows_above(rows) - height) / 2
    } else {
        1
    }
}

/// The column in which a dialog of a width starts: it stands in the middle, the odd column
/// being on its right.
pub open spec fn left_col(width: int, cols: u16) -> int {
    if width < cols {
        (cols - width) / 2 + 1
    } else {
        1
    }
}

/// How many of `height` lines a frame shows: three of ten, thirteen of twenty, or all of
/// them; a part of a line counts as one, and there are at least three as long as there are
/// so many.
pub open spec fn is_count(n: int, height: int, frame: u8) -> bool {
    &&& n <= height
    &&& n == height || n >= 3
    &&& frame == 0 ==> n == height || n == 3 || 3 * height <= 10 * n < 3 * height + 10
    &&& frame == 0 ==> 3 * height <= 10 * n
    &&& frame == 1 ==> n == height || n == 3 || 13 * height <= 20 * n < 13 * height + 20
    &&& frame == 1 ==> 13 * height <= 20 * n
    &&& frame >= 2 ==> n == height
}

/// A frame shows the lines in the middle of the dialog: there are as many above as below
/// them, or one more below.
pub proof fn frames_show_the_middle(height: int, frame: u8)
    requires
        height >= 0,
    ensures
        is_count(modal::frame_lines(height, frame), height, frame),
        ({
            let above = modal::frame_start(height, frame);
            let below = height - above - modal::frame_lines(height, frame);
            above <= below <= above + 1
        }),
{
}

/// The lines of a frame up to line `n`, each in its place.
pub open spec fn shown_rows(
    acts: Seq<Seq<Act>>,
    first: int,
    last: int,
    top: int,
    left: int,
    n: int,
) -> Seq<Act>
    decreases n,
{
    if n <= 0 {
        Seq::empty()
    } else {
        let before = shown_rows(acts, first, last, top, left, n - 1);
        if first <= n - 1 < last {
            before.push(Act::Goto(top + n - 1, left)) + acts[n - 1]
        } else {
            before
        }
    }
}

spec fn settled(look: Look) -> bool {
    look == vt::normal() || look == ground()
}

proof fn lemma_rows_shown(
    t: Vt,
    lines: Seq<Seq<char>>,
    acts: Seq<Seq<Act>>,
    cols: u16,
    rows: u16,
    frame: u8,
    n: int,
)
    requires
        vt::ready(t),
        settled(t.look),
        0 <= n <= lines.len(),
        lines.len() == acts.len(),
        forall|i: int| 0 <= i < lines.len() ==> shows_line(#[trigger] lines[i], acts[i]),
    ensures
        ({
            let height = lines.len() as int;
            let width = modal::widest(lines, height);
            let first = modal::frame_start(height, frame);
            let end = first + modal::frame_lines(height, frame);
            let limit = rows_above(rows) - top_row(height, rows);
            let last = if end < limit {
                end
            } else {
                limit
            };
            let u = vt::run(t, modal::frame_rows(lines, cols, rows, frame, n));
            &&& settled(u.look)
            &&& u == vt::did_all(
                vt::looking(t, u.look),
                shown_rows(acts, first, last, top_row(height, rows), left_col(width, cols), n),
            )
        }),
    decreases n,
{
    let height = lines.len() as int;
    let width = modal::widest(lines, height);
    let first = modal::frame_start(height, frame);
    let end = first + modal::frame_lines(height, frame);
    let top = top_row(height, rows);
    let left = left_col(width, cols);
    let limit = rows_above(rows) - top;
    let last = if end < limit {
        end
    } else {
        limit
    };
    if n == 0 {
        assert(t.acts + Seq::<Act>::empty() =~= t.acts);
    } else {
        lemma_rows_shown(t, lines, acts, cols, rows, frame, n - 1);
        let before = modal::frame_rows(lines, cols, rows, frame, n - 1);
        let u = vt::run(t, before);
        assert(modal::start_row(height, rows) == top);
        assert(modal::start_col(width, cols) == left);
        assert(modal::screen_rows(rows) == rows_above(rows));
        assert(modal::in_frame(height, rows, frame, n - 1) <==> first <= n - 1 < last);
        if first <= n - 1 < last {
            let place = ansi::goto((top + n - 1) as u64, left as u64);
            let line = lines[n - 1];
            vt::lemma_run_goto(u, (top + n - 1) as u64, left as u64);
            let v = vt::run(u, place);
            assert(shows_line(lines[n - 1], acts[n - 1]));
            assert(vt::run(v, line) == vt::did_all(vt::looking(v, ground()), acts[n - 1]));
            vt::lemma_run_concat(t, before, place);
            vt::lemma_run_concat(t, before + place, line);
            let sofar = shown_rows(acts, first, last, top, left, n - 1);
            assert((t.acts + sofar).push(Act::Goto(top + n - 1, left)) + acts[n - 1] =~= t.acts + (
            sofar.push(Act::Goto(top + n - 1, left)) + acts[n - 1]));
        }
    }
}

/// A frame of a dialog shows those of its lines that stand in the middle, each in its own
/// row from the top row of the dialog on, all from one column on, and none in the row of the
/// status bar or below. The cursor goes back to its place, and the look is normal.
pub proof fn frames_are_shown(
    lines: Seq<Seq<char>>,
    acts: Seq<Seq<Act>>,
    cols: u16,
    rows: u16,
    frame: u8,
)
    requires
        0 < lines.len(),
        lines.len() == acts.len(),
        forall|i: int| 0 <= i < lines.len() ==> shows_line(#[trigger] lines[i], acts[i]),
        modal::widest(lines, lines.len() as int) > 0,
        rows >= 4,
    ensures
        ({
            let height = lines.len() as int;
            let width = modal::widest(lines, height);
            let first = modal::frame_start(height, frame);
            let end = first + modal::frame_lines(height, frame);
            let limit = rows_above(rows) - top_row(height, rows);
            let last = if end < limit {
                end
            } else {
                limit
            };
            vt::shows(
                vt::normal(),
                modal::frame_text(lines, cols, rows, frame),
                vt::normal(),
                seq![Act::Save] + shown_rows(
                    acts,
                    first,
                    last,
                    top_row(height, rows),
                    left_col(width, cols),
                    height,
                ) + seq![Act::Restore],
            )
        }),
{
    reveal_strlit("\x1b7");
    reveal_strlit("\x1b8");
    assert("\x1b7"@ =~= seq![ansi::esc(), '7']);
    assert("\x1b8"@ =~= seq![ansi::esc(), '8']);
    let height = lines.len() as int;
    let width = modal::widest(lines, height);
    let first = modal::frame_start(height, frame);
    let end = first + modal::frame_lines(height, frame);
    let limit = rows_above(rows) - top_row(height, rows);
    let last = if end < limit {
        end
    } else {
        limit
    };
    let inner = shown_rows(
        acts,
        first,
        last,
        top_row(height, rows),
        left_col(width, cols),
        height,
    );
    let shown = seq![Act::Save] + inner + seq![Act::Restore];
    let s = modal::frame_text(lines, cols, rows, frame);
    let a = "\x1b7"@;
    let b = modal::frame_rows(lines, cols, rows, frame, height);
    let c = ansi::reset();
    let d = "\x1b8"@;
    assert forall|t: Vt| vt::ready(t) && t.look == vt::normal() implies #[trigger] vt::run(t, s)
        == vt::did_all(vt::looking(t, vt::normal()), shown) by {
        vt::lemma_run_place(t, '7');
        let t1 = vt::run(t, a);
        lemma_rows_shown(t1, lines, acts, cols, rows, frame, height);
        let t2 = vt::run(t1, b);
        vt::lemma_run_reset(t2);
        let t3 = vt::run(t2, c);
        vt::lemma_run_place(t3, '8');
        vt::lemma_run_concat(t, a, b);
        vt::lemma_run_concat(t, a + b, c);
        vt::lemma_run_concat(t, a + b + c, d);
        assert((t.acts.push(Act::Save) + inner).push(Act::Restore) =~= t.acts + shown);
    }
}

/// The width of a dialog is that of its widest line: no line is wider, and one is as wide.
pub proof fn dialog_is_as_wide_as_its_widest_line(lines: Seq<Seq<char>>, n: int)
    requires
        0 < n <= lines.len(),
    ensures
        forall|i: int|
            0 <= i < n ==> ansi::visible(#[trigger] lines[i]).len() <= modal::widest(lines, n),
        exists|i: int|
            0 <= i < n && ansi::visible(#[trigger] lines[i]).len() == modal::widest(lines, n),
    decreases n,
{
    reveal_with_fuel(modal::widest, 2);
    if n == 1 {
        assert(ansi::visible(lines[0]).len() == modal::widest(lines, 1));
    } else {
        dialog_is_as_wide_as_its_widest_line(lines, n - 1);
        if ansi::visible(lines[n - 1]).len() == modal::widest(lines, n) {
        } else {
            let i = choose|i: int|
                0 <= i < n - 1 && ansi::visible(#[trigger] lines[i]).len() == modal::widest(
                    lines,
                    n - 1,
                );
            assert(ansi::visible(lines[i]).len() == modal::widest(lines, n));
        }
    }
}

/// A frame of the dialog for an address, wherever there is room for the box: what stands in
/// the middle of the box is shown, in the middle of the screen.
pub proof fn dialog_is_shown(
    d: ModalContent,
    cols: u16,
    rows: u16,
    frame: u8,
    show_on_start: bool,
)
    requires
        d.qr() == modal::picture_lines(modal::qr_code(d.url@)),
        modal::qr_code(d.url@) matches Some(t) ==> modal::is_qr_picture(t),
        ansi::is_osc_body(d.url@),
        ansi::is_plain(d.display_url@),
        is_ascii_chars(d.display_url@),
        modal::box_width(d.display_url@, d.qr()) <= cols,
        rows >= 4,
    ensures
        ({
            let qr = d.qr();
            let height = if qr.len() == 0 {
                9int
            } else {
                qr.len() as int + 10
            };
            let acts = Seq::new(
                height as nat,
                |i: int| shown_box_line(d.url@, d.display_url@, qr, show_on_start, i),
            );
            let first = modal::frame_start(height, frame);
            let end = first + modal::frame_lines(height, frame);
            let limit = rows_above(rows) - top_row(height, rows);
            outer::read(modal::frame_text(d.lines(cols as int, show_on_start), cols, rows, frame))
                == seq![Act::Save] + shown_rows(
                acts,
                first,
                if end < limit {
                    end
                } else {
                    limit
                },
                top_row(height, rows),
                left_col(modal::box_width(d.display_url@, qr), cols),
                height,
            ) + seq![Act::Restore]
        }),
{
    let qr = d.qr();
    let lines = d.lines(cols as int, show_on_start);
    let height = lines.len() as int;
    let acts = Seq::new(
        height as nat,
        |i: int| shown_box_line(d.url@, d.display_url@, qr, show_on_start, i),
    );
    modal::dialog_is_a_rectangle(d, cols as int, show_on_start);
    assert forall|k: int| 0 <= k < qr.len() implies ansi::is_plain(#[trigger] qr[k]) by {
        modal::lemma_picture_lines(modal::qr_code(d.url@)->0, k);
    }
    assert forall|i: int| 0 <= i < lines.len() implies shows_line(#[trigger] lines[i], acts[i]) by {
        box_lines_are_shown(d.url@, d.display_url@, qr, show_on_start, i);
    }
    dialog_is_as_wide_as_its_widest_line(lines, height);
    let i = choose|i: int|
        0 <= i < height && ansi::visible(#[trigger] lines[i]).len() == modal::widest(lines, height);
    assert(ansi::visible(lines[i]).len() == modal::box_width(d.display_url@, qr));
    frames_are_shown(lines, acts, cols, rows, frame);
    let first = modal::frame_start(height, frame);
    let end = first + modal::frame_lines(height, frame);
    let limit = rows_above(rows) - top_row(height, rows);
    let shown = seq![Act::Save] + shown_rows(
        acts,
        first,
        if end < limit {
            end
        } else {
            limit
        },
        top_row(height, rows),
        left_col(modal::box_width(d.display_url@, qr), cols),
        height,
    ) + seq![Act::Restore];
    outer::lemma_read(modal::frame_text(lines, cols, rows, frame), vt::normal(), shown);
}

} // verus!
