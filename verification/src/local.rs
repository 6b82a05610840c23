//! The session on the local screen: what is drawn when the shell prints
//! something, and what happens on keys, clicks and a change of the window.

use vstd::prelude::*;
use vstd::utf8::*;

use crate::ansi;
use crate::base64;
use crate::escape;
use crate::escape::{BEL, ESC};
use crate::input;
use crate::input::{Event, StdinEvent};
use crate::modal;
use crate::modal::ModalContent;
use crate::render;
use crate::sync;
use crate::sync::{CursorStyle, Switch};
use crate::terminal;
use crate::terminal::{Damage, Modes, Screen, TermSize};
use crate::text;

verus! {

// ---- What the terminal reports ----

/// Where the terminal stores a text that a program copies.
#[derive(Clone, Copy, PartialEq, Eq, Structural, Debug)]
pub enum Clipboard {
    Clipboard,
    Selection,
}

/// Something that the terminal reports while it reads output.
pub enum TermEvent {
    /// An answer to a query of the program.
    PtyWrite(String),
    Title(String),
    ResetTitle,
    ClipboardStore(Clipboard, String),
    Other,
}

/// What is done about a report.
pub enum Reaction {
    /// The text goes to the shell.
    ToShell(String),
    /// The text goes to the outer terminal.
    ToScreen(String),
    Nothing,
}

/// What is done about a report, by the text that it sends.
pub enum Reply {
    ToShell(Seq<char>),
    ToScreen(Seq<char>),
    Nothing,
}

impl View for Reaction {
    type V = Reply;

    open spec fn view(&self) -> Reply {
        match *self {
            Reaction::ToShell(t) => Reply::ToShell(t@),
            Reaction::ToScreen(t) => Reply::ToScreen(t@),
            Reaction::Nothing => Reply::Nothing,
        }
    }
}

/// The sequence that sets the title of the outer terminal.
pub open spec fn title_text(title: Seq<char>) -> Seq<char> {
    seq![ansi::esc(), ']', '2', ';'] + title + seq![ansi::bel()]
}

/// The sequence that stores bytes in the clipboard of the outer terminal.
pub open spec fn copy_text(to: Clipboard, data: Seq<u8>) -> Seq<char> {
    seq![
        ansi::esc(),
        ']',
        '5',
        '2',
        ';',
        match to {
            Clipboard::Clipboard => 'c',
            Clipboard::Selection => 'p',
        },
        ';',
    ] + base64::base64(data) + seq![ansi::bel()]
}

/// What is done about a report: answers go to the shell, titles and copied
/// texts to the outer terminal.
pub open spec fn reply(event: TermEvent) -> Reply {
    match event {
        TermEvent::PtyWrite(t) => Reply::ToShell(t@),
        TermEvent::Title(t) => Reply::ToScreen(title_text(t@)),
        TermEvent::ResetTitle => Reply::ToScreen(title_text(Seq::empty())),
        TermEvent::ClipboardStore(to, t) => Reply::ToScreen(copy_text(to, encode_utf8(t@))),
        TermEvent::Other => Reply::Nothing,
    }
}

fn title_sequence(title: &str) -> (r: String)
    ensures
        r@ == title_text(title@),
{
    let mut out = String::new();
    out.push('\x1b');
    out.push(']');
    out.push('2');
    out.push(';');
    out.append(title);
    out.push('\x07');
    assert(out@ =~= title_text(title@));
    out
}

fn copy_sequence(to: Clipboard, data: &[u8]) -> (r: String)
    ensures
        r@ == copy_text(to, data@),
{
    let encoded = base64::base64_encode(data);
    let mut out = String::new();
    out.push('\x1b');
    out.push(']');
    out.push('5');
    out.push('2');
    out.push(';');
    out.push(
        match to {
            Clipboard::Clipboard => 'c',
            Clipboard::Selection => 'p',
        },
    );
    out.push(';');
    out.append(encoded.as_str());
    out.push('\x07');
    assert(out@ =~= copy_text(to, data@));
    out
}

/// Reacts to a report of the terminal.
pub fn send_event(event: TermEvent) -> (r: Reaction)
    ensures
        r@ == reply(event),
{
    match event {
        TermEvent::PtyWrite(t) => Reaction::ToShell(t),
        TermEvent::Title(t) => Reaction::ToScreen(title_sequence(t.as_str())),
        TermEvent::ResetTitle => {
            proof {
                reveal_strlit("");
            }
            assert(""@ =~= Seq::empty());
            Reaction::ToScreen(title_sequence(""))
        },
        TermEvent::ClipboardStore(to, t) => Reaction::ToScreen(
            copy_sequence(to, t.as_str().as_bytes()),
        ),
        TermEvent::Other => Reaction::Nothing,
    }
}

// ---- The working directory ----

/// Whether a sequence that tells the working directory (OSC 7) starts at `at`:
/// `ESC ] 7 ;`. Other sequences have numbers that start with a seven too.
pub open spec fn starts_osc7(s: Seq<u8>, at: int) -> bool {
    &&& 0 <= at && at + 3 < s.len()
    &&& s[at] == ESC && s[at + 1] == 0x5d && s[at + 2] == 0x37 && s[at + 3] == 0x3b
}

/// The sequences that tell the working directory, from `at` on, one behind the
/// other.
pub open spec fn osc7_from(s: Seq<u8>, at: int) -> Seq<u8>
    decreases s.len() - at,
{
    if at < 0 || at >= s.len() {
        Seq::empty()
    } else if starts_osc7(s, at) {
        proof {
            escape::lemma_osc_end(s, at + 4);
        }
        let end = escape::osc_end(s, at + 4);
        s.subrange(at, end) + osc7_from(s, end)
    } else {
        osc7_from(s, at + 1)
    }
}

/// Finds the sequences in output that tell the working directory, for the outer
/// terminal.
pub fn extract_osc7(data: &[u8]) -> (r: Option<Vec<u8>>)
    ensures
        r is None <==> osc7_from(data@, 0).len() == 0,
        r matches Some(found) ==> found@ == osc7_from(data@, 0),
{
    let mut i: usize = 0;
    let mut results: Vec<u8> = Vec::new();
    assert(results@ + osc7_from(data@, 0) =~= osc7_from(data@, 0));
    while i < data.len()
        invariant
            i <= data@.len(),
            results@ + osc7_from(data@, i as int) == osc7_from(data@, 0),
        decreases data@.len() - i,
    {
        if data[i] == ESC && data.len() - i > 3 && data[i + 1] == 0x5d && data[i + 2] == 0x37
            && data[i + 3] == 0x3b {
            let end: usize = escape::find_osc_end(data, i + 4);
            let ghost before = results@;
            let part = vstd::slice::slice_subrange(data, i, end);
            results.extend_from_slice(part);
            assert(results@ =~= before + data@.subrange(i as int, end as int));
            assert(before + (data@.subrange(i as int, end as int) + osc7_from(data@, end as int))
                =~= results@ + osc7_from(data@, end as int));
            i = end;
        } else {
            i = i + 1;
        }
    }
    assert(results@ + Seq::empty() =~= results@);
    if results.len() == 0 {
        None
    } else {
        Some(results)
    }
}

proof fn lemma_no_osc7(s: Seq<u8>, at: int)
    requires
        forall|i: int| !#[trigger] starts_osc7(s, i),
        0 <= at,
    ensures
        osc7_from(s, at) == Seq::<u8>::empty(),
    decreases s.len() - at,
{
    if at < s.len() {
        lemma_no_osc7(s, at + 1);
    }
}

/// Output that does not tell the working directory has nothing for the outer
/// terminal to learn.
pub proof fn plain_output_forwards_nothing(s: Seq<u8>)
    requires
        forall|i: int| !#[trigger] starts_osc7(s, i),
    ensures
        osc7_from(s, 0) == Seq::<u8>::empty(),
{
    lemma_no_osc7(s, 0);
}

proof fn lemma_told_end(s: Seq<u8>, at: int)
    requires
        0 <= at < s.len(),
        forall|i: int| 4 <= i < s.len() - 1 ==> #[trigger] s[i] != ESC && s[i] != BEL,
        s.last() == BEL,
        at >= 4,
    ensures
        escape::osc_end(s, at) == s.len(),
        escape::osc_body_end(s, at) == s.len() - 1,
    decreases s.len() - at,
{
    if at < s.len() - 1 {
        lemma_told_end(s, at + 1);
    }
}

/// A sequence that tells the working directory is passed on as it is.
pub proof fn told_directory_is_forwarded(body: Seq<u8>)
    requires
        forall|i: int| 0 <= i < body.len() ==> #[trigger] body[i] != ESC && body[i] != BEL,
    ensures
        ({
            let told = seq![ESC, 0x5du8, 0x37, 0x3b] + body + seq![BEL];
            osc7_from(told, 0) == told
        }),
{
    let told = seq![ESC, 0x5du8, 0x37, 0x3b] + body + seq![BEL];
    assert forall|i: int| 4 <= i < told.len() - 1 implies #[trigger] told[i] != ESC && told[i]
        != BEL by {
        assert(told[i] == body[i - 4]);
    }
    lemma_told_end(told, 4);
    assert(starts_osc7(told, 0));
    assert(told.subrange(0, told.len() as int) + osc7_from(told, told.len() as int) =~= told);
}

proof fn lemma_osc_end_from(s: Seq<u8>, k: int, at: int)
    requires
        0 <= k,
        0 <= at,
        k + at <= s.len(),
    ensures
        escape::osc_body_end(s, k + at) == k + escape::osc_body_end(s.skip(k), at),
        escape::osc_end(s, k + at) == k + escape::osc_end(s.skip(k), at),
    decreases s.len() - k - at,
{
    let t = s.skip(k);
    escape::lemma_osc_end(t, at);
    if k + at < s.len() {
        assert(t[at] == s[k + at]);
        if k + at + 1 < s.len() {
            assert(t[at + 1] == s[k + at + 1]);
        }
        lemma_osc_end_from(s, k, at + 1);
    }
    let e = escape::osc_body_end(t, at);
    if e < t.len() {
        assert(t[e] == s[k + e]);
    }
}

proof fn lemma_osc7_from(s: Seq<u8>, k: int, at: int)
    requires
        0 <= k,
        0 <= at,
        k + at <= s.len(),
    ensures
        osc7_from(s, k + at) == osc7_from(s.skip(k), at),
    decreases s.len() - k - at,
{
    let t = s.skip(k);
    if k + at < s.len() {
        assert(t[at] == s[k + at]);
        if at + 3 < t.len() {
            assert(t[at + 1] == s[k + at + 1]);
            assert(t[at + 2] == s[k + at + 2]);
            assert(t[at + 3] == s[k + at + 3]);
        }
        if starts_osc7(s, k + at) {
            lemma_osc_end_from(s, k, at + 4);
            escape::lemma_osc_end(t, at + 4);
            let end = escape::osc_end(t, at + 4);
            lemma_osc7_from(s, k, end);
            assert(t.subrange(at, end) =~= s.subrange(k + at, k + end));
        } else {
            lemma_osc7_from(s, k, at + 1);
        }
    }
}

proof fn lemma_skipped(s: Seq<u8>, at: int, n: int)
    requires
        0 <= at <= n <= s.len(),
        forall|i: int| at <= i < n ==> #[trigger] s[i] != ESC,
    ensures
        osc7_from(s, at) == osc7_from(s, n),
    decreases n - at,
{
    if at < n {
        assert(s[at] != ESC);
        lemma_skipped(s, at + 1, n);
    }
}

/// A sequence that tells the working directory is passed on wherever it stands in the
/// output, with either end that it can have, and nothing of what stands around it is.
pub proof fn told_directory_is_cut_out(before: Seq<u8>, body: Seq<u8>, bel: bool, rest: Seq<u8>)
    requires
        forall|i: int| 0 <= i < before.len() ==> #[trigger] before[i] != ESC,
        forall|i: int| 0 <= i < body.len() ==> #[trigger] body[i] != ESC && body[i] != BEL,
        !bel && rest.len() > 0 ==> rest[0] != BEL,
    ensures
        ({
            let end = if bel {
                seq![0x07u8]
            } else {
                seq![0x1bu8, 0x5c]
            };
            let told = seq![0x1bu8, 0x5d, 0x37, 0x3b] + body + end;
            osc7_from(before + told + rest, 0) == told + osc7_from(rest, 0)
        }),
{
    let end = if bel {
        seq![0x07u8]
    } else {
        seq![0x1bu8, 0x5c]
    };
    let told = seq![0x1bu8, 0x5d, 0x37, 0x3b] + body + end;
    let s = before + told + rest;
    let n = before.len() as int;
    let m = n + told.len();
    let stop = n + 4 + body.len();
    assert forall|i: int| 0 <= i < n implies #[trigger] s[i] != ESC by {
        assert(s[i] == before[i]);
    }
    lemma_skipped(s, 0, n);
    assert(s[n] == ESC && s[n + 1] == 0x5d && s[n + 2] == 0x37 && s[n + 3] == 0x3b);
    assert forall|i: int| n + 4 <= i < stop implies #[trigger] s[i] != ESC && s[i] != BEL by {
        assert(s[i] == body[i - n - 4]);
    }
    assert(s[stop] == end[0]);
    if !bel {
        assert(s[stop + 1] == 0x5c);
        if rest.len() > 0 {
            assert(s[m] == rest[0]);
        }
    }
    lemma_body_ends(s, n + 4, stop);
    assert(escape::osc_end(s, n + 4) == m);
    assert(s.subrange(n, m) =~= told);
    lemma_osc7_from(s, m, 0);
    assert(s.skip(m) =~= rest);
}

proof fn lemma_body_ends(s: Seq<u8>, at: int, stop: int)
    requires
        0 <= at <= stop < s.len(),
        forall|i: int| at <= i < stop ==> #[trigger] s[i] != ESC && s[i] != BEL,
        s[stop] == BEL || (s[stop] == ESC && stop + 1 < s.len() && s[stop + 1] == 0x5c),
    ensures
        escape::osc_body_end(s, at) == if s[stop] == BEL {
            stop
        } else {
            stop + 2
        },
    decreases stop - at,
{
    if at < stop {
        lemma_body_ends(s, at + 1, stop);
    }
}

// ---- Clicks ----

/// Two clicks within this time, in nanoseconds, on one cell belong together.
pub const DOUBLE_CLICK_TIMEOUT: u64 = 300_000_000;

/// The last click: when it came, in nanoseconds, on which cell, and which of a
/// row of clicks it was.
#[derive(Clone, Copy, PartialEq, Eq, Structural, Debug)]
pub struct Clicks {
    pub time: u64,
    pub col: u16,
    pub row: u16,
    pub count: u8,
}

/// The state after a click. The fourth click in a row counts as a first one.
pub open spec fn clicked(last: Clicks, now: u64, col: u16, row: u16) -> Clicks {
    Clicks {
        time: now,
        col,
        row,
        count: if now - last.time < DOUBLE_CLICK_TIMEOUT && last.col == col && last.row == row {
            (last.count % 3 + 1) as u8
        } else {
            1
        },
    }
}

/// What a click selects.
#[derive(Clone, Copy, PartialEq, Eq, Structural, Debug)]
pub enum SelectionKind {
    /// Cell by cell.
    Simple,
    /// Words.
    Semantic,
    /// Whole lines.
    Lines,
    /// A rectangle.
    Block,
}

/// What the click that counts as number `count` selects.
pub open spec fn selection_kind(alt: bool, count: u8) -> SelectionKind {
    if alt {
        SelectionKind::Block
    } else if count == 2 {
        SelectionKind::Semantic
    } else if count == 3 {
        SelectionKind::Lines
    } else {
        SelectionKind::Simple
    }
}

/// Clicks on one cell that follow each other closely select a place, its word,
/// its line, and then start over.
pub proof fn clicks_start_over(first: Clicks, t1: u64, t2: u64, t3: u64)
    requires
        first.count == 1,
        first.time <= t1 < first.time + DOUBLE_CLICK_TIMEOUT,
        t1 <= t2 < t1 + DOUBLE_CLICK_TIMEOUT,
        t2 <= t3 < t2 + DOUBLE_CLICK_TIMEOUT,
    ensures
        ({
            let second = clicked(first, t1, first.col, first.row);
            let third = clicked(second, t2, first.col, first.row);
            let fourth = clicked(third, t3, first.col, first.row);
            &&& selection_kind(false, first.count) == SelectionKind::Simple
            &&& selection_kind(false, second.count) == SelectionKind::Semantic
            &&& selection_kind(false, third.count) == SelectionKind::Lines
            &&& fourth.count == first.count
        }),
{
}

// ---- Actions ----

/// One thing to be done, in the order in which they are listed.
pub enum Action {
    /// Bytes go to the outer terminal.
    Write(Vec<u8>),
    /// What was written is sent.
    Flush,
    /// The whole screen is drawn, and counts as drawn.
    DrawScreen,
    /// The status bar is drawn, with the note that something was copied or
    /// without it, and what was written is sent.
    DrawBar(bool),
    /// So many milliseconds pass.
    Sleep(u64),
    /// Nothing is selected.
    ClearSelection,
    /// A selection starts at the left of a cell.
    Select { kind: SelectionKind, line: i32, column: usize },
    /// The selection now ends at the right of a cell.
    ExtendSelection { line: i32, column: usize },
    /// The view moves up by so many lines.
    Scroll(i32),
    /// The view shows the last lines.
    ScrollToBottom,
    /// The terminal has a new size.
    Resize(TermSize),
    /// Bytes go to the shell.
    Input(Vec<u8>),
    /// The program ends.
    Quit,
}

/// An action by what it holds.
pub enum Step {
    Write(Seq<u8>),
    Flush,
    DrawScreen,
    DrawBar(bool),
    Sleep(u64),
    ClearSelection,
    Select { kind: SelectionKind, line: int, column: int },
    ExtendSelection { line: int, column: int },
    Scroll(int),
    ScrollToBottom,
    Resize(TermSize),
    Input(Seq<u8>),
    Quit,
}

impl View for Action {
    type V = Step;

    open spec fn view(&self) -> Step {
        match *self {
            Action::Write(b) => Step::Write(b@),
            Action::Flush => Step::Flush,
            Action::DrawScreen => Step::DrawScreen,
            Action::DrawBar(flash) => Step::DrawBar(flash),
            Action::Sleep(ms) => Step::Sleep(ms),
            Action::ClearSelection => Step::ClearSelection,
            Action::Select { kind, line, column } => Step::Select {
                kind,
                line: line as int,
                column: column as int,
            },
            Action::ExtendSelection { line, column } => Step::ExtendSelection {
                line: line as int,
                column: column as int,
            },
            Action::Scroll(n) => Step::Scroll(n as int),
            Action::ScrollToBottom => Step::ScrollToBottom,
            Action::Resize(size) => Step::Resize(size),
            Action::Input(b) => Step::Input(b@),
            Action::Quit => Step::Quit,
        }
    }
}

/// What the actions of a vector hold.
pub open spec fn views(v: Seq<Action>) -> Seq<Step> {
    Seq::new(v.len(), |i: int| v[i]@)
}

// ---- The state ----

/// The local screen, the dialog that may lie over it, and what the outer
/// terminal was last told.
pub struct Local {
    pub cols: u16,
    pub rows: u16,
    pub bar_url: Option<String>,
    pub slug: Option<String>,
    pub dialog: Option<ModalContent>,
    pub show_on_start: bool,
    pub modal_open: bool,
    pub clicks: Clicks,
    pub modes: Modes,
    pub cursor: CursorStyle,
}

/// What is known of the view into the terminal when something comes in: how far
/// it is scrolled back, whether there is a selection, and the selected text.
pub struct ViewState {
    pub display_offset: usize,
    pub selecting: bool,
    pub selected: Option<String>,
}

/// Something that the loop around the local screen waits for.
pub enum LocalEvent {
    Stdin(StdinEvent),
    /// The terminal answers a query of the program.
    Reply(String),
    Resized { cols: u16, rows: u16 },
    /// Output was dropped because it was not read in time.
    Lagged,
    /// The session, or the input of the user, has ended.
    Closed,
}

/// How many rows the terminal has above the status bar.
pub fn pty_rows(rows: u16) -> (r: u16)
    ensures
        r == modal::screen_rows(rows),
{
    if rows >= 2 {
        rows - 1
    } else {
        1
    }
}

/// Output scrolls in the rows above the status bar only.
pub open spec fn region_text(rows: u16) -> Seq<char> {
    ansi::csi(seq![1u64, modal::screen_rows(rows) as u64], 'r')
}

/// The screen is cleared for the terminal to be drawn again.
pub open spec fn cleared_text(rows: u16) -> Seq<char> {
    region_text(rows) + seq![ansi::esc(), '[', 'H'] + ansi::csi(seq![2u64], 'J')
}

/// The cursor shows or is hidden.
pub open spec fn cursor_switch_text(on: bool) -> Seq<char> {
    sync::switch_text(Switch { code: 25, on })
}

/// The address in the status bar gives way to the note that it was copied.
pub open spec fn copied_text(rows: u16, bar_url: Option<Seq<char>>) -> Seq<char> {
    let width = match bar_url {
        Some(u) => text::byte_len(u) as int,
        None => 0,
    };
    seq![ansi::esc(), '7'] + ansi::goto(rows as u64, 2) + ansi::bg(180, 189, 104) + ansi::bold_fg(
        29,
        31,
        33,
    ) + "Copied!"@ + ansi::spaces(text::minus(width, 7)) + ansi::reset() + seq![ansi::esc(), '8']
}

impl Local {
    /// The dialog is open only where there is one.
    pub open spec fn wf(&self) -> bool {
        self.modal_open ==> self.dialog is Some
    }

    /// A frame of the dialog.
    pub open spec fn frame(&self, frame: u8) -> Seq<u8> {
        encode_utf8(
            modal::frame_text(
                self.dialog->0.lines(self.cols as int, self.show_on_start),
                self.cols,
                self.rows,
                frame,
            ),
        )
    }

    /// The screen and the bar are drawn.
    pub open spec fn redraw() -> Seq<Step> {
        seq![Step::DrawScreen, Step::DrawBar(false)]
    }

    /// The dialog comes up in three frames, where there is one.
    pub open spec fn opening(&self) -> Seq<Step> {
        if self.dialog is Some {
            seq![
                Step::Write(encode_utf8(cursor_switch_text(false))),
                Step::Write(self.frame(0)),
                Step::Flush,
                Step::Sleep(33),
                Step::Write(self.frame(1)),
                Step::Flush,
                Step::Sleep(33),
                Step::Write(self.frame(2)),
                Step::Flush,
            ]
        } else {
            Seq::empty()
        }
    }

    /// The dialog goes away.
    pub open spec fn closing(&self) -> Seq<Step> {
        seq![
            Step::Write(encode_utf8(cleared_text(self.rows))),
            Step::DrawScreen,
            Step::Write(encode_utf8(cursor_switch_text(true))),
            Step::DrawBar(false),
        ]
    }

    /// The address of the dialog is copied; for a second the bar says so.
    pub open spec fn copying(&self) -> Seq<Step> {
        if self.dialog is Some {
            seq![
                Step::Write(
                    encode_utf8(
                        copy_text(Clipboard::Clipboard, encode_utf8(self.dialog->0.url@)),
                    ),
                ),
                Step::DrawBar(true),
                Step::Sleep(1000),
                Step::Write(self.frame(2)),
                Step::DrawBar(false),
            ]
        } else {
            Seq::empty()
        }
    }

    /// The first column of the part of the bar that opens the dialog.
    pub open spec fn menu_start(&self) -> int {
        text::minus(self.cols as int, 13)
    }

    /// Whether a cell lies in the status bar.
    pub open spec fn in_bar(&self, row: int) -> bool {
        row >= modal::screen_rows(self.rows)
    }

    /// A click on the bar opens the dialog at its right end; elsewhere it copies
    /// the address, where there is one.
    pub open spec fn bar_click(&self, col: int) -> Seq<Step> {
        if col >= self.menu_start() {
            self.opening()
        } else if self.slug is Some {
            seq![
                Step::Write(
                    encode_utf8(
                        copy_text(
                            Clipboard::Clipboard,
                            encode_utf8(render::share_url(self.slug->0@)),
                        ),
                    ),
                ),
                Step::Write(encode_utf8(copied_text(self.rows, text::held(self.bar_url)))),
                Step::Flush,
                Step::Sleep(800),
                Step::DrawBar(false),
            ]
        } else {
            Seq::empty()
        }
    }

    /// A click above the bar starts a selection; the second and the third in a
    /// row take in the word or the line at once.
    pub open spec fn select_click(
        &self,
        col: int,
        row: int,
        alt: bool,
        offset: int,
        now: u64,
    ) -> Seq<Step> {
        let count = clicked(self.clicks, now, col as u16, row as u16).count;
        let line = terminal::shown_line(row, offset);
        seq![
            Step::ClearSelection,
            Step::Select { kind: selection_kind(alt, count), line, column: col },
        ] + (if count >= 2 {
            seq![Step::ExtendSelection { line, column: col }]
        } else {
            Seq::empty()
        }) + Self::redraw()
    }

    /// Keys for the shell: the selection goes away and the view shows the last
    /// lines.
    pub open spec fn typing(&self, data: Seq<u8>, view: ViewState) -> Seq<Step> {
        seq![Step::ClearSelection] + (if view.display_offset != 0 {
            seq![Step::ScrollToBottom]
        } else {
            Seq::empty()
        }) + (if view.selecting || view.display_offset != 0 {
            Self::redraw()
        } else {
            Seq::empty()
        }) + seq![Step::Input(data)]
    }

    /// The button goes up: what is selected is copied, and stays visible only
    /// after a double or triple click.
    pub open spec fn select_end(&self, view: ViewState) -> Seq<Step> {
        (if view.selected is Some && view.selected->0@.len() > 0 {
            seq![
                Step::Write(
                    encode_utf8(copy_text(Clipboard::Clipboard, encode_utf8(view.selected->0@))),
                ),
            ]
        } else {
            Seq::empty()
        }) + (if self.clicks.count <= 1 {
            seq![Step::ClearSelection] + Self::redraw()
        } else {
            Seq::empty()
        }) + seq![Step::Flush]
    }

    /// What is done when something comes in from the user.
    pub open spec fn stdin_steps(&self, event: Event, view: ViewState, now: u64) -> Seq<Step> {
        match event {
            Event::Data(d) => self.typing(d, view),
            Event::ScrollUp(n) => seq![Step::Scroll(n)] + Self::redraw(),
            Event::ScrollDown(n) => seq![Step::Scroll(-n)] + Self::redraw(),
            Event::Mouse(d) => seq![Step::Input(d)],
            Event::Focus(d) => seq![Step::Input(d)],
            Event::SelectStart { col, row, alt } => if self.in_bar(row) {
                self.bar_click(col)
            } else {
                self.select_click(col, row, alt, view.display_offset as int, now)
            },
            Event::SelectUpdate(col, row) => if view.selecting {
                seq![
                    Step::ExtendSelection {
                        line: terminal::shown_line(row, view.display_offset as int),
                        column: col,
                    },
                ] + Self::redraw()
            } else {
                Seq::empty()
            },
            Event::SelectEnd => self.select_end(view),
            Event::ModalToggle => if self.modal_open {
                self.closing()
            } else {
                self.opening()
            },
            Event::ModalCopy => self.copying(),
            Event::ModalQuit => seq![Step::Quit],
            Event::ModalDismiss => if self.modal_open {
                self.closing()
            } else {
                Seq::empty()
            },
        }
    }

    /// The state after something came in from the user.
    pub open spec fn after_stdin(&self, event: Event, now: u64) -> Local {
        match event {
            Event::SelectStart { col, row, alt } => if self.in_bar(row) {
                if col >= self.menu_start() {
                    self.with_dialog(true)
                } else {
                    *self
                }
            } else {
                Local { clicks: clicked(self.clicks, now, col as u16, row as u16), ..*self }
            },
            Event::ModalToggle => self.with_dialog(!self.modal_open),
            Event::ModalDismiss => self.with_dialog(false),
            _ => *self,
        }
    }

    /// The dialog, where there is one, open or closed.
    pub open spec fn with_dialog(&self, open: bool) -> Local {
        Local { modal_open: open && self.dialog is Some, ..*self }
    }

    /// Whether an event brings a frame of the dialog on the screen.
    pub open spec fn shows_dialog(&self, event: Event) -> bool {
        match event {
            Event::SelectStart { col, row, alt } => self.in_bar(row) && col >= self.menu_start(),
            Event::ModalToggle => !self.modal_open,
            Event::ModalCopy => true,
            _ => false,
        }
    }

    /// An event can be handled unless it asks for a dialog that cannot be laid
    /// out on the screen.
    pub open spec fn handles(&self, event: Event) -> bool {
        &&& self.shows_dialog(event) && self.dialog is Some ==> self.dialog->0.fits(
            self.cols as int,
        )
        &&& event matches Event::ScrollDown(n) ==> n > i32::MIN
    }

    /// What is done when the loop wakes up.
    pub open spec fn steps(&self, event: LocalEvent, view: ViewState, now: u64) -> Seq<Step> {
        match event {
            LocalEvent::Stdin(e) => self.stdin_steps(e@, view, now),
            LocalEvent::Reply(t) => seq![Step::Input(encode_utf8(t@))],
            LocalEvent::Resized { cols, rows } => seq![
                Step::Resize(
                    TermSize { lines: modal::screen_rows(rows) as usize, cols: cols as usize },
                ),
                Step::Write(encode_utf8(region_text(rows))),
            ] + Self::redraw(),
            LocalEvent::Lagged => seq![Step::DrawScreen, Step::Flush],
            LocalEvent::Closed => seq![Step::Quit],
        }
    }

    /// The state after the loop woke up.
    pub open spec fn after(&self, event: LocalEvent, now: u64) -> Local {
        match event {
            LocalEvent::Stdin(e) => self.after_stdin(e@, now),
            LocalEvent::Resized { cols, rows } => Local { cols, rows, ..*self },
            _ => *self,
        }
    }
}

// ---- Handling ----

fn bytes_of(t: &str) -> (r: Vec<u8>)
    ensures
        r@ == encode_utf8(t@),
{
    let mut r: Vec<u8> = Vec::new();
    render::append_text(&mut r, t);
    assert(r@ =~= encode_utf8(t@));
    r
}

fn push_region(out: &mut String, rows: u16)
    ensures
        final(out)@ == old(out)@ + region_text(rows),
{
    let last: u64 = pty_rows(rows) as u64;
    ansi::push_csi(out, &[1, last], 'r');
    assert([1u64, last]@ =~= seq![1u64, last]);
}

fn region_bytes(rows: u16) -> (r: Vec<u8>)
    ensures
        r@ == encode_utf8(region_text(rows)),
{
    let mut out = String::new();
    push_region(&mut out, rows);
    assert(out@ =~= region_text(rows));
    bytes_of(out.as_str())
}

fn cleared_bytes(rows: u16) -> (r: Vec<u8>)
    ensures
        r@ == encode_utf8(cleared_text(rows)),
{
    let mut out = String::new();
    push_region(&mut out, rows);
    out.push('\x1b');
    out.push('[');
    out.push('H');
    ansi::push_csi(&mut out, &[2], 'J');
    assert([2u64]@ =~= seq![2u64]);
    assert(out@ =~= cleared_text(rows));
    bytes_of(out.as_str())
}

fn cursor_switch_bytes(on: bool) -> (r: Vec<u8>)
    ensures
        r@ == encode_utf8(cursor_switch_text(on)),
{
    let mut out = String::new();
    sync::push_switch(&mut out, 25, on);
    assert(out@ =~= cursor_switch_text(on));
    bytes_of(out.as_str())
}

fn copy_bytes(data: &[u8]) -> (r: Vec<u8>)
    ensures
        r@ == encode_utf8(copy_text(Clipboard::Clipboard, data@)),
{
    let out = copy_sequence(Clipboard::Clipboard, data);
    bytes_of(out.as_str())
}

fn copied_bytes(rows: u16, bar_url: &Option<String>) -> (r: Vec<u8>)
    ensures
        r@ == encode_utf8(copied_text(rows, text::held(*bar_url))),
{
    let width: usize = match bar_url {
        Some(u) => u.as_str().as_bytes().len(),
        None => 0,
    };
    let pad: usize = if width > 7 {
        width - 7
    } else {
        0
    };
    let mut out = String::new();
    out.push('\x1b');
    out.push('7');
    ansi::push_goto(&mut out, rows as u64, 2);
    ansi::push_bg(&mut out, 180, 189, 104);
    ansi::push_bold_fg(&mut out, 29, 31, 33);
    out.append("Copied!");
    ansi::push_spaces(&mut out, pad);
    ansi::push_reset(&mut out);
    out.push('\x1b');
    out.push('8');
    assert(out@ =~= copied_text(rows, text::held(*bar_url)));
    bytes_of(out.as_str())
}

fn click(last: Clicks, now: u64, col: u16, row: u16) -> (r: Clicks)
    ensures
        r == clicked(last, now, col, row),
{
    let close: bool = now < last.time || now - last.time < DOUBLE_CLICK_TIMEOUT;
    let count: u8 = if close && last.col == col && last.row == row {
        last.count % 3 + 1
    } else {
        1
    };
    Clicks { time: now, col, row, count }
}

fn kind_of(alt: bool, count: u8) -> (r: SelectionKind)
    ensures
        r == selection_kind(alt, count),
{
    if alt {
        SelectionKind::Block
    } else {
        match count {
            2 => SelectionKind::Semantic,
            3 => SelectionKind::Lines,
            _ => SelectionKind::Simple,
        }
    }
}

impl Local {
    /// The state at the start. There is a dialog where there is an address.
    pub fn new(
        cols: u16,
        rows: u16,
        bar_url: Option<String>,
        slug: Option<String>,
        show_on_start: bool,
        modes: Modes,
        cursor: CursorStyle,
        now: u64,
    ) -> (r: Self)
        ensures
            r.wf(),
            r.cols == cols,
            r.rows == rows,
            r.bar_url == bar_url,
            r.slug == slug,
            r.show_on_start == show_on_start,
            r.modes == modes,
            r.cursor == cursor,
            r.clicks == (Clicks { time: now, col: 0, row: 0, count: 0 }),
            !r.modal_open,
            r.dialog is Some <==> slug is Some,
            r.dialog matches Some(d) ==> {
                &&& d.url@ == render::share_url(slug->0@)
                &&& d.display_url@ == match bar_url {
                    Some(u) => u@,
                    None => Seq::empty(),
                }
                &&& d.qr() == modal::picture_lines(modal::qr_code(d.url@))
                &&& modal::qr_code(d.url@) matches Some(t) ==> modal::is_qr_picture(t)
            },
    {
        proof {
            reveal_strlit("");
            assert(""@ =~= Seq::empty());
        }
        let dialog = match &slug {
            Some(s) => {
                let url = share_address(s.as_str());
                match &bar_url {
                    Some(u) => Some(ModalContent::new(url.as_str(), u.as_str())),
                    None => Some(ModalContent::new(url.as_str(), "")),
                }
            },
            None => None,
        };
        Local {
            cols,
            rows,
            bar_url,
            slug,
            dialog,
            show_on_start,
            modal_open: false,
            clicks: Clicks { time: now, col: 0, row: 0, count: 0 },
            modes,
            cursor,
        }
    }

    /// What came in on the keyboard, as the state says that it is read.
    pub fn read_input(&self, bytes: &[u8]) -> (r: Vec<StdinEvent>)
        ensures
            input::views(r@) == input::input_events(
                bytes@,
                self.modes.has_any(terminal::MOUSE_MODE),
                self.modal_open,
            ),
    {
        input::parse_stdin(bytes, self.modes.wants_mouse(), self.modal_open)
    }

    fn push_redraw(actions: &mut Vec<Action>)
        ensures
            views(final(actions)@) == views(old(actions)@) + Self::redraw(),
    {
        actions.push(Action::DrawScreen);
        actions.push(Action::DrawBar(false));
        assert(views(actions@) =~= views(old(actions)@) + Self::redraw());
    }

    fn frame_bytes(&self, frame: u8) -> (r: Vec<u8>)
        requires
            self.dialog is Some,
            self.dialog->0.fits(self.cols as int),
        ensures
            r@ == self.frame(frame),
    {
        match &self.dialog {
            Some(d) => d.render_frame(self.cols, self.rows, frame, self.show_on_start),
            None => Vec::new(),
        }
    }

    fn open_dialog(&self) -> (r: Vec<Action>)
        requires
            self.dialog is Some ==> self.dialog->0.fits(self.cols as int),
        ensures
            views(r@) == self.opening(),
    {
        let mut actions: Vec<Action> = Vec::new();
        if self.dialog.is_some() {
            actions.push(Action::Write(cursor_switch_bytes(false)));
            actions.push(Action::Write(self.frame_bytes(0)));
            actions.push(Action::Flush);
            actions.push(Action::Sleep(33));
            actions.push(Action::Write(self.frame_bytes(1)));
            actions.push(Action::Flush);
            actions.push(Action::Sleep(33));
            actions.push(Action::Write(self.frame_bytes(2)));
            actions.push(Action::Flush);
        }
        assert(views(actions@) =~= self.opening());
        actions
    }

    fn close_dialog(&self) -> (r: Vec<Action>)
        ensures
            views(r@) == self.closing(),
    {
        let mut actions: Vec<Action> = Vec::new();
        actions.push(Action::Write(cleared_bytes(self.rows)));
        actions.push(Action::DrawScreen);
        actions.push(Action::Write(cursor_switch_bytes(true)));
        actions.push(Action::DrawBar(false));
        assert(views(actions@) =~= self.closing());
        actions
    }

    fn copy_address(&self) -> (r: Vec<Action>)
        requires
            self.dialog is Some ==> self.dialog->0.fits(self.cols as int),
        ensures
            views(r@) == self.copying(),
    {
        let mut actions: Vec<Action> = Vec::new();
        if let Some(d) = &self.dialog {
            actions.push(Action::Write(copy_bytes(d.url.as_str().as_bytes())));
            actions.push(Action::DrawBar(true));
            actions.push(Action::Sleep(1000));
            actions.push(Action::Write(self.frame_bytes(2)));
            actions.push(Action::DrawBar(false));
        }
        assert(views(actions@) =~= self.copying());
        actions
    }

    fn click_bar(&self, col: u16) -> (r: Vec<Action>)
        requires
            col >= self.menu_start() && self.dialog is Some ==> self.dialog->0.fits(
                self.cols as int,
            ),
        ensures
            views(r@) == self.bar_click(col as int),
    {
        if col as u32 + 13 >= self.cols as u32 {
            return self.open_dialog();
        }
        let mut actions: Vec<Action> = Vec::new();
        if let Some(s) = &self.slug {
            let url = share_address(s.as_str());
            actions.push(Action::Write(copy_bytes(url.as_str().as_bytes())));
            actions.push(Action::Write(copied_bytes(self.rows, &self.bar_url)));
            actions.push(Action::Flush);
            actions.push(Action::Sleep(800));
            actions.push(Action::DrawBar(false));
        }
        assert(views(actions@) =~= self.bar_click(col as int));
        actions
    }

    fn click_screen(&mut self, col: u16, row: u16, alt: bool, offset: usize, now: u64) -> (r: Vec<
        Action,
    >)
        requires
            offset <= i32::MAX,
        ensures
            *final(self) == (Local {
                clicks: clicked(old(self).clicks, now, col, row),
                ..*old(self)
            }),
            views(r@) == old(self).select_click(col as int, row as int, alt, offset as int, now),
    {
        self.clicks = click(self.clicks, now, col, row);
        let count: u8 = self.clicks.count;
        let line: i32 = terminal::grid_line(row as usize, offset);
        let mut actions: Vec<Action> = Vec::new();
        actions.push(Action::ClearSelection);
        actions.push(
            Action::Select { kind: kind_of(alt, count), line, column: col as usize },
        );
        if count >= 2 {
            actions.push(Action::ExtendSelection { line, column: col as usize });
        }
        Self::push_redraw(&mut actions);
        assert(views(actions@) =~= old(self).select_click(
            col as int,
            row as int,
            alt,
            offset as int,
            now,
        ));
        actions
    }

    fn type_keys(&self, data: Vec<u8>, view: &ViewState) -> (r: Vec<Action>)
        ensures
            views(r@) == self.typing(data@, *view),
    {
        let ghost d = data@;
        let mut actions: Vec<Action> = Vec::new();
        actions.push(Action::ClearSelection);
        if view.display_offset != 0 {
            actions.push(Action::ScrollToBottom);
        }
        assert(views(actions@) =~= seq![Step::ClearSelection] + (if view.display_offset != 0 {
            seq![Step::ScrollToBottom]
        } else {
            Seq::empty()
        }));
        if view.selecting || view.display_offset != 0 {
            Self::push_redraw(&mut actions);
        }
        let ghost before = views(actions@);
        actions.push(Action::Input(data));
        assert(views(actions@) =~= before + seq![Step::Input(d)]);
        assert(views(actions@) =~= self.typing(d, *view));
        actions
    }

    fn end_selection(&self, view: &ViewState) -> (r: Vec<Action>)
        ensures
            views(r@) == self.select_end(*view),
    {
        let mut actions: Vec<Action> = Vec::new();
        if let Some(t) = &view.selected {
            if t.as_str().unicode_len() > 0 {
                actions.push(Action::Write(copy_bytes(t.as_str().as_bytes())));
            }
        }
        let ghost copied = views(actions@);
        if self.clicks.count <= 1 {
            actions.push(Action::ClearSelection);
            assert(views(actions@) =~= copied + seq![Step::ClearSelection]);
            Self::push_redraw(&mut actions);
            assert(views(actions@) =~= copied + (seq![Step::ClearSelection] + Self::redraw()));
        }
        let ghost before = views(actions@);
        actions.push(Action::Flush);
        assert(views(actions@) =~= before + seq![Step::Flush]);
        assert(views(actions@) =~= self.select_end(*view));
        actions
    }

    fn scroll(n: i32) -> (r: Vec<Action>)
        ensures
            views(r@) == seq![Step::Scroll(n as int)] + Self::redraw(),
    {
        let mut actions: Vec<Action> = Vec::new();
        actions.push(Action::Scroll(n));
        Self::push_redraw(&mut actions);
        assert(views(actions@) =~= seq![Step::Scroll(n as int)] + Self::redraw());
        actions
    }

    fn input(data: Vec<u8>) -> (r: Vec<Action>)
        ensures
            views(r@) == seq![Step::Input(data@)],
    {
        let ghost d = data@;
        let mut actions: Vec<Action> = Vec::new();
        actions.push(Action::Input(data));
        assert(views(actions@) =~= seq![Step::Input(d)]);
        actions
    }

    /// Handles what came in from the user; `now` is the time in nanoseconds.
    pub fn handle_stdin(&mut self, event: StdinEvent, view: &ViewState, now: u64) -> (r: Vec<
        Action,
    >)
        requires
            old(self).wf(),
            old(self).handles(event@),
            view.display_offset <= i32::MAX,
        ensures
            final(self).wf(),
            *final(self) == old(self).after_stdin(event@, now),
            views(r@) == old(self).stdin_steps(event@, *view, now),
    {
        match event {
            StdinEvent::Data(data) => self.type_keys(data, view),
            StdinEvent::ScrollUp(n) => Self::scroll(n),
            StdinEvent::ScrollDown(n) => Self::scroll(-n),
            StdinEvent::Mouse(data) => Self::input(data),
            StdinEvent::Focus(data) => Self::input(data),
            StdinEvent::SelectStart { col, row, alt } => {
                if row >= pty_rows(self.rows) {
                    let actions = self.click_bar(col);
                    if col as u32 + 13 >= self.cols as u32 && self.dialog.is_some() {
                        self.modal_open = true;
                    }
                    actions
                } else {
                    self.click_screen(col, row, alt, view.display_offset, now)
                }
            },
            StdinEvent::SelectUpdate(col, row) => {
                let mut actions: Vec<Action> = Vec::new();
                if view.selecting {
                    let line: i32 = terminal::grid_line(row as usize, view.display_offset);
                    actions.push(Action::ExtendSelection { line, column: col as usize });
                    Self::push_redraw(&mut actions);
                }
                assert(views(actions@) =~= old(self).stdin_steps(event@, *view, now));
                actions
            },
            StdinEvent::SelectEnd => self.end_selection(view),
            StdinEvent::ModalToggle => {
                if self.modal_open {
                    let actions = self.close_dialog();
                    self.modal_open = false;
                    actions
                } else {
                    let actions = self.open_dialog();
                    self.modal_open = self.dialog.is_some();
                    actions
                }
            },
            StdinEvent::ModalCopy => self.copy_address(),
            StdinEvent::ModalQuit => {
                let mut actions: Vec<Action> = Vec::new();
                actions.push(Action::Quit);
                assert(views(actions@) =~= seq![Step::Quit]);
                actions
            },
            StdinEvent::ModalDismiss => {
                if self.modal_open {
                    let actions = self.close_dialog();
                    self.modal_open = false;
                    actions
                } else {
                    let actions: Vec<Action> = Vec::new();
                    assert(views(actions@) =~= Seq::empty());
                    actions
                }
            },
        }
    }

    /// Whether an event from the user can be handled.
    pub fn can_handle(&self, event: &StdinEvent) -> (r: bool)
        ensures
            r == self.handles(event@),
    {
        let shows: bool = match event {
            StdinEvent::SelectStart { col, row, alt } => *row >= pty_rows(self.rows) && *col as u32
                + 13 >= self.cols as u32,
            StdinEvent::ModalToggle => !self.modal_open,
            StdinEvent::ModalCopy => true,
            StdinEvent::ScrollDown(n) => {
                return *n > i32::MIN;
            },
            _ => false,
        };
        match &self.dialog {
            Some(d) => !shows || d.can_render(self.cols),
            None => true,
        }
    }

    /// Handles what the loop woke up for; `now` is the time in nanoseconds.
    pub fn handle(&mut self, event: LocalEvent, view: &ViewState, now: u64) -> (r: Vec<Action>)
        requires
            old(self).wf(),
            event matches LocalEvent::Stdin(e) ==> old(self).handles(e@),
            view.display_offset <= i32::MAX,
        ensures
            final(self).wf(),
            *final(self) == old(self).after(event, now),
            views(r@) == old(self).steps(event, *view, now),
    {
        let ghost e = event;
        match event {
            LocalEvent::Stdin(e) => self.handle_stdin(e, view, now),
            LocalEvent::Reply(t) => Self::input(bytes_of(t.as_str())),
            LocalEvent::Resized { cols, rows } => {
                self.cols = cols;
                self.rows = rows;
                let mut actions: Vec<Action> = Vec::new();
                actions.push(Action::Resize(TermSize::new(pty_rows(rows), cols)));
                actions.push(Action::Write(region_bytes(rows)));
                Self::push_redraw(&mut actions);
                assert(views(actions@) =~= old(self).steps(e, *view, now));
                actions
            },
            LocalEvent::Lagged => {
                let mut actions: Vec<Action> = Vec::new();
                actions.push(Action::DrawScreen);
                actions.push(Action::Flush);
                assert(views(actions@) =~= old(self).steps(e, *view, now));
                actions
            },
            LocalEvent::Closed => {
                let mut actions: Vec<Action> = Vec::new();
                actions.push(Action::Quit);
                assert(views(actions@) =~= old(self).steps(e, *view, now));
                actions
            },
        }
    }
}

/// The address of a session.
pub fn share_address(slug: &str) -> (r: String)
    ensures
        r@ == render::share_url(slug@),
{
    let mut url = "https://remux.sh/".to_string();
    url.append(slug);
    url
}

// ---- Drawing ----

/// The whole screen, and the cursor in its place.
pub open spec fn screen_text(screen: &Screen) -> Seq<char> {
    render::full_text(screen) + render::cursor_text(screen)
}

/// Draws the whole screen.
pub fn screen_bytes(screen: &Screen) -> (r: Vec<u8>)
    requires
        screen.wf(),
    ensures
        r@ == encode_utf8(screen_text(screen)),
{
    let mut buf: Vec<u8> = Vec::new();
    render::render_full(&mut buf, screen);
    render::position_cursor(&mut buf, screen);
    proof {
        text::lemma_encode_concat(render::full_text(screen), render::cursor_text(screen));
    }
    assert(buf@ =~= encode_utf8(screen_text(screen)));
    buf
}

impl Local {
    /// The status bar.
    pub open spec fn bar(&self, clients: nat, flash_copied: bool) -> Seq<char> {
        render::bar_text(
            self.cols,
            self.rows,
            text::held(self.bar_url),
            text::held(self.slug),
            clients,
            flash_copied,
        )
    }

    fn draw_bar(&self, buf: &mut Vec<u8>, clients: usize, flash_copied: bool)
        ensures
            final(buf)@ == old(buf)@ + encode_utf8(self.bar(clients as nat, flash_copied)),
    {
        let bar_url: Option<&str> = match &self.bar_url {
            Some(u) => Some(u.as_str()),
            None => None,
        };
        let slug: Option<&str> = match &self.slug {
            Some(s) => Some(s.as_str()),
            None => None,
        };
        assert(text::held_str(bar_url) == text::held(self.bar_url));
        assert(text::held_str(slug) == text::held(self.slug));
        render::draw_bar(buf, self.cols, self.rows, bar_url, slug, clients, flash_copied);
    }

    /// Draws the status bar.
    pub fn bar_bytes(&self, clients: usize, flash_copied: bool) -> (r: Vec<u8>)
        ensures
            r@ == encode_utf8(self.bar(clients as nat, flash_copied)),
    {
        let mut buf: Vec<u8> = Vec::new();
        self.draw_bar(&mut buf, clients, flash_copied);
        assert(buf@ =~= encode_utf8(self.bar(clients as nat, flash_copied)));
        buf
    }

    /// What the outer terminal is told when the modes and the cursor have become
    /// the given ones.
    pub open spec fn told(&self, modes: Modes, cursor: CursorStyle) -> Seq<char> {
        sync::modes_text(self.modes, modes) + sync::style_text(self.cursor, cursor)
    }

    fn tell(&mut self, buf: &mut Vec<u8>, modes: Modes, cursor: CursorStyle)
        ensures
            *final(self) == (Local { modes, cursor, ..*old(self) }),
            final(buf)@ == old(buf)@ + encode_utf8(old(self).told(modes, cursor)),
    {
        sync::sync_modes(buf, self.modes, modes);
        self.modes = modes;
        sync::sync_cursor_style(buf, self.cursor, cursor);
        self.cursor = cursor;
        proof {
            text::lemma_encode_concat(
                sync::modes_text(old(self).modes, modes),
                sync::style_text(old(self).cursor, cursor),
            );
        }
        assert(buf@ =~= old(buf)@ + encode_utf8(old(self).told(modes, cursor)));
    }

    /// What is written at the start: the rows that scroll, the screen, the modes,
    /// the cursor and the bar.
    pub open spec fn start_text(
        &self,
        screen: &Screen,
        modes: Modes,
        cursor: CursorStyle,
        clients: nat,
    ) -> Seq<char> {
        region_text(self.rows) + render::full_text(screen) + self.told(modes, cursor)
            + render::cursor_text(screen) + self.bar(clients, false)
    }

    /// Draws everything for the first time.
    pub fn start(
        &mut self,
        screen: &Screen,
        modes: Modes,
        cursor: CursorStyle,
        clients: usize,
    ) -> (r: Vec<u8>)
        requires
            screen.wf(),
        ensures
            *final(self) == (Local { modes, cursor, ..*old(self) }),
            r@ == encode_utf8(old(self).start_text(screen, modes, cursor, clients as nat)),
    {
        let mut buf: Vec<u8> = region_bytes(self.rows);
        render::render_full(&mut buf, screen);
        self.tell(&mut buf, modes, cursor);
        render::position_cursor(&mut buf, screen);
        self.draw_bar(&mut buf, clients, false);
        proof {
            let a = region_text(old(self).rows);
            let b = render::full_text(screen);
            let c = old(self).told(modes, cursor);
            let d = render::cursor_text(screen);
            let e = old(self).bar(clients as nat, false);
            lemma_encode_five(a, b, c, d, e);
        }
        buf
    }

    /// What is written when the shell has printed something. While the dialog is
    /// open the screen under it is not drawn.
    pub open spec fn output_text(
        &self,
        screen: &Screen,
        damage: Damage,
        modes: Modes,
        cursor: CursorStyle,
        clients: nat,
    ) -> Seq<char> {
        if self.modal_open {
            self.told(modes, cursor)
        } else {
            render::damage_text(screen, damage) + self.told(modes, cursor) + render::cursor_text(
                screen,
            ) + self.bar(clients, false)
        }
    }

    /// Draws what the shell has printed.
    pub fn output(
        &mut self,
        screen: &Screen,
        damage: &Damage,
        modes: Modes,
        cursor: CursorStyle,
        clients: usize,
    ) -> (r: Vec<u8>)
        requires
            screen.wf(),
            render::damage_on_screen(screen, *damage),
        ensures
            *final(self) == (Local { modes, cursor, ..*old(self) }),
            r@ == encode_utf8(
                old(self).output_text(screen, *damage, modes, cursor, clients as nat),
            ),
    {
        let mut buf: Vec<u8> = Vec::new();
        if self.modal_open {
            self.tell(&mut buf, modes, cursor);
            assert(buf@ =~= encode_utf8(old(self).told(modes, cursor)));
        } else {
            render::render_damage(&mut buf, screen, damage);
            self.tell(&mut buf, modes, cursor);
            render::position_cursor(&mut buf, screen);
            self.draw_bar(&mut buf, clients, false);
            proof {
                let b = render::damage_text(screen, *damage);
                let c = old(self).told(modes, cursor);
                let d = render::cursor_text(screen);
                let e = old(self).bar(clients as nat, false);
                lemma_encode_five(Seq::empty(), b, c, d, e);
                assert(Seq::empty() + b =~= b);
                assert(encode_utf8(Seq::empty()) =~= Seq::<u8>::empty());
            }
        }
        buf
    }
}

proof fn lemma_encode_five(
    a: Seq<char>,
    b: Seq<char>,
    c: Seq<char>,
    d: Seq<char>,
    e: Seq<char>,
)
    ensures
        encode_utf8(a + b + c + d + e) == encode_utf8(a) + encode_utf8(b) + encode_utf8(c)
            + encode_utf8(d) + encode_utf8(e),
{
    text::lemma_encode_concat(a, b);
    text::lemma_encode_concat(a + b, c);
    text::lemma_encode_concat(a + b + c, d);
    text::lemma_encode_concat(a + b + c + d, e);
}

// ---- Laws ----

/// The bytes that a row of steps hands to the shell.
pub open spec fn sent(steps: Seq<Step>) -> Seq<u8>
    decreases steps.len(),
{
    if steps.len() == 0 {
        Seq::empty()
    } else {
        sent(steps.drop_last()) + match steps.last() {
            Step::Input(d) => d,
            _ => Seq::empty(),
        }
    }
}

/// Whether no step hands anything to the shell or ends the program.
spec fn stays_local(steps: Seq<Step>) -> bool {
    forall|i: int|
        0 <= i < steps.len() ==> !(#[trigger] steps[i] is Input) && !(steps[i] is Quit)
}

proof fn lemma_nothing_sent(steps: Seq<Step>)
    requires
        stays_local(steps),
    ensures
        sent(steps) == Seq::<u8>::empty(),
    decreases steps.len(),
{
    if steps.len() > 0 {
        assert(!(steps[steps.len() - 1] is Input));
        lemma_nothing_sent(steps.drop_last());
    }
}

proof fn lemma_dialog_steps(s: Local)
    ensures
        stays_local(s.opening()),
        stays_local(s.closing()),
        stays_local(s.copying()),
{
}

proof fn lemma_click_steps(s: Local, col: int, row: int, alt: bool, offset: int, now: u64)
    ensures
        stays_local(s.bar_click(col)),
        stays_local(s.select_click(col, row, alt, offset, now)),
{
    lemma_dialog_steps(s);
}

proof fn lemma_end_steps(s: Local, view: ViewState)
    ensures
        stays_local(s.select_end(view)),
{
}

proof fn lemma_typing_steps(s: Local, data: Seq<u8>, view: ViewState)
    ensures
        s.typing(data, view).len() > 0,
        s.typing(data, view).last() == Step::Input(data),
        stays_local(s.typing(data, view).drop_last()),
{
}

proof fn lemma_other_steps(s: Local, event: Event, view: ViewState, now: u64)
    requires
        !(event is Data) && !(event is Mouse) && !(event is Focus) && !(event is ModalQuit),
    ensures
        stays_local(s.stdin_steps(event, view, now)),
{
    lemma_dialog_steps(s);
    lemma_end_steps(s, view);
    if let Event::SelectStart { col, row, alt } = event {
        lemma_click_steps(s, col, row, alt, view.display_offset as int, now);
    }
}

/// What the user types reaches the shell as it was read, and nothing else does:
/// the bytes that an event hands on are those that the shell gets.
pub proof fn shell_gets_what_is_typed(s: Local, event: Event, view: ViewState, now: u64)
    ensures
        sent(s.stdin_steps(event, view, now)) == input::event_bytes(event),
{
    let steps = s.stdin_steps(event, view, now);
    if let Event::Data(d) = event {
        lemma_typing_steps(s, d, view);
        lemma_nothing_sent(steps.drop_last());
        assert(sent(steps) =~= d);
    } else if event is Mouse || event is Focus {
        lemma_nothing_sent(steps.drop_last());
        assert(sent(steps) =~= input::event_bytes(event));
    } else if event is ModalQuit {
        assert(steps.drop_last() =~= Seq::<Step>::empty());
        assert(sent(steps.drop_last()) =~= Seq::<u8>::empty());
        assert(sent(steps) =~= Seq::<u8>::empty());
    } else {
        lemma_other_steps(s, event, view, now);
        lemma_nothing_sent(steps);
    }
}

/// Whether a row of steps ends the program.
pub open spec fn quits(steps: Seq<Step>) -> bool {
    exists|i: int| 0 <= i < steps.len() && #[trigger] steps[i] is Quit
}

proof fn lemma_stdin_quits(s: Local, event: Event, view: ViewState, now: u64)
    ensures
        quits(s.stdin_steps(event, view, now)) <==> event is ModalQuit,
{
    let steps = s.stdin_steps(event, view, now);
    if event is ModalQuit {
        assert(steps[0] is Quit);
    } else if let Event::Data(d) = event {
        lemma_typing_steps(s, d, view);
        assert forall|i: int| 0 <= i < steps.len() implies !(#[trigger] steps[i] is Quit) by {
            if i < steps.len() - 1 {
                assert(steps.drop_last()[i] == steps[i]);
            }
        }
    } else if !(event is Mouse) && !(event is Focus) {
        lemma_other_steps(s, event, view, now);
    }
}

/// The program ends when the user says so in the dialog, or when the session or
/// the input has ended, and at no other event.
pub proof fn only_the_dialog_quits(s: Local, event: LocalEvent, view: ViewState, now: u64)
    ensures
        quits(s.steps(event, view, now)) <==> {
            ||| event is Closed
            ||| event matches LocalEvent::Stdin(e) && e@ is ModalQuit
        },
{
    let steps = s.steps(event, view, now);
    if event is Closed {
        assert(steps[0] is Quit);
    } else if let LocalEvent::Stdin(e) = event {
        lemma_stdin_quits(s, e@, view, now);
    }
}

/// No keys end the program while the dialog is closed.
pub proof fn keys_do_not_quit(
    s: Local,
    bytes: Seq<u8>,
    wants_mouse: bool,
    i: int,
    view: ViewState,
    now: u64,
)
    requires
        0 <= i < input::input_events(bytes, wants_mouse, false).len(),
    ensures
        !quits(s.stdin_steps(input::input_events(bytes, wants_mouse, false)[i], view, now)),
{
    input::closed_dialog_takes_no_keys(bytes, wants_mouse);
    lemma_stdin_quits(s, input::input_events(bytes, wants_mouse, false)[i], view, now);
}

/// Ctrl+Q twice leaves everything as it was; where there is an address, it
/// opens the dialog and closes it again.
pub proof fn toggling_twice_changes_nothing(s: Local, t1: u64, t2: u64)
    requires
        s.wf(),
    ensures
        s.after_stdin(Event::ModalToggle, t1).after_stdin(Event::ModalToggle, t2) == s,
        s.dialog is Some ==> s.after_stdin(Event::ModalToggle, t1).modal_open != s.modal_open,
{
}

proof fn lemma_visible_switches(s: Seq<Switch>, rest: Seq<char>)
    ensures
        ansi::visible(sync::switches_text(s) + rest) == ansi::visible(rest),
    decreases s.len(),
{
    if s.len() == 0 {
        assert(sync::switches_text(s) + rest =~= rest);
    } else {
        let last = s.last();
        let digits = text::decimal(last.code as nat);
        let end = if last.on {
            'h'
        } else {
            'l'
        };
        text::lemma_decimal_digits(last.code as nat);
        ansi::lemma_visible_sequence(seq!['?'] + digits, end, rest);
        assert(sync::switch_text(last) + rest =~= seq![ansi::esc(), '['] + (seq!['?'] + digits)
            + seq![end] + rest);
        lemma_visible_switches(s.drop_last(), sync::switch_text(last) + rest);
        assert(sync::switches_text(s) + rest =~= sync::switches_text(s.drop_last()) + (
        sync::switch_text(last) + rest));
    }
}

/// While the dialog is open, nothing that the shell prints shows.
pub proof fn open_dialog_hides_output(
    s: Local,
    screen: &Screen,
    damage: Damage,
    modes: Modes,
    cursor: CursorStyle,
    clients: nat,
)
    requires
        s.modal_open,
    ensures
        ansi::visible(s.output_text(screen, damage, modes, cursor, clients)) == Seq::<
            char,
        >::empty(),
{
    let told = s.told(modes, cursor);
    lemma_visible_told(s, modes, cursor, Seq::empty());
    assert(told + Seq::empty() =~= told);
}

/// With the dialog closed, all that the shell has changed on the screen shows: every line
/// of it, or every damaged part, and behind them what the bar shows.
#[verifier::rlimit(50)]
#[verifier::spinoff_prover]
pub proof fn closed_dialog_shows_output(
    s: Local,
    screen: &Screen,
    damage: Damage,
    modes: Modes,
    cursor: CursorStyle,
    clients: nat,
)
    requires
        !s.modal_open,
        screen.wf(),
        screen.cursor_line >= 0,
        render::holds_no_esc(screen),
        render::damage_on_screen(screen, damage),
    ensures
        ansi::visible(s.output_text(screen, damage, modes, cursor, clients)) == (match damage {
            Damage::Full => render::lines_chars(screen, screen.lines@.len() as int),
            Damage::Partial(parts) => render::parts_chars(screen, parts@),
        }) + ansi::visible(s.bar(clients, false)),
{
    let a = render::damage_text(screen, damage);
    let b = s.told(modes, cursor);
    let c = render::cursor_text(screen);
    let d = s.bar(clients, false);
    render::drawn_damage_shows(screen, damage, b + (c + d));
    lemma_visible_told(s, modes, cursor, c + d);
    lemma_visible_cursor(screen, d);
    lemma_four(a, b, c, d);
}

proof fn lemma_four(a: Seq<char>, b: Seq<char>, c: Seq<char>, d: Seq<char>)
    ensures
        a + b + c + d == a + (b + (c + d)),
{
    assert(a + b + c + d =~= a + (b + (c + d)));
}

proof fn lemma_visible_style(old_style: CursorStyle, new_style: CursorStyle, rest: Seq<char>)
    ensures
        ansi::visible(sync::style_text(old_style, new_style) + rest) == ansi::visible(rest),
{
    let style = sync::style_text(old_style, new_style);
    if old_style != new_style {
        let codes = seq![sync::style_code(new_style)];
        let body = ansi::codes_text(codes) + seq![' '];
        ansi::lemma_codes_no_letters(codes);
        ansi::lemma_visible_sequence(body, 'q', rest);
        assert(style + rest =~= seq![ansi::esc(), '['] + body + seq!['q'] + rest);
    } else {
        assert(style + rest =~= rest);
    }
}

proof fn lemma_visible_told(s: Local, modes: Modes, cursor: CursorStyle, rest: Seq<char>)
    ensures
        ansi::visible(s.told(modes, cursor) + rest) == ansi::visible(rest),
{
    let a = sync::modes_text(s.modes, modes);
    let b = sync::style_text(s.cursor, cursor);
    let changes = sync::changes(s.modes, modes, sync::synced_modes().len() as int);
    lemma_visible_switches(changes, b + rest);
    lemma_visible_style(s.cursor, cursor, rest);
    assert(a + b + rest =~= a + (b + rest));
}

proof fn lemma_visible_cursor(screen: &Screen, rest: Seq<char>)
    requires
        screen.wf(),
        screen.cursor_line >= 0,
    ensures
        ansi::visible(render::cursor_text(screen) + rest) == ansi::visible(rest),
{
    let row = (screen.cursor_line + 1) as u64;
    let col = (screen.cursor_column + 1) as u64;
    assert(seq![row, col].drop_last() =~= seq![row]);
    assert(ansi::codes_text(seq![row]) == text::decimal(row as nat));
    assert(ansi::codes_text(seq![row, col]) =~= text::decimal(row as nat) + seq![';']
        + text::decimal(col as nat));
    ansi::lemma_visible_csi(seq![row, col], 'H', rest);
    assert(render::cursor_text(screen) =~= ansi::csi(seq![row, col], 'H'));
}

} // verus!
