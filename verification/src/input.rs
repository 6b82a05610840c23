//! What the user types: keys, mouse reports and the keys of the share dialog.

use vstd::prelude::*;
use vstd::slice::*;
use vstd::utf8::*;

use crate::escape;
use crate::escape::{CTRL_Q, ESC};
use crate::text;

verus! {

/// One thing that came in from the keyboard or the mouse.
pub enum StdinEvent {
    /// Bytes for the shell.
    Data(Vec<u8>),
    /// The view moves up by so many lines.
    ScrollUp(i32),
    /// The view moves down by so many lines.
    ScrollDown(i32),
    /// A mouse report for a program that asked for the mouse.
    Mouse(Vec<u8>),
    /// The outer terminal got or lost the focus.
    Focus(Vec<u8>),
    /// The left button went down at a cell, counted from zero.
    SelectStart { col: u16, row: u16, alt: bool },
    /// The mouse moved to a cell with the left button down.
    SelectUpdate(u16, u16),
    /// The left button went up.
    SelectEnd,
    ModalToggle,
    ModalCopy,
    ModalQuit,
    ModalDismiss,
}

/// An event by what it holds.
pub enum Event {
    Data(Seq<u8>),
    ScrollUp(int),
    ScrollDown(int),
    Mouse(Seq<u8>),
    Focus(Seq<u8>),
    SelectStart { col: int, row: int, alt: bool },
    SelectUpdate(int, int),
    SelectEnd,
    ModalToggle,
    ModalCopy,
    ModalQuit,
    ModalDismiss,
}

impl View for StdinEvent {
    type V = Event;

    open spec fn view(&self) -> Event {
        match *self {
            StdinEvent::Data(d) => Event::Data(d@),
            StdinEvent::ScrollUp(n) => Event::ScrollUp(n as int),
            StdinEvent::ScrollDown(n) => Event::ScrollDown(n as int),
            StdinEvent::Mouse(d) => Event::Mouse(d@),
            StdinEvent::Focus(d) => Event::Focus(d@),
            StdinEvent::SelectStart { col, row, alt } => Event::SelectStart {
                col: col as int,
                row: row as int,
                alt,
            },
            StdinEvent::SelectUpdate(col, row) => Event::SelectUpdate(col as int, row as int),
            StdinEvent::SelectEnd => Event::SelectEnd,
            StdinEvent::ModalToggle => Event::ModalToggle,
            StdinEvent::ModalCopy => Event::ModalCopy,
            StdinEvent::ModalQuit => Event::ModalQuit,
            StdinEvent::ModalDismiss => Event::ModalDismiss,
        }
    }
}

/// What the events of a vector hold.
pub open spec fn views(v: Seq<StdinEvent>) -> Seq<Event> {
    Seq::new(v.len(), |i: int| v[i]@)
}

/// How many lines one turn of the wheel scrolls.
pub const WHEEL_LINES: i32 = 3;

/// The error of `core::str::from_utf8`.
#[verifier::external_type_specification]
#[verifier::external_body]
pub struct ExUtf8Error(core::str::Utf8Error);

/// `core::str::from_utf8` accepts the byte strings that are valid UTF-8, and
/// gives them back as the string with these bytes.
pub assume_specification<'a>[ core::str::from_utf8 ](v: &'a [u8]) -> (r: Result<
    &'a str,
    core::str::Utf8Error,
>)
    ensures
        r is Ok <==> valid_utf8(v@),
        r matches Ok(s) ==> encode_utf8(s@) == v@,
;

// ---- Mouse reports ----

/// Where the first `M` or `m` from `at` on stands, or the end of `s`.
pub open spec fn report_end(s: Seq<u8>, at: int) -> int
    decreases s.len() - at,
{
    if at >= s.len() || s[at] == 0x4d || s[at] == 0x6d {
        at
    } else {
        report_end(s, at + 1)
    }
}

/// One number of a mouse report, `or` where it cannot be read.
pub open spec fn report_number(field: Seq<char>, max: nat, or: nat) -> nat {
    match text::unsigned(field, max) {
        Some(n) => n,
        None => or,
    }
}

/// A column or row of a mouse report, which counts from one, counted from zero.
pub open spec fn report_cell(field: Seq<char>) -> int {
    let n = report_number(field, u16::MAX as nat, 1);
    if n > 0 {
        n - 1
    } else {
        0
    }
}

/// What the button code of a report says: the wheel, the left button going up
/// or down, a drag, or nothing that is handled here. Bits 2 to 4 are the
/// modifier keys, of which bit 3 is Alt.
pub open spec fn button_events(button: u32, col: int, row: int, release: bool) -> Seq<Event> {
    let base = button & !0b11100u32;
    if base == 64 {
        seq![Event::ScrollUp(WHEEL_LINES as int)]
    } else if base == 65 {
        seq![Event::ScrollDown(WHEEL_LINES as int)]
    } else if base == 0 && release {
        seq![Event::SelectEnd]
    } else if base == 0 {
        seq![Event::SelectStart { col, row, alt: button & 8 != 0 }]
    } else if base == 32 {
        seq![Event::SelectUpdate(col, row)]
    } else {
        Seq::empty()
    }
}

/// What the report `raw` with the given parameters means. Reports with fewer
/// than three parameters are dropped; a program that asked for the mouse gets
/// the others as they came.
pub open spec fn report_events(
    params: Seq<u8>,
    release: bool,
    raw: Seq<u8>,
    wants_mouse: bool,
) -> Seq<Event> {
    let f = text::fields(decode_utf8(params), ';');
    if !valid_utf8(params) || f.len() < 3 {
        Seq::empty()
    } else if wants_mouse {
        seq![Event::Mouse(raw)]
    } else {
        button_events(
            report_number(f[0], u32::MAX as nat, 999) as u32,
            report_cell(f[1]),
            report_cell(f[2]),
            release,
        )
    }
}

// ---- Events ----

/// Where the first ESC or Ctrl+Q from `at` on stands, or the end of `s`.
pub open spec fn plain_end(s: Seq<u8>, at: int) -> int
    decreases s.len() - at,
{
    if at >= s.len() || s[at] == ESC || s[at] == CTRL_Q {
        at
    } else {
        plain_end(s, at + 1)
    }
}

/// What the bytes `s` start with while the dialog is open: the events and the
/// number of bytes they take.
pub open spec fn dialog_step(s: Seq<u8>) -> (Seq<Event>, int) {
    if s[0] == 0x63 || s[0] == 0x43 {
        (seq![Event::ModalCopy], 1)
    } else if s[0] == 0x71 || s[0] == 0x51 {
        (seq![Event::ModalQuit], 1)
    } else if s[0] == ESC && (s.len() < 2 || s[1] != 0x5b) {
        (seq![Event::ModalDismiss], 1)
    } else if s[0] == ESC {
        (Seq::empty(), escape::csi_end(s, 2))
    } else {
        (Seq::empty(), 1)
    }
}

/// What the escape sequence that `s` starts with means while the dialog is
/// closed. A mouse report without its end takes all that is left.
pub open spec fn escape_step(s: Seq<u8>, wants_mouse: bool) -> (Seq<Event>, int) {
    if s.len() > 2 && s[1] == 0x5b && s[2] == 0x3c {
        let e = report_end(s, 3);
        if e < s.len() {
            (report_events(s.subrange(3, e), s[e] == 0x6d, s.take(e + 1), wants_mouse), e + 1)
        } else {
            (Seq::empty(), s.len() as int)
        }
    } else if s.len() > 2 && s[1] == 0x5b && (s[2] == 0x49 || s[2] == 0x4f) {
        (seq![Event::Focus(s.take(3))], 3)
    } else {
        let n = if s.len() > 1 && s[1] == 0x5b {
            escape::csi_end(s, 2)
        } else if s.len() > 1 && s[1] == 0x5d {
            escape::osc_end(s, 2)
        } else if s.len() > 1 {
            2
        } else {
            1
        };
        (seq![Event::Data(s.take(n))], n)
    }
}

/// What the bytes `s` start with: the events and the number of bytes they take.
pub open spec fn input_step(s: Seq<u8>, wants_mouse: bool, modal_open: bool) -> (Seq<Event>, int) {
    if s[0] == CTRL_Q {
        (seq![Event::ModalToggle], 1)
    } else if modal_open {
        dialog_step(s)
    } else if s[0] == ESC {
        escape_step(s, wants_mouse)
    } else {
        (seq![Event::Data(s.take(plain_end(s, 0)))], plain_end(s, 0))
    }
}

pub proof fn lemma_report_end(s: Seq<u8>, at: int)
    requires
        0 <= at <= s.len(),
    ensures
        at <= report_end(s, at) <= s.len(),
    decreases s.len() - at,
{
    if at < s.len() && s[at] != 0x4d && s[at] != 0x6d {
        lemma_report_end(s, at + 1);
    }
}

pub proof fn lemma_plain_end(s: Seq<u8>, at: int)
    requires
        0 <= at <= s.len(),
    ensures
        at <= plain_end(s, at) <= s.len(),
        at < s.len() && s[at] != ESC && s[at] != CTRL_Q ==> at < plain_end(s, at),
    decreases s.len() - at,
{
    if at < s.len() && s[at] != ESC && s[at] != CTRL_Q {
        lemma_plain_end(s, at + 1);
    }
}

/// Each step takes at least one byte, and no more than there are.
pub proof fn lemma_step_progress(s: Seq<u8>, wants_mouse: bool, modal_open: bool)
    requires
        s.len() > 0,
    ensures
        0 < input_step(s, wants_mouse, modal_open).1 <= s.len(),
{
    lemma_plain_end(s, 0);
    if s.len() > 1 {
        escape::lemma_csi_end(s, 2);
        escape::lemma_osc_end(s, 2);
    }
    if s.len() > 2 {
        lemma_report_end(s, 3);
    }
}

/// The events that the bytes `s` stand for.
pub open spec fn input_events(s: Seq<u8>, wants_mouse: bool, modal_open: bool) -> Seq<Event>
    decreases s.len(),
{
    if s.len() == 0 {
        Seq::empty()
    } else {
        proof {
            lemma_step_progress(s, wants_mouse, modal_open);
        }
        let (events, n) = input_step(s, wants_mouse, modal_open);
        events + input_events(s.skip(n), wants_mouse, modal_open)
    }
}

// ---- Reading ----

/// What an event that may be missing holds.
spec fn held(e: Option<StdinEvent>) -> Seq<Event> {
    match e {
        Some(e) => seq![e@],
        None => Seq::empty(),
    }
}

fn find_report_end(s: &[u8], at: usize) -> (r: usize)
    requires
        at <= s@.len(),
    ensures
        r == report_end(s@, at as int),
        at <= r <= s@.len(),
{
    let mut i: usize = at;
    while i < s.len() && s[i] != 0x4d && s[i] != 0x6d
        invariant
            at <= i <= s@.len(),
            report_end(s@, at as int) == report_end(s@, i as int),
        decreases s@.len() - i,
    {
        i = i + 1;
    }
    i
}

fn find_plain_end(s: &[u8]) -> (r: usize)
    ensures
        r == plain_end(s@, 0),
        r <= s@.len(),
{
    let mut i: usize = 0;
    while i < s.len() && s[i] != ESC && s[i] != CTRL_Q
        invariant
            i <= s@.len(),
            plain_end(s@, 0) == plain_end(s@, i as int),
        decreases s@.len() - i,
    {
        i = i + 1;
    }
    i
}

fn read_cell(field: &str) -> (r: u16)
    ensures
        r == report_cell(field@),
{
    match text::parse_unsigned(field, 65535) {
        Some(n) => (n as u16).saturating_sub(1),
        None => 0,
    }
}

fn read_button(button: u32, col: u16, row: u16, release: bool) -> (r: Option<StdinEvent>)
    ensures
        held(r) == button_events(button, col as int, row as int, release),
{
    let base: u32 = button & !0b11100u32;
    if base == 64 {
        Some(StdinEvent::ScrollUp(WHEEL_LINES))
    } else if base == 65 {
        Some(StdinEvent::ScrollDown(WHEEL_LINES))
    } else if base == 0 && release {
        Some(StdinEvent::SelectEnd)
    } else if base == 0 {
        Some(StdinEvent::SelectStart { col, row, alt: button & 8 != 0 })
    } else if base == 32 {
        Some(StdinEvent::SelectUpdate(col, row))
    } else {
        None
    }
}

fn read_report(params: &[u8], release: bool, raw: &[u8], wants_mouse: bool) -> (r: Option<
    StdinEvent,
>)
    ensures
        held(r) == report_events(params@, release, raw@, wants_mouse),
{
    match core::str::from_utf8(params) {
        Ok(params_str) => {
            proof {
                encode_utf8_decode_utf8(params_str@);
            }
            let parts = text::split(params_str, ';');
            let ghost f = text::fields(decode_utf8(params@), ';');
            assert(text::texts(parts@) == f);
            if parts.len() < 3 {
                return None;
            }
            if wants_mouse {
                return Some(StdinEvent::Mouse(slice_to_vec(raw)));
            }
            assert(f[0] == parts@[0]@ && f[1] == parts@[1]@ && f[2] == parts@[2]@);
            let button: u32 = match text::parse_unsigned(parts[0].as_str(), 0xffff_ffff) {
                Some(n) => n as u32,
                None => 999,
            };
            let col: u16 = read_cell(parts[1].as_str());
            let row: u16 = read_cell(parts[2].as_str());
            read_button(button, col, row, release)
        },
        Err(_) => None,
    }
}

fn read_dialog(s: &[u8]) -> (r: (Option<StdinEvent>, usize))
    requires
        s@.len() > 0,
    ensures
        held(r.0) == dialog_step(s@).0,
        r.1 == dialog_step(s@).1,
{
    if s[0] == 0x63 || s[0] == 0x43 {
        (Some(StdinEvent::ModalCopy), 1)
    } else if s[0] == 0x71 || s[0] == 0x51 {
        (Some(StdinEvent::ModalQuit), 1)
    } else if s[0] == ESC && (s.len() < 2 || s[1] != 0x5b) {
        (Some(StdinEvent::ModalDismiss), 1)
    } else if s[0] == ESC {
        (None, escape::find_csi_end(s, 2))
    } else {
        (None, 1)
    }
}

fn read_escape(s: &[u8], wants_mouse: bool) -> (r: (Option<StdinEvent>, usize))
    requires
        s@.len() > 0,
    ensures
        held(r.0) == escape_step(s@, wants_mouse).0,
        r.1 == escape_step(s@, wants_mouse).1,
{
    if s.len() > 2 && s[1] == 0x5b && s[2] == 0x3c {
        let e: usize = find_report_end(s, 3);
        if e < s.len() {
            let params = slice_subrange(s, 3, e);
            let raw = slice_subrange(s, 0, e + 1);
            (read_report(params, s[e] == 0x6d, raw, wants_mouse), e + 1)
        } else {
            (None, s.len())
        }
    } else if s.len() > 2 && s[1] == 0x5b && (s[2] == 0x49 || s[2] == 0x4f) {
        (Some(StdinEvent::Focus(slice_to_vec(slice_subrange(s, 0, 3)))), 3)
    } else {
        let n: usize = if s.len() > 1 && s[1] == 0x5b {
            escape::find_csi_end(s, 2)
        } else if s.len() > 1 && s[1] == 0x5d {
            escape::find_osc_end(s, 2)
        } else if s.len() > 1 {
            2
        } else {
            1
        };
        (Some(StdinEvent::Data(slice_to_vec(slice_subrange(s, 0, n)))), n)
    }
}

fn read_event(s: &[u8], wants_mouse: bool, modal_open: bool) -> (r: (Option<StdinEvent>, usize))
    requires
        s@.len() > 0,
    ensures
        held(r.0) == input_step(s@, wants_mouse, modal_open).0,
        r.1 == input_step(s@, wants_mouse, modal_open).1,
{
    if s[0] == CTRL_Q {
        (Some(StdinEvent::ModalToggle), 1)
    } else if modal_open {
        read_dialog(s)
    } else if s[0] == ESC {
        read_escape(s, wants_mouse)
    } else {
        let n: usize = find_plain_end(s);
        (Some(StdinEvent::Data(slice_to_vec(slice_subrange(s, 0, n)))), n)
    }
}

/// Reads what came in on the keyboard. Mouse reports have the form
/// `ESC [ < button ; column ; row` and `M` or `m`; button 64 scrolls up and 65
/// scrolls down.
pub fn parse_stdin(bytes: &[u8], inner_wants_mouse: bool, modal_open: bool) -> (r: Vec<StdinEvent>)
    ensures
        views(r@) == input_events(bytes@, inner_wants_mouse, modal_open),
{
    let mut events: Vec<StdinEvent> = Vec::new();
    let mut i: usize = 0;
    let ghost all = input_events(bytes@, inner_wants_mouse, modal_open);
    assert(bytes@.skip(0) == bytes@);
    assert(views(events@) + all =~= all);
    while i < bytes.len()
        invariant
            i <= bytes@.len(),
            all == views(events@) + input_events(
                bytes@.skip(i as int),
                inner_wants_mouse,
                modal_open,
            ),
        decreases bytes@.len() - i,
    {
        let rest = slice_subrange(bytes, i, bytes.len());
        assert(rest@ == bytes@.skip(i as int));
        proof {
            lemma_step_progress(rest@, inner_wants_mouse, modal_open);
        }
        let (event, n) = read_event(rest, inner_wants_mouse, modal_open);
        let ghost before = views(events@);
        let ghost new = held(event);
        match event {
            Some(e) => {
                events.push(e);
            },
            None => {},
        }
        proof {
            let tail = input_events(rest@.skip(n as int), inner_wants_mouse, modal_open);
            assert(rest@.skip(n as int) == bytes@.skip(i + n));
            assert(views(events@) =~= before + new);
            assert(before + (new + tail) =~= (before + new) + tail);
        }
        i = i + n;
    }
    assert(bytes@.skip(i as int) == Seq::<u8>::empty());
    assert(views(events@) + Seq::empty() =~= views(events@));
    events
}

// ---- Laws ----

/// Ctrl+Q toggles the dialog, open or not, whatever follows it.
pub proof fn ctrl_q_always_toggles(rest: Seq<u8>, wants_mouse: bool, modal_open: bool)
    ensures
        input_events(seq![CTRL_Q] + rest, wants_mouse, modal_open) == seq![Event::ModalToggle]
            + input_events(rest, wants_mouse, modal_open),
{
    let s = seq![CTRL_Q] + rest;
    assert(s.skip(1) =~= rest);
    assert(s[0] == CTRL_Q);
}

/// The events of the dialog.
pub open spec fn is_dialog_event(e: Event) -> bool {
    e is ModalToggle || e is ModalCopy || e is ModalQuit || e is ModalDismiss
}

/// While the dialog is open nothing reaches the shell, the view or the
/// selection: all events are the dialog's own.
pub proof fn open_dialog_intercepts_input(s: Seq<u8>, wants_mouse: bool)
    ensures
        forall|i: int|
            0 <= i < input_events(s, wants_mouse, true).len() ==> is_dialog_event(
                #[trigger] input_events(s, wants_mouse, true)[i],
            ),
    decreases s.len(),
{
    if s.len() > 0 {
        lemma_step_progress(s, wants_mouse, true);
        let (events, n) = input_step(s, wants_mouse, true);
        open_dialog_intercepts_input(s.skip(n), wants_mouse);
        let all = input_events(s, wants_mouse, true);
        assert forall|i: int| 0 <= i < all.len() implies is_dialog_event(#[trigger] all[i]) by {
            if i >= events.len() {
                assert(all[i] == input_events(s.skip(n), wants_mouse, true)[i - events.len()]);
            }
        }
    }
}

/// While the dialog is closed its keys are ordinary input: the only event of
/// the dialog is the one that opens it.
pub proof fn closed_dialog_takes_no_keys(s: Seq<u8>, wants_mouse: bool)
    ensures
        forall|i: int|
            0 <= i < input_events(s, wants_mouse, false).len() && is_dialog_event(
                #[trigger] input_events(s, wants_mouse, false)[i],
            ) ==> input_events(s, wants_mouse, false)[i] is ModalToggle,
    decreases s.len(),
{
    if s.len() > 0 {
        lemma_step_progress(s, wants_mouse, false);
        closed_dialog_takes_no_keys(s.skip(input_step(s, wants_mouse, false).1), wants_mouse);
    }
}

/// The bytes that an event hands to the shell.
pub open spec fn event_bytes(e: Event) -> Seq<u8> {
    match e {
        Event::Data(d) => d,
        Event::Mouse(d) => d,
        Event::Focus(d) => d,
        _ => Seq::empty(),
    }
}

/// The bytes that a row of events hands to the shell.
pub open spec fn forwarded(events: Seq<Event>) -> Seq<u8>
    decreases events.len(),
{
    if events.len() == 0 {
        Seq::empty()
    } else {
        event_bytes(events[0]) + forwarded(events.drop_first())
    }
}

/// Whether a mouse report may start at `at`.
pub open spec fn report_starts_at(s: Seq<u8>, at: int) -> bool {
    0 <= at && at + 2 < s.len() && s[at] == ESC && s[at + 1] == 0x5b && s[at + 2] == 0x3c
}

/// Input without Ctrl+Q and without mouse reports.
pub open spec fn ordinary(s: Seq<u8>) -> bool {
    &&& forall|i: int| 0 <= i < s.len() ==> #[trigger] s[i] != CTRL_Q
    &&& forall|i: int| !#[trigger] report_starts_at(s, i)
}

/// Ordinary input reaches the shell byte for byte while the dialog is closed.
pub proof fn ordinary_input_is_forwarded(s: Seq<u8>, wants_mouse: bool)
    requires
        ordinary(s),
    ensures
        forwarded(input_events(s, wants_mouse, false)) == s,
    decreases s.len(),
{
    if s.len() > 0 {
        lemma_step_progress(s, wants_mouse, false);
        let (events, n) = input_step(s, wants_mouse, false);
        let rest = s.skip(n);
        assert(!report_starts_at(s, 0));
        assert forall|i: int| !#[trigger] report_starts_at(rest, i) by {
            assert(!report_starts_at(s, i + n));
        }
        ordinary_input_is_forwarded(rest, wants_mouse);
        assert(s[0] != CTRL_Q);
        assert(events.len() == 1 && event_bytes(events[0]) == s.take(n));
        let tail = input_events(rest, wants_mouse, false);
        assert((events + tail).drop_first() =~= tail);
        assert(s.take(n) + rest =~= s);
    }
}

/// A mouse report: `ESC [ < button ; column ; row`, and `M` or `m`.
pub open spec fn report_text(button: u32, col: u16, row: u16, release: bool) -> Seq<char> {
    seq!['\x1b', '[', '<'] + report_params(button, col, row) + seq![
        if release {
            'm'
        } else {
            'M'
        },
    ]
}

/// The numbers of a mouse report.
pub open spec fn report_params(button: u32, col: u16, row: u16) -> Seq<char> {
    text::decimal(button as nat) + seq![';'] + (text::decimal(col as nat) + seq![';']
        + text::decimal(row as nat))
}

proof fn lemma_report_params(button: u32, col: u16, row: u16)
    ensures
        text::fields(report_params(button, col, row), ';') == seq![
            text::decimal(button as nat),
            text::decimal(col as nat),
            text::decimal(row as nat),
        ],
        forall|i: int|
            0 <= i < report_params(button, col, row).len() ==> {
                let c = #[trigger] report_params(button, col, row)[i];
                text::is_digit(c) || c == ';'
            },
{
    let b = text::decimal(button as nat);
    let c = text::decimal(col as nat);
    let r = text::decimal(row as nat);
    text::lemma_decimal_field(button as nat);
    text::lemma_decimal_field(col as nat);
    text::lemma_decimal_field(row as nat);
    text::lemma_decimal_digits(button as nat);
    text::lemma_decimal_digits(col as nat);
    text::lemma_decimal_digits(row as nat);
    assert(!text::is_digit(';'));
    text::lemma_one_field(b, ';');
    text::lemma_one_field(c, ';');
    text::lemma_one_field(r, ';');
    text::lemma_fields_concat(c, ';', r);
    text::lemma_fields_concat(b, ';', c + seq![';'] + r);
    assert(seq![b] + (seq![c] + seq![r]) =~= seq![b, c, r]);
}

proof fn lemma_report_ends(s: Seq<u8>, at: int, end: int)
    requires
        0 <= at <= end < s.len(),
        forall|i: int| at <= i < end ==> #[trigger] s[i] != 0x4d && s[i] != 0x6d,
        s[end] == 0x4d || s[end] == 0x6d,
    ensures
        report_end(s, at) == end,
    decreases end - at,
{
    if at < end {
        lemma_report_ends(s, at + 1, end);
    }
}

/// A mouse report is cut out of what comes in: with the dialog closed it is the event of
/// its button at its cell, or goes as it is to the program that asked for the mouse, and
/// what follows it is read by itself.
#[verifier::rlimit(50)]
#[verifier::spinoff_prover]
pub proof fn mouse_reports_are_cut_out(
    button: u32,
    col: u16,
    row: u16,
    release: bool,
    wants_mouse: bool,
    rest: Seq<u8>,
)
    ensures
        ({
            let report = encode_utf8(report_text(button, col, row, release));
            input_events(report + rest, wants_mouse, false) == (if wants_mouse {
                seq![Event::Mouse(report)]
            } else {
                button_events(
                    button,
                    text::minus(col as int, 1),
                    text::minus(row as int, 1),
                    release,
                )
            }) + input_events(rest, wants_mouse, false)
        }),
{
    let t = report_text(button, col, row, release);
    let p = report_params(button, col, row);
    let report = encode_utf8(t);
    let bytes = report + rest;
    let end = 3 + p.len() as int;
    lemma_report_params(button, col, row);
    assert(t.len() == end + 1);
    assert forall|i: int| 0 <= i < t.len() implies '\0' <= #[trigger] t[i] <= '\u{7f}' by {
        if 3 <= i < end {
            assert(t[i] == p[i - 3]);
        }
    }
    assert forall|i: int| 0 <= i < p.len() implies '\0' <= #[trigger] p[i] <= '\u{7f}' by {}
    is_ascii_chars_encode_utf8(t);
    is_ascii_chars_encode_utf8(p);
    assert(bytes[0] == ESC) by {
        assert(t[0] == '\x1b');
        assert(bytes[0] == report[0]);
    }
    assert(bytes[1] == 0x5b) by {
        assert(t[1] == '[');
        assert(bytes[1] == report[1]);
    }
    assert(bytes[2] == 0x3c) by {
        assert(t[2] == '<');
        assert(bytes[2] == report[2]);
    }
    assert forall|i: int| 3 <= i < end implies #[trigger] bytes[i] != 0x4d && bytes[i] != 0x6d by {
        assert(bytes[i] == report[i]);
        assert(t[i] == p[i - 3]);
    }
    assert(t[end] == 'm' || t[end] == 'M');
    assert(bytes[end] == report[end]);
    assert(bytes[end] == 0x6d <==> release);
    lemma_report_ends(bytes, 3, end);
    assert forall|i: int|
        0 <= i < p.len() implies bytes.subrange(3, end)[i] == encode_utf8(p)[i] by {
        assert(t[i + 3] == p[i]);
        assert(report[i + 3] == t[i + 3] as u8);
        assert(encode_utf8(p)[i] == p[i] as u8);
    }
    assert(bytes.subrange(3, end) =~= encode_utf8(p));
    encode_utf8_valid_utf8(p);
    encode_utf8_decode_utf8(p);
    text::lemma_decimal_field(button as nat);
    text::lemma_decimal_field(col as nat);
    text::lemma_decimal_field(row as nat);
    assert(bytes.take(end + 1) =~= report);
    assert(bytes.skip(end + 1) =~= rest);
    let events = report_events(bytes.subrange(3, end), release, report, wants_mouse);
    assert(input_step(bytes, wants_mouse, false) == (events, end + 1));
    assert(report_number(text::decimal(button as nat), u32::MAX as nat, 999) == button);
    assert(report_cell(text::decimal(col as nat)) == text::minus(col as int, 1));
    assert(report_cell(text::decimal(row as nat)) == text::minus(row as int, 1));
}

/// A mouse report says what its numbers say: with the dialog closed it is the
/// event of its button at its cell, or goes as it is to the program that asked
/// for the mouse.
pub proof fn mouse_reports_are_read(
    button: u32,
    col: u16,
    row: u16,
    release: bool,
    wants_mouse: bool,
)
    ensures
        ({
            let bytes = encode_utf8(report_text(button, col, row, release));
            input_events(bytes, wants_mouse, false) == if wants_mouse {
                seq![Event::Mouse(bytes)]
            } else {
                button_events(
                    button,
                    text::minus(col as int, 1),
                    text::minus(row as int, 1),
                    release,
                )
            }
        }),
{
    let bytes = encode_utf8(report_text(button, col, row, release));
    mouse_reports_are_cut_out(button, col, row, release, wants_mouse, Seq::empty());
    assert(bytes + Seq::<u8>::empty() =~= bytes);
    assert(input_events(Seq::empty(), wants_mouse, false) == Seq::<Event>::empty());
}

/// A cell of a report, which counts from one, counted from zero.
pub open spec fn from_zero(n: u16) -> int {
    if n == 0 {
        0
    } else {
        n - 1
    }
}

/// What a button code means. The keys that are held down add four (Shift), eight (Alt)
/// and sixteen (Ctrl) to it, and of the kind of the event they change nothing: zero with
/// any of them is the left button, which goes up or down at the cell of the report;
/// thirty-two with any of them is a drag to that cell; sixty-four and sixty-five with any
/// of them are the wheel, three lines up or down. Any other code means nothing.
pub proof fn held_keys_do_not_change_the_event(button: u32, col: u16, row: u16, release: bool)
    ensures
        ({
            let events = input_events(
                encode_utf8(report_text(button, col, row, release)),
                false,
                false,
            );
            let x = from_zero(col);
            let y = from_zero(row);
            let alt = (button / 8) % 2 == 1;
            &&& button < 32 && button % 4 == 0 && release ==> events == seq![Event::SelectEnd]
            &&& button < 32 && button % 4 == 0 && !release ==> events == seq![
                Event::SelectStart { col: x, row: y, alt },
            ]
            &&& 32 <= button < 64 && button % 4 == 0 ==> events == seq![Event::SelectUpdate(x, y)]
            &&& 64 <= button < 96 && button % 4 == 0 ==> events == seq![Event::ScrollUp(3)]
            &&& 64 <= button < 96 && button % 4 == 1 ==> events == seq![Event::ScrollDown(3)]
            &&& button >= 96 || button % 4 >= 2 || (button < 64 && button % 4 == 1) ==> events
                == Seq::<Event>::empty()
        }),
{
    mouse_reports_are_read(button, col, row, release, false);
    assert({
        let base = button & !0b11100u32;
        &&& button < 32 && button % 4 == 0 ==> base == 0
        &&& 32 <= button && button < 64 && button % 4 == 0 ==> base == 32
        &&& 64 <= button && button < 96 && button % 4 == 0 ==> base == 64
        &&& 64 <= button && button < 96 && button % 4 == 1 ==> base == 65
        &&& button >= 96 || button % 4 >= 2 || (button < 64 && button % 4 == 1) ==> base != 0
            && base != 32 && base != 64 && base != 65
        &&& (button & 8u32 != 0) == ((button / 8) % 2 == 1)
    }) by (bit_vector);
}

proof fn lemma_plain_ends(s: Seq<u8>, at: int, end: int)
    requires
        0 <= at <= end <= s.len(),
        forall|i: int| at <= i < end ==> #[trigger] s[i] != ESC && s[i] != CTRL_Q,
        end < s.len() ==> s[end] == ESC || s[end] == CTRL_Q,
    ensures
        plain_end(s, at) == end,
    decreases end - at,
{
    if at < end {
        lemma_plain_ends(s, at + 1, end);
    }
}

/// What is typed up to an escape sequence or Ctrl+Q is one input for the shell, and what
/// comes from there on is read by itself.
pub proof fn typing_is_read_up_to_a_sequence(typed: Seq<u8>, rest: Seq<u8>, wants_mouse: bool)
    requires
        typed.len() > 0,
        forall|i: int| 0 <= i < typed.len() ==> #[trigger] typed[i] != ESC && typed[i] != CTRL_Q,
        rest.len() > 0 ==> rest[0] == ESC || rest[0] == CTRL_Q,
    ensures
        input_events(typed + rest, wants_mouse, false) == seq![Event::Data(typed)] + input_events(
            rest,
            wants_mouse,
            false,
        ),
{
    let s = typed + rest;
    let n = typed.len() as int;
    assert forall|i: int| 0 <= i < n implies #[trigger] s[i] != ESC && s[i] != CTRL_Q by {
        assert(s[i] == typed[i]);
    }
    if rest.len() > 0 {
        assert(s[n] == rest[0]);
    }
    lemma_plain_ends(s, 0, n);
    assert(s.take(n) =~= typed);
    assert(s.skip(n) =~= rest);
    assert(s[0] != ESC);
}

proof fn lemma_csi_ends(s: Seq<u8>, at: int, end: int)
    requires
        0 <= at <= end < s.len(),
        forall|i: int| at <= i < end ==> !escape::ends_csi(#[trigger] s[i]),
        escape::ends_csi(s[end]),
    ensures
        escape::csi_end(s, at) == end + 1,
    decreases end - at,
{
    if at < end {
        lemma_csi_ends(s, at + 1, end);
    }
}

/// A CSI sequence is one input for the shell, up to its letter or `~`; so is the news that
/// the outer terminal got or lost the focus. With the dialog open both are dropped. What
/// follows is read by itself.
pub proof fn sequences_are_kept_whole(body: Seq<u8>, end: u8, rest: Seq<u8>, wants_mouse: bool)
    requires
        forall|i: int|
            0 <= i < body.len() ==> !(0x41 <= #[trigger] body[i] <= 0x5a) && !(0x61 <= body[i]
                <= 0x7a) && body[i] != 0x7e,
        0x41 <= end <= 0x5a || 0x61 <= end <= 0x7a || end == 0x7e,
        body.len() > 0 ==> body[0] != 0x3c,
    ensures
        ({
            let sequence = seq![0x1bu8, 0x5b] + body + seq![end];
            let focus = body.len() == 0 && (end == 0x49 || end == 0x4f);
            &&& input_events(sequence + rest, wants_mouse, false) == seq![
                if focus {
                    Event::Focus(sequence)
                } else {
                    Event::Data(sequence)
                },
            ] + input_events(rest, wants_mouse, false)
            &&& input_events(sequence + rest, wants_mouse, true) == input_events(
                rest,
                wants_mouse,
                true,
            )
        }),
{
    let sequence = seq![0x1bu8, 0x5b] + body + seq![end];
    let s = sequence + rest;
    let n = 2 + body.len() as int;
    assert forall|i: int| 2 <= i < n implies !escape::ends_csi(#[trigger] s[i]) by {
        assert(s[i] == body[i - 2]);
    }
    assert(s[n] == end);
    lemma_csi_ends(s, 2, n);
    assert(s[0] == ESC && s[1] == 0x5b);
    assert(s[2] == if body.len() > 0 {
        body[0]
    } else {
        end
    });
    assert(s.take(n + 1) =~= sequence);
    assert(s.skip(n + 1) =~= rest);
    assert(Seq::<Event>::empty() + input_events(rest, wants_mouse, true) =~= input_events(
        rest,
        wants_mouse,
        true,
    ));
}

/// The keys of the open dialog, whatever follows: `c` copies and `q` quits, in either case,
/// and Escape closes it; any other key does nothing.
pub proof fn open_dialog_has_its_keys(key: u8, rest: Seq<u8>, wants_mouse: bool)
    requires
        key != CTRL_Q,
        key == ESC && rest.len() > 0 ==> rest[0] != 0x5b,
    ensures
        input_events(seq![key] + rest, wants_mouse, true) == (if key == 0x63 || key == 0x43 {
            seq![Event::ModalCopy]
        } else if key == 0x71 || key == 0x51 {
            seq![Event::ModalQuit]
        } else if key == 0x1b {
            seq![Event::ModalDismiss]
        } else {
            Seq::empty()
        }) + input_events(rest, wants_mouse, true),
{
    let s = seq![key] + rest;
    assert(s.skip(1) =~= rest);
    assert(s[0] == key);
    if rest.len() > 0 {
        assert(s[1] == rest[0]);
    }
}

proof fn lemma_osc_ends(s: Seq<u8>, at: int, end: int)
    requires
        0 <= at <= end < s.len(),
        forall|i: int| at <= i < end ==> #[trigger] s[i] != ESC && s[i] != 0x07,
        s[end] == 0x07,
    ensures
        escape::osc_end(s, at) == end + 1,
        escape::osc_body_end(s, at) == end,
    decreases end - at,
{
    if at < end {
        lemma_osc_ends(s, at + 1, end);
    }
}

/// An OSC sequence is one input for the shell, up to its BEL, and so are Escape and the key
/// behind it; what follows is read by itself.
pub proof fn other_sequences_are_kept_whole(
    body: Seq<u8>,
    key: u8,
    rest: Seq<u8>,
    wants_mouse: bool,
)
    requires
        forall|i: int| 0 <= i < body.len() ==> #[trigger] body[i] != ESC && body[i] != 0x07,
        key != 0x5b && key != 0x5d,
    ensures
        ({
            let osc = seq![0x1bu8, 0x5d] + body + seq![0x07u8];
            let alt = seq![0x1bu8, key];
            &&& input_events(osc + rest, wants_mouse, false) == seq![Event::Data(osc)]
                + input_events(rest, wants_mouse, false)
            &&& input_events(alt + rest, wants_mouse, false) == seq![Event::Data(alt)]
                + input_events(rest, wants_mouse, false)
        }),
{
    let osc = seq![0x1bu8, 0x5d] + body + seq![0x07u8];
    let s = osc + rest;
    let n = 2 + body.len() as int;
    assert forall|i: int| 2 <= i < n implies #[trigger] s[i] != ESC && s[i] != 0x07 by {
        assert(s[i] == body[i - 2]);
    }
    assert(s[n] == 0x07);
    lemma_osc_ends(s, 2, n);
    assert(s[0] == ESC && s[1] == 0x5d);
    assert(s.take(n + 1) =~= osc);
    assert(s.skip(n + 1) =~= rest);
    let alt = seq![0x1bu8, key];
    let t = alt + rest;
    assert(t[0] == ESC && t[1] == key);
    assert(t.take(2) =~= alt);
    assert(t.skip(2) =~= rest);
}

proof fn lemma_no_report_end(s: Seq<u8>, at: int)
    requires
        0 <= at <= s.len(),
        forall|i: int| at <= i < s.len() ==> #[trigger] s[i] != 0x4d && s[i] != 0x6d,
    ensures
        report_end(s, at) == s.len(),
    decreases s.len() - at,
{
    if at < s.len() {
        lemma_no_report_end(s, at + 1);
    }
}

/// A mouse report without its end means nothing, and neither does anything behind it.
pub proof fn unended_reports_mean_nothing(s: Seq<u8>, wants_mouse: bool)
    requires
        report_starts_at(s, 0),
        forall|i: int| 3 <= i < s.len() ==> #[trigger] s[i] != 0x4d && s[i] != 0x6d,
    ensures
        input_events(s, wants_mouse, false) == Seq::<Event>::empty(),
{
    lemma_no_report_end(s, 3);
    assert(s.skip(s.len() as int) =~= Seq::<u8>::empty());
    assert(input_events(Seq::empty(), wants_mouse, false) == Seq::<Event>::empty());
}

/// What a report means whose parameters are any texts: nothing where there are fewer than
/// three; for a program that asked for the mouse, the report as it is; nothing where the
/// button is no number; and a column or a row that is no number counts as the first one.
#[verifier::rlimit(50)]
#[verifier::spinoff_prover]
pub proof fn odd_reports_are_read(
    params: Seq<char>,
    release: bool,
    wants_mouse: bool,
    rest: Seq<u8>,
)
    requires
        forall|i: int| 0 <= i < params.len() ==> '\0' <= #[trigger] params[i] <= '\u{7f}',
        forall|i: int|
            0 <= i < params.len() ==> #[trigger] params[i] != 'M' && params[i] != 'm',
    ensures
        ({
            let report = encode_utf8(
                seq!['\x1b', '[', '<'] + params + seq![
                    if release {
                        'm'
                    } else {
                        'M'
                    },
                ],
            );
            let more = input_events(rest, wants_mouse, false);
            let events = input_events(report + rest, wants_mouse, false);
            let f = text::fields(params, ';');
            &&& f.len() < 3 ==> events == more
            &&& f.len() >= 3 && wants_mouse ==> events == seq![Event::Mouse(report)] + more
            &&& f.len() >= 3 && !wants_mouse && text::unsigned(f[0], u32::MAX as nat) is None
                ==> events == more
            &&& f.len() >= 3 && !wants_mouse && text::unsigned(f[0], u32::MAX as nat) == Some(0nat)
                && !release ==> events.len() > 0 && events[0] == (Event::SelectStart {
                col: match text::unsigned(f[1], 65535) {
                    Some(n) => if n > 0 {
                        n - 1
                    } else {
                        0
                    },
                    None => 0,
                },
                row: match text::unsigned(f[2], 65535) {
                    Some(n) => if n > 0 {
                        n - 1
                    } else {
                        0
                    },
                    None => 0,
                },
                alt: false,
            })
        }),
{
    let p = params;
    let t = seq!['\x1b', '[', '<'] + p + seq![
        if release {
            'm'
        } else {
            'M'
        },
    ];
    let report = encode_utf8(t);
    let bytes = report + rest;
    let end = 3 + p.len() as int;
    assert forall|i: int| 0 <= i < t.len() implies '\0' <= #[trigger] t[i] <= '\u{7f}' by {
        if 3 <= i < end {
            assert(t[i] == p[i - 3]);
        }
    }
    is_ascii_chars_encode_utf8(t);
    is_ascii_chars_encode_utf8(p);
    assert(t[0] == '\x1b' && t[1] == '[' && t[2] == '<');
    assert(bytes[0] == report[0] && bytes[1] == report[1] && bytes[2] == report[2]);
    assert forall|i: int| 3 <= i < end implies #[trigger] bytes[i] != 0x4d && bytes[i] != 0x6d by {
        assert(bytes[i] == report[i]);
        assert(t[i] == p[i - 3]);
        assert(report[i] == t[i] as u8);
    }
    assert(t[end] == 'm' || t[end] == 'M');
    assert(bytes[end] == report[end]);
    lemma_report_ends(bytes, 3, end);
    assert forall|i: int|
        0 <= i < p.len() implies bytes.subrange(3, end)[i] == encode_utf8(p)[i] by {
        assert(t[i + 3] == p[i]);
        assert(report[i + 3] == t[i + 3] as u8);
        assert(encode_utf8(p)[i] == p[i] as u8);
    }
    assert(bytes.subrange(3, end) =~= encode_utf8(p));
    encode_utf8_valid_utf8(p);
    encode_utf8_decode_utf8(p);
    assert(bytes.take(end + 1) =~= report);
    assert(bytes.skip(end + 1) =~= rest);
    let events = report_events(bytes.subrange(3, end), release, report, wants_mouse);
    let more = input_events(rest, wants_mouse, false);
    assert(input_step(bytes, wants_mouse, false) == (events, end + 1));
    assert(Seq::<Event>::empty() + more =~= more);
    assert({
        &&& 999u32 & !0b11100u32 == 995
        &&& 0u32 & !0b11100u32 == 0
        &&& 0u32 & 8u32 == 0
    }) by (bit_vector);
}

} // verus!
