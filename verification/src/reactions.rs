//! What the events of the local screen come to: how the view moves, what is selected, what
//! is drawn and sent, what is copied, and when the dialog is open.

use vstd::prelude::*;
use vstd::utf8::*;

use crate::dialog;
use crate::input::Event;
use crate::local;
use crate::local::{Clicks, Clipboard, Local, LocalEvent, SelectionKind, Step, ViewState};
use crate::modal;

verus! {

// ---- Steps that leave view and selection alone ----

/// Whether a row of steps only writes, draws, waits or quits.
spec fn keeps(steps: Seq<Step>) -> bool {
    forall|i: int|
        0 <= i < steps.len() ==> {
            let step = #[trigger] steps[i];
            step is Write || step is Flush || step is DrawScreen || step is DrawBar || step is Sleep
                || step is Quit
        }
}

#[verifier::spinoff_prover]
proof fn lemma_opening_keeps(s: Local)
    ensures
        keeps(s.opening()),
{
}

#[verifier::spinoff_prover]
proof fn lemma_closing_keeps(s: Local)
    ensures
        keeps(s.closing()),
{
}

#[verifier::spinoff_prover]
proof fn lemma_copying_keeps(s: Local)
    ensures
        keeps(s.copying()),
{
}

#[verifier::spinoff_prover]
proof fn lemma_bar_keeps(s: Local, col: int)
    ensures
        keeps(s.bar_click(col)),
{
    lemma_opening_keeps(s);
}

/// Whether an event is one of the dialog, or a click on the bar.
spec fn is_aside(s: Local, event: Event) -> bool {
    match event {
        Event::ModalToggle | Event::ModalCopy | Event::ModalQuit | Event::ModalDismiss => true,
        Event::SelectStart { col, row, alt } => row >= dialog::rows_above(s.rows),
        _ => false,
    }
}

#[verifier::spinoff_prover]
proof fn lemma_aside_keeps(s: Local, event: Event, view: ViewState, now: u64)
    requires
        is_aside(s, event),
    ensures
        keeps(s.stdin_steps(event, view, now)),
{
    lemma_opening_keeps(s);
    lemma_closing_keeps(s);
    lemma_copying_keeps(s);
    if let Event::SelectStart { col, row, alt } = event {
        lemma_bar_keeps(s, col);
    }
}

/// The steps of a click above the bar.
#[verifier::spinoff_prover]
proof fn lemma_click_steps(s: Local, col: int, row: int, alt: bool, offset: int, now: u64)
    ensures
        ({
            let count = local::clicked(s.clicks, now, col as u16, row as u16).count;
            let line = row - offset;
            let head = seq![
                Step::ClearSelection,
                Step::Select { kind: local::selection_kind(alt, count), line, column: col },
            ];
            s.select_click(col, row, alt, offset, now) == (if count >= 2 {
                head.push(Step::ExtendSelection { line, column: col })
            } else {
                head
            }) + Local::redraw()
        }),
{
    let count = local::clicked(s.clicks, now, col as u16, row as u16).count;
    let line = row - offset;
    let head = seq![
        Step::ClearSelection,
        Step::Select { kind: local::selection_kind(alt, count), line, column: col },
    ];
    if count >= 2 {
        let more = seq![Step::ExtendSelection { line, column: col }];
        assert(head + more =~= head.push(more[0]));
    } else {
        assert(head + Seq::empty() =~= head);
    }
}

/// The steps of typing: the last two before the input draw, where anything changed.
#[verifier::rlimit(50)]
#[verifier::spinoff_prover]
proof fn lemma_typing_steps(s: Local, data: Seq<u8>, view: ViewState)
    ensures
        ({
            let steps = s.typing(data, view);
            let n = steps.len() as int;
            &&& n >= 2
            &&& steps[0] is ClearSelection
            &&& steps[n - 1] == Step::Input(data)
            &&& forall|i: int|
                1 <= i < n - 1 ==> {
                    let step = #[trigger] steps[i];
                    step is ScrollToBottom || step is DrawScreen || step is DrawBar
                }
            &&& view.display_offset != 0 ==> steps[1] is ScrollToBottom
            &&& view.display_offset == 0 ==> forall|i: int|
                0 <= i < n ==> !(#[trigger] steps[i] is ScrollToBottom)
            &&& view.selecting || view.display_offset != 0 ==> n >= 4 && steps[n - 3] is DrawScreen
                && steps[n - 2] is DrawBar
            &&& !view.selecting && view.display_offset == 0 ==> n == 2
        }),
{
}

/// The steps when the button goes up.
#[verifier::spinoff_prover]
proof fn lemma_end_steps(s: Local, view: ViewState)
    ensures
        ({
            let steps = s.select_end(view);
            let n = steps.len() as int;
            &&& n >= 1
            &&& steps[n - 1] is Flush
            &&& forall|i: int|
                0 <= i < n ==> {
                    let step = #[trigger] steps[i];
                    step is Write || step is ClearSelection || step is DrawScreen || step is DrawBar
                        || step is Flush
                }
            &&& s.clicks.count <= 1 ==> n >= 4 && steps[n - 4] is ClearSelection && steps[n
                - 3] is DrawScreen
            &&& s.clicks.count > 1 ==> forall|i: int|
                0 <= i < n ==> !(#[trigger] steps[i] is ClearSelection)
            &&& forall|i: int|
                0 <= i < n && #[trigger] steps[i] is ClearSelection ==> i == n - 4
            &&& forall|i: int|
                0 <= i < n && #[trigger] steps[i] is DrawScreen ==> i == n - 3
        }),
{
}

// ---- The view ----

/// By how many lines a row of steps moves the view up.
pub open spec fn moved(steps: Seq<Step>) -> int
    decreases steps.len(),
{
    if steps.len() == 0 {
        0
    } else {
        moved(steps.drop_last()) + match steps.last() {
            Step::Scroll(n) => n,
            _ => 0,
        }
    }
}

/// Whether a row of steps moves the view to the last lines.
pub open spec fn goes_to_bottom(steps: Seq<Step>) -> bool {
    exists|i: int| 0 <= i < steps.len() && #[trigger] steps[i] is ScrollToBottom
}

proof fn lemma_no_scroll(steps: Seq<Step>)
    requires
        forall|i: int| 0 <= i < steps.len() ==> !(#[trigger] steps[i] is Scroll),
    ensures
        moved(steps) == 0,
    decreases steps.len(),
{
    if steps.len() > 0 {
        assert(!(steps[steps.len() - 1] is Scroll));
        assert forall|i: int| 0 <= i < steps.drop_last().len() implies !(
        #[trigger] steps.drop_last()[i] is Scroll) by {
            assert(!(steps[i] is Scroll));
        }
        lemma_no_scroll(steps.drop_last());
    }
}

/// The wheel moves the view by as many lines as it says, up or down, and nothing else does;
/// typing brings back the last lines where the view does not show them.
#[verifier::rlimit(50)]
#[verifier::spinoff_prover]
pub proof fn wheel_moves_the_view(s: Local, event: Event, view: ViewState, now: u64)
    ensures
        moved(s.stdin_steps(event, view, now)) == match event {
            Event::ScrollUp(n) => n,
            Event::ScrollDown(n) => -n,
            _ => 0,
        },
        goes_to_bottom(s.stdin_steps(event, view, now)) <==> event is Data && view.display_offset
            != 0,
{
    let steps = s.stdin_steps(event, view, now);
    if is_aside(s, event) {
        lemma_aside_keeps(s, event, view, now);
        lemma_no_scroll(steps);
    } else {
        match event {
            Event::ScrollUp(n) => {
                lemma_scroll_moves(n);
            },
            Event::ScrollDown(n) => {
                lemma_scroll_moves(-n);
            },
            Event::SelectStart { col, row, alt } => {
                lemma_click_steps(s, col, row, alt, view.display_offset as int, now);
                lemma_no_scroll(steps);
            },
            Event::Data(d) => {
                lemma_typing_steps(s, d, view);
                lemma_no_scroll(steps);
            },
            Event::SelectEnd => {
                lemma_end_steps(s, view);
                lemma_no_scroll(steps);
            },
            _ => {
                lemma_no_scroll(steps);
            },
        }
    }
}

proof fn lemma_scroll_moves(n: int)
    ensures
        moved(seq![Step::Scroll(n)] + Local::redraw()) == n,
        !goes_to_bottom(seq![Step::Scroll(n)] + Local::redraw()),
{
    let head = seq![Step::Scroll(n)];
    let steps = head + Local::redraw();
    reveal_with_fuel(moved, 4);
    assert(steps.drop_last() =~= head.push(Step::DrawScreen));
    assert(head.push(Step::DrawScreen).drop_last() =~= head);
    assert(head.drop_last() =~= Seq::<Step>::empty());
}

/// Whether a step changes what the view shows.
pub open spec fn changes_view(step: Step) -> bool {
    step is Select || step is ExtendSelection || step is Scroll || step is ScrollToBottom
        || step is Resize
}

/// Whether a step sends what was written before it.
pub open spec fn sends(step: Step) -> bool {
    step is Flush || step is DrawBar
}

/// Nothing stays on the screen that is no longer so: whatever changes the view is followed
/// by the drawing of the screen, and so is the end of a selection where there is one; and
/// all that is drawn or written is sent.
pub proof fn changes_are_drawn_and_sent(
    s: Local,
    event: LocalEvent,
    view: ViewState,
    now: u64,
    i: int,
)
    requires
        0 <= i < s.steps(event, view, now).len(),
    ensures
        ({
            let steps = s.steps(event, view, now);
            let ends = steps[i] is ClearSelection && view.selecting;
            &&& changes_view(steps[i]) || ends ==> exists|j: int|
                i < j < steps.len() && #[trigger] steps[j] is DrawScreen
            &&& steps[i] is Write || steps[i] is DrawScreen ==> exists|j: int|
                i < j < steps.len() && sends(#[trigger] steps[j])
        }),
{
    let steps = s.steps(event, view, now);
    let n = steps.len() as int;
    match event {
        LocalEvent::Stdin(e) => {
            lemma_stdin_drawn(s, e@, view, now, i);
        },
        LocalEvent::Resized { cols, rows } => {
            assert(steps[n - 2] is DrawScreen);
            assert(sends(steps[n - 1]));
        },
        LocalEvent::Lagged => {
            assert(sends(steps[1]));
        },
        _ => {},
    }
}

#[verifier::rlimit(50)]
#[verifier::spinoff_prover]
proof fn lemma_stdin_drawn(s: Local, event: Event, view: ViewState, now: u64, i: int)
    requires
        0 <= i < s.stdin_steps(event, view, now).len(),
    ensures
        ({
            let steps = s.stdin_steps(event, view, now);
            let ends = steps[i] is ClearSelection && view.selecting;
            &&& changes_view(steps[i]) || ends ==> exists|j: int|
                i < j < steps.len() && #[trigger] steps[j] is DrawScreen
            &&& steps[i] is Write || steps[i] is DrawScreen ==> exists|j: int|
                i < j < steps.len() && sends(#[trigger] steps[j])
        }),
{
    let steps = s.stdin_steps(event, view, now);
    let n = steps.len() as int;
    if is_aside(s, event) {
        lemma_aside_keeps(s, event, view, now);
        lemma_opening_bar(s);
        lemma_closing_bar(s);
        lemma_copying_bar(s);
        if let Event::SelectStart { col, row, alt } = event {
            lemma_click_bar(s, col);
        }
        if steps[i] is Write || steps[i] is DrawScreen {
            assert(sends(steps[n - 1]));
        }
    } else {
        match event {
            Event::SelectStart { col, row, alt } => {
                lemma_click_steps(s, col, row, alt, view.display_offset as int, now);
                assert(steps[n - 2] is DrawScreen);
                assert(sends(steps[n - 1]));
            },
            Event::Data(d) => {
                lemma_typing_steps(s, d, view);
                if view.selecting || view.display_offset != 0 {
                    assert(steps[n - 3] is DrawScreen);
                    assert(sends(steps[n - 2]));
                }
            },
            Event::SelectEnd => {
                lemma_end_steps(s, view);
                assert(sends(steps[n - 1]));
                if s.clicks.count <= 1 {
                    assert(steps[n - 3] is DrawScreen);
                }
            },
            Event::Mouse(_) => {},
            Event::Focus(_) => {},
            _ => {
                assert(steps[n - 2] is DrawScreen);
                assert(sends(steps[n - 1]));
            },
        }
    }
}

/// Where output was dropped, the whole screen is drawn again.
pub proof fn dropped_output_is_drawn(s: Local, view: ViewState, now: u64)
    ensures
        exists|j: int|
            0 <= j < s.steps(LocalEvent::Lagged, view, now).len() && #[trigger] s.steps(
                LocalEvent::Lagged,
                view,
                now,
            )[j] is DrawScreen,
{
    assert(s.steps(LocalEvent::Lagged, view, now)[0] is DrawScreen);
}

// ---- The selection ----

/// What is selected: from which cell on, in which way, and up to which cell once it is
/// known.
pub struct Selected {
    pub kind: SelectionKind,
    pub line: int,
    pub column: int,
    pub end: Option<(int, int)>,
}

/// What is selected after a step.
pub open spec fn selected_after(was: Option<Selected>, step: Step) -> Option<Selected> {
    match step {
        Step::ClearSelection => None,
        Step::Select { kind, line, column } => Some(Selected { kind, line, column, end: None }),
        Step::ExtendSelection { line, column } => match was {
            Some(sel) => Some(Selected { end: Some((line, column)), ..sel }),
            None => None,
        },
        _ => was,
    }
}

/// What is selected after a row of steps.
pub open spec fn selected(was: Option<Selected>, steps: Seq<Step>) -> Option<Selected>
    decreases steps.len(),
{
    if steps.len() == 0 {
        was
    } else {
        selected_after(selected(was, steps.drop_last()), steps.last())
    }
}

/// Whether a step leaves the selection alone.
spec fn leaves_selection(step: Step) -> bool {
    !(step is ClearSelection) && !(step is Select) && !(step is ExtendSelection)
}

proof fn lemma_selected_both(was: Option<Selected>, a: Seq<Step>, b: Seq<Step>)
    requires
        forall|i: int| 0 <= i < b.len() ==> leaves_selection(#[trigger] b[i]),
    ensures
        selected(was, a + b) == selected(was, a),
    decreases b.len(),
{
    if b.len() == 0 {
        assert(a + b =~= a);
    } else {
        assert(leaves_selection(b[b.len() - 1]));
        assert((a + b).drop_last() =~= a + b.drop_last());
        assert forall|i: int| 0 <= i < b.drop_last().len() implies leaves_selection(
            #[trigger] b.drop_last()[i],
        ) by {
            assert(leaves_selection(b[i]));
        }
        lemma_selected_both(was, a, b.drop_last());
    }
}

proof fn lemma_selected_kept(was: Option<Selected>, steps: Seq<Step>)
    requires
        forall|i: int| 0 <= i < steps.len() ==> leaves_selection(#[trigger] steps[i]),
    ensures
        selected(was, steps) == was,
{
    lemma_selected_both(was, Seq::empty(), steps);
    assert(Seq::<Step>::empty() + steps =~= steps);
}

/// A click above the bar starts a selection at its cell, in the line that the view shows
/// there; the second and the third click on a cell take it in at once. A drag moves the end
/// of the selection to its cell. When the button goes up a selection made cell by cell is
/// gone, and the others stay; typing ends any selection; nothing else changes it.
#[verifier::rlimit(50)]
#[verifier::spinoff_prover]
pub proof fn selection_follows_the_mouse(
    s: Local,
    event: Event,
    view: ViewState,
    now: u64,
    was: Option<Selected>,
)
    requires
        view.selecting <==> was is Some,
    ensures
        ({
            let sel = selected(was, s.stdin_steps(event, view, now));
            let above = dialog::rows_above(s.rows);
            let offset = view.display_offset as int;
            match event {
                Event::SelectStart { col, row, alt } => if row < above {
                    let count = s.after_stdin(event, now).clicks.count;
                    &&& sel is Some
                    &&& sel->0.line == row - offset
                    &&& sel->0.column == col
                    &&& sel->0.end == if count == 1 {
                        None
                    } else {
                        Some((row - offset, col))
                    }
                    &&& sel->0.kind == if alt {
                        SelectionKind::Block
                    } else if count == 1 {
                        SelectionKind::Simple
                    } else if count == 2 {
                        SelectionKind::Semantic
                    } else {
                        SelectionKind::Lines
                    }
                } else {
                    sel == was
                },
                Event::SelectUpdate(col, row) => match was {
                    Some(old_sel) => sel == Some(
                        Selected { end: Some((row - offset, col)), ..old_sel },
                    ),
                    None => sel is None,
                },
                Event::SelectEnd => sel == if s.clicks.count <= 1 {
                    None
                } else {
                    was
                },
                Event::Data(_) => sel is None,
                _ => sel == was,
            }
        }),
{
    let steps = s.stdin_steps(event, view, now);
    if is_aside(s, event) {
        lemma_aside_keeps(s, event, view, now);
        lemma_selected_kept(was, steps);
    } else {
        match event {
            Event::SelectStart { col, row, alt } => {
                lemma_click_selects(s, col, row, alt, view.display_offset as int, now, was);
            },
            Event::SelectUpdate(col, row) => {
                if view.selecting {
                    lemma_drag_extends(row - view.display_offset, col, was);
                } else {
                    lemma_selected_kept(was, steps);
                }
            },
            Event::SelectEnd => {
                lemma_end_selects(s, view, was);
            },
            Event::Data(d) => {
                lemma_typing_steps(s, d, view);
                let a = seq![steps[0]];
                let b = steps.skip(1);
                reveal_with_fuel(selected, 2);
                assert(a.drop_last() =~= Seq::<Step>::empty());
                assert(steps =~= a + b);
                lemma_selected_both(was, a, b);
            },
            _ => {
                lemma_selected_kept(was, steps);
            },
        }
    }
}

proof fn lemma_end_selects(s: Local, view: ViewState, was: Option<Selected>)
    ensures
        selected(was, s.select_end(view)) == if s.clicks.count <= 1 {
            None
        } else {
            was
        },
{
    let steps = s.select_end(view);
    lemma_end_steps(s, view);
    if s.clicks.count <= 1 {
        let n = steps.len() as int;
        let a = steps.take(n - 3);
        let b = steps.skip(n - 3);
        assert(steps =~= a + b);
        assert(a.last() is ClearSelection);
        lemma_selected_both(was, a, b);
    } else {
        lemma_selected_kept(was, steps);
    }
}

proof fn lemma_drag_extends(line: int, column: int, was: Option<Selected>)
    ensures
        selected(was, seq![Step::ExtendSelection { line, column }] + Local::redraw())
            == selected_after(was, Step::ExtendSelection { line, column }),
{
    let a = seq![Step::ExtendSelection { line, column }];
    reveal_with_fuel(selected, 2);
    assert(a.drop_last() =~= Seq::<Step>::empty());
    lemma_selected_both(was, a, Local::redraw());
}

proof fn lemma_click_selects(
    s: Local,
    col: int,
    row: int,
    alt: bool,
    offset: int,
    now: u64,
    was: Option<Selected>,
)
    ensures
        ({
            let count = local::clicked(s.clicks, now, col as u16, row as u16).count;
            selected(was, s.select_click(col, row, alt, offset, now)) == Some(
                Selected {
                    kind: local::selection_kind(alt, count),
                    line: row - offset,
                    column: col,
                    end: if count >= 2 {
                        Some((row - offset, col))
                    } else {
                        None
                    },
                },
            )
        }),
{
    let count = local::clicked(s.clicks, now, col as u16, row as u16).count;
    let line = row - offset;
    let a = seq![
        Step::ClearSelection,
        Step::Select { kind: local::selection_kind(alt, count), line, column: col },
    ];
    lemma_click_steps(s, col, row, alt, offset, now);
    reveal_with_fuel(selected, 4);
    assert(a.drop_last() =~= seq![a[0]]);
    assert(seq![a[0]].drop_last() =~= Seq::<Step>::empty());
    if count >= 2 {
        let b = a.push(Step::ExtendSelection { line, column: col });
        assert(b.drop_last() =~= a);
        lemma_selected_both(was, b, Local::redraw());
    } else {
        lemma_selected_both(was, a, Local::redraw());
    }
}

/// A click counts on from the last one where it follows within three tenths of a second on
/// the same cell, from one to two to three and then to one again; any other click is a first
/// one. Its own time and cell are kept for the next.
pub proof fn clicks_are_counted(last: Clicks, now: u64, col: u16, row: u16)
    requires
        last.count <= 3,
    ensures
        ({
            let next = local::clicked(last, now, col, row);
            let follows = now < last.time + 300_000_000 && col == last.col && row == last.row;
            &&& next.time == now && next.col == col && next.row == row
            &&& !follows ==> next.count == 1
            &&& follows && last.count < 3 ==> next.count == last.count + 1
            &&& follows && last.count == 3 ==> next.count == 1
            &&& 1 <= next.count <= 3
        }),
{
}

// ---- What is written ----

/// What a row of steps writes to the outer terminal, besides the screen and the bar.
pub open spec fn written(steps: Seq<Step>) -> Seq<Seq<u8>>
    decreases steps.len(),
{
    if steps.len() == 0 {
        Seq::empty()
    } else {
        match steps.last() {
            Step::Write(b) => written(steps.drop_last()).push(b),
            _ => written(steps.drop_last()),
        }
    }
}

/// What is written to copy a text.
pub open spec fn copies(t: Seq<char>) -> Seq<u8> {
    encode_utf8(local::copy_text(Clipboard::Clipboard, encode_utf8(t)))
}

proof fn lemma_written_both(a: Seq<Step>, b: Seq<Step>)
    requires
        forall|i: int| 0 <= i < b.len() ==> !(#[trigger] b[i] is Write),
    ensures
        written(a + b) == written(a),
    decreases b.len(),
{
    if b.len() == 0 {
        assert(a + b =~= a);
    } else {
        assert(!(b[b.len() - 1] is Write));
        assert((a + b).drop_last() =~= a + b.drop_last());
        assert forall|i: int| 0 <= i < b.drop_last().len() implies !(
        #[trigger] b.drop_last()[i] is Write) by {
            assert(!(b[i] is Write));
        }
        lemma_written_both(a, b.drop_last());
    }
}

proof fn lemma_nothing_written(steps: Seq<Step>)
    requires
        forall|i: int| 0 <= i < steps.len() ==> !(#[trigger] steps[i] is Write),
    ensures
        written(steps) == Seq::<Seq<u8>>::empty(),
{
    lemma_written_both(Seq::empty(), steps);
    assert(Seq::<Step>::empty() + steps =~= steps);
}

proof fn lemma_written_one(b: Seq<u8>, rest: Seq<Step>)
    requires
        forall|i: int| 0 <= i < rest.len() ==> !(#[trigger] rest[i] is Write),
    ensures
        written(seq![Step::Write(b)] + rest) == seq![b],
{
    let a = seq![Step::Write(b)];
    lemma_written_both(a, rest);
    reveal_with_fuel(written, 2);
    assert(a.drop_last() =~= Seq::<Step>::empty());
    assert(written(a) =~= seq![b]);
}

/// When the button goes up, what is selected is copied; where nothing is selected nothing
/// is written.
pub proof fn selected_text_is_copied(s: Local, view: ViewState, now: u64)
    ensures
        written(s.stdin_steps(Event::SelectEnd, view, now)) == match view.selected {
            Some(t) => if t@.len() > 0 {
                seq![copies(t@)]
            } else {
                Seq::empty()
            },
            None => Seq::empty(),
        },
{
    let steps = s.stdin_steps(Event::SelectEnd, view, now);
    if view.selected is Some && view.selected->0@.len() > 0 {
        let rest = steps.skip(1);
        assert(steps =~= seq![Step::Write(copies(view.selected->0@))] + rest);
        lemma_written_one(copies(view.selected->0@), rest);
    } else {
        lemma_nothing_written(steps);
    }
}

/// A frame of the dialog on the screen as it is.
pub open spec fn frame_bytes(s: Local, frame: u8) -> Seq<u8> {
    encode_utf8(
        modal::frame_text(
            s.dialog->0.lines(s.cols as int, s.show_on_start),
            s.cols,
            s.rows,
            frame,
        ),
    )
}

proof fn lemma_opening_written(s: Local)
    requires
        s.dialog is Some,
    ensures
        written(s.opening()) == seq![
            encode_utf8(local::cursor_switch_text(false)),
            frame_bytes(s, 0),
            frame_bytes(s, 1),
            frame_bytes(s, 2),
        ],
{
    let steps = s.opening();
    reveal_with_fuel(written, 10);
    assert(steps.len() == 9);
    assert(steps.drop_last() =~= steps.take(8));
    assert(steps.take(8).drop_last() =~= steps.take(7));
    assert(steps.take(7).drop_last() =~= steps.take(6));
    assert(steps.take(6).drop_last() =~= steps.take(5));
    assert(steps.take(5).drop_last() =~= steps.take(4));
    assert(steps.take(4).drop_last() =~= steps.take(3));
    assert(steps.take(3).drop_last() =~= steps.take(2));
    assert(steps.take(2).drop_last() =~= steps.take(1));
    assert(steps.take(1).drop_last() =~= Seq::<Step>::empty());
    assert(written(steps) =~= seq![
        encode_utf8(local::cursor_switch_text(false)),
        frame_bytes(s, 0),
        frame_bytes(s, 1),
        frame_bytes(s, 2),
    ]);
}

/// The closed dialog, where there is one, comes up on Ctrl+Q and on a click on the last
/// thirteen columns of the bar: the cursor is hidden, and one frame after the other is
/// written and sent, the last one with all of the dialog.
pub proof fn dialog_comes_up(s: Local, event: Event, view: ViewState, now: u64)
    requires
        s.wf(),
        !s.modal_open,
        event is ModalToggle || (event matches Event::SelectStart { col, row, .. } && row
            >= dialog::rows_above(s.rows) && col + 13 >= s.cols && col >= 0),
    ensures
        s.after_stdin(event, now).modal_open == s.dialog is Some,
        s.dialog is None ==> s.stdin_steps(event, view, now).len() == 0,
        s.dialog is Some ==> {
            let steps = s.stdin_steps(event, view, now);
            &&& written(steps) == seq![
                encode_utf8(local::cursor_switch_text(false)),
                frame_bytes(s, 0),
                frame_bytes(s, 1),
                frame_bytes(s, 2),
            ]
            &&& forall|i: int|
                0 <= i < steps.len() && #[trigger] steps[i] is Sleep ==> i > 0 && steps[i - 1]
                    is Flush && steps[i] == Step::Sleep(33)
            &&& steps.last() is Flush
        },
{
    if s.dialog is Some {
        lemma_opening_written(s);
    }
}

/// The open dialog goes away on Ctrl+Q and on Escape: the screen is cleared and drawn, the
/// cursor shows again, and the bar is drawn.
pub proof fn dialog_goes_away(s: Local, event: Event, view: ViewState, now: u64)
    requires
        s.modal_open,
        event is ModalToggle || event is ModalDismiss,
    ensures
        !s.after_stdin(event, now).modal_open,
        ({
            let steps = s.stdin_steps(event, view, now);
            &&& written(steps) == seq![
                encode_utf8(local::cleared_text(s.rows)),
                encode_utf8(local::cursor_switch_text(true)),
            ]
            &&& exists|i: int|
                0 < i < steps.len() && #[trigger] steps[i] is DrawScreen && steps[0] is Write
            &&& steps.last() == Step::DrawBar(false)
        }),
{
    let steps = s.stdin_steps(event, view, now);
    reveal_with_fuel(written, 5);
    assert(steps.drop_last() =~= steps.take(3));
    assert(steps.take(3).drop_last() =~= steps.take(2));
    assert(steps.take(2).drop_last() =~= steps.take(1));
    assert(steps.take(1).drop_last() =~= Seq::<Step>::empty());
    assert(written(steps) =~= seq![
        encode_utf8(local::cleared_text(s.rows)),
        encode_utf8(local::cursor_switch_text(true)),
    ]);
    assert(steps[1] is DrawScreen);
}

/// Escape with the dialog closed does nothing.
pub proof fn closed_dialog_cannot_go_away(s: Local, view: ViewState, now: u64)
    requires
        !s.modal_open,
    ensures
        s.stdin_steps(Event::ModalDismiss, view, now).len() == 0,
        s.after_stdin(Event::ModalDismiss, now) == s,
{
}

/// The key for it copies the address of the dialog; for a second the bar says so, and the
/// dialog is drawn anew behind it.
pub proof fn dialog_copies_its_address(s: Local, view: ViewState, now: u64)
    ensures
        s.dialog is None ==> s.stdin_steps(Event::ModalCopy, view, now).len() == 0,
        s.dialog matches Some(d) ==> {
            let steps = s.stdin_steps(Event::ModalCopy, view, now);
            &&& written(steps) == seq![copies(d.url@), frame_bytes(s, 2)]
            &&& steps[1] == Step::DrawBar(true)
            &&& steps[2] == Step::Sleep(1000)
            &&& steps.last() == Step::DrawBar(false)
        },
{
    if let Some(d) = s.dialog {
        let steps = s.stdin_steps(Event::ModalCopy, view, now);
        reveal_with_fuel(written, 6);
        assert(steps.drop_last() =~= steps.take(4));
        assert(steps.take(4).drop_last() =~= steps.take(3));
        assert(steps.take(3).drop_last() =~= steps.take(2));
        assert(steps.take(2).drop_last() =~= steps.take(1));
        assert(steps.take(1).drop_last() =~= Seq::<Step>::empty());
        assert(written(steps) =~= seq![copies(d.url@), frame_bytes(s, 2)]);
    }
}

/// A click on the bar left of its last thirteen columns copies the address of the session
/// and leaves a note on the bar for a while; where the session is not shared it does
/// nothing. Either way nothing else changes.
pub proof fn click_on_the_bar_copies_the_address(
    s: Local,
    col: int,
    row: int,
    alt: bool,
    view: ViewState,
    now: u64,
)
    requires
        row >= dialog::rows_above(s.rows),
        0 <= col < s.cols - 13,
    ensures
        s.after_stdin(Event::SelectStart { col, row, alt }, now) == s,
        s.slug is None ==> s.stdin_steps(
            Event::SelectStart { col, row, alt },
            view,
            now,
        ).len() == 0,
        s.slug matches Some(slug) ==> {
            let steps = s.stdin_steps(Event::SelectStart { col, row, alt }, view, now);
            &&& written(steps).len() == 2
            &&& written(steps)[0] == copies("https://remux.sh/"@ + slug@)
            &&& written(steps)[1] == encode_utf8(
                local::copied_text(s.rows, match s.bar_url {
                    Some(u) => Some(u@),
                    None => None,
                }),
            )
            &&& steps[2] is Flush
            &&& steps[3] == Step::Sleep(800)
            &&& steps.last() == Step::DrawBar(false)
        },
{
    if let Some(slug) = s.slug {
        let steps = s.stdin_steps(Event::SelectStart { col, row, alt }, view, now);
        reveal_with_fuel(written, 6);
        assert(steps.drop_last() =~= steps.take(4));
        assert(steps.take(4).drop_last() =~= steps.take(3));
        assert(steps.take(3).drop_last() =~= steps.take(2));
        assert(steps.take(2).drop_last() =~= steps.take(1));
        assert(steps.take(1).drop_last() =~= Seq::<Step>::empty());
    }
}

// ---- The state ----

/// What an event changes of the state, and what it leaves: the size is that of the window
/// from its change on; the dialog opens and closes on its own events; the last click is kept
/// where it is above the bar; nothing else ever changes.
#[verifier::rlimit(50)]
#[verifier::spinoff_prover]
pub proof fn events_change_only_what_is_theirs(s: Local, event: LocalEvent, now: u64)
    requires
        s.wf(),
        event matches LocalEvent::Stdin(e) ==> (e@ matches Event::SelectStart { col, row, .. } ==> 0
            <= col <= u16::MAX && 0 <= row <= u16::MAX),
    ensures
        ({
            let next = s.after(event, now);
            let above = dialog::rows_above(s.rows);
            &&& next.wf()
            &&& next.bar_url == s.bar_url && next.slug == s.slug && next.dialog == s.dialog
            &&& next.show_on_start == s.show_on_start
            &&& next.modes == s.modes && next.cursor == s.cursor
            &&& event matches LocalEvent::Resized { cols, rows } ==> next.cols == cols && next.rows
                == rows
            &&& !(event is Resized) ==> next.cols == s.cols && next.rows == s.rows
            &&& !(event is Stdin) ==> next.modal_open == s.modal_open && next.clicks == s.clicks
            &&& event matches LocalEvent::Stdin(e) ==> match e@ {
                Event::ModalToggle => {
                    &&& next.modal_open == (!s.modal_open && s.dialog is Some)
                    &&& next.clicks == s.clicks
                },
                Event::ModalDismiss => !next.modal_open && next.clicks == s.clicks,
                Event::SelectStart { col, row, .. } => if row < above {
                    &&& next.modal_open == s.modal_open
                    &&& next.clicks.time == now && next.clicks.col == col && next.clicks.row == row
                } else {
                    &&& next.clicks == s.clicks
                    &&& col + 13 >= s.cols ==> next.modal_open == s.dialog is Some
                    &&& col + 13 < s.cols ==> next.modal_open == s.modal_open
                },
                _ => next.modal_open == s.modal_open && next.clicks == s.clicks,
            }
        }),
{
}

/// A change of the window reaches the terminal inside, which has the rows above the bar and
/// all columns, and an answer of the terminal reaches the shell.
pub proof fn window_and_answers_are_passed_on(
    s: Local,
    event: LocalEvent,
    view: ViewState,
    now: u64,
)
    ensures
        event matches LocalEvent::Resized { cols, rows } ==> {
            let steps = s.steps(event, view, now);
            &&& steps[0] matches Step::Resize(size) && size.cols == cols && size.lines
                == dialog::rows_above(rows)
            &&& written(steps) == seq![encode_utf8(local::region_text(rows))]
        },
        event matches LocalEvent::Reply(t) ==> s.steps(event, view, now) == seq![
            Step::Input(encode_utf8(t@)),
        ],
{
    if let LocalEvent::Resized { cols, rows } = event {
        let steps = s.steps(event, view, now);
        let a = steps.take(2);
        let b = steps.skip(2);
        assert(steps =~= a + b);
        lemma_written_both(a, b);
        reveal_with_fuel(written, 3);
        assert(a.drop_last() =~= steps.take(1));
        assert(steps.take(1).drop_last() =~= Seq::<Step>::empty());
        assert(written(a) =~= seq![encode_utf8(local::region_text(rows))]);
    }
}

/// Keys, mouse reports and news of the focus are handed on once, as the last of all, with
/// the bytes that they have; nothing else hands anything on.
#[verifier::rlimit(50)]
#[verifier::spinoff_prover]
pub proof fn input_comes_last(s: Local, event: Event, view: ViewState, now: u64)
    ensures
        ({
            let steps = s.stdin_steps(event, view, now);
            &&& event matches Event::Data(d) ==> steps.last() == Step::Input(d)
            &&& event matches Event::Mouse(d) ==> steps == seq![Step::Input(d)]
            &&& event matches Event::Focus(d) ==> steps == seq![Step::Input(d)]
            &&& forall|i: int|
                0 <= i < steps.len() - 1 ==> !(#[trigger] steps[i] is Input)
        }),
{
    if is_aside(s, event) {
        lemma_aside_keeps(s, event, view, now);
    } else {
        match event {
            Event::SelectStart { col, row, alt } => {
                lemma_click_steps(s, col, row, alt, view.display_offset as int, now);
            },
            Event::Data(d) => {
                lemma_typing_steps(s, d, view);
            },
            Event::SelectEnd => {
                lemma_end_steps(s, view);
            },
            _ => {},
        }
    }
}

/// What cannot be handled is a dialog that does not fit, where an event brings it up, and a
/// turn of the wheel that has no opposite; anything else can.
pub proof fn all_else_can_be_handled(s: Local, event: Event)
    requires
        event matches Event::ScrollDown(n) ==> n > -0x8000_0000,
        event matches Event::SelectStart { col, .. } ==> col >= 0,
    ensures
        s.dialog is None ==> s.handles(event),
        s.dialog matches Some(d) ==> (d.fits(s.cols as int) ==> s.handles(event)),
        !(event is ModalToggle) && !(event is ModalCopy) && !(event is SelectStart) ==> s.handles(
            event,
        ),
        event is ModalToggle && s.modal_open ==> s.handles(event),
        event matches Event::SelectStart { col, row, .. } ==> (row < dialog::rows_above(s.rows)
            || col + 13 < s.cols ==> s.handles(event)),
{
}

/// The bar says that something was copied only when the dialog copied its address. The
/// screen is cleared before it is drawn, so the bar is drawn behind it, but for the drawing
/// that dropped output asks for.
pub proof fn bar_is_drawn_with_the_screen(
    s: Local,
    event: LocalEvent,
    view: ViewState,
    now: u64,
    i: int,
)
    requires
        !(event is Lagged),
        0 <= i < s.steps(event, view, now).len(),
    ensures
        ({
            let steps = s.steps(event, view, now);
            &&& steps[i] == Step::DrawBar(true) ==> (event matches LocalEvent::Stdin(e) && e@
                is ModalCopy)
            &&& steps[i] is DrawScreen ==> exists|j: int|
                i < j < steps.len() && #[trigger] steps[j] == Step::DrawBar(false)
        }),
{
    let steps = s.steps(event, view, now);
    let n = steps.len() as int;
    match event {
        LocalEvent::Stdin(e) => {
            lemma_stdin_bar(s, e@, view, now, i);
        },
        LocalEvent::Resized { cols, rows } => {
            assert(steps[n - 1] == Step::DrawBar(false));
        },
        _ => {},
    }
}

/// Whether a row of steps sends all that it writes, draws no screen, and says of nothing
/// that it was copied.
spec fn keeps_the_bar(steps: Seq<Step>) -> bool {
    &&& steps.len() > 0 ==> sends(steps.last())
    &&& forall|i: int| 0 <= i < steps.len() ==> !(#[trigger] steps[i] is DrawScreen)
    &&& forall|i: int| 0 <= i < steps.len() ==> #[trigger] steps[i] != Step::DrawBar(true)
}

#[verifier::spinoff_prover]
proof fn lemma_opening_bar(s: Local)
    ensures
        keeps_the_bar(s.opening()),
{
    let steps = s.opening();
    if s.dialog is Some {
        assert(steps.len() == 9);
        assert(steps[8] is Flush);
    }
}

#[verifier::spinoff_prover]
proof fn lemma_closing_bar(s: Local)
    ensures
        s.closing().len() == 4,
        s.closing()[3] == Step::DrawBar(false),
        forall|i: int|
            0 <= i < s.closing().len() ==> #[trigger] s.closing()[i] != Step::DrawBar(true),
{
}

#[verifier::spinoff_prover]
proof fn lemma_copying_bar(s: Local)
    ensures
        s.copying().len() > 0 ==> sends(s.copying().last()),
        forall|i: int| 0 <= i < s.copying().len() ==> !(#[trigger] s.copying()[i] is DrawScreen),
{
    let steps = s.copying();
    if s.dialog is Some {
        assert(steps.len() == 5);
        assert(steps[4] == Step::DrawBar(false));
    }
}

#[verifier::spinoff_prover]
proof fn lemma_click_bar(s: Local, col: int)
    ensures
        keeps_the_bar(s.bar_click(col)),
{
    lemma_opening_bar(s);
    let steps = s.bar_click(col);
    if col < s.menu_start() && s.slug is Some {
        assert(steps.len() == 5);
        assert(steps[4] == Step::DrawBar(false));
    }
}

#[verifier::rlimit(50)]
#[verifier::spinoff_prover]
proof fn lemma_typing_bar(s: Local, data: Seq<u8>, view: ViewState)
    ensures
        ({
            let steps = s.typing(data, view);
            &&& forall|i: int| 0 <= i < steps.len() ==> #[trigger] steps[i] != Step::DrawBar(true)
            &&& forall|i: int|
                0 <= i < steps.len() && #[trigger] steps[i] is DrawScreen ==> i + 1 < steps.len()
                    && steps[i + 1] == Step::DrawBar(false)
        }),
{
}

#[verifier::spinoff_prover]
proof fn lemma_end_bar(s: Local, view: ViewState)
    ensures
        ({
            let steps = s.select_end(view);
            &&& forall|i: int| 0 <= i < steps.len() ==> #[trigger] steps[i] != Step::DrawBar(true)
            &&& forall|i: int|
                0 <= i < steps.len() && #[trigger] steps[i] is DrawScreen ==> i + 1 < steps.len()
                    && steps[i + 1] == Step::DrawBar(false)
        }),
{
}

#[verifier::rlimit(50)]
#[verifier::spinoff_prover]
proof fn lemma_stdin_bar(s: Local, event: Event, view: ViewState, now: u64, i: int)
    requires
        0 <= i < s.stdin_steps(event, view, now).len(),
    ensures
        ({
            let steps = s.stdin_steps(event, view, now);
            &&& steps[i] == Step::DrawBar(true) ==> event is ModalCopy
            &&& steps[i] is DrawScreen ==> exists|j: int|
                i < j < steps.len() && #[trigger] steps[j] == Step::DrawBar(false)
        }),
{
    let steps = s.stdin_steps(event, view, now);
    let n = steps.len() as int;
    if is_aside(s, event) {
        lemma_opening_bar(s);
        lemma_closing_bar(s);
        lemma_copying_bar(s);
        if let Event::SelectStart { col, row, alt } = event {
            lemma_click_bar(s, col);
        }
        if steps[i] is DrawScreen {
            assert(steps[3] == Step::DrawBar(false));
        }
    } else {
        match event {
            Event::SelectStart { col, row, alt } => {
                lemma_click_steps(s, col, row, alt, view.display_offset as int, now);
                assert(steps[n - 1] == Step::DrawBar(false));
            },
            Event::Data(d) => {
                lemma_typing_bar(s, d, view);
                if steps[i] is DrawScreen {
                    assert(steps[i + 1] == Step::DrawBar(false));
                }
            },
            Event::SelectEnd => {
                lemma_end_bar(s, view);
                if steps[i] is DrawScreen {
                    assert(steps[i + 1] == Step::DrawBar(false));
                }
            },
            Event::Mouse(_) => {},
            Event::Focus(_) => {},
            _ => {
                assert(steps[n - 1] == Step::DrawBar(false));
            },
        }
    }
}

} // verus!
