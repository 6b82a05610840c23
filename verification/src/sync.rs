//! Keeping the outer terminal in step with the one inside: screen, modes and
//! the shape of the cursor.

use vstd::prelude::*;
use vstd::utf8::*;

use crate::ansi;
use crate::render;
use crate::terminal::{
    Modes, ALTERNATE_SCROLL, APP_CURSOR, BRACKETED_PASTE, FOCUS_IN_OUT, MOUSE_DRAG, MOUSE_MOTION,
    MOUSE_REPORT_CLICK, SGR_MOUSE, SHOW_CURSOR, UTF8_MOUSE,
};
use crate::text;

verus! {

// ---- Switches ----

/// A private mode of a terminal that is turned on or off.
pub struct Switch {
    pub code: u64,
    pub on: bool,
}

/// The sequence that turns a mode on or off.
pub open spec fn switch_text(s: Switch) -> Seq<char> {
    seq![ansi::esc(), '[', '?'] + text::decimal(s.code as nat) + seq![
        if s.on {
            'h'
        } else {
            'l'
        },
    ]
}

/// The sequences of several switches, one behind the other.
pub open spec fn switches_text(s: Seq<Switch>) -> Seq<char>
    decreases s.len(),
{
    if s.len() == 0 {
        Seq::empty()
    } else {
        switches_text(s.drop_last()) + switch_text(s.last())
    }
}

pub(crate) fn push_switch(out: &mut String, code: u64, on: bool)
    ensures
        final(out)@ == old(out)@ + switch_text(Switch { code, on }),
{
    out.push('\x1b');
    out.push('[');
    out.push('?');
    text::push_decimal(out, code);
    out.push(if on { 'h' } else { 'l' });
    assert(out@ =~= old(out)@ + switch_text(Switch { code, on }));
}

/// Which modes a terminal has on after a sequence of switches.
pub open spec fn switched(modes: Map<u64, bool>, s: Seq<Switch>) -> Map<u64, bool>
    decreases s.len(),
{
    if s.len() == 0 {
        modes
    } else {
        switched(modes, s.drop_last()).insert(s.last().code, s.last().on)
    }
}

// ---- The screen of the outer terminal ----

/// What is turned on for the time that the program has the screen: the
/// alternate screen, and reports of buttons and of moves with a button down.
pub open spec fn entering() -> Seq<Switch> {
    seq![
        Switch { code: 1049, on: true },
        Switch { code: 1002, on: true },
        Switch { code: 1006, on: true },
    ]
}

/// What is turned off at the end; the cursor shows again.
pub open spec fn leaving() -> Seq<Switch> {
    seq![
        Switch { code: 1002, on: false },
        Switch { code: 1006, on: false },
        Switch { code: 1049, on: false },
        Switch { code: 25, on: true },
    ]
}

/// The alternate screen, empty, with the mouse.
pub open spec fn enter_text() -> Seq<char> {
    switch_text(entering()[0]) + seq![ansi::esc(), '[', 'H'] + ansi::csi(seq![2u64], 'J')
        + switch_text(entering()[1]) + switch_text(entering()[2])
}

/// Everything as it was.
pub open spec fn leave_text() -> Seq<char> {
    switches_text(leaving())
}

/// The outer terminal while the program draws on it.
pub struct RawModeGuard;

impl RawModeGuard {
    /// What is sent to the outer terminal at the start.
    pub fn enter() -> (r: Vec<u8>)
        ensures
            r@ == encode_utf8(enter_text()),
    {
        let mut out = String::new();
        push_switch(&mut out, 1049, true);
        out.push('\x1b');
        out.push('[');
        out.push('H');
        ansi::push_csi(&mut out, &[2], 'J');
        assert([2u64]@ =~= seq![2u64]);
        push_switch(&mut out, 1002, true);
        push_switch(&mut out, 1006, true);
        assert(out@ =~= enter_text());
        let mut r: Vec<u8> = Vec::new();
        render::append_text(&mut r, out.as_str());
        assert(r@ =~= encode_utf8(enter_text()));
        r
    }

    /// What is sent to the outer terminal at the end.
    pub fn leave() -> (r: Vec<u8>)
        ensures
            r@ == encode_utf8(leave_text()),
    {
        let mut out = String::new();
        push_switch(&mut out, 1002, false);
        push_switch(&mut out, 1006, false);
        push_switch(&mut out, 1049, false);
        push_switch(&mut out, 25, true);
        proof {
            reveal_with_fuel(switches_text, 5);
            let l = leaving();
            assert(l.drop_last() =~= seq![l[0], l[1], l[2]]);
            assert(l.drop_last().drop_last() =~= seq![l[0], l[1]]);
            assert(l.drop_last().drop_last().drop_last() =~= seq![l[0]]);
            assert(l.drop_last().drop_last().drop_last().drop_last() =~= Seq::<Switch>::empty());
        }
        assert(out@ =~= leave_text());
        let mut r: Vec<u8> = Vec::new();
        render::append_text(&mut r, out.as_str());
        assert(r@ =~= encode_utf8(leave_text()));
        r
    }
}

/// Leaving the screen undoes entering it: a mode that was turned on is off, and
/// the cursor shows, whatever was switched in between.
pub proof fn leaving_undoes_entering(
    modes: Map<u64, bool>,
    between: Seq<Switch>,
)
    ensures
        forall|i: int|
            0 <= i < entering().len() ==> !switched(
                switched(switched(modes, entering()), between),
                leaving(),
            )[(#[trigger] entering()[i]).code],
        switched(switched(switched(modes, entering()), between), leaving())[25],
{
    let m = switched(switched(modes, entering()), between);
    reveal_with_fuel(switched, 5);
    let l = leaving();
    assert(l.drop_last() =~= seq![l[0], l[1], l[2]]);
    assert(l.drop_last().drop_last() =~= seq![l[0], l[1]]);
    assert(l.drop_last().drop_last().drop_last() =~= seq![l[0]]);
    assert(l.drop_last().drop_last().drop_last().drop_last() =~= Seq::<Switch>::empty());
    assert(switched(m, l) == m.insert(1002, false).insert(1006, false).insert(1049, false).insert(
        25,
        true,
    ));
}

// ---- Modes ----

/// A mode of the terminal inside and its number in the outer one.
pub struct SyncedMode {
    pub flag: u32,
    pub code: u16,
}

/// The modes that the outer terminal takes over.
pub open spec fn synced_modes() -> Seq<SyncedMode> {
    seq![
        SyncedMode { flag: SHOW_CURSOR, code: 25 },
        SyncedMode { flag: APP_CURSOR, code: 1 },
        SyncedMode { flag: MOUSE_REPORT_CLICK, code: 1000 },
        SyncedMode { flag: MOUSE_DRAG, code: 1002 },
        SyncedMode { flag: MOUSE_MOTION, code: 1003 },
        SyncedMode { flag: UTF8_MOUSE, code: 1005 },
        SyncedMode { flag: SGR_MOUSE, code: 1006 },
        SyncedMode { flag: FOCUS_IN_OUT, code: 1004 },
        SyncedMode { flag: BRACKETED_PASTE, code: 2004 },
        SyncedMode { flag: ALTERNATE_SCROLL, code: 1007 },
    ]
}

/// The switches for those of the first `n` modes that have changed.
pub open spec fn changes(old_modes: Modes, new_modes: Modes, n: int) -> Seq<Switch>
    decreases n,
{
    if n <= 0 {
        Seq::empty()
    } else {
        let before = changes(old_modes, new_modes, n - 1);
        let m = synced_modes()[n - 1];
        if old_modes.has(m.flag) != new_modes.has(m.flag) {
            before.push(Switch { code: m.code as u64, on: new_modes.has(m.flag) })
        } else {
            before
        }
    }
}

/// What tells the outer terminal of a change of modes.
pub open spec fn modes_text(old_modes: Modes, new_modes: Modes) -> Seq<char> {
    switches_text(changes(old_modes, new_modes, synced_modes().len() as int))
}

/// Turns one mode of the outer terminal on or off where it has changed.
pub fn sync_mode(buf: &mut Vec<u8>, old_modes: Modes, new_modes: Modes, flag: u32, code: u16)
    ensures
        final(buf)@ == if old_modes.has(flag) != new_modes.has(flag) {
            old(buf)@ + encode_utf8(
                switch_text(Switch { code: code as u64, on: new_modes.has(flag) }),
            )
        } else {
            old(buf)@
        },
{
    let was_set: bool = old_modes.contains(flag);
    let is_set: bool = new_modes.contains(flag);
    if was_set != is_set {
        let mut out = String::new();
        push_switch(&mut out, code as u64, is_set);
        assert(out@ =~= switch_text(Switch { code: code as u64, on: is_set }));
        render::append_text(buf, out.as_str());
    }
}

proof fn lemma_change(old_modes: Modes, new_modes: Modes, n: int)
    requires
        1 <= n <= 10,
    ensures
        ({
            let m = synced_modes()[n - 1];
            let before = encode_utf8(switches_text(changes(old_modes, new_modes, n - 1)));
            encode_utf8(switches_text(changes(old_modes, new_modes, n))) == if old_modes.has(m.flag)
                != new_modes.has(m.flag) {
                before + encode_utf8(
                    switch_text(Switch { code: m.code as u64, on: new_modes.has(m.flag) }),
                )
            } else {
                before
            }
        }),
{
    let before = changes(old_modes, new_modes, n - 1);
    let m = synced_modes()[n - 1];
    let s = Switch { code: m.code as u64, on: new_modes.has(m.flag) };
    assert(before.push(s).drop_last() =~= before);
    text::lemma_encode_concat(switches_text(before), switch_text(s));
}

/// One of the modes that the outer terminal takes over.
fn synced_mode(i: usize) -> (r: SyncedMode)
    requires
        i < synced_modes().len(),
    ensures
        r == synced_modes()[i as int],
{
    match i {
        0 => SyncedMode { flag: SHOW_CURSOR, code: 25 },
        1 => SyncedMode { flag: APP_CURSOR, code: 1 },
        2 => SyncedMode { flag: MOUSE_REPORT_CLICK, code: 1000 },
        3 => SyncedMode { flag: MOUSE_DRAG, code: 1002 },
        4 => SyncedMode { flag: MOUSE_MOTION, code: 1003 },
        5 => SyncedMode { flag: UTF8_MOUSE, code: 1005 },
        6 => SyncedMode { flag: SGR_MOUSE, code: 1006 },
        7 => SyncedMode { flag: FOCUS_IN_OUT, code: 1004 },
        8 => SyncedMode { flag: BRACKETED_PASTE, code: 2004 },
        _ => SyncedMode { flag: ALTERNATE_SCROLL, code: 1007 },
    }
}

/// Turns on or off what has changed, in a fixed order.
pub fn sync_modes(buf: &mut Vec<u8>, old_modes: Modes, new_modes: Modes)
    ensures
        final(buf)@ == old(buf)@ + encode_utf8(modes_text(old_modes, new_modes)),
{
    let mut i: usize = 0;
    assert(encode_utf8(switches_text(changes(old_modes, new_modes, 0))) =~= Seq::<u8>::empty());
    while i < 10
        invariant
            i <= 10,
            synced_modes().len() == 10,
            buf@ == old(buf)@ + encode_utf8(
                switches_text(changes(old_modes, new_modes, i as int)),
            ),
        decreases 10 - i,
    {
        let m: SyncedMode = synced_mode(i);
        sync_mode(buf, old_modes, new_modes, m.flag, m.code);
        i = i + 1;
        proof {
            lemma_change(old_modes, new_modes, i as int);
        }
        assert(buf@ =~= old(buf)@ + encode_utf8(
            switches_text(changes(old_modes, new_modes, i as int)),
        ));
    }
}

/// The outer terminal has the modes of the one inside.
pub open spec fn in_step(outer: Map<u64, bool>, modes: Modes) -> bool {
    forall|i: int|
        0 <= i < synced_modes().len() ==> outer[(#[trigger] synced_modes()[i]).code as u64]
            == modes.has(synced_modes()[i].flag)
}

proof fn lemma_changes(outer: Map<u64, bool>, old_modes: Modes, new_modes: Modes, n: int)
    requires
        in_step(outer, old_modes),
        0 <= n <= synced_modes().len(),
    ensures
        ({
            let after = switched(outer, changes(old_modes, new_modes, n));
            &&& forall|i: int|
                0 <= i < n ==> after[(#[trigger] synced_modes()[i]).code as u64] == new_modes.has(
                    synced_modes()[i].flag,
                )
            &&& forall|i: int|
                n <= i < synced_modes().len() ==> after[(#[trigger] synced_modes()[i]).code as u64]
                    == old_modes.has(synced_modes()[i].flag)
        }),
    decreases n,
{
    if n > 0 {
        lemma_changes(outer, old_modes, new_modes, n - 1);
        let before = changes(old_modes, new_modes, n - 1);
        let m = synced_modes()[n - 1];
        let s = Switch { code: m.code as u64, on: new_modes.has(m.flag) };
        assert(before.push(s).drop_last() =~= before);
        let after = switched(outer, changes(old_modes, new_modes, n));
        assert forall|i: int, j: int|
            0 <= i < j < synced_modes().len() implies synced_modes()[i].code
            != synced_modes()[j].code by {}
    }
}

/// An outer terminal that has the old modes has the new ones after the switches
/// that are sent to it.
pub proof fn sync_keeps_the_modes_in_step(
    outer: Map<u64, bool>,
    old_modes: Modes,
    new_modes: Modes,
)
    requires
        in_step(outer, old_modes),
    ensures
        in_step(
            switched(outer, changes(old_modes, new_modes, synced_modes().len() as int)),
            new_modes,
        ),
{
    lemma_changes(outer, old_modes, new_modes, synced_modes().len() as int);
}

proof fn lemma_no_changes(modes: Modes, n: int)
    ensures
        changes(modes, modes, n) == Seq::<Switch>::empty(),
    decreases n,
{
    if n > 0 {
        lemma_no_changes(modes, n - 1);
    }
}

/// Nothing is sent where no mode has changed.
pub proof fn equal_modes_send_nothing(modes: Modes)
    ensures
        modes_text(modes, modes) == Seq::<char>::empty(),
{
    lemma_no_changes(modes, synced_modes().len() as int);
}

// ---- The cursor ----

/// The shape of the cursor.
#[derive(Clone, Copy, PartialEq, Eq, Structural, Debug)]
pub enum CursorShape {
    Block,
    Underline,
    Beam,
    HollowBlock,
    Hidden,
}

/// How the cursor looks.
#[derive(Clone, Copy, PartialEq, Eq, Structural, Debug)]
pub struct CursorStyle {
    pub shape: CursorShape,
    pub blinking: bool,
}

/// The number of a look of the cursor; 0 is the default of the outer terminal.
pub open spec fn style_code(style: CursorStyle) -> u64 {
    match style.shape {
        CursorShape::Block => if style.blinking {
            1
        } else {
            2
        },
        CursorShape::Underline => if style.blinking {
            3
        } else {
            4
        },
        CursorShape::Beam => if style.blinking {
            5
        } else {
            6
        },
        _ => 0,
    }
}

/// What tells the outer terminal how the cursor looks, where that has changed.
pub open spec fn style_text(old_style: CursorStyle, new_style: CursorStyle) -> Seq<char> {
    if old_style == new_style {
        Seq::empty()
    } else {
        ansi::csi(seq![style_code(new_style)], ' ') + seq!['q']
    }
}

pub fn sync_cursor_style(buf: &mut Vec<u8>, old_style: CursorStyle, new_style: CursorStyle)
    ensures
        final(buf)@ == old(buf)@ + encode_utf8(style_text(old_style, new_style)),
{
    if old_style == new_style {
        assert(encode_utf8(Seq::empty()) =~= Seq::<u8>::empty());
        assert(buf@ =~= old(buf)@ + Seq::<u8>::empty());
        return;
    }
    let code: u64 = match (new_style.shape, new_style.blinking) {
        (CursorShape::Block, true) => 1,
        (CursorShape::Block, false) => 2,
        (CursorShape::Underline, true) => 3,
        (CursorShape::Underline, false) => 4,
        (CursorShape::Beam, true) => 5,
        (CursorShape::Beam, false) => 6,
        _ => 0,
    };
    let mut out = String::new();
    ansi::push_csi(&mut out, &[code], ' ');
    assert([code]@ =~= seq![code]);
    out.push('q');
    assert(out@ =~= style_text(old_style, new_style));
    render::append_text(buf, out.as_str());
}

} // verus!
