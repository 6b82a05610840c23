//! What the outer terminal makes of all that is written to it: the modes that it has,
//! the shape of its cursor, and what it shows when the shell prints something.

use vstd::prelude::*;
use vstd::utf8::*;

use crate::ansi;
use crate::base64;
use crate::dialog;
use crate::drawing;
use crate::local;
use crate::local::{Clipboard, Local, Reply, TermEvent};
use crate::modal;
use crate::render;
use crate::sync;
use crate::sync::{CursorShape, CursorStyle, Switch};
use crate::terminal::{
    Damage, Modes, Screen, ALTERNATE_SCROLL, APP_CURSOR, BRACKETED_PASTE, FOCUS_IN_OUT, MOUSE_DRAG,
    MOUSE_MOTION, MOUSE_REPORT_CLICK, SGR_MOUSE, SHOW_CURSOR, UTF8_MOUSE,
};
use crate::text;
use crate::vt;
use crate::vt::{Act, Ink, Look, Reading, Vt};

verus! {

/// A terminal that has read nothing yet.
pub open spec fn fresh() -> Vt {
    Vt { reading: Reading::Ground, look: vt::normal(), acts: Seq::empty() }
}

/// What a terminal does when it reads a text.
pub open spec fn read(s: Seq<char>) -> Seq<Act> {
    vt::run(fresh(), s).acts
}

/// What a text shows is what a terminal does when it reads the text.
pub proof fn lemma_read(s: Seq<char>, to: Look, acts: Seq<Act>)
    requires
        vt::shows(vt::normal(), s, to, acts),
    ensures
        read(s) == acts,
{
    assert(vt::run(fresh(), s) == vt::did_all(vt::looking(fresh(), to), acts));
    assert(Seq::<Act>::empty() + acts =~= acts);
}

// ---- Modes ----

/// The private modes of a terminal after it did some things.
pub open spec fn modes_after(outer: Map<int, bool>, acts: Seq<Act>) -> Map<int, bool>
    decreases acts.len(),
{
    if acts.len() == 0 {
        outer
    } else {
        let before = modes_after(outer, acts.drop_last());
        match acts.last() {
            Act::Switch(n, on) => before.insert(n, on),
            _ => before,
        }
    }
}

/// Whether a terminal has the modes of the one inside: the cursor, the cursor keys, the
/// five modes of the mouse, focus, pasting and scrolling, under their numbers.
pub open spec fn mirrors(outer: Map<int, bool>, modes: Modes) -> bool {
    &&& outer[25] == modes.has(SHOW_CURSOR)
    &&& outer[1] == modes.has(APP_CURSOR)
    &&& outer[1000] == modes.has(MOUSE_REPORT_CLICK)
    &&& outer[1002] == modes.has(MOUSE_DRAG)
    &&& outer[1003] == modes.has(MOUSE_MOTION)
    &&& outer[1005] == modes.has(UTF8_MOUSE)
    &&& outer[1006] == modes.has(SGR_MOUSE)
    &&& outer[1004] == modes.has(FOCUS_IN_OUT)
    &&& outer[2004] == modes.has(BRACKETED_PASTE)
    &&& outer[1007] == modes.has(ALTERNATE_SCROLL)
}

spec fn switch_acts(s: Seq<Switch>) -> Seq<Act>
    decreases s.len(),
{
    if s.len() == 0 {
        Seq::empty()
    } else {
        switch_acts(s.drop_last()).push(Act::Switch(s.last().code as int, s.last().on))
    }
}

proof fn lemma_switch_shown(look: Look, s: Switch)
    ensures
        vt::shows(look, sync::switch_text(s), look, seq![Act::Switch(s.code as int, s.on)]),
{
    let digits = text::decimal(s.code as nat);
    let body = seq!['?'] + digits;
    let end = if s.on {
        'h'
    } else {
        'l'
    };
    text::lemma_decimal_digits(s.code as nat);
    text::lemma_decimal_field(s.code as nat);
    assert(text::unsigned(digits, u64::MAX as nat) == Some(s.code as nat));
    assert(body.drop_first() =~= digits);
    vt::lemma_shows_sequence(look, body, end);
    assert(sync::switch_text(s) =~= seq![ansi::esc(), '['] + body + seq![end]);
}

proof fn lemma_switches_shown(look: Look, s: Seq<Switch>)
    ensures
        vt::shows(look, sync::switches_text(s), look, switch_acts(s)),
    decreases s.len(),
{
    if s.len() == 0 {
        vt::lemma_shows_nothing(look);
    } else {
        let last = s.last();
        let act = Act::Switch(last.code as int, last.on);
        lemma_switches_shown(look, s.drop_last());
        lemma_switch_shown(look, last);
        vt::lemma_shows_both(
            look,
            sync::switches_text(s.drop_last()),
            look,
            switch_acts(s.drop_last()),
            sync::switch_text(last),
            look,
            seq![act],
        );
        assert(switch_acts(s.drop_last()) + seq![act] =~= switch_acts(s));
    }
}

#[verifier::rlimit(50)]
#[verifier::spinoff_prover]
proof fn lemma_changes_mirror(outer: Map<int, bool>, old_modes: Modes, new_modes: Modes, n: int)
    requires
        mirrors(outer, old_modes),
        0 <= n <= sync::synced_modes().len(),
    ensures
        ({
            let acts = switch_acts(sync::changes(old_modes, new_modes, n));
            let after = modes_after(outer, acts);
            &&& forall|i: int|
                0 <= i < n ==> after[(#[trigger] sync::synced_modes()[i]).code as int]
                    == new_modes.has(sync::synced_modes()[i].flag)
            &&& forall|i: int|
                n <= i < sync::synced_modes().len() ==> after[(
                #[trigger] sync::synced_modes()[i]).code as int] == old_modes.has(
                    sync::synced_modes()[i].flag,
                )
            &&& forall|i: int|
                0 <= i < acts.len() ==> (#[trigger] acts[i] matches Act::Switch(c, on) && outer[c]
                    != on)
        }),
    decreases n,
{
    let modes = sync::synced_modes();
    if n == 0 {
        assert forall|i: int| 0 <= i < modes.len() implies outer[(#[trigger] modes[i]).code as int]
            == old_modes.has(modes[i].flag) by {}
    } else {
        lemma_changes_mirror(outer, old_modes, new_modes, n - 1);
        let before = sync::changes(old_modes, new_modes, n - 1);
        let m = modes[n - 1];
        let s = Switch { code: m.code as u64, on: new_modes.has(m.flag) };
        assert(before.push(s).drop_last() =~= before);
        let acts = switch_acts(before);
        let act = Act::Switch(s.code as int, s.on);
        assert(acts.push(act).drop_last() =~= acts);
        assert forall|i: int| 0 <= i < modes.len() implies outer[(#[trigger] modes[i]).code as int]
            == old_modes.has(modes[i].flag) by {}
        assert forall|i: int, j: int| 0 <= i < j < modes.len() implies modes[i].code
            != modes[j].code by {}
    }
}

/// An outer terminal that has the old modes has the new ones when it has read what is
/// sent to it on a change. Nothing is put on the screen, and no mode is switched to what it
/// is already.
pub proof fn modes_reach_the_outer_terminal(
    outer: Map<int, bool>,
    old_modes: Modes,
    new_modes: Modes,
)
    requires
        mirrors(outer, old_modes),
    ensures
        mirrors(modes_after(outer, read(sync::modes_text(old_modes, new_modes))), new_modes),
        forall|i: int|
            0 <= i < read(sync::modes_text(old_modes, new_modes)).len() ==> (#[trigger] read(
                sync::modes_text(old_modes, new_modes),
            )[i] matches Act::Switch(n, on) && outer[n] != on),
{
    let modes = sync::synced_modes();
    let changes = sync::changes(old_modes, new_modes, modes.len() as int);
    lemma_switches_shown(vt::normal(), changes);
    lemma_read(sync::switches_text(changes), vt::normal(), switch_acts(changes));
    lemma_changes_mirror(outer, old_modes, new_modes, modes.len() as int);
    let after = modes_after(outer, switch_acts(changes));
    assert(after[modes[0].code as int] == new_modes.has(modes[0].flag));
    assert(after[modes[1].code as int] == new_modes.has(modes[1].flag));
    assert(after[modes[2].code as int] == new_modes.has(modes[2].flag));
    assert(after[modes[3].code as int] == new_modes.has(modes[3].flag));
    assert(after[modes[4].code as int] == new_modes.has(modes[4].flag));
    assert(after[modes[5].code as int] == new_modes.has(modes[5].flag));
    assert(after[modes[6].code as int] == new_modes.has(modes[6].flag));
    assert(after[modes[7].code as int] == new_modes.has(modes[7].flag));
    assert(after[modes[8].code as int] == new_modes.has(modes[8].flag));
    assert(after[modes[9].code as int] == new_modes.has(modes[9].flag));
}

// ---- The cursor ----

/// Whether a number stands for a look of the cursor: a block, a line below or a line at
/// the side in pairs from one on, of which the odd ones blink; zero for any other shape.
pub open spec fn means(n: int, style: CursorStyle) -> bool {
    match style.shape {
        CursorShape::Block => (n + 1) / 2 == 1 && (n % 2 == 1 <==> style.blinking),
        CursorShape::Underline => (n + 1) / 2 == 2 && (n % 2 == 1 <==> style.blinking),
        CursorShape::Beam => (n + 1) / 2 == 3 && (n % 2 == 1 <==> style.blinking),
        _ => n == 0,
    }
}

proof fn lemma_style_shown(look: Look, n: u64)
    ensures
        vt::shows(
            look,
            ansi::csi(seq![n], ' ') + seq!['q'],
            look,
            seq![Act::Shape(n as int)],
        ),
{
    let digits = text::decimal(n as nat);
    let body = digits + seq![' '];
    text::lemma_decimal_digits(n as nat);
    text::lemma_decimal_field(n as nat);
    assert(text::unsigned(digits, u64::MAX as nat) == Some(n as nat));
    assert(body.drop_last() =~= digits);
    assert(ansi::codes_text(seq![n]) == digits);
    vt::lemma_shows_sequence(look, body, 'q');
    assert(ansi::csi(seq![n], ' ') + seq!['q'] =~= seq![ansi::esc(), '['] + body + seq!['q']);
}

/// The outer terminal hears of the shape of the cursor where it has changed, once, and by
/// the number that stands for it.
pub proof fn cursor_style_reaches_the_outer_terminal(old_style: CursorStyle, new_style: CursorStyle)
    ensures
        old_style == new_style ==> read(sync::style_text(old_style, new_style)) == Seq::<
            Act,
        >::empty(),
        old_style != new_style ==> {
            let acts = read(sync::style_text(old_style, new_style));
            &&& acts.len() == 1
            &&& acts[0] matches Act::Shape(n) && means(n, new_style)
        },
{
    let n = sync::style_code(new_style);
    if old_style != new_style {
        lemma_style_shown(vt::normal(), n);
        lemma_read(
            sync::style_text(old_style, new_style),
            vt::normal(),
            seq![Act::Shape(n as int)],
        );
    }
}

proof fn lemma_told_shown(s: Local, modes: Modes, cursor: CursorStyle, look: Look)
    ensures
        vt::shows(
            look,
            s.told(modes, cursor),
            look,
            read(sync::modes_text(s.modes, modes)) + read(sync::style_text(s.cursor, cursor)),
        ),
{
    let changes = sync::changes(s.modes, modes, sync::synced_modes().len() as int);
    let a = sync::modes_text(s.modes, modes);
    let b = sync::style_text(s.cursor, cursor);
    let n = sync::style_code(cursor);
    lemma_switches_shown(vt::normal(), changes);
    lemma_switches_shown(look, changes);
    lemma_read(a, vt::normal(), switch_acts(changes));
    let shape = if s.cursor == cursor {
        Seq::<Act>::empty()
    } else {
        seq![Act::Shape(n as int)]
    };
    if s.cursor == cursor {
        vt::lemma_shows_nothing(look);
        vt::lemma_shows_nothing(vt::normal());
    } else {
        lemma_style_shown(look, n);
        lemma_style_shown(vt::normal(), n);
    }
    lemma_read(b, vt::normal(), shape);
    vt::lemma_shows_both(look, a, look, switch_acts(changes), b, look, shape);
}

// ---- Output ----

/// The status bar as it is shown in the last row, the cursor being back in its place
/// behind it.
pub open spec fn shown_bar(s: Local, clients: nat, flash_copied: bool) -> Seq<Act> {
    seq![Act::Save, Act::Goto(s.rows as int, 1), Act::ClearLine] + drawing::shown_row(
        s.cols as int,
        text::held(s.bar_url),
        text::held(s.slug),
        clients,
        flash_copied,
    ) + seq![Act::Restore]
}

/// Whether the texts in the status bar are plain, and there is a row for it.
pub open spec fn has_bar(s: Local) -> bool {
    &&& s.rows >= 1
    &&& text::held(s.bar_url) matches Some(u) ==> ansi::is_plain(u)
    &&& text::held(s.slug) matches Some(t) ==> ansi::is_osc_body(t)
}

/// What the outer terminal hears of modes and cursor: what has changed in each.
pub open spec fn heard(s: Local, modes: Modes, cursor: CursorStyle) -> Seq<Act> {
    read(sync::modes_text(s.modes, modes)) + read(sync::style_text(s.cursor, cursor))
}

proof fn lemma_damage_shown(screen: &Screen, damage: Damage)
    requires
        screen.wf(),
        render::holds_no_esc(screen),
        render::damage_on_screen(screen, damage),
    ensures
        vt::shows(
            vt::normal(),
            render::damage_text(screen, damage),
            vt::normal(),
            drawing::shown_damage(screen, damage),
        ),
{
    let s = render::damage_text(screen, damage);
    let acts = drawing::shown_damage(screen, damage);
    assert forall|t: Vt| vt::ready(t) && t.look == vt::normal() implies #[trigger] vt::run(t, s)
        == vt::did_all(vt::looking(t, vt::normal()), acts) by {
        drawing::drawn_damage_is_shown(t, screen, damage);
    }
}

proof fn lemma_cursor_shown(screen: &Screen)
    requires
        screen.wf(),
        screen.cursor_line >= 0,
    ensures
        vt::shows(
            vt::normal(),
            render::cursor_text(screen),
            vt::normal(),
            seq![Act::Goto(screen.cursor_line + 1, screen.cursor_column + 1)],
        ),
{
    let s = render::cursor_text(screen);
    let acts = seq![Act::Goto(screen.cursor_line + 1, screen.cursor_column + 1)];
    assert forall|t: Vt| vt::ready(t) && t.look == vt::normal() implies #[trigger] vt::run(t, s)
        == vt::did_all(vt::looking(t, vt::normal()), acts) by {
        drawing::cursor_is_shown(t, screen);
        assert(t.acts.push(acts[0]) =~= t.acts + acts);
    }
}

/// With the dialog closed, all that the shell has changed on the screen is shown, be it
/// the whole screen or parts of it; the outer terminal hears of modes and cursor; the
/// cursor stands in its place; and the bar is shown.
pub proof fn output_is_shown(
    s: Local,
    screen: &Screen,
    damage: Damage,
    modes: Modes,
    cursor: CursorStyle,
    clients: nat,
)
    requires
        !s.modal_open,
        has_bar(s),
        screen.wf(),
        screen.cursor_line >= 0,
        render::holds_no_esc(screen),
        render::damage_on_screen(screen, damage),
    ensures
        read(s.output_text(screen, damage, modes, cursor, clients)) == drawing::shown_damage(
            screen,
            damage,
        ) + heard(s, modes, cursor) + seq![
            Act::Goto(screen.cursor_line + 1, screen.cursor_column + 1),
        ] + shown_bar(s, clients, false),
{
    let n = vt::normal();
    let a = render::damage_text(screen, damage);
    let b = s.told(modes, cursor);
    let c = render::cursor_text(screen);
    let d = s.bar(clients, false);
    let x = drawing::shown_damage(screen, damage);
    let y = heard(s, modes, cursor);
    let z = seq![Act::Goto(screen.cursor_line + 1, screen.cursor_column + 1)];
    let w = shown_bar(s, clients, false);
    lemma_damage_shown(screen, damage);
    lemma_told_shown(s, modes, cursor, n);
    lemma_cursor_shown(screen);
    drawing::drawn_bar_is_shown(
        n,
        s.cols,
        s.rows,
        text::held(s.bar_url),
        text::held(s.slug),
        clients,
        false,
    );
    vt::lemma_shows_both(n, a, n, x, b, n, y);
    vt::lemma_shows_both(n, a + b, n, x + y, c, n, z);
    vt::lemma_shows_both(n, a + b + c, n, x + y + z, d, n, w);
    lemma_read(a + b + c + d, n, x + y + z + w);
}

/// With the dialog open, the outer terminal hears of modes and cursor and is told nothing
/// else.
pub proof fn output_under_the_dialog_is_not_shown(
    s: Local,
    screen: &Screen,
    damage: Damage,
    modes: Modes,
    cursor: CursorStyle,
    clients: nat,
)
    requires
        s.modal_open,
    ensures
        read(s.output_text(screen, damage, modes, cursor, clients)) == heard(s, modes, cursor),
{
    lemma_told_shown(s, modes, cursor, vt::normal());
    lemma_read(s.told(modes, cursor), vt::normal(), heard(s, modes, cursor));
}

/// At the start the rows above the bar are those that scroll, the whole screen is shown,
/// the outer terminal hears of modes and cursor, the cursor stands in its place, and the
/// bar is shown.
pub proof fn start_is_shown(
    s: Local,
    screen: &Screen,
    modes: Modes,
    cursor: CursorStyle,
    clients: nat,
)
    requires
        has_bar(s),
        screen.wf(),
        screen.cursor_line >= 0,
        render::holds_no_esc(screen),
    ensures
        read(s.start_text(screen, modes, cursor, clients)) == seq![
            Act::Region(
                1,
                if s.rows <= 1 {
                    1
                } else {
                    s.rows - 1
                },
            ),
        ] + drawing::shown_screen(screen) + heard(s, modes, cursor) + seq![
            Act::Goto(screen.cursor_line + 1, screen.cursor_column + 1),
        ] + shown_bar(s, clients, false),
{
    let n = vt::normal();
    let last = modal::screen_rows(s.rows);
    let r = local::region_text(s.rows);
    let a = render::full_text(screen);
    let b = s.told(modes, cursor);
    let c = render::cursor_text(screen);
    let d = s.bar(clients, false);
    let v = seq![Act::Region(1, last as int)];
    let x = drawing::shown_screen(screen);
    let y = heard(s, modes, cursor);
    let z = seq![Act::Goto(screen.cursor_line + 1, screen.cursor_column + 1)];
    let w = shown_bar(s, clients, false);
    lemma_region_shown(s.rows);
    lemma_damage_shown(screen, Damage::Full);
    lemma_told_shown(s, modes, cursor, n);
    lemma_cursor_shown(screen);
    drawing::drawn_bar_is_shown(
        n,
        s.cols,
        s.rows,
        text::held(s.bar_url),
        text::held(s.slug),
        clients,
        false,
    );
    vt::lemma_shows_both(n, r, n, v, a, n, x);
    vt::lemma_shows_both(n, r + a, n, v + x, b, n, y);
    vt::lemma_shows_both(n, r + a + b, n, v + x + y, c, n, z);
    vt::lemma_shows_both(n, r + a + b + c, n, v + x + y + z, d, n, w);
    lemma_read(r + a + b + c + d, n, v + x + y + z + w);
}

proof fn lemma_region_shown(rows: u16)
    ensures
        vt::shows(
            vt::normal(),
            local::region_text(rows),
            vt::normal(),
            seq![Act::Region(1, modal::screen_rows(rows) as int)],
        ),
{
    let last = modal::screen_rows(rows) as u64;
    let codes = seq![1u64, last];
    vt::lemma_shows_csi(vt::normal(), codes, 'r');
    assert(vt::ints(codes) =~= seq![1int, last as int]);
}

/// The whole screen with its cursor, as it is drawn when the view has changed.
pub proof fn redrawn_screen_is_shown(screen: &Screen)
    requires
        screen.wf(),
        screen.cursor_line >= 0,
        render::holds_no_esc(screen),
    ensures
        read(local::screen_text(screen)) == drawing::shown_screen(screen).push(
            Act::Goto(screen.cursor_line + 1, screen.cursor_column + 1),
        ),
{
    let n = vt::normal();
    let a = render::full_text(screen);
    let b = render::cursor_text(screen);
    let x = drawing::shown_screen(screen);
    let y = seq![Act::Goto(screen.cursor_line + 1, screen.cursor_column + 1)];
    lemma_damage_shown(screen, Damage::Full);
    lemma_cursor_shown(screen);
    vt::lemma_shows_both(n, a, n, x, b, n, y);
    lemma_read(a + b, n, x + y);
    assert(x + y =~= x.push(y[0]));
}

/// The bar, as it is drawn by itself.
pub proof fn redrawn_bar_is_shown(s: Local, clients: nat, flash_copied: bool)
    requires
        has_bar(s),
    ensures
        read(s.bar(clients, flash_copied)) == shown_bar(s, clients, flash_copied),
{
    drawing::drawn_bar_is_shown(
        vt::normal(),
        s.cols,
        s.rows,
        text::held(s.bar_url),
        text::held(s.slug),
        clients,
        flash_copied,
    );
    lemma_read(s.bar(clients, flash_copied), vt::normal(), shown_bar(s, clients, flash_copied));
}

// ---- The start and the end ----

proof fn lemma_home_shown(look: Look)
    ensures
        vt::shows(
            look,
            seq![ansi::esc(), '[', 'H'] + ansi::csi(seq![2u64], 'J'),
            look,
            seq![Act::Goto(1, 1), Act::ClearScreen],
        ),
{
    let none = Seq::<char>::empty();
    vt::lemma_shows_sequence(look, none, 'H');
    text::lemma_one_field(none, ';');
    assert(vt::params(none).len() == 1);
    assert(!text::all_digits(none));
    assert(vt::params(none)[0] == -1);
    assert(seq![ansi::esc(), '['] + none + seq!['H'] =~= seq![ansi::esc(), '[', 'H']);
    vt::lemma_shows_csi(look, seq![2u64], 'J');
    assert(vt::ints(seq![2u64]) =~= seq![2int]);
    vt::lemma_shows_both(
        look,
        seq![ansi::esc(), '[', 'H'],
        look,
        seq![Act::Goto(1, 1)],
        ansi::csi(seq![2u64], 'J'),
        look,
        seq![Act::ClearScreen],
    );
    assert(seq![Act::Goto(1, 1)] + seq![Act::ClearScreen] =~= seq![
        Act::Goto(1, 1),
        Act::ClearScreen,
    ]);
}

/// At the start the program takes the alternate screen, clears it, and asks for reports of
/// clicks and drags in the form that has no limit on columns.
pub proof fn entering_takes_the_screen()
    ensures
        read(sync::enter_text()) == seq![
            Act::Switch(1049, true),
            Act::Goto(1, 1),
            Act::ClearScreen,
            Act::Switch(1002, true),
            Act::Switch(1006, true),
        ],
{
    let n = vt::normal();
    let s0 = Switch { code: 1049, on: true };
    let s1 = Switch { code: 1002, on: true };
    let s2 = Switch { code: 1006, on: true };
    let a = sync::switch_text(s0);
    let b = seq![ansi::esc(), '[', 'H'] + ansi::csi(seq![2u64], 'J');
    let c = sync::switch_text(s1);
    let d = sync::switch_text(s2);
    let x = seq![Act::Switch(1049, true)];
    let y = seq![Act::Goto(1, 1), Act::ClearScreen];
    let z = seq![Act::Switch(1002, true)];
    let w = seq![Act::Switch(1006, true)];
    lemma_switch_shown(n, s0);
    lemma_home_shown(n);
    lemma_switch_shown(n, s1);
    lemma_switch_shown(n, s2);
    vt::lemma_shows_both(n, a, n, x, b, n, y);
    vt::lemma_shows_both(n, a + b, n, x + y, c, n, z);
    vt::lemma_shows_both(n, a + b + c, n, x + y + z, d, n, w);
    lemma_read(a + b + c + d, n, x + y + z + w);
    assert(sync::enter_text() =~= a + b + c + d);
    assert(x + y + z + w =~= seq![
        Act::Switch(1049, true),
        Act::Goto(1, 1),
        Act::ClearScreen,
        Act::Switch(1002, true),
        Act::Switch(1006, true),
    ]);
}

/// At the end the reports are off, the alternate screen is left and the cursor shows,
/// whatever the modes were; no other mode changes, and nothing is put on the screen.
pub proof fn leaving_gives_the_screen_back(outer: Map<int, bool>)
    ensures
        modes_after(outer, read(sync::leave_text())) == outer.insert(1002, false).insert(
            1006,
            false,
        ).insert(1049, false).insert(25, true),
        forall|i: int|
            0 <= i < read(sync::leave_text()).len() ==> #[trigger] read(
                sync::leave_text(),
            )[i] is Switch,
{
    let l = sync::leaving();
    lemma_switches_shown(vt::normal(), l);
    lemma_read(sync::leave_text(), vt::normal(), switch_acts(l));
    reveal_with_fuel(switch_acts, 5);
    assert(l.drop_last() =~= seq![l[0], l[1], l[2]]);
    assert(l.drop_last().drop_last() =~= seq![l[0], l[1]]);
    assert(l.drop_last().drop_last().drop_last() =~= seq![l[0]]);
    assert(l.drop_last().drop_last().drop_last().drop_last() =~= Seq::<Switch>::empty());
    let acts = seq![
        Act::Switch(1002, false),
        Act::Switch(1006, false),
        Act::Switch(1049, false),
        Act::Switch(25, true),
    ];
    assert(switch_acts(l) =~= acts);
    reveal_with_fuel(modes_after, 5);
    assert(acts.drop_last() =~= seq![acts[0], acts[1], acts[2]]);
    assert(acts.drop_last().drop_last() =~= seq![acts[0], acts[1]]);
    assert(acts.drop_last().drop_last().drop_last() =~= seq![acts[0]]);
    assert(acts.drop_last().drop_last().drop_last().drop_last() =~= Seq::<Act>::empty());
}

// ---- Clearing, the cursor and the note ----

/// The screen is cleared, the rows above the bar being those that scroll.
pub proof fn cleared_screen_is_empty(rows: u16)
    ensures
        read(local::cleared_text(rows)) == seq![
            Act::Region(1, dialog::rows_above(rows)),
            Act::Goto(1, 1),
            Act::ClearScreen,
        ],
        read(local::region_text(rows)) == seq![Act::Region(1, dialog::rows_above(rows))],
{
    let n = vt::normal();
    let a = local::region_text(rows);
    let b = seq![ansi::esc(), '[', 'H'] + ansi::csi(seq![2u64], 'J');
    let x = seq![Act::Region(1, modal::screen_rows(rows) as int)];
    let y = seq![Act::Goto(1, 1), Act::ClearScreen];
    lemma_region_shown(rows);
    lemma_read(a, n, x);
    lemma_home_shown(n);
    vt::lemma_shows_both(n, a, n, x, b, n, y);
    lemma_read(a + b, n, x + y);
    assert(local::cleared_text(rows) =~= a + b);
    assert(x + y =~= seq![
        Act::Region(1, dialog::rows_above(rows)),
        Act::Goto(1, 1),
        Act::ClearScreen,
    ]);
}

/// The cursor is hidden or shown.
pub proof fn cursor_is_switched(on: bool)
    ensures
        read(local::cursor_switch_text(on)) == seq![Act::Switch(25, on)],
{
    lemma_switch_shown(vt::normal(), Switch { code: 25, on });
    lemma_read(local::cursor_switch_text(on), vt::normal(), seq![Act::Switch(25, on)]);
}

/// The note that the address was copied: it stands over the address in the bar, from the
/// second column on, and covers all of it. The cursor goes back to its place.
pub proof fn note_covers_the_address(rows: u16, bar_url: Option<Seq<char>>)
    requires
        rows >= 1,
        bar_url matches Some(u) ==> is_ascii_chars(u),
    ensures
        ({
            let look = Look {
                bold: true,
                ..vt::colored(Ink::Rgb(29, 31, 33), Ink::Rgb(180, 189, 104))
            };
            let width = match bar_url {
                Some(u) => u.len() as int,
                None => 0,
            };
            vt::shows(
                vt::normal(),
                local::copied_text(rows, bar_url),
                vt::normal(),
                seq![Act::Save, Act::Goto(rows as int, 2)] + vt::puts(
                    "Copied!"@ + ansi::spaces(
                        if width > 7 {
                            width - 7
                        } else {
                            0
                        },
                    ),
                    look,
                ) + seq![Act::Restore],
            )
        }),
{
    reveal_strlit("Copied!");
    let none = Seq::<Act>::empty();
    let n = vt::normal();
    let ground = vt::colored(Ink::Default, Ink::Rgb(180, 189, 104));
    let look = Look { bold: true, ..vt::colored(Ink::Rgb(29, 31, 33), Ink::Rgb(180, 189, 104)) };
    let width = match bar_url {
        Some(u) => u.len() as int,
        None => 0,
    };
    if let Some(u) = bar_url {
        is_ascii_chars_encode_utf8(u);
    }
    let words = "Copied!"@ + ansi::spaces(text::minus(width, 7));
    let a = seq![ansi::esc(), '7'];
    let b = ansi::goto(rows as u64, 2);
    let c = ansi::bg(180, 189, 104);
    let d = ansi::bold_fg(29, 31, 33);
    let g = ansi::reset();
    let h = seq![ansi::esc(), '8'];
    let x = seq![Act::Save];
    let y = seq![Act::Goto(rows as int, 2)];
    let z = vt::puts(words, look);
    let w = seq![Act::Restore];
    vt::lemma_shows_place(n, '7');
    vt::lemma_shows_goto(n, rows as u64, 2);
    vt::lemma_shows_bg(n, 180, 189, 104);
    vt::lemma_shows_bold_fg(ground, 29, 31, 33);
    vt::lemma_shows_plain(look, words);
    vt::lemma_shows_one(look, 0);
    vt::lemma_shows_place(n, '8');
    vt::lemma_shows_both(n, a, n, x, b, n, y);
    vt::lemma_shows_both(n, a + b, n, x + y, c, ground, none);
    vt::lemma_shows_both(n, a + b + c, ground, x + y + none, d, look, none);
    vt::lemma_shows_both(n, a + b + c + d, look, x + y + none + none, words, look, z);
    vt::lemma_shows_both(n, a + b + c + d + words, look, x + y + none + none + z, g, n, none);
    vt::lemma_shows_both(
        n,
        a + b + c + d + words + g,
        n,
        x + y + none + none + z + none,
        h,
        n,
        w,
    );
    assert(local::copied_text(rows, bar_url) =~= a + b + c + d + words + g + h);
    assert(x + y + none + none + z + none + w =~= seq![Act::Save, Act::Goto(rows as int, 2)] + z
        + seq![Act::Restore]);
}

// ---- Titles and copied texts ----

proof fn lemma_letter_plain(v: int)
    requires
        0 <= v < 64,
    ensures
        base64::letter(v) != ansi::esc(),
        base64::letter(v) != ansi::bel(),
{
}

proof fn lemma_base64_plain(d: Seq<u8>)
    ensures
        ansi::is_osc_body(base64::base64(d)),
    decreases d.len(),
{
    if d.len() > 0 {
        lemma_base64_plain(base64::behind_group(d));
        let t = base64::triple(d);
        assert(0 <= t < 0x1000000);
        lemma_letter_plain(t / 0x40000);
        lemma_letter_plain(t / 0x1000 % 64);
        lemma_letter_plain(t / 64 % 64);
        lemma_letter_plain(t % 64);
        let g = base64::group(d);
        let r = base64::base64(base64::behind_group(d));
        assert forall|i: int| 0 <= i < (g + r).len() implies #[trigger] (g + r)[i] != ansi::esc()
            && (g + r)[i] != ansi::bel() by {
            if i >= 4 {
                assert((g + r)[i] == r[i - 4]);
            }
        }
    }
}

/// A text that is copied is stored in the clipboard, or in the selection, of the outer
/// terminal: it is told `52`, the letter of the one or the other, and what decodes to the
/// bytes of the text.
pub proof fn copied_text_is_stored(to: Clipboard, data: Seq<u8>)
    ensures
        ({
            let acts = read(local::copy_text(to, data));
            &&& acts.len() == 1
            &&& acts[0] matches Act::Osc(body) && {
                &&& to is Clipboard ==> body.take(5) == "52;c;"@
                &&& to is Selection ==> body.take(5) == "52;p;"@
                &&& base64::decoded(body.skip(5)) == data
            }
        }),
{
    reveal_strlit("52;c;");
    reveal_strlit("52;p;");
    let letter = match to {
        Clipboard::Clipboard => 'c',
        Clipboard::Selection => 'p',
    };
    let head = seq!['5', '2', ';', letter, ';'];
    let body = head + base64::base64(data);
    lemma_base64_plain(data);
    base64::base64_round_trip(data);
    assert forall|i: int| 0 <= i < body.len() implies #[trigger] body[i] != ansi::esc() && body[i]
        != ansi::bel() by {
        if i >= 5 {
            assert(body[i] == base64::base64(data)[i - 5]);
        }
    }
    vt::lemma_shows_osc(vt::normal(), body);
    assert(local::copy_text(to, data) =~= seq![ansi::esc(), ']'] + body + seq![ansi::bel()]);
    lemma_read(local::copy_text(to, data), vt::normal(), seq![Act::Osc(body)]);
    assert(body.skip(5) =~= base64::base64(data));
    assert(to is Clipboard ==> body.take(5) =~= "52;c;"@);
    assert(to is Selection ==> body.take(5) =~= "52;p;"@);
}

/// What the terminal inside reports: an answer goes to the shell as it is; a title becomes
/// that of the outer terminal, and an empty one when it is reset; a text that a program
/// copies is stored in the same place of the outer terminal; anything else comes to nothing.
pub proof fn reports_are_passed_on(event: TermEvent)
    requires
        event matches TermEvent::Title(t) ==> ansi::is_osc_body(t@),
    ensures
        match event {
            TermEvent::PtyWrite(t) => local::reply(event) == Reply::ToShell(t@),
            TermEvent::Title(t) => local::reply(event) matches Reply::ToScreen(s) && read(s)
                == seq![Act::Osc("2;"@ + t@)],
            TermEvent::ResetTitle => local::reply(event) matches Reply::ToScreen(s) && read(s)
                == seq![Act::Osc("2;"@)],
            TermEvent::ClipboardStore(to, t) => local::reply(event) matches Reply::ToScreen(s) && s
                == local::copy_text(to, encode_utf8(t@)),
            TermEvent::Other => local::reply(event) is Nothing,
        },
{
    reveal_strlit("2;");
    match event {
        TermEvent::Title(t) => {
            lemma_title_shown(t@);
        },
        TermEvent::ResetTitle => {
            lemma_title_shown(Seq::empty());
            assert("2;"@ + Seq::empty() =~= "2;"@);
        },
        _ => {},
    }
}

proof fn lemma_title_shown(title: Seq<char>)
    requires
        ansi::is_osc_body(title),
    ensures
        read(local::title_text(title)) == seq![Act::Osc("2;"@ + title)],
{
    reveal_strlit("2;");
    let body = "2;"@ + title;
    assert forall|i: int| 0 <= i < body.len() implies #[trigger] body[i] != ansi::esc() && body[i]
        != ansi::bel() by {
        if i >= 2 {
            assert(body[i] == title[i - 2]);
        }
    }
    vt::lemma_shows_osc(vt::normal(), body);
    assert(local::title_text(title) =~= seq![ansi::esc(), ']'] + body + seq![ansi::bel()]);
    lemma_read(local::title_text(title), vt::normal(), seq![Act::Osc(body)]);
}

} // verus!
