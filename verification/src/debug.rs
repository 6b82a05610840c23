//! How modes and bytes read in the debug log.

use vstd::prelude::*;

use crate::escape::ESC;
use crate::terminal::{
    Modes, ALTERNATE_SCROLL, ALT_SCREEN, APP_CURSOR, BRACKETED_PASTE, FOCUS_IN_OUT,
    KITTY_KEYBOARD_PROTOCOL, MOUSE_DRAG, MOUSE_MOTION, MOUSE_REPORT_CLICK, SGR_MOUSE, SHOW_CURSOR,
    UTF8_MOUSE,
};
use crate::text;

verus! {

/// The names that modes go by, in the order in which they are listed.
pub open spec fn mode_names() -> Seq<(u32, Seq<char>)> {
    seq![
        (SHOW_CURSOR, "SHOW_CURSOR"@),
        (APP_CURSOR, "APP_CURSOR"@),
        (MOUSE_REPORT_CLICK, "MOUSE_CLICK"@),
        (MOUSE_DRAG, "MOUSE_DRAG"@),
        (MOUSE_MOTION, "MOUSE_MOTION"@),
        (SGR_MOUSE, "SGR_MOUSE"@),
        (UTF8_MOUSE, "UTF8_MOUSE"@),
        (BRACKETED_PASTE, "BRACKETED_PASTE"@),
        (FOCUS_IN_OUT, "FOCUS_IN_OUT"@),
        (ALT_SCREEN, "ALT_SCREEN"@),
        (ALTERNATE_SCROLL, "ALT_SCROLL"@),
    ]
}

/// The names of those of the first `n` modes that are on.
pub open spec fn names_on(modes: Modes, n: int) -> Seq<Seq<char>>
    decreases n,
{
    if n <= 0 {
        Seq::empty()
    } else if modes.has(mode_names()[n - 1].0) {
        names_on(modes, n - 1).push(mode_names()[n - 1].1)
    } else {
        names_on(modes, n - 1)
    }
}

/// The names of all modes that are on; the flags of the keyboard protocol share
/// one.
pub open spec fn all_names_on(modes: Modes) -> Seq<Seq<char>> {
    let names = names_on(modes, mode_names().len() as int);
    if modes.has_any(KITTY_KEYBOARD_PROTOCOL) {
        names.push("KITTY_KB"@)
    } else {
        names
    }
}

fn mode_name(i: usize) -> (r: (u32, &'static str))
    requires
        i < mode_names().len(),
    ensures
        r.0 == mode_names()[i as int].0,
        r.1@ == mode_names()[i as int].1,
{
    match i {
        0 => (SHOW_CURSOR, "SHOW_CURSOR"),
        1 => (APP_CURSOR, "APP_CURSOR"),
        2 => (MOUSE_REPORT_CLICK, "MOUSE_CLICK"),
        3 => (MOUSE_DRAG, "MOUSE_DRAG"),
        4 => (MOUSE_MOTION, "MOUSE_MOTION"),
        5 => (SGR_MOUSE, "SGR_MOUSE"),
        6 => (UTF8_MOUSE, "UTF8_MOUSE"),
        7 => (BRACKETED_PASTE, "BRACKETED_PASTE"),
        8 => (FOCUS_IN_OUT, "FOCUS_IN_OUT"),
        9 => (ALT_SCREEN, "ALT_SCREEN"),
        _ => (ALTERNATE_SCROLL, "ALT_SCROLL"),
    }
}

/// The names of the modes that are on, with a bar between them.
pub fn format_mode(mode: Modes) -> (r: String)
    ensures
        r@ == text::joined(all_names_on(mode), " | "@),
{
    let mut flags: Vec<String> = Vec::new();
    let mut i: usize = 0;
    assert(text::texts(flags@) =~= names_on(mode, 0));
    while i < 11
        invariant
            i <= 11,
            mode_names().len() == 11,
            text::texts(flags@) == names_on(mode, i as int),
        decreases 11 - i,
    {
        let (flag, name): (u32, &str) = mode_name(i);
        i = i + 1;
        if mode.contains(flag) {
            flags.push(name.to_string());
        }
        assert(text::texts(flags@) =~= names_on(mode, i as int));
    }
    if mode.intersects(KITTY_KEYBOARD_PROTOCOL) {
        flags.push("KITTY_KB".to_string());
    }
    assert(text::texts(flags@) =~= all_names_on(mode));
    text::join(&flags, " | ")
}

/// The digit for a number below sixteen.
pub open spec fn hex_digit(n: int) -> char {
    if n < 10 {
        (n + 0x30) as char
    } else {
        (n + 0x57) as char
    }
}

/// How a byte reads: ESC by its name, what can be printed as it is, and any
/// other as two hexadecimal digits.
pub open spec fn byte_text(b: u8) -> Seq<char> {
    if b == ESC {
        "ESC "@
    } else if 0x20 <= b <= 0x7e {
        seq![b as char]
    } else {
        seq!['\\', 'x', hex_digit(b as int / 16), hex_digit(b as int % 16), ' ']
    }
}

/// How bytes read, one behind the other.
pub open spec fn bytes_text(s: Seq<u8>) -> Seq<char>
    decreases s.len(),
{
    if s.len() == 0 {
        Seq::empty()
    } else {
        bytes_text(s.drop_last()) + byte_text(s.last())
    }
}

fn hex_of(n: u8) -> (r: char)
    requires
        n < 16,
    ensures
        r == hex_digit(n as int),
{
    if n < 10 {
        (n + 0x30) as char
    } else {
        (n + 0x57) as char
    }
}

/// The bytes in a form that can be printed.
pub fn format_bytes(bytes: &[u8]) -> (r: String)
    ensures
        r@ == bytes_text(bytes@),
{
    let mut out = String::new();
    let mut i: usize = 0;
    assert(out@ =~= bytes_text(bytes@.take(0)));
    while i < bytes.len()
        invariant
            i <= bytes@.len(),
            out@ == bytes_text(bytes@.take(i as int)),
        decreases bytes@.len() - i,
    {
        let b: u8 = bytes[i];
        if b == ESC {
            out.append("ESC ");
        } else if 0x20 <= b && b <= 0x7e {
            out.push(b as char);
        } else {
            out.push('\\');
            out.push('x');
            out.push(hex_of(b / 16));
            out.push(hex_of(b % 16));
            out.push(' ');
        }
        i = i + 1;
        assert(bytes@.take(i as int).drop_last() =~= bytes@.take(i - 1));
        assert(out@ =~= bytes_text(bytes@.take(i as int)));
    }
    assert(bytes@.take(bytes@.len() as int) =~= bytes@);
    out
}

// ---- Laws ----

/// The value of a hexadecimal digit.
pub open spec fn hex_value(c: char) -> int {
    if '0' <= c <= '9' {
        c as int - '0' as int
    } else {
        c as int - 'a' as int + 10
    }
}

/// A byte that cannot be printed reads as two hexadecimal digits with its value, between
/// `\\x` and a space; one that can, as itself; and ESC by its name.
pub proof fn bytes_read_as_their_value(b: u8)
    ensures
        ({
            let t = byte_text(b);
            &&& b == 0x1b ==> t == "ESC "@
            &&& 0x20 <= b <= 0x7e ==> t == seq![b as char]
            &&& b != 0x1b && !(0x20 <= b <= 0x7e) ==> {
                &&& t.len() == 5
                &&& t[0] == '\\' && t[1] == 'x' && t[4] == ' '
                &&& hex_value(t[2]) * 16 + hex_value(t[3]) == b
            }
        }),
{
}

/// Bytes read one behind the other.
pub proof fn bytes_read_in_order(a: Seq<u8>, b: Seq<u8>)
    ensures
        bytes_text(a + b) == bytes_text(a) + bytes_text(b),
        forall|x: u8| bytes_text(seq![x]) == #[trigger] byte_text(x),
    decreases b.len(),
{
    if b.len() == 0 {
        assert(a + b =~= a);
        assert(bytes_text(a) + bytes_text(b) =~= bytes_text(a));
    } else {
        bytes_read_in_order(a, b.drop_last());
        assert((a + b).drop_last() =~= a + b.drop_last());
        assert(bytes_text(a + b) =~= bytes_text(a) + bytes_text(b));
    }
    assert forall|x: u8| bytes_text(seq![x]) == #[trigger] byte_text(x) by {
        reveal_with_fuel(bytes_text, 2);
        assert(seq![x].drop_last() =~= Seq::<u8>::empty());
        assert(bytes_text(seq![x]) =~= byte_text(x));
    }
}

proof fn lemma_names_on(modes: Modes, n: int, k: int)
    requires
        0 <= k < n <= mode_names().len(),
        modes.has(mode_names()[k].0),
    ensures
        names_on(modes, n).contains(mode_names()[k].1),
    decreases n,
{
    let name = mode_names()[k].1;
    if k == n - 1 {
        let names = names_on(modes, n);
        assert(names[names.len() - 1] == name);
    } else {
        lemma_names_on(modes, n - 1, k);
        let before = names_on(modes, n - 1);
        let i = choose|i: int| 0 <= i < before.len() && before[i] == name;
        assert(names_on(modes, n)[i] == name);
    }
}

proof fn lemma_name_is_on(modes: Modes, n: int, i: int)
    requires
        0 <= n <= mode_names().len(),
        0 <= i < names_on(modes, n).len(),
    ensures
        exists|k: int|
            0 <= k < n && modes.has((#[trigger] mode_names()[k]).0) && mode_names()[k].1
                == names_on(modes, n)[i],
    decreases n,
{
    if n > 0 {
        let before = names_on(modes, n - 1);
        if i < before.len() {
            lemma_name_is_on(modes, n - 1, i);
            let k = choose|k: int|
                0 <= k < n - 1 && modes.has((#[trigger] mode_names()[k]).0) && mode_names()[k].1
                    == before[i];
            assert(mode_names()[k].1 == names_on(modes, n)[i]);
        } else {
            assert(mode_names()[n - 1].1 == names_on(modes, n)[i]);
        }
    }
}

/// Whether a text is the name of a mode that is on.
pub open spec fn names_a_mode(modes: Modes, name: Seq<char>) -> bool {
    exists|k: int|
        0 <= k < mode_names().len() && modes.has((#[trigger] mode_names()[k]).0)
            && mode_names()[k].1 == name
}

/// Every mode that is on is listed by its name, and every name that is listed is that of a
/// mode that is on.
pub proof fn modes_that_are_on_are_listed(modes: Modes)
    ensures
        forall|k: int|
            0 <= k < mode_names().len() && modes.has((#[trigger] mode_names()[k]).0)
                ==> all_names_on(modes).contains(mode_names()[k].1),
        modes.has(SHOW_CURSOR) ==> all_names_on(modes).contains("SHOW_CURSOR"@),
        modes.has(APP_CURSOR) ==> all_names_on(modes).contains("APP_CURSOR"@),
        modes.has(MOUSE_REPORT_CLICK) ==> all_names_on(modes).contains("MOUSE_CLICK"@),
        modes.has(MOUSE_DRAG) ==> all_names_on(modes).contains("MOUSE_DRAG"@),
        modes.has(MOUSE_MOTION) ==> all_names_on(modes).contains("MOUSE_MOTION"@),
        modes.has(SGR_MOUSE) ==> all_names_on(modes).contains("SGR_MOUSE"@),
        modes.has(UTF8_MOUSE) ==> all_names_on(modes).contains("UTF8_MOUSE"@),
        modes.has(BRACKETED_PASTE) ==> all_names_on(modes).contains("BRACKETED_PASTE"@),
        modes.has(FOCUS_IN_OUT) ==> all_names_on(modes).contains("FOCUS_IN_OUT"@),
        modes.has(ALT_SCREEN) ==> all_names_on(modes).contains("ALT_SCREEN"@),
        modes.has(ALTERNATE_SCROLL) ==> all_names_on(modes).contains("ALT_SCROLL"@),
        modes.has_any(KITTY_KEYBOARD_PROTOCOL) ==> all_names_on(modes).contains("KITTY_KB"@),
        forall|i: int|
            0 <= i < all_names_on(modes).len() ==> {
                ||| modes.has_any(KITTY_KEYBOARD_PROTOCOL) && #[trigger] all_names_on(modes)[i]
                    == "KITTY_KB"@
                ||| names_a_mode(modes, all_names_on(modes)[i])
            },
{
    let n = mode_names().len() as int;
    let names = names_on(modes, n);
    let all = all_names_on(modes);
    assert forall|k: int|
        0 <= k < n && modes.has((#[trigger] mode_names()[k]).0) implies all.contains(
        mode_names()[k].1,
    ) by {
        lemma_names_on(modes, n, k);
        let i = choose|i: int| 0 <= i < names.len() && names[i] == mode_names()[k].1;
        assert(all[i] == mode_names()[k].1);
    }
    assert(mode_names()[0].0 == SHOW_CURSOR);
    assert(mode_names()[1].0 == APP_CURSOR);
    assert(mode_names()[2].0 == MOUSE_REPORT_CLICK);
    assert(mode_names()[3].0 == MOUSE_DRAG);
    assert(mode_names()[4].0 == MOUSE_MOTION);
    assert(mode_names()[5].0 == SGR_MOUSE);
    assert(mode_names()[6].0 == UTF8_MOUSE);
    assert(mode_names()[7].0 == BRACKETED_PASTE);
    assert(mode_names()[8].0 == FOCUS_IN_OUT);
    assert(mode_names()[9].0 == ALT_SCREEN);
    assert(mode_names()[10].0 == ALTERNATE_SCROLL);
    if modes.has_any(KITTY_KEYBOARD_PROTOCOL) {
        assert(all[all.len() - 1] == "KITTY_KB"@);
    }
    assert forall|i: int| 0 <= i < all.len() implies {
        ||| modes.has_any(KITTY_KEYBOARD_PROTOCOL) && #[trigger] all[i] == "KITTY_KB"@
        ||| names_a_mode(modes, all[i])
    } by {
        if i < names.len() {
            lemma_name_is_on(modes, n, i);
            assert(all[i] == names[i]);
        }
    }
}

} // verus!
