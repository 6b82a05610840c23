//! What the screen of the terminal emulator holds, as plain values: modes,
//! cells, the selection, the cursor.

use alacritty_terminal::index::{Column, Line, Point};
use alacritty_terminal::selection::SelectionRange;
use alacritty_terminal::term::cell::Flags;
use alacritty_terminal::term::TermMode;

use vstd::prelude::*;

verus! {

// ---- Modes ----

pub const SHOW_CURSOR: u32 = 0x1;

pub const APP_CURSOR: u32 = 0x2;

pub const MOUSE_REPORT_CLICK: u32 = 0x8;

pub const BRACKETED_PASTE: u32 = 0x10;

pub const SGR_MOUSE: u32 = 0x20;

pub const MOUSE_MOTION: u32 = 0x40;

pub const FOCUS_IN_OUT: u32 = 0x800;

pub const ALT_SCREEN: u32 = 0x1000;

pub const MOUSE_DRAG: u32 = 0x2000;

pub const UTF8_MOUSE: u32 = 0x4000;

pub const ALTERNATE_SCROLL: u32 = 0x8000;

/// Any of the modes in which a program gets mouse reports.
pub const MOUSE_MODE: u32 = 0x2048;

/// Any of the flags of the kitty keyboard protocol.
pub const KITTY_KEYBOARD_PROTOCOL: u32 = 0x7c0000;

/// `TermMode::contains` on the modes with the given bits: whether all bits of
/// `flags` are set in `mode`.
#[verifier::external_body]
fn mode_contains(mode: u32, flags: u32) -> (r: bool)
    ensures
        r == (mode & flags == flags),
{
    TermMode::from_bits_retain(mode).contains(TermMode::from_bits_retain(flags))
}

/// `TermMode::intersects` on the modes with the given bits: whether any bit of
/// `flags` is set in `mode`.
#[verifier::external_body]
fn mode_intersects(mode: u32, flags: u32) -> (r: bool)
    ensures
        r == (mode & flags != 0),
{
    TermMode::from_bits_retain(mode).intersects(TermMode::from_bits_retain(flags))
}

/// The modes that a program has set in the terminal.
#[derive(Clone, Copy, PartialEq, Eq, Structural, Debug)]
pub struct Modes {
    pub bits: u32,
}

impl Modes {
    /// Whether all of `flags` are set.
    pub open spec fn has(self, flags: u32) -> bool {
        self.bits & flags == flags
    }

    /// Whether any of `flags` is set.
    pub open spec fn has_any(self, flags: u32) -> bool {
        self.bits & flags != 0
    }

    pub fn contains(self, flags: u32) -> (r: bool)
        ensures
            r == self.has(flags),
    {
        mode_contains(self.bits, flags)
    }

    pub fn intersects(self, flags: u32) -> (r: bool)
        ensures
            r == self.has_any(flags),
    {
        mode_intersects(self.bits, flags)
    }

    /// Whether the program in the terminal asked for the mouse.
    pub fn wants_mouse(self) -> (r: bool)
        ensures
            r == self.has_any(MOUSE_MODE),
    {
        self.intersects(MOUSE_MODE)
    }
}

// ---- Cells ----

pub const INVERSE: u16 = 0x1;

pub const BOLD: u16 = 0x2;

pub const ITALIC: u16 = 0x4;

pub const UNDERLINE: u16 = 0x8;

pub const WRAPLINE: u16 = 0x10;

pub const WIDE_CHAR: u16 = 0x20;

pub const WIDE_CHAR_SPACER: u16 = 0x40;

pub const DIM: u16 = 0x80;

pub const HIDDEN: u16 = 0x100;

pub const STRIKEOUT: u16 = 0x200;

pub const LEADING_WIDE_CHAR_SPACER: u16 = 0x400;

pub const DOUBLE_UNDERLINE: u16 = 0x800;

pub const UNDERCURL: u16 = 0x1000;

pub const DOTTED_UNDERLINE: u16 = 0x2000;

pub const DASHED_UNDERLINE: u16 = 0x4000;

/// `Flags::contains` on the cell flags with the given bits: whether all bits
/// of `other` are set in `flags`.
#[verifier::external_body]
fn flags_contain(flags: u16, other: u16) -> (r: bool)
    ensures
        r == (flags & other == other),
{
    Flags::from_bits_retain(flags).contains(Flags::from_bits_retain(other))
}

/// The attributes of a cell.
#[derive(Clone, Copy, PartialEq, Eq, Structural, Debug)]
pub struct CellFlags {
    pub bits: u16,
}

impl CellFlags {
    /// Whether all of `flags` are set.
    pub open spec fn has(self, flags: u16) -> bool {
        self.bits & flags == flags
    }

    pub fn contains(self, flags: u16) -> (r: bool)
        ensures
            r == self.has(flags),
    {
        flags_contain(self.bits, flags)
    }

    /// The attributes that show: not how the line wraps, nor how wide the
    /// character is.
    pub open spec fn visible(self) -> CellFlags {
        CellFlags { bits: self.bits & !(WRAPLINE | WIDE_CHAR) }
    }

    pub fn shown(self) -> (r: CellFlags)
        ensures
            r == self.visible(),
    {
        CellFlags { bits: self.bits & !(WRAPLINE | WIDE_CHAR) }
    }
}

/// The colors that have a name.
#[derive(Clone, Copy, PartialEq, Eq, Structural, Debug)]
pub enum NamedColor {
    Black,
    Red,
    Green,
    Yellow,
    Blue,
    Magenta,
    Cyan,
    White,
    BrightBlack,
    BrightRed,
    BrightGreen,
    BrightYellow,
    BrightBlue,
    BrightMagenta,
    BrightCyan,
    BrightWhite,
    Foreground,
    Background,
    Cursor,
    DimBlack,
    DimRed,
    DimGreen,
    DimYellow,
    DimBlue,
    DimMagenta,
    DimCyan,
    DimWhite,
    BrightForeground,
    DimForeground,
}

/// A color of a cell.
#[derive(Clone, Copy, PartialEq, Eq, Structural, Debug)]
pub enum Color {
    Named(NamedColor),
    Spec { r: u8, g: u8, b: u8 },
    Indexed(u8),
}

/// One cell of the screen.
#[derive(Clone, Copy, PartialEq, Eq, Structural, Debug)]
pub struct Cell {
    pub c: char,
    pub fg: Color,
    pub bg: Color,
    pub flags: CellFlags,
}

// ---- Selection ----

/// The selected cells, from the first to the last one. Lines are those of the
/// grid: negative above the screen.
#[derive(Clone, Copy, PartialEq, Eq, Structural, Debug)]
pub struct SelectionSpan {
    pub start_line: i32,
    pub start_column: usize,
    pub end_line: i32,
    pub end_column: usize,
    pub is_block: bool,
}

impl SelectionSpan {
    /// Whether a cell is selected. A block has the same columns in all of its
    /// lines; any other selection takes up its inner lines whole.
    pub open spec fn selects(self, line: int, column: int) -> bool {
        &&& self.start_line <= line <= self.end_line
        &&& self.start_column <= column || (self.start_line != line && !self.is_block)
        &&& column <= self.end_column || (self.end_line != line && !self.is_block)
    }
}

/// `SelectionRange::contains` on the range with the given ends: whether the
/// cell lies in it.
#[verifier::external_body]
pub(crate) fn selection_contains(s: &SelectionSpan, line: i32, column: usize) -> (r: bool)
    ensures
        r == s.selects(line as int, column as int),
{
    let start = Point::new(Line(s.start_line), Column(s.start_column));
    let end = Point::new(Line(s.end_line), Column(s.end_column));
    let range = SelectionRange { start, end, is_block: s.is_block };
    range.contains(Point::new(Line(line), Column(column)))
}

// ---- Screen ----

/// The size of the terminal.
#[derive(Clone, Copy, PartialEq, Eq, Structural, Debug)]
pub struct TermSize {
    pub lines: usize,
    pub cols: usize,
}

impl TermSize {
    pub fn new(lines: u16, cols: u16) -> (r: Self)
        ensures
            r.lines == lines,
            r.cols == cols,
    {
        TermSize { lines: lines as usize, cols: cols as usize }
    }
}

/// What the screen shows: its lines from top to bottom, how far the view is
/// scrolled back, the selection and the cursor.
pub struct Screen {
    pub columns: usize,
    pub lines: Vec<Vec<Cell>>,
    pub display_offset: usize,
    pub selection: Option<SelectionSpan>,
    pub cursor_line: i32,
    pub cursor_column: usize,
}

impl Screen {
    /// All lines are equally long, and lines and offset fit the line numbers of
    /// the grid.
    pub open spec fn wf(&self) -> bool {
        &&& self.columns > 0
        &&& forall|i: int|
            0 <= i < self.lines@.len() ==> (#[trigger] self.lines@[i])@.len() == self.columns
        &&& self.lines@.len() + self.display_offset <= i32::MAX
        &&& self.cursor_line < i32::MAX
        &&& self.cursor_column < usize::MAX
    }
}

/// The line of the grid that the view shows at `line` when it is scrolled back
/// by `offset` lines.
pub open spec fn shown_line(line: int, offset: int) -> int {
    line - offset
}

/// The line of the grid that the view shows at `line`.
pub fn grid_line(line: usize, offset: usize) -> (r: i32)
    requires
        line <= i32::MAX,
        offset <= i32::MAX,
    ensures
        r == shown_line(line as int, offset as int),
{
    line as i32 - offset as i32
}

/// A line of the screen that has to be drawn again, from one column to another.
#[derive(Clone, Copy, PartialEq, Eq, Structural, Debug)]
pub struct LineDamage {
    pub line: usize,
    pub left: usize,
    pub right: usize,
}

/// What has to be drawn again.
pub enum Damage {
    Full,
    Partial(Vec<LineDamage>),
}

/// A program gets mouse reports where it asked for clicks, for drags or for all moves.
pub proof fn mouse_modes_are_three(modes: Modes)
    ensures
        modes.has_any(MOUSE_MODE) <==> modes.has(MOUSE_REPORT_CLICK) || modes.has(MOUSE_DRAG)
            || modes.has(MOUSE_MOTION),
{
    let bits = modes.bits;
    assert((bits & 0x2048u32 != 0) == (bits & 0x8u32 == 0x8 || bits & 0x2000u32 == 0x2000 || bits
        & 0x40u32 == 0x40)) by (bit_vector);
}

} // verus!
