//! The messages that a browser and the session exchange: one byte that says
//! what a message is, and what it carries.

use vstd::prelude::*;

verus! {

/// Output of the shell, or input for it.
pub const MSG_TERMINAL_DATA: u8 = 0x00;

/// The size of a browser's window, as JSON.
pub const MSG_TERMINAL_RESIZE: u8 = 0x01;

/// The size of a browser's window.
#[derive(Clone, Copy, PartialEq, Eq, Structural, Debug)]
pub struct ResizePayload {
    pub cols: u16,
    pub rows: u16,
}

/// A message that came in, by its first byte.
pub enum Frame {
    Empty,
    Data(Vec<u8>),
    Resize(Vec<u8>),
    Unknown(u8),
}

/// A message by what it holds.
pub enum FrameView {
    Empty,
    Data(Seq<u8>),
    Resize(Seq<u8>),
    Unknown(u8),
}

impl View for Frame {
    type V = FrameView;

    open spec fn view(&self) -> FrameView {
        match *self {
            Frame::Empty => FrameView::Empty,
            Frame::Data(d) => FrameView::Data(d@),
            Frame::Resize(d) => FrameView::Resize(d@),
            Frame::Unknown(b) => FrameView::Unknown(b),
        }
    }
}

/// The message that bytes make up.
pub open spec fn frame(bytes: Seq<u8>) -> FrameView {
    if bytes.len() == 0 {
        FrameView::Empty
    } else if bytes[0] == MSG_TERMINAL_RESIZE {
        FrameView::Resize(bytes.drop_first())
    } else if bytes[0] == MSG_TERMINAL_DATA {
        FrameView::Data(bytes.drop_first())
    } else {
        FrameView::Unknown(bytes[0])
    }
}

/// The bytes of a message that carries data.
pub open spec fn data_frame_bytes(data: Seq<u8>) -> Seq<u8> {
    seq![MSG_TERMINAL_DATA] + data
}

/// The bytes of a message that carries a size.
pub open spec fn resize_frame_bytes(payload: Seq<u8>) -> Seq<u8> {
    seq![MSG_TERMINAL_RESIZE] + payload
}

/// Takes a message apart.
pub fn read_frame(bytes: &[u8]) -> (r: Frame)
    ensures
        r@ == frame(bytes@),
{
    if bytes.len() == 0 {
        return Frame::Empty;
    }
    let mut payload: Vec<u8> = Vec::new();
    payload.extend_from_slice(vstd::slice::slice_subrange(bytes, 1, bytes.len()));
    assert(payload@ =~= bytes@.drop_first());
    if bytes[0] == MSG_TERMINAL_RESIZE {
        Frame::Resize(payload)
    } else if bytes[0] == MSG_TERMINAL_DATA {
        Frame::Data(payload)
    } else {
        Frame::Unknown(bytes[0])
    }
}

/// Wraps output of the shell in a message.
pub fn data_frame(data: &[u8]) -> (r: Vec<u8>)
    ensures
        r@ == data_frame_bytes(data@),
{
    let mut frame: Vec<u8> = Vec::new();
    frame.push(MSG_TERMINAL_DATA);
    frame.extend_from_slice(data);
    assert(frame@ =~= data_frame_bytes(data@));
    frame
}

/// A message is read as it was written.
pub proof fn frames_are_read_back(data: Seq<u8>)
    ensures
        frame(data_frame_bytes(data)) == FrameView::Data(data),
        frame(resize_frame_bytes(data)) == FrameView::Resize(data),
{
    assert(data_frame_bytes(data).drop_first() =~= data);
    assert(resize_frame_bytes(data).drop_first() =~= data);
}

/// The first byte of a message says what it is, and what follows is what it carries: zero
/// is data, one is a size, and no other byte is anything.
pub proof fn first_byte_tells_what_a_message_is(b: u8, rest: Seq<u8>)
    ensures
        frame(seq![b] + rest) == if b == 0 {
            FrameView::Data(rest)
        } else if b == 1 {
            FrameView::Resize(rest)
        } else {
            FrameView::Unknown(b)
        },
        frame(Seq::empty()) is Empty,
        data_frame_bytes(rest) == seq![0u8] + rest,
        resize_frame_bytes(rest) == seq![1u8] + rest,
{
    assert((seq![b] + rest).drop_first() =~= rest);
}

} // verus!
