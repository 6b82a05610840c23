//! The connection of one browser to the session.

use vstd::prelude::*;
use vstd::utf8::*;

use crate::protocol;
use crate::protocol::ResizePayload;
use crate::render;
use crate::text;

verus! {

// ---- The first request ----

/// An ASCII letter in lower case; any other byte as it is.
pub open spec fn lower(b: u8) -> u8 {
    if 0x41 <= b <= 0x5a {
        (b + 0x20) as u8
    } else {
        b
    }
}

/// Bytes with their ASCII letters in lower case.
pub open spec fn lowered(s: Seq<u8>) -> Seq<u8> {
    Seq::new(s.len(), |i: int| lower(s[i]))
}

/// Whether a request asks for a WebSocket, in whatever case it is written.
pub open spec fn asks_for_websocket(request: Seq<u8>) -> bool {
    text::occurs(lowered(request), encode_utf8("upgrade: websocket"@))
}

/// The answer to a request for anything else.
pub open spec fn ok_text() -> Seq<char> {
    "HTTP/1.1 200 OK\r\nContent-Length: 2\r\nContent-Type: text/plain\r\n\r\nok"@
}

fn lower_byte(b: u8) -> (r: u8)
    ensures
        r == lower(b),
{
    if 0x41 <= b && b <= 0x5a {
        b + 0x20
    } else {
        b
    }
}

fn lower_matches_at(s: &[u8], p: &[u8], at: usize) -> (r: bool)
    requires
        at + p.len() <= s.len(),
    ensures
        r == text::occurs_at(lowered(s@), p@, at as int),
{
    let mut k: usize = 0;
    while k < p.len()
        invariant
            at + p.len() <= s.len(),
            k <= p@.len(),
            forall|j: int| 0 <= j < k ==> lower(s@[at + j]) == #[trigger] p@[j],
        decreases p@.len() - k,
    {
        if lower_byte(s[at + k]) != p[k] {
            assert(lowered(s@).subrange(at as int, at + p@.len())[k as int] != p@[k as int]);
            return false;
        }
        k = k + 1;
    }
    assert(lowered(s@).subrange(at as int, at + p@.len()) =~= p@);
    true
}

/// Whether a request asks for a WebSocket.
pub fn wants_websocket(request: &[u8]) -> (r: bool)
    ensures
        r == asks_for_websocket(request@),
{
    let pattern = "upgrade: websocket".as_bytes();
    let n: usize = pattern.len();
    let mut at: usize = 0;
    while at < request.len() && n <= request.len() - at
        invariant
            n == pattern@.len(),
            pattern@ == encode_utf8("upgrade: websocket"@),
            at <= request@.len(),
            forall|j: int| 0 <= j < at ==> !text::occurs_at(lowered(request@), pattern@, j),
        decreases request@.len() - at,
    {
        if lower_matches_at(request, pattern, at) {
            assert(text::occurs_at(lowered(request@), pattern@, at as int));
            return true;
        }
        at = at + 1;
    }
    proof {
        reveal_strlit("upgrade: websocket");
        is_ascii_chars_encode_utf8("upgrade: websocket"@);
    }
    false
}

/// What a connection is answered.
pub enum Handshake {
    /// The connection becomes a WebSocket.
    Upgrade,
    /// These bytes are sent and the connection ends.
    Answer(Vec<u8>),
}

/// Answers the first bytes of a connection.
pub fn answer(request: &[u8]) -> (r: Handshake)
    ensures
        r is Upgrade <==> asks_for_websocket(request@),
        r matches Handshake::Answer(bytes) ==> bytes@ == encode_utf8(ok_text()),
{
    if wants_websocket(request) {
        Handshake::Upgrade
    } else {
        let mut bytes: Vec<u8> = Vec::new();
        render::append_text(
            &mut bytes,
            "HTTP/1.1 200 OK\r\nContent-Length: 2\r\nContent-Type: text/plain\r\n\r\nok",
        );
        assert(bytes@ =~= encode_utf8(ok_text()));
        Handshake::Answer(bytes)
    }
}

// ---- Messages ----

/// What comes in from a browser.
pub enum Incoming {
    /// The window has a size; `None` where the size cannot be read.
    Resize(Option<ResizePayload>),
    /// Input for the shell.
    Data(Vec<u8>),
    Ping(Vec<u8>),
    /// The browser closes the connection, or it breaks.
    Closed,
    /// Any other message.
    Other,
}

/// What is done about a message.
pub enum Response {
    /// The browser joins the session.
    Attach { cols: u16, rows: u16 },
    /// The window of a client that has joined has a new size.
    Resize { id: u64, cols: u16, rows: u16 },
    /// Bytes go to the shell.
    Input(Vec<u8>),
    /// The answer to a ping.
    Pong(Vec<u8>),
    /// The connection ends; the client leaves the session if it has joined.
    End(Option<u64>),
    Nothing,
}

/// What is done about a message, by what it holds.
pub enum ResponseView {
    Attach { cols: u16, rows: u16 },
    Resize { id: u64, cols: u16, rows: u16 },
    Input(Seq<u8>),
    Pong(Seq<u8>),
    End(Option<u64>),
    Nothing,
}

impl View for Response {
    type V = ResponseView;

    open spec fn view(&self) -> ResponseView {
        match *self {
            Response::Attach { cols, rows } => ResponseView::Attach { cols, rows },
            Response::Resize { id, cols, rows } => ResponseView::Resize { id, cols, rows },
            Response::Input(d) => ResponseView::Input(d@),
            Response::Pong(d) => ResponseView::Pong(d@),
            Response::End(id) => ResponseView::End(id),
            Response::Nothing => ResponseView::Nothing,
        }
    }
}

/// A connection: which client it is, once it has joined.
#[derive(Clone, Copy, PartialEq, Eq, Structural, Debug)]
pub struct Connection {
    pub client_id: Option<u64>,
}

impl Connection {
    /// What is done about a message. The first size joins the session, and input
    /// counts from then on.
    pub open spec fn response(self, msg: Incoming) -> ResponseView {
        match msg {
            Incoming::Resize(Some(size)) => match self.client_id {
                None => ResponseView::Attach { cols: size.cols, rows: size.rows },
                Some(id) => ResponseView::Resize { id, cols: size.cols, rows: size.rows },
            },
            Incoming::Data(d) => if self.client_id is Some {
                ResponseView::Input(d@)
            } else {
                ResponseView::Nothing
            },
            Incoming::Ping(d) => ResponseView::Pong(d@),
            Incoming::Closed => ResponseView::End(self.client_id),
            _ => ResponseView::Nothing,
        }
    }

    /// A new connection.
    pub fn new() -> (r: Self)
        ensures
            r.client_id is None,
    {
        Connection { client_id: None }
    }

    /// Handles a message.
    pub fn handle(&self, msg: Incoming) -> (r: Response)
        ensures
            r@ == self.response(msg),
    {
        match msg {
            Incoming::Resize(Some(size)) => match self.client_id {
                None => Response::Attach { cols: size.cols, rows: size.rows },
                Some(id) => Response::Resize { id, cols: size.cols, rows: size.rows },
            },
            Incoming::Resize(None) => Response::Nothing,
            Incoming::Data(data) => if self.client_id.is_some() {
                Response::Input(data)
            } else {
                Response::Nothing
            },
            Incoming::Ping(data) => Response::Pong(data),
            Incoming::Closed => Response::End(self.client_id),
            Incoming::Other => Response::Nothing,
        }
    }

    /// The client has joined; the output so far is sent to it, if there is any.
    pub fn attached(&mut self, id: u64, replay: &[u8]) -> (r: Option<Vec<u8>>)
        ensures
            final(self).client_id == Some(id),
            r is None <==> replay@.len() == 0,
            r matches Some(frame) ==> frame@ == protocol::data_frame_bytes(replay@),
    {
        self.client_id = Some(id);
        if replay.len() == 0 {
            None
        } else {
            Some(protocol::data_frame(replay))
        }
    }
}

/// What the relay of output to a browser waits for.
pub enum Broadcast {
    Data(Vec<u8>),
    /// Output was dropped because it was not sent in time.
    Lagged,
    Closed,
}

/// What the relay does.
pub enum Relay {
    Send(Vec<u8>),
    Skip,
    Stop,
}

/// Hands output on to a browser, in a message of its own.
pub fn relay(event: Broadcast) -> (r: Relay)
    ensures
        match event {
            Broadcast::Data(d) => r matches Relay::Send(frame) && frame@
                == protocol::data_frame_bytes(d@),
            Broadcast::Lagged => r is Skip,
            Broadcast::Closed => r is Stop,
        },
{
    match event {
        Broadcast::Data(data) => Relay::Send(protocol::data_frame(data.as_slice())),
        Broadcast::Lagged => Relay::Skip,
        Broadcast::Closed => Relay::Stop,
    }
}

// ---- Laws ----

/// A browser cannot type before it has joined, and it joins only once.
pub proof fn input_needs_a_client(c: Connection, msg: Incoming)
    ensures
        c.response(msg) is Input ==> c.client_id is Some,
        c.response(msg) is Attach ==> c.client_id is None,
        c.response(msg) matches ResponseView::Resize { id, .. } ==> c.client_id == Some(id),
{
}

/// A client that has joined leaves when its connection ends, and only then.
pub proof fn every_client_leaves(c: Connection, msg: Incoming)
    ensures
        msg is Closed <==> c.response(msg) is End,
        c.response(msg) matches ResponseView::End(id) ==> id == c.client_id,
{
}

/// Whether bytes are a text in lower case, some of its letters being in upper case.
pub open spec fn is_cased(h: Seq<u8>, p: Seq<u8>) -> bool {
    &&& h.len() == p.len()
    &&& forall|k: int|
        0 <= k < p.len() ==> {
            ||| #[trigger] h[k] == p[k]
            ||| 0x61 <= p[k] <= 0x7a && h[k] == p[k] - 0x20
        }
}

proof fn lemma_cased(h: Seq<u8>)
    ensures
        lowered(h) == encode_utf8("upgrade: websocket"@) <==> is_cased(
            h,
            encode_utf8("upgrade: websocket"@),
        ),
{
    let p = encode_utf8("upgrade: websocket"@);
    reveal_strlit("upgrade: websocket");
    is_ascii_chars_encode_utf8("upgrade: websocket"@);
    assert forall|k: int| 0 <= k < p.len() implies !(0x41 <= #[trigger] p[k] <= 0x5a) by {
        assert(p[k] == "upgrade: websocket"@[k] as u8);
    }
    if lowered(h) == p {
        assert forall|k: int| 0 <= k < p.len() implies {
            ||| #[trigger] h[k] == p[k]
            ||| 0x61 <= p[k] <= 0x7a && h[k] == p[k] - 0x20
        } by {
            assert(lowered(h)[k] == lower(h[k]));
        }
    }
    if is_cased(h, p) {
        assert(lowered(h) =~= p);
    }
}

/// A request asks for a WebSocket wherever the header stands in it, whatever stands
/// before and behind it, and in whatever case it is written.
pub proof fn header_counts_wherever_it_stands(a: Seq<u8>, h: Seq<u8>, b: Seq<u8>)
    requires
        is_cased(h, encode_utf8("upgrade: websocket"@)),
    ensures
        asks_for_websocket(a + h + b),
{
    let p = encode_utf8("upgrade: websocket"@);
    let s = lowered(a + h + b);
    lemma_cased(h);
    assert(s.subrange(a.len() as int, (a.len() + p.len()) as int) =~= lowered(h));
    assert(text::occurs_at(s, p, a.len() as int));
}

/// What does not hold the header anywhere does not ask for a WebSocket.
pub proof fn nothing_else_asks_for_a_websocket(request: Seq<u8>)
    requires
        asks_for_websocket(request),
    ensures
        exists|at: int|
            0 <= at && at + 18 <= request.len() && is_cased(
                #[trigger] request.subrange(at, at + 18),
                encode_utf8("upgrade: websocket"@),
            ),
{
    let p = encode_utf8("upgrade: websocket"@);
    reveal_strlit("upgrade: websocket");
    is_ascii_chars_encode_utf8("upgrade: websocket"@);
    let at = choose|at: int| #[trigger] text::occurs_at(lowered(request), p, at);
    let h = request.subrange(at, at + 18);
    assert(lowered(h) =~= lowered(request).subrange(at, at + 18));
    lemma_cased(h);
}

/// What a browser says reaches the session as it was said: the size of its window when it
/// joins and whenever it changes, and its input byte for byte once it has joined. A ping is
/// answered with its own bytes, and a size that cannot be read changes nothing.
pub proof fn messages_are_taken_as_they_are(c: Connection, msg: Incoming)
    ensures
        msg matches Incoming::Resize(Some(size)) ==> match c.response(msg) {
            ResponseView::Attach { cols, rows } => {
                c.client_id is None && cols == size.cols && rows == size.rows
            },
            ResponseView::Resize { id, cols, rows } => {
                c.client_id == Some(id) && cols == size.cols && rows == size.rows
            },
            _ => false,
        },
        msg matches Incoming::Resize(None) ==> c.response(msg) is Nothing,
        msg matches Incoming::Data(d) ==> {
            &&& c.client_id is Some ==> c.response(msg) == ResponseView::Input(d@)
            &&& c.client_id is None ==> c.response(msg) is Nothing
        },
        msg matches Incoming::Ping(d) ==> c.response(msg) == ResponseView::Pong(d@),
        msg is Other ==> c.response(msg) is Nothing,
{
}

/// The answer is a whole one: a status line, its headers, an empty line, and a body that is
/// as long as the headers say.
pub proof fn answer_is_whole()
    ensures
        ok_text() == "HTTP/1.1 200 OK\r\n"@ + "Content-Length: 2\r\n"@
            + "Content-Type: text/plain\r\n"@ + "\r\n"@ + "ok"@,
        "ok"@.len() == 2,
{
    reveal_strlit("HTTP/1.1 200 OK\r\nContent-Length: 2\r\nContent-Type: text/plain\r\n\r\nok");
    reveal_strlit("HTTP/1.1 200 OK\r\n");
    reveal_strlit("Content-Length: 2\r\n");
    reveal_strlit("Content-Type: text/plain\r\n");
    reveal_strlit("\r\n");
    reveal_strlit("ok");
    assert(ok_text() =~= "HTTP/1.1 200 OK\r\n"@ + "Content-Length: 2\r\n"@
        + "Content-Type: text/plain\r\n"@ + "\r\n"@ + "ok"@);
}

} // verus!
