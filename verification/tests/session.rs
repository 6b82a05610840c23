use remux::protocol::{data_frame, read_frame, Frame, ResizePayload};
use remux::session::{
    answer, relay, wants_websocket, Broadcast, Connection, Handshake, Incoming, Relay, Response,
};
use remux::shared_session::{
    shell_command, ClientInfo, ReplayBuffer, SharedSession, REPLAY_BUFFER_SIZE,
};

#[test]
fn messages_are_read_as_written() {
    assert_eq!(data_frame(b"ls\n"), b"\x00ls\n");
    match read_frame(&data_frame(b"ls\n")) {
        Frame::Data(d) => assert_eq!(d, b"ls\n"),
        _ => panic!("no data"),
    }
    match read_frame(b"\x01{\"cols\":80,\"rows\":24}") {
        Frame::Resize(d) => assert_eq!(d, b"{\"cols\":80,\"rows\":24}"),
        _ => panic!("no size"),
    }
    assert!(matches!(read_frame(b""), Frame::Empty));
    assert!(matches!(read_frame(b"\x02x"), Frame::Unknown(2)));
    match read_frame(b"\x00") {
        Frame::Data(d) => assert!(d.is_empty()),
        _ => panic!("no data"),
    }
}

#[test]
fn websockets_are_asked_for_in_any_case() {
    assert!(wants_websocket(b"GET / HTTP/1.1\r\nHost: x\r\nUpgrade: websocket\r\n\r\n"));
    assert!(wants_websocket(b"UPGRADE: WEBSOCKET"));
    assert!(wants_websocket(b"\xff\xfeUpgrade: WebSocket\xff"));
    assert!(!wants_websocket(b"upgrade:websocket"));
    assert!(!wants_websocket(b"Upgrade: web\xffsocket"));
    assert!(!wants_websocket(b"upgrade: websocke"));
    assert!(!wants_websocket(b""));
}

#[test]
fn other_requests_are_answered_with_ok() {
    assert!(matches!(answer(b"Upgrade: websocket"), Handshake::Upgrade));
    match answer(b"GET / HTTP/1.1\r\n\r\n") {
        Handshake::Answer(bytes) => assert_eq!(
            bytes,
            b"HTTP/1.1 200 OK\r\nContent-Length: 2\r\nContent-Type: text/plain\r\n\r\nok"
        ),
        Handshake::Upgrade => panic!("upgraded"),
    }
}

#[test]
fn a_browser_joins_with_its_first_size() {
    let mut c = Connection::new();
    let size = || Incoming::Resize(Some(ResizePayload { cols: 80, rows: 24 }));
    assert!(matches!(c.handle(Incoming::Data(b"x".to_vec())), Response::Nothing));
    assert!(matches!(c.handle(Incoming::Resize(None)), Response::Nothing));
    assert!(matches!(c.handle(Incoming::Closed), Response::End(None)));
    assert!(matches!(c.handle(size()), Response::Attach { cols: 80, rows: 24 }));
    assert_eq!(c.attached(7, b"old").unwrap(), b"\x00old");
    assert_eq!(c.attached(7, b""), None);
    assert!(matches!(c.handle(size()), Response::Resize { id: 7, cols: 80, rows: 24 }));
    match c.handle(Incoming::Data(b"x".to_vec())) {
        Response::Input(d) => assert_eq!(d, b"x"),
        _ => panic!("no input"),
    }
    match c.handle(Incoming::Ping(b"p".to_vec())) {
        Response::Pong(d) => assert_eq!(d, b"p"),
        _ => panic!("no pong"),
    }
    assert!(matches!(c.handle(Incoming::Other), Response::Nothing));
    assert!(matches!(c.handle(Incoming::Closed), Response::End(Some(7))));
}

#[test]
fn output_is_relayed_in_messages() {
    match relay(Broadcast::Data(b"out".to_vec())) {
        Relay::Send(d) => assert_eq!(d, b"\x00out"),
        _ => panic!("not sent"),
    }
    assert!(matches!(relay(Broadcast::Lagged), Relay::Skip));
    assert!(matches!(relay(Broadcast::Closed), Relay::Stop));
}

#[test]
fn the_replay_is_the_end_of_the_output() {
    let mut all: Vec<u8> = Vec::new();
    let mut replay = ReplayBuffer::new();
    assert!(replay.snapshot().is_empty());
    let mut x: u32 = 1;
    for n in [1usize, 4096, 60000, 3000, 65536, 0, 70000, 5, 65535, 1, 40000, 40000] {
        let mut chunk = Vec::new();
        for _ in 0..n {
            x = x.wrapping_mul(1103515245).wrapping_add(12345);
            chunk.push((x >> 16) as u8);
        }
        replay.append(&chunk);
        all.extend_from_slice(&chunk);
        let start = all.len().saturating_sub(REPLAY_BUFFER_SIZE);
        assert!(replay.snapshot() == all[start..]);
    }
}

#[test]
fn a_joining_client_misses_nothing() {
    let mut replay = ReplayBuffer::new();
    replay.append(b"one ");
    replay.append(b"two ");
    let mut got = replay.snapshot();
    for chunk in [&b"three "[..], &b"four"[..]] {
        replay.append(chunk);
        got.extend_from_slice(chunk);
    }
    assert_eq!(got, b"one two three four");
    assert_eq!(replay.snapshot(), got);
}

#[test]
fn the_smallest_window_decides() {
    let mut s = SharedSession::new();
    assert!(s.needs_terminal());
    assert!(s.can_attach());
    assert_eq!(s.attach(100, 30), (0, None));
    s.spawn();
    assert!(!s.needs_terminal());
    assert_eq!(s.recalc_size(), Some(ClientInfo { cols: 100, rows: 30 }));
    assert_eq!(s.attach(80, 50), (1, Some(ClientInfo { cols: 80, rows: 30 })));
    assert_eq!(s.client_count(), 2);
    assert_eq!(s.resize(1, 200, 20), Some(ClientInfo { cols: 100, rows: 20 }));
    assert_eq!(s.resize(9, 1, 1), Some(ClientInfo { cols: 100, rows: 20 }));
    assert_eq!(s.detach(1), Some(ClientInfo { cols: 100, rows: 30 }));
    assert_eq!(s.detach(5), Some(ClientInfo { cols: 100, rows: 30 }));
    assert_eq!(s.detach(0), None);
    assert_eq!(s.client_count(), 0);
    assert_eq!(s.attach(10, 10).0, 2);
}

#[test]
fn zsh_gets_its_option() {
    let c = shell_command("/bin/zsh", 80, 24);
    assert_eq!(c.program, "/bin/zsh");
    assert_eq!(c.args, vec!["-o", "nopromptsp"]);
    assert_eq!(
        c.env,
        vec![
            ("TERM".to_string(), "xterm-256color".to_string()),
            ("REMUX_SESSION".to_string(), "1".to_string()),
        ]
    );
    assert_eq!((c.cols, c.rows), (80, 24));
    assert!(shell_command("/bin/bash", 80, 24).args.is_empty());
}
