use remux::tunnel::{
    extract_slug, line_address, next_frame, scan_line, spawn_args, tells_of_trouble, waiting_line,
    Phase, Scan, TunnelAction, TunnelError, TunnelEvent, TunnelManager, TunnelState,
};

#[test]
fn slugs_are_the_first_label() {
    assert_eq!(extract_slug("https://calm-blue-sea.trycloudflare.com"), "calm-blue-sea");
    assert_eq!(extract_slug("http://a.b.c"), "a");
    assert_eq!(extract_slug("plain"), "plain");
    assert_eq!(extract_slug(""), "");
}

#[test]
fn addresses_are_found_in_lines() {
    for (line, url) in [
        ("INF |  https://calm-blue-sea.trycloudflare.com   |", Some("https://calm-blue-sea.trycloudflare.com")),
        ("https://x.trycloudflare.com", Some("https://x.trycloudflare.com")),
        ("https://x.trycloudflare.com\n", Some("https://x.trycloudflare.com")),
        ("url=https://A-9.trycloudflare.com, ok", Some("https://A-9.trycloudflare.com")),
        ("https://x.trycloudflare.com/path", None),
        ("https://x.trycloudflare.community", None),
        ("https://x.trycloudflare.com.evil", Some("https://x.trycloudflare.com")),
        ("https://.trycloudflare.com", None),
        ("http://x.trycloudflare.com", None),
        ("https://a_b.trycloudflare.com", None),
        ("https://a.b.trycloudflare.com", None),
        ("https://x.trycloudflare.com/p https://y.trycloudflare.com!", Some("https://y.trycloudflare.com")),
        ("https://https://z.trycloudflare.com", Some("https://z.trycloudflare.com")),
        ("https://one.trycloudflare.com https://two.trycloudflare.com", Some("https://one.trycloudflare.com")),
        ("https://x.trycloudflare.comé", Some("https://x.trycloudflare.com")),
        ("nothing here", None),
        ("", None),
    ] {
        assert_eq!(line_address(line).as_deref(), url, "{}", line);
    }
}

#[test]
fn the_service_is_no_tunnel() {
    assert_eq!(line_address("failed: https://api.trycloudflare.com: 500"), None);
    assert_eq!(
        line_address("https://api.trycloudflare.com https://x.trycloudflare.com"),
        None
    );
    assert_eq!(
        line_address("https://apix.trycloudflare.com").as_deref(),
        Some("https://apix.trycloudflare.com")
    );
}

#[test]
fn output_is_scanned_line_by_line() {
    assert!(matches!(scan_line(""), Scan::Ended));
    assert!(matches!(scan_line("\n"), Scan::Next));
    assert!(matches!(scan_line("starting\n"), Scan::Next));
    match scan_line("  https://q.trycloudflare.com \n") {
        Scan::Found(url) => assert_eq!(url, "https://q.trycloudflare.com"),
        _ => panic!("not found"),
    }
}

#[test]
fn trouble_is_told_by_words() {
    for line in ["ERR something", "it Failed.", "service UNAVAILABLE", "connection refused", "stderr"] {
        assert!(tells_of_trouble(line), "{}", line);
    }
    for line in ["", "all is well", "INF connected", "fail ed"] {
        assert!(!tells_of_trouble(line), "{}", line);
    }
}

#[test]
fn the_tunnel_leads_to_the_local_port() {
    assert_eq!(spawn_args(8080), vec!["tunnel", "--url", "http://127.0.0.1:8080"]);
}

#[test]
fn failures_have_their_words() {
    assert_eq!(
        TunnelError::NotStarted("no such file".to_string()).message(),
        "Failed to run cloudflared: no such file"
    );
    assert_eq!(TunnelError::NoOutput.message(), "Failed to capture cloudflared stderr");
    assert_eq!(
        TunnelError::TimedOut.message(),
        "Tunnel creation timed out — cloudflared did not return a URL within 30s"
    );
    assert_eq!(
        TunnelError::Exited.message(),
        "cloudflared exited without providing a tunnel URL"
    );
}

fn manager() -> TunnelManager {
    let (m, state) = TunnelManager::start(
        "https://calm-sea.trycloudflare.com",
        "https://remux.sh".to_string(),
        "remux.sh".to_string(),
    );
    match state {
        TunnelState::Connected { full_url, display_url } => {
            assert_eq!(full_url, "https://remux.sh/calm-sea");
            assert_eq!(display_url, "remux.sh/calm-sea");
        }
        TunnelState::Reconnecting => panic!("not connected"),
    }
    m
}

#[test]
fn three_failed_checks_in_a_row_break_the_tunnel() {
    let mut m = manager();
    assert!(matches!(m.run(TunnelEvent::Checked(false)), TunnelAction::Nothing));
    assert!(matches!(m.run(TunnelEvent::Checked(false)), TunnelAction::Nothing));
    assert_eq!(m.phase, Phase::Monitor { failures: 2 });
    assert!(matches!(m.run(TunnelEvent::Checked(true)), TunnelAction::Nothing));
    assert_eq!(m.phase, Phase::Monitor { failures: 0 });
    assert!(matches!(m.run(TunnelEvent::Checked(false)), TunnelAction::Nothing));
    assert!(matches!(m.run(TunnelEvent::Checked(false)), TunnelAction::Nothing));
    assert!(matches!(
        m.run(TunnelEvent::Checked(false)),
        TunnelAction::Reconnect(TunnelState::Reconnecting)
    ));
    assert_eq!(m.phase, Phase::Reconnect { backoff: 1 });
}

#[test]
fn waits_double_up_to_half_a_minute() {
    let mut m = manager();
    assert!(matches!(m.run(TunnelEvent::Exited), TunnelAction::Reconnect(_)));
    let mut waits = Vec::new();
    for _ in 0..8 {
        match m.run(TunnelEvent::SpawnFailed) {
            TunnelAction::RetryAfter(n) => waits.push(n),
            _ => panic!("no wait"),
        }
    }
    assert_eq!(waits, vec![1, 2, 4, 8, 16, 30, 30, 30]);
    match m.run(TunnelEvent::Spawned("https://new-one.trycloudflare.com".to_string())) {
        TunnelAction::Watch(TunnelState::Connected { full_url, display_url }) => {
            assert_eq!(full_url, "https://remux.sh/new-one");
            assert_eq!(display_url, "remux.sh/new-one");
        }
        _ => panic!("not watched"),
    }
    assert_eq!(m.phase, Phase::Monitor { failures: 0 });
    assert!(matches!(m.run(TunnelEvent::SpawnFailed), TunnelAction::Nothing));
}

#[test]
fn the_spinner_turns() {
    assert_eq!(waiting_line(0), "\r  ⠋ Creating tunnel...");
    assert_eq!(waiting_line(9), "\r  ⠏ Creating tunnel...");
    assert_eq!(next_frame(0), 1);
    assert_eq!(next_frame(9), 0);
}
