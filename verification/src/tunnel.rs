//! The tunnel: finding its address in what `cloudflared` prints, watching over
//! it, and setting it up again when it breaks.

use regex::Regex;

use vstd::prelude::*;

use crate::text;

verus! {

// All times are in seconds.
pub const TUNNEL_TIMEOUT: u64 = 30;

pub const KEEPALIVE_INTERVAL: u64 = 15;

pub const KEEPALIVE_FAIL_THRESHOLD: u32 = 3;

pub const BACKOFF_INITIAL: u64 = 1;

pub const BACKOFF_CAP: u64 = 30;

// ---- The address ----

/// A letter or a digit.
pub open spec fn is_alphanumeric(c: char) -> bool {
    ||| 'a' <= c <= 'z'
    ||| 'A' <= c <= 'Z'
    ||| '0' <= c <= '9'
}

/// The name of a tunnel: letters, digits and hyphens.
pub open spec fn is_label(s: Seq<char>) -> bool {
    &&& s.len() >= 1
    &&& forall|i: int| 0 <= i < s.len() ==> is_alphanumeric(#[trigger] s[i]) || s[i] == '-'
}

/// The address of the tunnel with a name.
pub open spec fn tunnel_address(label: Seq<char>) -> Seq<char> {
    "https://"@ + label + ".trycloudflare.com"@
}

/// Whether the address of the tunnel `label` stands in `s` at `at`, with no path
/// and no further letters behind it.
pub open spec fn address_at(s: Seq<char>, at: int, label: Seq<char>) -> bool {
    let end = at + tunnel_address(label).len();
    &&& is_label(label)
    &&& text::occurs_at(s, tunnel_address(label), at)
    &&& end == s.len() || !(s[end] == '/' || is_alphanumeric(s[end]))
}

/// Whether `r` is the first tunnel address in `s`.
pub open spec fn is_first_address(s: Seq<char>, r: Option<Seq<char>>) -> bool {
    match r {
        None => forall|at: int, label: Seq<char>| !#[trigger] address_at(s, at, label),
        Some(url) => exists|at: int, label: Seq<char>|
            {
                &&& #[trigger] address_at(s, at, label)
                &&& url == tunnel_address(label)
                &&& forall|k: int, other: Seq<char>|
                    k < at ==> !#[trigger] address_at(s, k, other)
            },
    }
}

/// The pattern of a tunnel address. An address with a path behind it is none.
pub open spec fn address_pattern() -> Seq<char> {
    "(https://[a-zA-Z0-9\\-]+\\.trycloudflare\\.com)(?:[^/a-zA-Z0-9]|$)"@
}

/// `Regex::new` on the pattern of a tunnel address, `Regex::captures` and
/// `Captures::get`: the first group of the leftmost match. A match is a tunnel
/// address with one character behind it that is no letter, digit or slash, or
/// with nothing behind it; the group is the address. Behind `https://` the name
/// ends at the first dot, so at one place there is at most one match.
#[verifier::external_body]
fn capture_address(pattern: &str, line: &str) -> (r: Option<String>)
    requires
        pattern@ == address_pattern(),
    ensures
        is_first_address(line@, text::held(r)),
{
    let re = Regex::new(pattern).ok()?;
    let found = re.captures(line)?;
    found.get(1).map(|m| m.as_str().to_string())
}

/// Whether an address is that of the service and not of a tunnel; it stands in
/// error messages.
pub open spec fn is_api(url: Seq<char>) -> bool {
    "https://api."@.is_prefix_of(url)
}

/// Whether `r` is the tunnel address that a line gives: the first address in it,
/// unless that is the service's own.
pub open spec fn is_line_address(line: Seq<char>, r: Option<Seq<char>>) -> bool {
    match r {
        Some(url) => is_first_address(text::trimmed(line), r) && !is_api(url),
        None => {
            ||| is_first_address(text::trimmed(line), None)
            ||| exists|url: Seq<char>|
                is_api(url) && #[trigger] is_first_address(text::trimmed(line), Some(url))
        },
    }
}

/// The tunnel address that a line gives.
pub fn line_address(line: &str) -> (r: Option<String>)
    ensures
        is_line_address(line@, text::held(r)),
{
    let trimmed = text::trim(line);
    let found = capture_address(
        "(https://[a-zA-Z0-9\\-]+\\.trycloudflare\\.com)(?:[^/a-zA-Z0-9]|$)",
        trimmed,
    );
    match found {
        Some(url) => {
            if text::starts_with(url.as_str(), "https://api.") {
                assert(is_first_address(text::trimmed(line@), Some(url@)));
                None
            } else {
                Some(url)
            }
        },
        None => None,
    }
}

/// What a line that `cloudflared` printed means for the search.
pub enum Scan {
    Found(String),
    Next,
    /// Nothing more will come.
    Ended,
}

/// Looks at one line, read with its line feed; an empty one is the end.
pub fn scan_line(line: &str) -> (r: Scan)
    ensures
        r is Ended <==> line@.len() == 0,
        r matches Scan::Found(url) ==> is_line_address(line@, Some(url@)),
        r is Next ==> is_line_address(line@, None),
{
    if line.unicode_len() == 0 {
        return Scan::Ended;
    }
    match line_address(line) {
        Some(url) => Scan::Found(url),
        None => Scan::Next,
    }
}

/// Whether a line tells of trouble.
pub open spec fn is_trouble(line: Seq<char>) -> bool {
    let l = text::lowered(text::trimmed(line));
    ||| text::occurs(l, "err"@)
    ||| text::occurs(l, "failed"@)
    ||| text::occurs(l, "unavailable"@)
    ||| text::occurs(l, "refused"@)
}

/// Whether a line tells of trouble and is worth a warning.
pub fn tells_of_trouble(line: &str) -> (r: bool)
    ensures
        r == is_trouble(line@),
{
    let l = text::to_lower(text::trim(line));
    text::contains(l.as_str(), "err") || text::contains(l.as_str(), "failed") || text::contains(
        l.as_str(),
        "unavailable",
    ) || text::contains(l.as_str(), "refused")
}

/// The arguments with which `cloudflared` is started.
pub open spec fn tunnel_args(port: u16) -> Seq<Seq<char>> {
    seq!["tunnel"@, "--url"@, "http://127.0.0.1:"@ + text::decimal(port as nat)]
}

/// The arguments that have `cloudflared` set up a tunnel to a local port.
pub fn spawn_args(port: u16) -> (r: Vec<String>)
    ensures
        text::texts(r@) == tunnel_args(port),
{
    let mut url = "http://127.0.0.1:".to_string();
    text::push_decimal(&mut url, port as u64);
    let mut args: Vec<String> = Vec::new();
    args.push("tunnel".to_string());
    args.push("--url".to_string());
    args.push(url);
    assert(text::texts(args@) =~= tunnel_args(port));
    args
}

/// Why there is no tunnel.
pub enum TunnelError {
    /// `cloudflared` could not be started, for the given reason.
    NotStarted(String),
    /// What it prints could not be read.
    NoOutput,
    /// It gave no address in time.
    TimedOut,
    /// It ended without an address.
    Exited,
}

/// What the user is told.
pub open spec fn error_text(e: TunnelError) -> Seq<char> {
    match e {
        TunnelError::NotStarted(why) => "Failed to run cloudflared: "@ + why@,
        TunnelError::NoOutput => "Failed to capture cloudflared stderr"@,
        TunnelError::TimedOut =>
            "Tunnel creation timed out \u{2014} cloudflared did not return a URL within "@
            + text::decimal(TUNNEL_TIMEOUT as nat) + "s"@,
        TunnelError::Exited => "cloudflared exited without providing a tunnel URL"@,
    }
}

impl TunnelError {
    pub fn message(&self) -> (r: String)
        ensures
            r@ == error_text(*self),
    {
        match self {
            TunnelError::NotStarted(why) => {
                let mut out = "Failed to run cloudflared: ".to_string();
                out.append(why.as_str());
                out
            },
            TunnelError::NoOutput => "Failed to capture cloudflared stderr".to_string(),
            TunnelError::TimedOut => {
                let mut out =
                    "Tunnel creation timed out \u{2014} cloudflared did not return a URL within ".to_string();
                text::push_decimal(&mut out, TUNNEL_TIMEOUT);
                out.append("s");
                out
            },
            TunnelError::Exited => "cloudflared exited without providing a tunnel URL".to_string(),
        }
    }
}

// ---- While the tunnel is set up ----

/// The pictures that follow each other while the user waits.
pub open spec fn spinner() -> Seq<char> {
    seq![
        '\u{280b}',
        '\u{2819}',
        '\u{2839}',
        '\u{2838}',
        '\u{283c}',
        '\u{2834}',
        '\u{2826}',
        '\u{2827}',
        '\u{2807}',
        '\u{280f}',
    ]
}

/// What the user sees while the tunnel is set up.
pub open spec fn waiting_text(frame: int) -> Seq<char> {
    "\r  "@ + seq![spinner()[frame]] + " Creating tunnel..."@
}

/// The number of the next picture.
pub fn next_frame(frame: usize) -> (r: usize)
    requires
        frame < spinner().len(),
    ensures
        r == (frame + 1) % spinner().len() as int,
        r < spinner().len(),
{
    (frame + 1) % 10
}

/// What the user sees while the tunnel is set up.
pub fn waiting_line(frame: usize) -> (r: String)
    requires
        frame < spinner().len(),
    ensures
        r@ == waiting_text(frame as int),
{
    let picture: char = match frame {
        0 => '\u{280b}',
        1 => '\u{2819}',
        2 => '\u{2839}',
        3 => '\u{2838}',
        4 => '\u{283c}',
        5 => '\u{2834}',
        6 => '\u{2826}',
        7 => '\u{2827}',
        8 => '\u{2807}',
        _ => '\u{280f}',
    };
    let mut out = "\r  ".to_string();
    out.push(picture);
    out.append(" Creating tunnel...");
    assert(out@ =~= waiting_text(frame as int));
    out
}

// ---- The address that is shared ----

/// The name of a tunnel by its address: what stands in front of the first dot,
/// without the scheme.
pub open spec fn slug(url: Seq<char>) -> Seq<char> {
    text::fields(text::strip_all(text::strip_all(url, "https://"@), "http://"@), '.')[0]
}

/// The name of a tunnel by its address.
pub fn extract_slug(tunnel_url: &str) -> (r: String)
    ensures
        r@ == slug(tunnel_url@),
{
    let host = text::trim_start_matches(
        text::trim_start_matches(tunnel_url, "https://"),
        "http://",
    );
    let mut parts = text::split(host, '.');
    proof {
        text::lemma_fields_nonempty(host@, '.');
        assert(text::texts(parts@)[0] == parts@[0]@);
    }
    parts.remove(0)
}

/// Whether the session can be reached, and where.
pub enum TunnelState {
    Connected { full_url: String, display_url: String },
    Reconnecting,
}

/// Whether the session can be reached, and where, by the texts.
pub enum Reach {
    Connected { full_url: Seq<char>, display_url: Seq<char> },
    Reconnecting,
}

impl View for TunnelState {
    type V = Reach;

    open spec fn view(&self) -> Reach {
        match *self {
            TunnelState::Connected { full_url, display_url } => Reach::Connected {
                full_url: full_url@,
                display_url: display_url@,
            },
            TunnelState::Reconnecting => Reach::Reconnecting,
        }
    }
}

/// The address under a base address.
pub open spec fn under(base: Seq<char>, name: Seq<char>) -> Seq<char> {
    base + "/"@ + name
}

fn path_under(base: &str, name: &str) -> (r: String)
    ensures
        r@ == under(base@, name@),
{
    let mut out = base.to_string();
    out.append("/");
    out.append(name);
    out
}

// ---- Watching over the tunnel ----

/// The tunnel is watched, or it is being set up again.
#[derive(Clone, Copy, PartialEq, Eq, Structural, Debug)]
pub enum Phase {
    /// So many checks in a row have failed.
    Monitor { failures: u32 },
    /// The time to wait after the next failure.
    Reconnect { backoff: u64 },
}

/// What happens to the tunnel.
pub enum TunnelEvent {
    /// A check of the tunnel succeeded or failed.
    Checked(bool),
    /// `cloudflared` has ended.
    Exited,
    /// A new tunnel is up, with this address.
    Spawned(String),
    /// No new tunnel could be set up.
    SpawnFailed,
}

/// What is done about it.
pub enum TunnelAction {
    Nothing,
    /// What is left of the tunnel goes away, the state is told, and a new tunnel
    /// is set up.
    Reconnect(TunnelState),
    /// The state is told, and the new tunnel is watched.
    Watch(TunnelState),
    /// Another try after so many seconds.
    RetryAfter(u64),
}

/// What is done, by the texts.
pub enum TunnelStep {
    Nothing,
    Reconnect(Reach),
    Watch(Reach),
    RetryAfter(u64),
}

impl View for TunnelAction {
    type V = TunnelStep;

    open spec fn view(&self) -> TunnelStep {
        match *self {
            TunnelAction::Nothing => TunnelStep::Nothing,
            TunnelAction::Reconnect(s) => TunnelStep::Reconnect(s@),
            TunnelAction::Watch(s) => TunnelStep::Watch(s@),
            TunnelAction::RetryAfter(n) => TunnelStep::RetryAfter(n),
        }
    }
}

/// The wait after the one given: twice as long, up to a limit.
pub open spec fn next_backoff(backoff: u64) -> u64 {
    if 2 * backoff < BACKOFF_CAP {
        (2 * backoff) as u64
    } else {
        BACKOFF_CAP
    }
}

/// The phase after an event.
pub open spec fn next_phase(phase: Phase, event: TunnelEvent) -> Phase {
    match (phase, event) {
        (Phase::Monitor { failures }, TunnelEvent::Checked(ok)) => if ok {
            Phase::Monitor { failures: 0 }
        } else if failures + 1 >= KEEPALIVE_FAIL_THRESHOLD {
            Phase::Reconnect { backoff: BACKOFF_INITIAL }
        } else {
            Phase::Monitor { failures: (failures + 1) as u32 }
        },
        (Phase::Monitor { .. }, TunnelEvent::Exited) => Phase::Reconnect {
            backoff: BACKOFF_INITIAL,
        },
        (Phase::Reconnect { .. }, TunnelEvent::Spawned(_)) => Phase::Monitor { failures: 0 },
        (Phase::Reconnect { backoff }, TunnelEvent::SpawnFailed) => Phase::Reconnect {
            backoff: next_backoff(backoff),
        },
        _ => phase,
    }
}

/// Watches over the tunnel of a session.
pub struct TunnelManager {
    pub base_url: String,
    pub display_base_url: String,
    pub phase: Phase,
}

impl TunnelManager {
    /// Where the session can be reached through a tunnel.
    pub open spec fn reach(&self, tunnel_url: Seq<char>) -> Reach {
        Reach::Connected {
            full_url: under(self.base_url@, slug(tunnel_url)),
            display_url: under(self.display_base_url@, slug(tunnel_url)),
        }
    }

    /// What is done about an event. What does not belong to the phase is ignored.
    pub open spec fn action(&self, event: TunnelEvent) -> TunnelStep {
        match (self.phase, event) {
            (Phase::Monitor { failures }, TunnelEvent::Checked(ok)) => if !ok && failures + 1
                >= KEEPALIVE_FAIL_THRESHOLD {
                TunnelStep::Reconnect(Reach::Reconnecting)
            } else {
                TunnelStep::Nothing
            },
            (Phase::Monitor { .. }, TunnelEvent::Exited) => TunnelStep::Reconnect(
                Reach::Reconnecting,
            ),
            (Phase::Reconnect { .. }, TunnelEvent::Spawned(url)) => TunnelStep::Watch(
                self.reach(url@),
            ),
            (Phase::Reconnect { backoff }, TunnelEvent::SpawnFailed) => TunnelStep::RetryAfter(
                backoff,
            ),
            _ => TunnelStep::Nothing,
        }
    }

    /// Where the session can be reached through a tunnel.
    pub fn connected(&self, tunnel_url: &str) -> (r: TunnelState)
        ensures
            r@ == self.reach(tunnel_url@),
    {
        let slug = extract_slug(tunnel_url);
        TunnelState::Connected {
            full_url: path_under(self.base_url.as_str(), slug.as_str()),
            display_url: path_under(self.display_base_url.as_str(), slug.as_str()),
        }
    }

    /// Starts to watch over a tunnel; the state is where the session can be
    /// reached.
    pub fn start(tunnel_url: &str, base_url: String, display_base_url: String) -> (r: (
        Self,
        TunnelState,
    ))
        ensures
            r.0.base_url == base_url,
            r.0.display_base_url == display_base_url,
            r.0.phase == (Phase::Monitor { failures: 0 }),
            r.1@ == r.0.reach(tunnel_url@),
    {
        let manager = TunnelManager {
            base_url,
            display_base_url,
            phase: Phase::Monitor { failures: 0 },
        };
        let state = manager.connected(tunnel_url);
        (manager, state)
    }

    /// Handles an event.
    pub fn run(&mut self, event: TunnelEvent) -> (r: TunnelAction)
        ensures
            final(self).base_url == old(self).base_url,
            final(self).display_base_url == old(self).display_base_url,
            final(self).phase == next_phase(old(self).phase, event),
            r@ == old(self).action(event),
    {
        match (self.phase, event) {
            (Phase::Monitor { failures }, TunnelEvent::Checked(ok)) => {
                if ok {
                    self.phase = Phase::Monitor { failures: 0 };
                    TunnelAction::Nothing
                } else if failures >= KEEPALIVE_FAIL_THRESHOLD - 1 {
                    self.phase = Phase::Reconnect { backoff: BACKOFF_INITIAL };
                    TunnelAction::Reconnect(TunnelState::Reconnecting)
                } else {
                    self.phase = Phase::Monitor { failures: failures + 1 };
                    TunnelAction::Nothing
                }
            },
            (Phase::Monitor { .. }, TunnelEvent::Exited) => {
                self.phase = Phase::Reconnect { backoff: BACKOFF_INITIAL };
                TunnelAction::Reconnect(TunnelState::Reconnecting)
            },
            (Phase::Reconnect { .. }, TunnelEvent::Spawned(url)) => {
                self.phase = Phase::Monitor { failures: 0 };
                TunnelAction::Watch(self.connected(url.as_str()))
            },
            (Phase::Reconnect { backoff }, TunnelEvent::SpawnFailed) => {
                let next: u64 = if backoff < BACKOFF_CAP && 2 * backoff < BACKOFF_CAP {
                    2 * backoff
                } else {
                    BACKOFF_CAP
                };
                self.phase = Phase::Reconnect { backoff: next };
                TunnelAction::RetryAfter(backoff)
            },
            _ => TunnelAction::Nothing,
        }
    }
}

// ---- Laws ----

proof fn lemma_labels_agree(s: Seq<char>, at: int, a: Seq<char>, b: Seq<char>)
    requires
        address_at(s, at, a),
        address_at(s, at, b),
        a.len() <= b.len(),
    ensures
        a == b,
{
    reveal_strlit("https://");
    reveal_strlit(".trycloudflare.com");
    let x = tunnel_address(a);
    let y = tunnel_address(b);
    assert(s.subrange(at, at + x.len()) == x);
    assert(s.subrange(at, at + y.len()) == y);
    assert forall|i: int| 0 <= i < a.len() implies a[i] == b[i] by {
        assert(x[8 + i] == s[at + 8 + i]);
        assert(y[8 + i] == s[at + 8 + i]);
    }
    if a.len() < b.len() {
        assert(x[a.len() + 8int] == s[at + 8 + a.len()]);
        assert(y[a.len() + 8int] == s[at + 8 + a.len()]);
        assert(b[a.len() as int] == '.');
        assert(false);
    }
    assert(a =~= b);
}

/// A text has one first tunnel address at most.
pub proof fn first_address_is_unique(s: Seq<char>, a: Option<Seq<char>>, b: Option<Seq<char>>)
    requires
        is_first_address(s, a),
        is_first_address(s, b),
    ensures
        a == b,
{
    if a is Some && b is Some {
        let (i, x) = choose|at: int, label: Seq<char>|
            {
                &&& #[trigger] address_at(s, at, label)
                &&& a->0 == tunnel_address(label)
                &&& forall|k: int, other: Seq<char>|
                    k < at ==> !#[trigger] address_at(s, k, other)
            };
        let (j, y) = choose|at: int, label: Seq<char>|
            {
                &&& #[trigger] address_at(s, at, label)
                &&& b->0 == tunnel_address(label)
                &&& forall|k: int, other: Seq<char>|
                    k < at ==> !#[trigger] address_at(s, k, other)
            };
        assert(i == j);
        if x.len() <= y.len() {
            lemma_labels_agree(s, i, x, y);
        } else {
            lemma_labels_agree(s, i, y, x);
        }
    }
}

/// The name under which a session is shared is the name of its tunnel.
pub proof fn slug_is_the_name_of_the_tunnel(label: Seq<char>)
    requires
        is_label(label),
    ensures
        slug(tunnel_address(label)) == label,
{
    reveal_strlit("https://");
    reveal_strlit("http://");
    reveal_strlit(".trycloudflare.com");
    let url = tunnel_address(label);
    let host = label + ".trycloudflare.com"@;
    let rest = ".trycloudflare.com"@.drop_first();
    let https = "https://"@;
    let http = "http://"@;
    assert(url.take(8) =~= https);
    assert(https.is_prefix_of(url));
    assert(url.skip(8) =~= host);
    if https.is_prefix_of(host) {
        assert(host[5] == https[5]);
        assert(host[6] == https[6]);
        assert(false);
    }
    assert(text::strip_all(url, https) == host) by {
        reveal_with_fuel(text::strip_all, 3);
    }
    if http.is_prefix_of(host) {
        assert(host[4] == http[4]);
        assert(host[5] == http[5]);
        assert(false);
    }
    assert(host =~= label + seq!['.'] + rest);
    assert forall|i: int| 0 <= i < label.len() implies label[i] != '.' by {}
    text::lemma_one_field(label, '.');
    text::lemma_fields_concat(label, '.', rest);
}

/// The state of the checks after a row of them, unless the tunnel is given up
/// before that.
pub open spec fn checked(results: Seq<bool>) -> Option<int>
    decreases results.len(),
{
    if results.len() == 0 {
        Some(0)
    } else {
        match checked(results.drop_last()) {
            None => None,
            Some(failures) => match next_phase(
                Phase::Monitor { failures: failures as u32 },
                TunnelEvent::Checked(results.last()),
            ) {
                Phase::Monitor { failures } => Some(failures as int),
                Phase::Reconnect { .. } => None,
            },
        }
    }
}

/// Whether three checks in a row failed, the last of them at `i`.
pub open spec fn failed_thrice(results: Seq<bool>, i: int) -> bool {
    2 <= i < results.len() && !results[i] && !results[i - 1] && !results[i - 2]
}

/// The failed checks that a row ends with.
spec fn failed_last(results: Seq<bool>) -> int
    decreases results.len(),
{
    if results.len() == 0 || results.last() {
        0
    } else {
        failed_last(results.drop_last()) + 1
    }
}

proof fn lemma_failed_last(results: Seq<bool>)
    ensures
        0 <= failed_last(results) <= results.len(),
        forall|i: int|
            results.len() - failed_last(results) <= i < results.len() ==> !#[trigger] results[i],
        failed_last(results) < results.len() ==> results[results.len() - failed_last(results) - 1],
    decreases results.len(),
{
    if results.len() > 0 && !results.last() {
        lemma_failed_last(results.drop_last());
        let n = failed_last(results.drop_last());
        assert forall|i: int|
            results.len() - (n + 1) <= i < results.len() implies !#[trigger] results[i] by {
            if i < results.len() - 1 {
                assert(!results.drop_last()[i]);
            }
        }
    }
}

proof fn lemma_checked(results: Seq<bool>)
    ensures
        checked(results) is None <==> exists|i: int| #[trigger] failed_thrice(results, i),
        checked(results) matches Some(n) ==> n == failed_last(results) && n < 3,
    decreases results.len(),
{
    if results.len() > 0 {
        let before = results.drop_last();
        let last = results.len() - 1;
        lemma_checked(before);
        lemma_failed_last(before);
        if checked(before) is None {
            let i = choose|i: int| #[trigger] failed_thrice(before, i);
            assert(failed_thrice(results, i));
        } else {
            assert forall|i: int| #[trigger] failed_thrice(results, i) implies i == last by {
                if i < last {
                    assert(failed_thrice(before, i));
                }
            }
            if !results.last() && failed_last(before) == 2 {
                assert(!before[last - 1]);
                assert(!before[last - 2]);
                assert(failed_thrice(results, last));
            } else if !results.last() {
                if failed_thrice(results, last) {
                    assert(!before[last - 1]);
                    assert(!before[last - 2]);
                    assert(false);
                }
            }
        }
    }
}

/// A tunnel is given up after three failed checks in a row, and only then.
pub proof fn three_failures_give_the_tunnel_up(results: Seq<bool>)
    ensures
        checked(results) is None <==> exists|i: int| #[trigger] failed_thrice(results, i),
{
    lemma_checked(results);
}

/// How long the wait is after so many failures to set up a tunnel.
pub open spec fn wait_after(failures: nat) -> u64
    decreases failures,
{
    if failures == 0 {
        BACKOFF_INITIAL
    } else {
        next_backoff(wait_after((failures - 1) as nat))
    }
}

/// The waits between tries never get shorter, and stay between a second and half
/// a minute.
pub proof fn waits_grow_to_a_limit(failures: nat)
    ensures
        BACKOFF_INITIAL <= wait_after(failures) <= wait_after(failures + 1) <= BACKOFF_CAP,
        failures >= 5 ==> wait_after(failures) == BACKOFF_CAP,
    decreases failures,
{
    reveal_with_fuel(wait_after, 7);
    if failures > 5 {
        waits_grow_to_a_limit((failures - 1) as nat);
    }
}

/// The first wait is a second; each wait is twice as long as the one before it, but never
/// more than half a minute.
pub proof fn waits_double(failures: nat)
    ensures
        wait_after(0) == 1,
        wait_after(failures + 1) == if 2 * wait_after(failures) <= 30 {
            2 * wait_after(failures)
        } else {
            30
        },
{
    reveal_with_fuel(wait_after, 2);
}

/// Whether an event has a meaning in a phase.
pub open spec fn belongs(phase: Phase, event: TunnelEvent) -> bool {
    match phase {
        Phase::Monitor { .. } => event is Checked || event is Exited,
        Phase::Reconnect { .. } => event is Spawned || event is SpawnFailed,
    }
}

/// What is done goes with how the phase changes: a tunnel that was watched and is given up
/// is set up again, and nobody can reach the session meanwhile; a new tunnel is watched from
/// its first check on, and its address is told; a failed try is followed by another one
/// after the wait, and the next wait is that after one more failure. A good check clears the
/// failures before it. What does not belong to the phase changes nothing.
pub proof fn tunnel_actions_go_with_phases(m: TunnelManager, event: TunnelEvent)
    ensures
        ({
            let next = next_phase(m.phase, event);
            let done = m.action(event);
            &&& !belongs(m.phase, event) ==> next == m.phase && done is Nothing
            &&& m.phase is Monitor && next is Reconnect <==> done is Reconnect
            &&& done is Reconnect ==> done == TunnelStep::Reconnect(Reach::Reconnecting) && next
                == (Phase::Reconnect { backoff: 1 })
            &&& m.phase is Monitor && event is Exited ==> done is Reconnect
            &&& m.phase is Monitor && event == TunnelEvent::Checked(true) ==> done is Nothing
                && next == (Phase::Monitor { failures: 0 })
            &&& m.phase is Reconnect && next is Monitor <==> done is Watch
            &&& done is Watch ==> next == (Phase::Monitor { failures: 0 })
            &&& m.phase is Reconnect && event is Spawned ==> done is Watch
            &&& m.phase matches Phase::Reconnect { backoff } ==> (event is SpawnFailed ==> {
                &&& done == TunnelStep::RetryAfter(backoff)
                &&& next matches Phase::Reconnect { backoff: more } && more == if 2 * backoff <= 30 {
                    2 * backoff
                } else {
                    30
                }
            })
            &&& done is RetryAfter <==> m.phase is Reconnect && event is SpawnFailed
        }),
{
}

proof fn lemma_no_scheme(s: Seq<char>, scheme: Seq<char>)
    requires
        forall|i: int| 0 <= i < s.len() && #[trigger] s[i] == ':' ==> exists|j: int|
            0 <= j < i && #[trigger] s[j] == '.',
        scheme == "https://"@ || scheme == "http://"@,
    ensures
        text::strip_all(s, scheme) == s,
{
    reveal_strlit("https://");
    reveal_strlit("http://");
    if scheme.is_prefix_of(s) {
        let colon = scheme.len() - 3;
        assert(s[colon] == scheme[colon]);
        let j = choose|j: int| 0 <= j < colon && #[trigger] s[j] == '.';
        assert(s[j] == scheme[j]);
        assert(false);
    }
}

/// The name of a tunnel is what stands before the first dot of its address, with either
/// scheme before it or none, and whatever stands behind it.
pub proof fn slug_stands_before_the_first_dot(name: Seq<char>, rest: Seq<char>)
    requires
        !name.contains('.'),
        !name.contains(':'),
    ensures
        slug(name + seq!['.'] + rest) == name,
        slug("https://"@ + (name + seq!['.'] + rest)) == name,
        slug("http://"@ + (name + seq!['.'] + rest)) == name,
{
    reveal_strlit("https://");
    reveal_strlit("http://");
    let https = "https://"@;
    let http = "http://"@;
    let host = name + seq!['.'] + rest;
    assert forall|i: int| 0 <= i < host.len() && #[trigger] host[i] == ':' implies exists|j: int|
        0 <= j < i && #[trigger] host[j] == '.' by {
        if i < name.len() {
            assert(name[i] == ':');
        } else {
            assert(host[name.len() as int] == '.');
        }
    }
    lemma_no_scheme(host, https);
    lemma_no_scheme(host, http);
    text::prefixes_are_taken_one_by_one(https, host);
    text::prefixes_are_taken_one_by_one(http, host);
    assert((http + host)[4] == ':');
    if https.is_prefix_of(http + host) {
        assert((http + host)[4] == https[4]);
        assert(false);
    }
    text::prefixes_are_taken_one_by_one(https, http + host);
    text::lemma_one_field(name, '.');
    text::lemma_fields_concat(name, '.', rest);
}

/// A session is reached under the base address, behind a slash and by the name of its
/// tunnel.
pub proof fn session_is_reached_by_the_name_of_the_tunnel(m: TunnelManager, label: Seq<char>)
    requires
        is_label(label),
    ensures
        m.reach(tunnel_address(label)) == (Reach::Connected {
            full_url: m.base_url@ + "/"@ + label,
            display_url: m.display_base_url@ + "/"@ + label,
        }),
{
    slug_is_the_name_of_the_tunnel(label);
}

/// The address of a tunnel is found in a line, whatever stands before and behind it, unless
/// it goes on behind the address or the address is that of the service; then the line gives
/// no address.
#[verifier::rlimit(50)]
#[verifier::spinoff_prover]
pub proof fn address_is_found_in_a_line(
    a: Seq<char>,
    label: Seq<char>,
    b: Seq<char>,
    found: Option<Seq<char>>,
)
    requires
        is_label(label),
        b.len() > 0 ==> b[0] != '/' && !is_alphanumeric(b[0]),
        forall|k: int|
            0 <= k < a.len() ==> !#[trigger] text::occurs_at(
                a + tunnel_address(label) + b,
                "https://"@,
                k,
            ),
        text::trimmed(a + tunnel_address(label) + b) == a + tunnel_address(label) + b,
        is_line_address(a + tunnel_address(label) + b, found),
    ensures
        label != "api"@ ==> found == Some(tunnel_address(label)),
        label == "api"@ ==> found is None,
{
    reveal_strlit("https://");
    reveal_strlit(".trycloudflare.com");
    reveal_strlit("https://api.");
    reveal_strlit("api");
    let address = tunnel_address(label);
    let line = a + address + b;
    let n = a.len() as int;
    assert(line.subrange(n, n + address.len()) =~= address);
    assert(address_at(line, n, label)) by {
        if b.len() > 0 {
            assert(line[n + address.len()] == b[0]);
        }
    }
    assert forall|k: int, other: Seq<char>| k < n implies !#[trigger] address_at(
        line,
        k,
        other,
    ) by {
        if address_at(line, k, other) {
            let x = tunnel_address(other);
            assert(line.subrange(k, k + x.len()) == x);
            assert(x.take(8) =~= "https://"@);
            assert(line.subrange(k, k + 8) =~= x.take(8));
            assert(text::occurs_at(line, "https://"@, k));
        }
    }
    assert(is_first_address(line, Some(address)));
    let api = "https://api."@;
    if is_api(address) {
        assert(address.take(12) =~= api);
        assert(address[8] == 'a' && address[9] == 'p' && address[10] == 'i' && address[11] == '.')
            by {
            assert(address.take(12)[8] == api[8]);
            assert(address.take(12)[9] == api[9]);
            assert(address.take(12)[10] == api[10]);
            assert(address.take(12)[11] == api[11]);
        }
        if label.len() > 3 {
            assert(label[3] == address[11]);
            assert(false);
        }
        if label.len() < 3 {
            assert(address[label.len() as int + 8] == '.');
            assert(false);
        }
        assert(label[0] == address[8] && label[1] == address[9] && label[2] == address[10]);
        assert(label =~= "api"@);
    }
    if label == "api"@ {
        assert(address.take(12) =~= api);
        assert(api.is_prefix_of(address));
    }
    match found {
        Some(url) => {
            first_address_is_unique(line, Some(address), found);
        },
        None => {
            if is_first_address(line, None) {
                assert(!address_at(line, n, label));
            } else {
                let url = choose|url: Seq<char>|
                    is_api(url) && #[trigger] is_first_address(text::trimmed(line), Some(url));
                first_address_is_unique(line, Some(address), Some(url));
            }
        },
    }
}

/// A line tells of trouble wherever one of the words for it stands, in whatever case.
pub proof fn trouble_is_seen_in_any_case(a: Seq<char>, word: Seq<char>, b: Seq<char>)
    requires
        text::trimmed(a + word + b) == a + word + b,
        text::lowered(word) == "err"@ || text::lowered(word) == "failed"@ || text::lowered(word)
            == "unavailable"@ || text::lowered(word) == "refused"@,
    ensures
        is_trouble(a + word + b),
{
    let l = text::lowered(a + word + b);
    let n = a.len() as int;
    assert(l.subrange(n, n + word.len()) =~= text::lowered(word));
    assert(text::occurs_at(l, text::lowered(word), n));
}

/// A line without any of the words does not tell of trouble.
pub proof fn trouble_needs_a_word(line: Seq<char>)
    requires
        is_trouble(line),
    ensures
        ({
            let t = text::trimmed(line);
            exists|i: int, j: int|
                {
                    &&& 0 <= i <= j <= t.len()
                    &&& {
                        let word = text::lowered(#[trigger] t.subrange(i, j));
                        word == "err"@ || word == "failed"@ || word == "unavailable"@ || word
                            == "refused"@
                    }
                }
        }),
{
    let t = text::trimmed(line);
    let l = text::lowered(t);
    let word = if text::occurs(l, "err"@) {
        "err"@
    } else if text::occurs(l, "failed"@) {
        "failed"@
    } else if text::occurs(l, "unavailable"@) {
        "unavailable"@
    } else {
        "refused"@
    };
    let at = choose|at: int| #[trigger] text::occurs_at(l, word, at);
    let part = t.subrange(at, at + word.len());
    assert(text::lowered(part) =~= l.subrange(at, at + word.len()));
}

/// The tunnel leads to the port on the machine itself: the address that it is given ends
/// in the port.
pub proof fn tunnel_leads_to_the_port(port: u16)
    ensures
        ({
            let args = tunnel_args(port);
            &&& args.len() == 3
            &&& args[0] == "tunnel"@ && args[1] == "--url"@
            &&& args[2].take(17) == "http://127.0.0.1:"@
            &&& text::unsigned(args[2].skip(17), 65535) == Some(port as nat)
        }),
{
    reveal_strlit("http://127.0.0.1:");
    let digits = text::decimal(port as nat);
    let url = "http://127.0.0.1:"@ + digits;
    text::lemma_decimal_field(port as nat);
    assert(url.take(17) =~= "http://127.0.0.1:"@);
    assert(url.skip(17) =~= digits);
}

/// No two pictures are the same, and one after the other comes up.
pub proof fn pictures_follow_each_other(i: int, j: int)
    requires
        0 <= i < spinner().len(),
        0 <= j < spinner().len(),
    ensures
        spinner().len() == 10,
        waiting_text(i) == waiting_text(j) ==> i == j,
        waiting_text(i).len() == 4 + " Creating tunnel..."@.len(),
        waiting_text(i)[0] == '\r',
        waiting_text(i)[3] == spinner()[i],
{
    reveal_strlit("\r  ");
    assert(waiting_text(i)[3] == spinner()[i]);
    assert(waiting_text(j)[3] == spinner()[j]);
}

/// Why `cloudflared` could not be started stands at the end of what the user is told, and a
/// missing address at its end names the time that was waited.
pub proof fn user_is_told_why(why: String)
    ensures
        why@.is_suffix_of(error_text(TunnelError::NotStarted(why))),
        "30s"@.is_suffix_of(error_text(TunnelError::TimedOut)),
        error_text(TunnelError::NoOutput) != error_text(TunnelError::Exited),
{
    reveal_strlit("30s");
    reveal_strlit("s");
    reveal_strlit("Failed to capture cloudflared stderr");
    reveal_strlit("cloudflared exited without providing a tunnel URL");
    let t = error_text(TunnelError::NotStarted(why));
    assert(t.subrange(t.len() - why@.len(), t.len() as int) =~= why@);
    let d = text::decimal(30);
    assert(d =~= seq!['3', '0']) by {
        reveal_with_fuel(text::decimal, 3);
    }
    let u = error_text(TunnelError::TimedOut);
    assert(u.subrange(u.len() - 3, u.len() as int) =~= "30s"@);
    assert(error_text(TunnelError::NoOutput)[0] != error_text(TunnelError::Exited)[0]);
}

} // verus!
