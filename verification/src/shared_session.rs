//! The session that all clients share: what it replays to a new client, who is
//! attached, and how large the terminal is.

use std::collections::HashMap;

use vstd::prelude::*;
use vstd::slice::*;
use vstd::std_specs::hash::*;

use crate::text;

verus! {

broadcast use group_hash_axioms;

/// How many bytes of output a new client gets to see.
pub const REPLAY_BUFFER_SIZE: usize = 65536;

// ---- Replay ----

/// The last `n` elements of `s`, or all of them where there are fewer.
pub open spec fn last_of<T>(s: Seq<T>, n: nat) -> Seq<T> {
    if s.len() <= n {
        s
    } else {
        s.skip(s.len() - n)
    }
}

/// The end of the output so far, in a ring.
pub struct ReplayBuffer {
    buf: Vec<u8>,
    write_pos: usize,
    full: bool,
}

impl View for ReplayBuffer {
    type V = Seq<u8>;

    /// The kept output, oldest byte first.
    closed spec fn view(&self) -> Seq<u8> {
        if self.full {
            self.buf@.skip(self.write_pos as int) + self.buf@.take(self.write_pos as int)
        } else {
            self.buf@.take(self.write_pos as int)
        }
    }
}

/// Overwrites `buf` from `at` on with `src[from..to]`.
fn copy_into(buf: &mut Vec<u8>, at: usize, src: &[u8], from: usize, to: usize)
    requires
        from <= to <= src@.len(),
        at + (to - from) <= old(buf)@.len(),
    ensures
        final(buf)@ == old(buf)@.take(at as int) + src@.subrange(from as int, to as int)
            + old(buf)@.skip(at + (to - from)),
{
    let n: usize = to - from;
    let mut i: usize = 0;
    assert(buf@ =~= old(buf)@.take(at as int) + src@.subrange(from as int, from as int)
        + old(buf)@.skip(at as int));
    while i < n
        invariant
            n == to - from,
            from <= to <= src@.len(),
            at + n <= old(buf)@.len(),
            i <= n,
            buf@.len() == old(buf)@.len(),
            buf@ == old(buf)@.take(at as int) + src@.subrange(from as int, from + i)
                + old(buf)@.skip(at + i),
        decreases n - i,
    {
        assert(at + i < buf.len());
        buf[at + i] = src[from + i];
        i = i + 1;
        assert(buf@ =~= old(buf)@.take(at as int) + src@.subrange(from as int, from + i)
            + old(buf)@.skip(at + i));
    }
}

impl ReplayBuffer {
    pub closed spec fn wf(&self) -> bool {
        self.buf@.len() == REPLAY_BUFFER_SIZE && self.write_pos < REPLAY_BUFFER_SIZE
    }

    /// A buffer that holds nothing yet.
    pub fn new() -> (r: Self)
        ensures
            r.wf(),
            r@ == Seq::<u8>::empty(),
    {
        let r = ReplayBuffer { buf: vec![0u8; REPLAY_BUFFER_SIZE], write_pos: 0, full: false };
        assert(r@ =~= Seq::<u8>::empty());
        r
    }

    /// Adds output; what no longer fits is forgotten from the front.
    pub fn append(&mut self, data: &[u8])
        requires
            old(self).wf(),
        ensures
            final(self).wf(),
            final(self)@ == last_of(old(self)@ + data@, REPLAY_BUFFER_SIZE as nat),
    {
        if data.len() == 0 {
            assert(self@ + data@ =~= self@);
            return;
        }
        if data.len() >= REPLAY_BUFFER_SIZE {
            let start: usize = data.len() - REPLAY_BUFFER_SIZE;
            copy_into(&mut self.buf, 0, data, start, data.len());
            self.write_pos = 0;
            self.full = true;
            assert(self@ =~= last_of(old(self)@ + data@, REPLAY_BUFFER_SIZE as nat));
            return;
        }
        let remaining: usize = REPLAY_BUFFER_SIZE - self.write_pos;
        if data.len() <= remaining {
            copy_into(&mut self.buf, self.write_pos, data, 0, data.len());
            self.write_pos = self.write_pos + data.len();
            if self.write_pos == REPLAY_BUFFER_SIZE {
                self.write_pos = 0;
                self.full = true;
            }
            assert(self@ =~= last_of(old(self)@ + data@, REPLAY_BUFFER_SIZE as nat));
        } else {
            let leftover: usize = data.len() - remaining;
            copy_into(&mut self.buf, self.write_pos, data, 0, remaining);
            copy_into(&mut self.buf, 0, data, remaining, data.len());
            self.write_pos = leftover;
            self.full = true;
            assert(self@ =~= last_of(old(self)@ + data@, REPLAY_BUFFER_SIZE as nat));
        }
    }

    /// The kept output, oldest byte first.
    pub fn snapshot(&self) -> (r: Vec<u8>)
        requires
            self.wf(),
        ensures
            r@ == self@,
            r@.len() <= REPLAY_BUFFER_SIZE,
    {
        let all = self.buf.as_slice();
        if self.full {
            let mut out = slice_to_vec(slice_subrange(all, self.write_pos, REPLAY_BUFFER_SIZE));
            out.extend_from_slice(slice_subrange(all, 0, self.write_pos));
            assert(out@ =~= self@);
            out
        } else {
            slice_to_vec(slice_subrange(all, 0, self.write_pos))
        }
    }
}

/// What a buffer holds that was given the chunks one after the other.
pub open spec fn replayed(chunks: Seq<Seq<u8>>) -> Seq<u8>
    decreases chunks.len(),
{
    if chunks.len() == 0 {
        Seq::empty()
    } else {
        last_of(replayed(chunks.drop_last()) + chunks.last(), REPLAY_BUFFER_SIZE as nat)
    }
}

/// All output, in order.
pub open spec fn concatenated(chunks: Seq<Seq<u8>>) -> Seq<u8>
    decreases chunks.len(),
{
    if chunks.len() == 0 {
        Seq::empty()
    } else {
        concatenated(chunks.drop_last()) + chunks.last()
    }
}

/// However the output was cut into chunks, a new client is sent its last
/// `REPLAY_BUFFER_SIZE` bytes, or all of it where it is shorter.
pub proof fn replay_is_the_end_of_the_output(chunks: Seq<Seq<u8>>)
    ensures
        replayed(chunks) == last_of(concatenated(chunks), REPLAY_BUFFER_SIZE as nat),
    decreases chunks.len(),
{
    if chunks.len() > 0 {
        let n = REPLAY_BUFFER_SIZE as nat;
        replay_is_the_end_of_the_output(chunks.drop_last());
        let a = concatenated(chunks.drop_last());
        let b = chunks.last();
        assert(last_of(last_of(a, n) + b, n) =~= last_of(a + b, n));
    } else {
        assert(last_of(concatenated(chunks), REPLAY_BUFFER_SIZE as nat) =~= Seq::<u8>::empty());
    }
}

proof fn lemma_concatenated_parts(chunks: Seq<Seq<u8>>, k: int)
    requires
        0 <= k <= chunks.len(),
    ensures
        concatenated(chunks) == concatenated(chunks.take(k)) + concatenated(chunks.skip(k)),
    decreases chunks.len() - k,
{
    if k == chunks.len() {
        assert(chunks.take(k) =~= chunks);
        assert(concatenated(chunks.skip(k)) =~= Seq::<u8>::empty());
        assert(concatenated(chunks) + Seq::<u8>::empty() =~= concatenated(chunks));
    } else {
        let front = chunks.drop_last();
        lemma_concatenated_parts(front, k);
        assert(front.take(k) =~= chunks.take(k));
        assert(front.skip(k) =~= chunks.skip(k).drop_last());
        assert(concatenated(chunks) =~= concatenated(chunks.take(k)) + concatenated(
            chunks.skip(k),
        ));
    }
}

/// A client that joins after `k` chunks of output, and is sent the replay and then
/// each further chunk, has the end of all output without a gap and without
/// anything twice: all of it where the buffer held all that came before.
pub proof fn joining_client_misses_nothing(chunks: Seq<Seq<u8>>, k: int)
    requires
        0 <= k <= chunks.len(),
    ensures
        ({
            let got = replayed(chunks.take(k)) + concatenated(chunks.skip(k));
            &&& got == last_of(concatenated(chunks), got.len())
            &&& concatenated(chunks.take(k)).len() <= REPLAY_BUFFER_SIZE ==> got == concatenated(
                chunks,
            )
        }),
{
    replay_is_the_end_of_the_output(chunks.take(k));
    lemma_concatenated_parts(chunks, k);
    let got = replayed(chunks.take(k)) + concatenated(chunks.skip(k));
    assert(got =~= last_of(concatenated(chunks), got.len()));
}

// ---- Clients ----

/// The size of one client's window.
#[derive(Clone, Copy, PartialEq, Eq, Structural, Debug)]
pub struct ClientInfo {
    pub cols: u16,
    pub rows: u16,
}

/// Who is attached to the session, and whether its terminal runs.
pub struct SharedSession {
    clients: HashMap<u64, ClientInfo>,
    next_client_id: u64,
    running: bool,
}

/// Whether `size` is the largest that fits into the window of every client:
/// it is no larger than any of them, and each of its sides is that of one.
pub open spec fn fits_all(clients: Map<u64, ClientInfo>, size: ClientInfo) -> bool {
    &&& forall|id: u64| #[trigger]
        clients.contains_key(id) ==> size.cols <= clients[id].cols && size.rows <= clients[id].rows
    &&& exists|id: u64| #[trigger] clients.contains_key(id) && clients[id].cols == size.cols
    &&& exists|id: u64| #[trigger] clients.contains_key(id) && clients[id].rows == size.rows
}

impl SharedSession {
    /// The attached clients by their number.
    pub closed spec fn clients(&self) -> Map<u64, ClientInfo> {
        self.clients@
    }

    /// The number that the next client gets.
    pub closed spec fn next_id(&self) -> u64 {
        self.next_client_id
    }

    /// Whether the terminal was started.
    pub closed spec fn running(&self) -> bool {
        self.running
    }

    /// Numbers are handed out in order, so the next one is no client's.
    pub open spec fn wf(&self) -> bool {
        &&& self.clients().dom().finite()
        &&& forall|id: u64| #[trigger] self.clients().contains_key(id) ==> id < self.next_id()
    }

    /// The size that the terminal takes now, where there is a reason to set it:
    /// `None` without a client or a terminal.
    pub open spec fn is_size(&self, size: Option<ClientInfo>) -> bool {
        match size {
            Some(s) => self.running() && fits_all(self.clients(), s),
            None => !self.running() || self.clients().dom() == Set::<u64>::empty(),
        }
    }

    /// A session without clients, whose terminal was not started.
    pub fn new() -> (r: Self)
        ensures
            r.wf(),
            r.clients() == Map::<u64, ClientInfo>::empty(),
            r.next_id() == 0,
            !r.running(),
    {
        SharedSession { clients: HashMap::new(), next_client_id: 0, running: false }
    }

    /// How many clients are attached.
    pub fn client_count(&self) -> (r: usize)
        ensures
            r == self.clients().dom().len(),
    {
        self.clients.len()
    }

    /// Whether the terminal has still to be started.
    pub fn needs_terminal(&self) -> (r: bool)
        ensures
            r == !self.running(),
    {
        !self.running
    }

    /// The terminal runs from now on.
    pub fn spawn(&mut self)
        ensures
            final(self).running(),
            final(self).clients() == old(self).clients(),
            final(self).next_id() == old(self).next_id(),
    {
        self.running = true;
    }

    /// The size that suits the smallest of the attached windows, where there is
    /// a terminal to give it to.
    pub fn recalc_size(&self) -> (r: Option<ClientInfo>)
        ensures
            self.is_size(r),
    {
        if self.clients.len() == 0 || !self.running {
            proof {
                if self.clients@.len() == 0 {
                    assert(self.clients@.dom() =~= Set::<u64>::empty());
                }
            }
            return None;
        }
        let ghost sizes = vstd::std_specs::iter::IteratorSpec::remaining(
            &spec_values_iter(&self.clients),
        ).unref();
        let mut cols: u16 = u16::MAX;
        let mut rows: u16 = u16::MAX;
        for c in it: self.clients.values()
            invariant
                it.seq().unref() == sizes,
                forall|k: int|
                    0 <= k < it.index() ==> cols <= (#[trigger] sizes[k]).cols && rows
                        <= sizes[k].rows,
                it.index() > 0 ==> exists|k: int|
                    0 <= k < it.index() && (#[trigger] sizes[k]).cols == cols,
                it.index() > 0 ==> exists|k: int|
                    0 <= k < it.index() && (#[trigger] sizes[k]).rows == rows,
                it.index() == 0 ==> cols == u16::MAX && rows == u16::MAX,
        {
            assert(*c == sizes[it.index() as int]);
            if c.cols < cols {
                cols = c.cols;
            }
            if c.rows < rows {
                rows = c.rows;
            }
        }
        proof {
            let clients = self.clients@;
            assert(sizes.len() > 0);
            assert forall|id: u64| #[trigger] clients.contains_key(id) implies cols
                <= clients[id].cols && rows <= clients[id].rows by {
                assert(clients.values().contains(clients[id]));
                assert(sizes.to_set().contains(clients[id]));
                let k = sizes.index_of(clients[id]);
                assert(sizes[k] == clients[id]);
            }
            let k = choose|k: int| 0 <= k < sizes.len() && (#[trigger] sizes[k]).cols == cols;
            assert(sizes.to_set().contains(sizes[k]));
            let id = choose|id: u64| #[trigger] clients.contains_key(id) && clients[id] == sizes[k];
            assert(clients.contains_key(id));
            let k = choose|k: int| 0 <= k < sizes.len() && (#[trigger] sizes[k]).rows == rows;
            assert(sizes.to_set().contains(sizes[k]));
            let id = choose|id: u64| #[trigger] clients.contains_key(id) && clients[id] == sizes[k];
            assert(clients.contains_key(id));
        }
        Some(ClientInfo { cols, rows })
    }

    /// Whether there is a number left for another client.
    pub fn can_attach(&self) -> (r: bool)
        ensures
            r == (self.next_id() < u64::MAX),
    {
        self.next_client_id < u64::MAX
    }

    /// Attaches a client with the given window. It gets a number that no client
    /// had before, and the size that the terminal is to take comes with it.
    pub fn attach(&mut self, cols: u16, rows: u16) -> (r: (u64, Option<ClientInfo>))
        requires
            old(self).wf(),
            old(self).next_id() < u64::MAX,
        ensures
            final(self).wf(),
            r.0 == old(self).next_id(),
            !old(self).clients().contains_key(r.0),
            final(self).next_id() == r.0 + 1,
            final(self).clients() == old(self).clients().insert(r.0, (ClientInfo { cols, rows })),
            final(self).running() == old(self).running(),
            final(self).is_size(r.1),
    {
        let id: u64 = self.next_client_id;
        self.next_client_id = id + 1;
        self.clients.insert(id, ClientInfo { cols, rows });
        let size = self.recalc_size();
        (id, size)
    }

    /// Takes a client out. Without it the terminal may grow.
    pub fn detach(&mut self, client_id: u64) -> (r: Option<ClientInfo>)
        requires
            old(self).wf(),
        ensures
            final(self).wf(),
            final(self).next_id() == old(self).next_id(),
            final(self).clients() == old(self).clients().remove(client_id),
            final(self).running() == old(self).running(),
            final(self).is_size(r),
    {
        self.clients.remove(&client_id);
        self.recalc_size()
    }

    /// A client's window has a new size. A number that is no client's changes
    /// nothing.
    pub fn resize(&mut self, client_id: u64, cols: u16, rows: u16) -> (r: Option<ClientInfo>)
        requires
            old(self).wf(),
        ensures
            final(self).wf(),
            final(self).next_id() == old(self).next_id(),
            final(self).clients() == (if old(self).clients().contains_key(client_id) {
                old(self).clients().insert(client_id, (ClientInfo { cols, rows }))
            } else {
                old(self).clients()
            }),
            final(self).running() == old(self).running(),
            final(self).is_size(r),
    {
        if self.clients.contains_key(&client_id) {
            self.clients.insert(client_id, ClientInfo { cols, rows });
        }
        self.recalc_size()
    }
}

/// There is at most one size that suits all clients.
pub proof fn size_is_unique(clients: Map<u64, ClientInfo>, a: ClientInfo, b: ClientInfo)
    requires
        fits_all(clients, a),
        fits_all(clients, b),
    ensures
        a == b,
{
}

/// A terminal never grows when a client joins.
pub proof fn joining_never_enlarges(
    clients: Map<u64, ClientInfo>,
    id: u64,
    window: ClientInfo,
    before: ClientInfo,
    after: ClientInfo,
)
    requires
        !clients.contains_key(id),
        fits_all(clients, before),
        fits_all(clients.insert(id, window), after),
    ensures
        after.cols <= before.cols,
        after.rows <= before.rows,
        after.cols <= window.cols,
        after.rows <= window.rows,
{
    let joined = clients.insert(id, window);
    let c = choose|c: u64| #[trigger] clients.contains_key(c) && clients[c].cols == before.cols;
    assert(joined.contains_key(c) && joined[c] == clients[c]);
    let c = choose|c: u64| #[trigger] clients.contains_key(c) && clients[c].rows == before.rows;
    assert(joined.contains_key(c) && joined[c] == clients[c]);
    assert(joined.contains_key(id));
}

/// A client that leaves again leaves no trace: the clients are the same as
/// before it came, and so is the size that suits them.
pub proof fn detach_undoes_attach(clients: Map<u64, ClientInfo>, id: u64, window: ClientInfo)
    requires
        !clients.contains_key(id),
    ensures
        clients.insert(id, window).remove(id) == clients,
{
    assert(clients.insert(id, window).remove(id) =~= clients);
}

/// A terminal never shrinks when a client leaves.
pub proof fn leaving_never_shrinks(
    clients: Map<u64, ClientInfo>,
    id: u64,
    before: ClientInfo,
    after: ClientInfo,
)
    requires
        clients.contains_key(id),
        fits_all(clients, before),
        fits_all(clients.remove(id), after),
    ensures
        before.cols <= after.cols,
        before.rows <= after.rows,
{
    let left = clients.remove(id);
    let c = choose|c: u64| #[trigger] left.contains_key(c) && left[c].cols == after.cols;
    assert(clients.contains_key(c) && clients[c] == left[c]);
    let c = choose|c: u64| #[trigger] left.contains_key(c) && left[c].rows == after.rows;
    assert(clients.contains_key(c) && clients[c] == left[c]);
}

/// The size of the terminal follows from who is attached: there is one where the terminal
/// runs and somebody is attached, and it is the smallest number of columns and the smallest
/// number of rows that a client has.
pub proof fn size_is_that_of_the_smallest(s: SharedSession, size: Option<ClientInfo>)
    requires
        s.is_size(size),
    ensures
        size is Some <==> s.running() && exists|id: u64| #[trigger] s.clients().contains_key(id),
        size matches Some(t) ==> forall|id: u64| #[trigger]
            s.clients().contains_key(id) ==> t.cols <= s.clients()[id].cols && t.rows
                <= s.clients()[id].rows,
        size matches Some(t) ==> exists|id: u64| #[trigger]
            s.clients().contains_key(id) && s.clients()[id].cols == t.cols,
        size matches Some(t) ==> exists|id: u64| #[trigger]
            s.clients().contains_key(id) && s.clients()[id].rows == t.rows,
{
    if size is None && s.running() {
        assert forall|id: u64| !#[trigger] s.clients().contains_key(id) by {
            assert(!s.clients().dom().contains(id));
        }
    }
}

/// What is kept of a text is its end: it is as long as the limit allows, and what comes
/// before it is what was forgotten.
pub proof fn kept_output_is_the_end<T>(s: Seq<T>, n: nat)
    ensures
        last_of(s, n).len() == (if s.len() < n {
            s.len()
        } else {
            n
        }),
        exists|forgotten: Seq<T>| s == #[trigger] (forgotten + last_of(s, n)),
{
    let forgotten = s.take(s.len() - last_of(s, n).len());
    assert(s =~= forgotten + last_of(s, n));
}

/// A new client is sent as many bytes as there were, but never more than 64 kilobytes, and
/// the last of them is the last of the output.
pub proof fn replay_has_a_limit(chunks: Seq<Seq<u8>>)
    ensures
        replayed(chunks).len() == if concatenated(chunks).len() < 64 * 1024 {
            concatenated(chunks).len()
        } else {
            64 * 1024
        },
        concatenated(chunks).len() > 0 ==> replayed(chunks).last() == concatenated(chunks).last(),
{
    replay_is_the_end_of_the_output(chunks);
}

/// The shell gets arguments where its path ends in `zsh`, and none otherwise.
pub proof fn only_zsh_gets_arguments(shell: Seq<char>)
    ensures
        shell_args(shell).len() > 0 <==> shell.len() >= 3 && shell[shell.len() - 3] == 'z'
            && shell[shell.len() - 2] == 's' && shell[shell.len() - 1] == 'h',
        shell_args(shell).len() > 0 ==> shell_args(shell) == seq!["-o"@, "nopromptsp"@],
{
    reveal_strlit("zsh");
    if shell.len() >= 3 {
        let end = shell.subrange(shell.len() - 3, shell.len() as int);
        assert(end.len() == 3);
        if shell[shell.len() - 3] == 'z' && shell[shell.len() - 2] == 's' && shell[shell.len() - 1]
            == 'h' {
            assert(end =~= "zsh"@);
        } else if "zsh"@.is_suffix_of(shell) {
            assert(end == "zsh"@);
            assert(end[0] == 'z' && end[1] == 's' && end[2] == 'h');
        }
    }
}

// ---- The shell ----

/// How the shell is started.
pub struct ShellCommand {
    pub program: String,
    pub args: Vec<String>,
    pub env: Vec<(String, String)>,
    pub cols: u16,
    pub rows: u16,
}

/// Zsh is told not to print its marker for a missing line end.
pub open spec fn shell_args(shell: Seq<char>) -> Seq<Seq<char>> {
    if "zsh"@.is_suffix_of(shell) {
        seq!["-o"@, "nopromptsp"@]
    } else {
        Seq::empty()
    }
}

/// The command that starts `shell` in a terminal of the given size.
pub fn shell_command(shell: &str, cols: u16, rows: u16) -> (r: ShellCommand)
    ensures
        r.program@ == shell@,
        text::texts(r.args@) == shell_args(shell@),
        r.env@.len() == 2,
        r.env@[0].0@ == "TERM"@,
        r.env@[0].1@ == "xterm-256color"@,
        r.env@[1].0@ == "REMUX_SESSION"@,
        r.env@[1].1@ == "1"@,
        r.cols == cols,
        r.rows == rows,
{
    let mut args: Vec<String> = Vec::new();
    if text::ends_with(shell, "zsh") {
        args.push("-o".to_string());
        args.push("nopromptsp".to_string());
    }
    assert(text::texts(args@) =~= shell_args(shell@));
    let mut env: Vec<(String, String)> = Vec::new();
    env.push(("TERM".to_string(), "xterm-256color".to_string()));
    env.push(("REMUX_SESSION".to_string(), "1".to_string()));
    ShellCommand { program: shell.to_string(), args, env, cols, rows }
}

} // verus!
