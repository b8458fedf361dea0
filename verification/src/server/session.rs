//! A persistent server-side session: a replay ring buffer, the session's key,
//! and the state machine that lets exactly one TCP connection be "active" at a
//! time while surviving detach/reconnect.

use std::collections::VecDeque;
use vstd::prelude::*;
use vstd::string::*;

use crate::proto::frame::MAX_OUTPUT_BYTES;
use crate::random::random_bytes;

use super::admission::{proves, Authenticated, Proven};
use super::registry::{keyed, Registry};

verus! {

/// What the thread that owns a session's PTY is told to do.
pub enum PtyMsg {
    Input(Vec<u8>),
    Resize { cols: u16, rows: u16 },
}

/// What a ring buffer holds: the bytes that are left, and the absolute offset
/// of the first of them.
#[verifier::ext_equal]
pub struct RingState {
    pub start: nat,
    pub data: Seq<u8>,
    pub cap: nat,
}

impl RingState {
    pub open spec fn wf(self) -> bool {
        self.data.len() <= self.cap
    }

    /// How many bytes were ever appended.
    pub open spec fn total(self) -> nat {
        self.start + self.data.len()
    }

    /// The buffer after more output: only the newest bytes stay.
    pub open spec fn appended(self, bytes: Seq<u8>) -> RingState {
        let all = self.data + bytes;
        let evicted = if all.len() > self.cap {
            (all.len() - self.cap) as nat
        } else {
            0
        };
        RingState { start: self.start + evicted, data: all.skip(evicted as int), cap: self.cap }
    }

    /// Where a read at `offset` really starts.
    pub open spec fn read_start(self, offset: nat) -> nat {
        if offset >= self.total() {
            self.total()
        } else if offset < self.start {
            self.start
        } else {
            offset
        }
    }

    /// The bytes that a read at `offset` gives: at most one chunk.
    pub open spec fn read_data(self, offset: nat) -> Seq<u8> {
        let rest = self.data.skip(self.read_start(offset) - self.start);
        if rest.len() > MAX_OUTPUT_BYTES {
            rest.take(MAX_OUTPUT_BYTES as int)
        } else {
            rest
        }
    }

    /// Whether this is what is left of the output `history`.
    pub open spec fn holds(self, history: Seq<u8>) -> bool {
        &&& self.total() == history.len()
        &&& self.data == history.skip(self.start as int)
    }

    /// Everything that reading chunk after chunk from `offset` gives.
    pub open spec fn drained(self, offset: nat) -> Seq<u8>
        decreases self.total() - offset,
    {
        let from = self.read_start(offset);
        let chunk = self.read_data(offset);
        if offset < self.total() && chunk.len() > 0 {
            chunk + self.drained(from + chunk.len())
        } else {
            Seq::empty()
        }
    }
}

/// Ring buffer of recent PTY output, indexed by absolute output byte offset.
pub struct RingBuf {
    data: VecDeque<u8>,
    start: u64,
    cap: usize,
}

impl View for RingBuf {
    type V = RingState;

    closed spec fn view(&self) -> RingState {
        RingState { start: self.start as nat, data: self.data@, cap: self.cap as nat }
    }
}

impl RingBuf {
    #[verifier::type_invariant]
    spec fn wf(self) -> bool {
        &&& self.data@.len() <= self.cap
        &&& self.start + self.data@.len() <= u64::MAX
    }

    pub fn new(cap: usize) -> (r: Self)
        ensures
            r@ == (RingState { start: 0, data: Seq::empty(), cap: cap as nat }),
    {
        RingBuf { data: VecDeque::new(), start: 0, cap }
    }

    pub fn total(&self) -> (r: u64)
        ensures
            r == self@.total(),
            self@.wf(),
    {
        proof {
            use_type_invariant(self);
        }
        self.start + self.data.len() as u64
    }

    /// Add output, evicting the oldest bytes beyond the capacity.
    pub fn append(&mut self, bytes: &[u8])
        requires
            old(self)@.total() + bytes@.len() <= u64::MAX,
        ensures
            final(self)@ == old(self)@.appended(bytes@),
            final(self)@.wf(),
    {
        proof {
            use_type_invariant(&*self);
        }
        let ghost before = self@;
        let cap: usize = self.cap;
        let mut start: u64 = self.start;
        let mut data: VecDeque<u8> = VecDeque::new();
        std::mem::swap(&mut data, &mut self.data);
        let mut i: usize = 0;
        proof {
            assert(bytes@.take(0) =~= Seq::<u8>::empty());
            assert(before.appended(bytes@.take(0)) =~= before);
        }
        while i < bytes.len()
            invariant
                i <= bytes@.len(),
                before.wf(),
                before.cap == cap,
                before.total() + bytes@.len() <= u64::MAX,
                data@.len() <= cap,
                start + data@.len() == before.total() + i,
                (RingState { start: start as nat, data: data@, cap: cap as nat })
                    == before.appended(bytes@.take(i as int)),
            decreases bytes@.len() - i,
        {
            let ghost now = before.appended(bytes@.take(i as int));
            proof {
                law_appends_add_up(before, bytes@.take(i as int), seq![bytes@[i as int]]);
                assert(bytes@.take(i as int) + seq![bytes@[i as int]] =~= bytes@.take(i + 1));
            }
            data.push_back(bytes[i]);
            if data.len() > cap {
                data.pop_front();
                start = start + 1;
            }
            i = i + 1;
            proof {
                let next = now.appended(seq![bytes@[i - 1]]);
                assert(data@ =~= next.data);
                assert(next.start == start);
            }
        }
        assert(bytes@.take(i as int) =~= bytes@);
        self.start = 0;
        self.data = data;
        self.start = start;
    }

    /// A bounded chunk at/after `offset`; returns (actual_start, bytes).
    /// The actual start can exceed the requested offset after eviction, even
    /// when an empty buffer retains no bytes at all.
    pub fn read_from(&self, offset: u64) -> (r: (u64, Vec<u8>))
        ensures
            r.0 == self@.read_start(offset as nat),
            r.1@ == self@.read_data(offset as nat),
            r.0 + r.1@.len() <= self@.total() <= u64::MAX,
    {
        proof {
            use_type_invariant(self);
        }
        let total = self.total();
        let mut out: Vec<u8> = Vec::new();
        if offset >= total {
            assert(out@ =~= self@.read_data(offset as nat));
            return (total, out);
        }
        let from: u64 = if offset < self.start {
            self.start
        } else {
            offset
        };
        let idx: usize = (from - self.start) as usize;
        let end: usize = if self.data.len() - idx > MAX_OUTPUT_BYTES {
            idx + MAX_OUTPUT_BYTES
        } else {
            self.data.len()
        };
        let mut i: usize = idx;
        while i < end
            invariant
                idx <= i <= end <= self.data@.len(),
                out@ =~= self.data@.subrange(idx as int, i as int),
            decreases end - i,
        {
            out.push(self.data[i]);
            i = i + 1;
        }
        assert(out@ =~= self@.read_data(offset as nat));
        (from, out)
    }
}

/// Output that comes in pieces leaves the buffer as if it had come at once.
pub proof fn law_appends_add_up(r: RingState, a: Seq<u8>, b: Seq<u8>)
    requires
        r.wf(),
    ensures
        r.appended(a).appended(b) == r.appended(a + b),
        r.appended(a).wf(),
{
    let all = r.data + a + b;
    assert(r.data + (a + b) =~= all);
    assert(r.appended(a).appended(b).data =~= r.appended(a + b).data);
}

/// The buffer always holds the tail of everything the session ever wrote, each
/// byte at its absolute offset; eviction only ever moves its start forward, and
/// no further than the capacity demands.
pub proof fn law_buffer_holds_the_newest_output(r: RingState, history: Seq<u8>, bytes: Seq<u8>)
    requires
        r.wf(),
        r.holds(history),
    ensures
        r.appended(bytes).holds(history + bytes),
        r.appended(bytes).wf(),
        r.start <= r.appended(bytes).start,
        r.appended(bytes).start > r.start ==> r.appended(bytes).data.len() == r.cap,
{
    let n = r.appended(bytes);
    assert(n.data =~= (history + bytes).skip(n.start as int));
}

/// A read gives the session's own output at the offset it names: nothing is
/// repeated, nothing invented, and only evicted bytes are passed over.
pub proof fn law_read_gives_the_output_at_its_offset(r: RingState, history: Seq<u8>, offset: nat)
    requires
        r.wf(),
        r.holds(history),
    ensures
        ({
            let from = r.read_start(offset);
            let chunk = r.read_data(offset);
            &&& chunk == history.subrange(from as int, (from + chunk.len()) as int)
            &&& chunk.len() <= MAX_OUTPUT_BYTES
            &&& from + chunk.len() <= history.len()
            &&& r.start <= offset <= history.len() ==> from == offset
            &&& offset < r.start ==> from == r.start
            &&& (chunk.len() == 0 <==> from == history.len())
        }),
{
    let from = r.read_start(offset);
    let chunk = r.read_data(offset);
    assert(chunk =~= history.subrange(from as int, (from + chunk.len()) as int));
}

/// A reader that has everything stays caught up: it is given nothing again.
pub proof fn law_caught_up_reader_gets_nothing(r: RingState)
    requires
        r.wf(),
    ensures
        r.read_start(r.total()) == r.total(),
        r.read_data(r.total()) == Seq::<u8>::empty(),
{
    assert(r.read_data(r.total()) =~= Seq::<u8>::empty());
}

/// Reading chunk after chunk gives all output from the offset on that is still
/// held, once.
pub proof fn law_draining_gives_everything_once(r: RingState, history: Seq<u8>, offset: nat)
    requires
        r.wf(),
        r.holds(history),
    ensures
        r.drained(offset) == history.skip(r.read_start(offset) as int),
    decreases r.total() - offset,
{
    law_read_gives_the_output_at_its_offset(r, history, offset);
    let from = r.read_start(offset);
    let chunk = r.read_data(offset);
    if offset < r.total() && chunk.len() > 0 {
        law_draining_gives_everything_once(r, history, from + chunk.len());
        assert(r.read_start(from + chunk.len()) == from + chunk.len());
        assert(history.skip(from as int) =~= chunk + history.skip((from + chunk.len()) as int));
    } else {
        assert(history.skip(from as int) =~= Seq::<u8>::empty());
    }
}

/// A session as it stands.
#[verifier::ext_equal]
pub struct SessionState {
    pub id: Seq<char>,
    pub started: u64,
    pub cmd: Seq<char>,
    pub ring: RingState,
    pub ended: bool,
    pub psk: Seq<u8>,
    pub epoch: u64,
    pub connected: bool,
}

impl SessionState {
    /// A session that has just started: nothing written, nobody connected.
    pub open spec fn fresh(
        id: Seq<char>,
        cmd: Seq<char>,
        started: u64,
        ring_bytes: nat,
        psk: Seq<u8>,
    ) -> SessionState {
        SessionState {
            id,
            started,
            cmd,
            ring: RingState { start: 0, data: Seq::empty(), cap: ring_bytes },
            ended: false,
            psk,
            epoch: 0,
            connected: false,
        }
    }

    /// Whether a connection is using the session.
    pub open spec fn busy(self) -> bool {
        self.connected && !self.ended
    }

    /// The session once a new connection has taken it over.
    pub open spec fn activated(self) -> SessionState {
        SessionState { epoch: (self.epoch + 1) as u64, connected: true, ..self }
    }

    /// The session once the connection of `epoch` is gone.
    pub open spec fn left(self, epoch: u64) -> SessionState {
        if self.epoch == epoch {
            SessionState { connected: false, ..self }
        } else {
            self
        }
    }

    /// The session under another key.
    pub open spec fn rekeyed(self, psk: Seq<u8>) -> SessionState {
        SessionState { psk, ..self }
    }

    /// The session after more output.
    pub open spec fn with_output(self, bytes: Seq<u8>) -> SessionState {
        SessionState { ring: self.ring.appended(bytes), ..self }
    }

    /// The session after its shell has exited.
    pub open spec fn over(self) -> SessionState {
        SessionState { ended: true, ..self }
    }

    /// How a listing describes the session.
    pub open spec fn status(self) -> Seq<char> {
        if self.busy() {
            "attached"@
        } else {
            "detached"@
        }
    }
}

/// One session: what it is, what it wrote, its key, and which connection is
/// current.
pub struct SessionShared {
    id: String,
    started: u64,
    cmd: String,
    ring: RingBuf,
    ended: bool,
    psk: [u8; 32],
    /// Incremented each time a TCP connection becomes active; a connection is
    /// current iff its captured epoch still matches.
    active_epoch: u64,
    /// Whether a connection currently believes itself active (busy flag).
    connected: bool,
}

impl View for SessionShared {
    type V = SessionState;

    closed spec fn view(&self) -> SessionState {
        SessionState {
            id: self.id@,
            started: self.started,
            cmd: self.cmd@,
            ring: self.ring@,
            ended: self.ended,
            psk: self.psk@,
            epoch: self.active_epoch,
            connected: self.connected,
        }
    }
}

/// The seconds that a clock before or after the epoch comes to.
pub open spec fn seconds_of(since_epoch: Option<u64>) -> u64 {
    match since_epoch {
        Some(s) => s,
        None => 0,
    }
}

/// Seconds since the epoch that a session records as its start; a clock before
/// the epoch counts as zero.
pub fn now_secs(since_epoch: Option<u64>) -> (r: u64)
    ensures
        r == seconds_of(since_epoch),
{
    match since_epoch {
        Some(s) => s,
        None => 0,
    }
}

/// What a variable says, or what goes without it.
pub open spec fn set_or(value: Option<String>, default: Seq<char>) -> Seq<char> {
    match value {
        Some(s) => s@,
        None => default,
    }
}

/// The shell that a session runs: `$SHELL`, where it is set.
pub fn shell_or_default(shell: Option<String>) -> (r: String)
    ensures
        r@ == set_or(shell, "/bin/sh"@),
{
    match shell {
        Some(s) => s,
        None => "/bin/sh".to_owned(),
    }
}

/// The terminal that a session's shell is told it has: `$TERM`, where it is
/// set.
pub fn term_or_default(term: Option<String>) -> (r: String)
    ensures
        r@ == set_or(term, "xterm-256color"@),
{
    match term {
        Some(t) => t,
        None => "xterm-256color".to_owned(),
    }
}

/// A fresh session key.
pub fn random_psk() -> (r: [u8; 32]) {
    random_bytes()
}

impl SessionShared {
    /// A session that has just started.
    pub fn new(id: String, shell: &str, started: u64, ring_bytes: usize, psk: [u8; 32]) -> (r: Self)
        ensures
            r@ == SessionState::fresh(id@, shell@, started, ring_bytes as nat, psk@),
    {
        SessionShared {
            id,
            started,
            cmd: shell.to_owned(),
            ring: RingBuf::new(ring_bytes),
            ended: false,
            psk,
            active_epoch: 0,
            connected: false,
        }
    }

    pub fn id(&self) -> (r: &str)
        ensures
            r@ == self@.id,
    {
        self.id.as_str()
    }

    /// Unix seconds when the session started.
    pub fn started(&self) -> (r: u64)
        ensures
            r == self@.started,
    {
        self.started
    }

    /// The shell that the session runs.
    pub fn cmd(&self) -> (r: &str)
        ensures
            r@ == self@.cmd,
    {
        self.cmd.as_str()
    }

    pub fn current_total(&self) -> (r: u64)
        ensures
            r == self@.ring.total(),
            self@.ring.wf(),
    {
        self.ring.total()
    }

    pub fn read_from(&self, offset: u64) -> (r: (u64, Vec<u8>))
        ensures
            r.0 == self@.ring.read_start(offset as nat),
            r.1@ == self@.ring.read_data(offset as nat),
            r.0 + r.1@.len() <= self@.ring.total() <= u64::MAX,
    {
        self.ring.read_from(offset)
    }

    /// Buffer what the shell wrote.
    pub fn append(&mut self, bytes: &[u8])
        requires
            old(self)@.ring.total() + bytes@.len() <= u64::MAX,
        ensures
            final(self)@ == old(self)@.with_output(bytes@),
            final(self)@.ring.wf(),
    {
        self.ring.append(bytes);
    }

    pub fn current_psk(&self) -> (r: [u8; 32])
        ensures
            r@ == self@.psk,
    {
        self.psk
    }

    /// Replace the key; connections that know only the old one can no longer
    /// be opened.
    pub fn set_psk(&mut self, psk: [u8; 32])
        ensures
            final(self)@ == old(self)@.rekeyed(psk@),
    {
        self.psk = psk;
    }

    /// Replace the key by a fresh one, and hand it out.
    pub fn rotate_psk(&mut self) -> (r: [u8; 32])
        ensures
            final(self)@ == old(self)@.rekeyed(r@),
    {
        let new = random_psk();
        self.set_psk(new);
        new
    }

    pub fn is_ended(&self) -> (r: bool)
        ensures
            r == self@.ended,
    {
        self.ended
    }

    pub fn is_busy(&self) -> (r: bool)
        ensures
            r == self@.busy(),
    {
        self.connected && !self.is_ended()
    }

    pub fn status_str(&self) -> (r: String)
        ensures
            r@ == self@.status(),
    {
        if self.is_busy() {
            "attached".to_owned()
        } else {
            "detached".to_owned()
        }
    }

    /// Take over as the active connection, superseding any prior one. Only a
    /// peer that has proved that it knows the session's key can.
    pub fn become_active(&mut self, peer: Authenticated) -> (r: u64)
        requires
            old(self)@.epoch < u64::MAX,
            peer@.peer.id == old(self)@.id,
        ensures
            r == old(self)@.epoch + 1,
            final(self)@ == old(self)@.activated(),
            proves(peer@.peer, peer@.first),
    {
        // Asking the peer anything shows that it is proven.
        peer.offset();
        self.active_epoch = self.active_epoch + 1;
        self.connected = true;
        self.active_epoch
    }

    /// How many connections have been active so far.
    pub fn epoch(&self) -> (r: u64)
        ensures
            r == self@.epoch,
    {
        self.active_epoch
    }

    pub fn is_current(&self, epoch: u64) -> (r: bool)
        ensures
            r == (self@.epoch == epoch),
    {
        self.active_epoch == epoch
    }

    /// Called when a connection ends; clears the busy flag only if it was the
    /// current one (so a blip-takeover doesn't get its flag cleared by the old
    /// connection tearing down).
    pub fn leave(&mut self, epoch: u64)
        ensures
            final(self)@ == old(self)@.left(epoch),
    {
        if self.is_current(epoch) {
            self.connected = false;
        }
    }

    /// The message that hands input to the PTY.
    pub fn send_input(&self, bytes: Vec<u8>) -> (r: PtyMsg)
        ensures
            r == PtyMsg::Input(bytes),
    {
        PtyMsg::Input(bytes)
    }

    /// The message that resizes the PTY.
    pub fn resize(&self, cols: u16, rows: u16) -> (r: PtyMsg)
        ensures
            r == (PtyMsg::Resize { cols, rows }),
    {
        PtyMsg::Resize { cols, rows }
    }

    /// Record that the shell has exited. The answer tells whether this is news.
    pub fn mark_ended(&mut self) -> (r: bool)
        ensures
            r == !old(self)@.ended,
            final(self)@ == old(self)@.over(),
    {
        let news = !self.ended;
        self.ended = true;
        news
    }
}

/// Register a session whose shell has been started, under a key of its own,
/// which is handed out.
pub fn spawn_session(
    id: String,
    shell: &str,
    started: u64,
    ring_bytes: usize,
    registry: &mut Registry,
) -> (r: [u8; 32])
    ensures
        final(registry)@ == old(registry)@.insert(
            id@,
            SessionState::fresh(id@, shell@, started, ring_bytes as nat, r@),
        ),
        keyed(final(registry)@),
{
    let psk = random_psk();
    registry.insert(SessionShared::new(id, shell, started, ring_bytes, psk));
    psk
}

/// What can happen to a session.
pub enum SessionEvent {
    /// A peer asks to become the active connection.
    Activate(Proven),
    Leave(u64),
    Rekey(Seq<u8>),
    Output(Seq<u8>),
    End,
}

/// A session after one event. A peer of another session is not activated, nor
/// one that can no longer be numbered.
pub open spec fn session_after(s: SessionState, e: SessionEvent) -> SessionState {
    match e {
        SessionEvent::Activate(p) => if p.peer.id == s.id && s.epoch < u64::MAX {
            s.activated()
        } else {
            s
        },
        SessionEvent::Leave(epoch) => s.left(epoch),
        SessionEvent::Rekey(psk) => s.rekeyed(psk),
        SessionEvent::Output(bytes) => s.with_output(bytes),
        SessionEvent::End => s.over(),
    }
}

/// A session after a series of events.
pub open spec fn session_after_all(s: SessionState, es: Seq<SessionEvent>) -> SessionState
    decreases es.len(),
{
    if es.len() == 0 {
        s
    } else {
        session_after(session_after_all(s, es.drop_last()), es.last())
    }
}

/// Whether the event at `i` is a peer of the session `id` that has proved that
/// it knows the key.
pub open spec fn proven_at(id: Seq<char>, es: Seq<SessionEvent>, i: int) -> bool {
    &&& 0 <= i < es.len()
    &&& es[i] matches SessionEvent::Activate(p)
    &&& p.peer.id == id
    &&& proves(p.peer, p.first)
}

/// A session's epoch rises, and the session becomes busy, only for a peer whose
/// first record opened to a hello under the session's key and the nonces of
/// both sides.
pub proof fn law_only_a_proven_peer_becomes_active(s: SessionState, es: Seq<SessionEvent>)
    requires
        forall|i: int|
            0 <= i < es.len() ==> (#[trigger] es[i] matches SessionEvent::Activate(p) ==> proves(
                p.peer,
                p.first,
            )),
    ensures
        session_after_all(s, es).id == s.id,
        session_after_all(s, es).epoch >= s.epoch,
        session_after_all(s, es).epoch > s.epoch ==> exists|i: int| proven_at(s.id, es, i),
        session_after_all(s, es).connected && !s.connected ==> exists|i: int|
            proven_at(s.id, es, i),
    decreases es.len(),
{
    if es.len() > 0 {
        let before = es.drop_last();
        assert forall|i: int| 0 <= i < before.len() implies (
        #[trigger] before[i] matches SessionEvent::Activate(p) ==> proves(p.peer, p.first)) by {
            assert(before[i] == es[i]);
        }
        law_only_a_proven_peer_becomes_active(s, before);
        if exists|i: int| proven_at(s.id, before, i) {
            let i = choose|i: int| proven_at(s.id, before, i);
            assert(proven_at(s.id, es, i));
        }
        let n = es.len() - 1;
        assert(es.last() == es[n]);
        if es[n] is Activate && es[n]->Activate_0.peer.id == s.id {
            assert(proven_at(s.id, es, n));
        }
    }
}

/// A connection that has been superseded never becomes current again, and its
/// leaving does not touch the connection that superseded it.
pub proof fn law_superseded_connection_stays_superseded(s: SessionState, es: Seq<SessionEvent>)
    ensures
        s.epoch <= session_after_all(s, es).epoch,
        forall|old: u64|
            old < s.epoch ==> session_after_all(s, es).epoch != old && #[trigger] session_after_all(
                s,
                es,
            ).left(old) == session_after_all(s, es),
    decreases es.len(),
{
    if es.len() > 0 {
        law_superseded_connection_stays_superseded(s, es.drop_last());
    }
}

/// While the newest connection has not left, the session stays busy, whatever
/// older connections do: the busy flag belongs to the newest.
pub proof fn law_busy_until_the_newest_leaves(s: SessionState, es: Seq<SessionEvent>)
    requires
        s.epoch < u64::MAX,
        !s.ended,
        forall|i: int| 0 <= i < es.len() ==> #[trigger] es[i] !is End,
        forall|i: int|
            0 <= i < es.len() ==> (#[trigger] es[i] matches SessionEvent::Leave(e) ==> e
                <= s.epoch),
    ensures
        session_after_all(s.activated(), es).busy(),
    decreases es.len(),
{
    if es.len() > 0 {
        let before = es.drop_last();
        assert forall|i: int| 0 <= i < before.len() implies #[trigger] before[i] !is End by {
            assert(before[i] == es[i]);
        }
        assert forall|i: int| 0 <= i < before.len() implies (
        #[trigger] before[i] matches SessionEvent::Leave(e) ==> e <= s.epoch) by {
            assert(before[i] == es[i]);
        }
        law_busy_until_the_newest_leaves(s, before);
        law_superseded_connection_stays_superseded(s.activated(), before);
        assert(es.last() == es[es.len() - 1]);
    }
}

/// Once the newest connection leaves, the session is free again.
pub proof fn law_free_once_the_newest_leaves(s: SessionState)
    ensures
        !s.left(s.epoch).busy(),
        s.left(s.epoch).psk == s.psk,
        s.left(s.epoch).ring == s.ring,
{
}

/// Nothing but output moves a session's output, nothing but a new key its key,
/// and an ended session stays ended.
pub proof fn law_events_touch_only_their_own(s: SessionState, e: SessionEvent)
    ensures
        e !is Output ==> session_after(s, e).ring == s.ring,
        e !is Rekey ==> session_after(s, e).psk == s.psk,
        s.ended ==> session_after(s, e).ended,
        session_after(s, e).id == s.id,
        session_after(s, e).started == s.started,
        session_after(s, e).cmd == s.cmd,
{
}

} // verus!
