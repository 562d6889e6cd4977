//! TCP flow table. The guest's TCP ends at the gateway, and a host connection
//! is dialed in parallel. Once both are up, the flow is a plain byte splice,
//! and the guest's receive window gives backpressure for free when the host
//! stops taking bytes.
use vstd::prelude::*;
use crate::net::gateway::udp::{same_ends, same_key, FlowKey};

verus! {

pub const MAX_FLOWS: usize = 128;

/// Milliseconds a host connection may take.
pub const CONNECT_TIMEOUT: u64 = 10_000;

/// Milliseconds after which a flow that never left its handshake is reaped.
pub const CONNECT_REAP: u64 = 30_000;

/// Bytes each of a socket's buffers holds.
pub const SOCKET_BUF: usize = 65_536;

/// Bytes read from the host at a time.
pub const READ_CHUNK: usize = 4_096;

/// The host's side of a flow.
#[derive(Clone, Copy, Debug, PartialEq, Eq, Structural)]
pub enum HostState {
    /// Still dialing; guest bytes pile up in the socket's buffer.
    Connecting,
    Up {
        /// The guest side has left the handshake. Until then a socket looks
        /// half-closed, so the guest's end of stream must wait for this: a
        /// host that answers before the guest's handshake would otherwise be
        /// shut down in the middle of it.
        established: bool,
        /// The host has ended its stream.
        read_eof: bool,
        /// The guest's end of stream was passed on.
        wrote_shutdown: bool,
    },
    /// The host's side failed or was torn down.
    Gone,
}

/// A connection of the guest's.
#[derive(Clone, Copy, Debug)]
pub struct TcpFlow {
    pub id: u64,
    pub key: FlowKey,
    pub host: HostState,
    pub opened: u64,
}

/// What is seen of a flow's guest side.
#[derive(Clone, Copy, Debug, PartialEq, Eq, Structural)]
pub struct Seen {
    /// Listening, or in the middle of the handshake.
    pub handshaking: bool,
    /// Bytes from the guest are waiting.
    pub can_recv: bool,
    /// More bytes from the guest may come.
    pub may_recv: bool,
    /// Bytes for the guest are taken.
    pub can_send: bool,
    /// How many of them.
    pub room: usize,
}

/// What a flow needs done next.
#[derive(Clone, Copy, Debug, PartialEq, Eq, Structural)]
pub enum PumpAction {
    /// Write waiting guest bytes to the host.
    WriteToHost,
    /// End the stream to the host.
    ShutdownHost,
    /// Read at most this many bytes from the host.
    ReadFromHost { want: usize },
    /// End the stream to the guest.
    CloseGuest,
    /// Reset the guest's connection.
    AbortGuest,
    /// Nothing more this time.
    Rest,
}

/// How a write to the host went.
#[derive(Clone, Copy, Debug, PartialEq, Eq, Structural)]
pub enum WriteOutcome {
    Moved { n: usize },
    WouldBlock,
    Failed,
    /// The guest's side gave nothing after all.
    NothingThere,
}

/// How a read from the host went.
#[derive(Clone, Copy, Debug, PartialEq, Eq, Structural)]
pub enum ReadOutcome {
    Data,
    EndOfStream,
    WouldBlock,
    Failed,
}

/// How far one pass over a flow has come.
#[derive(Clone, Copy, Debug, PartialEq, Eq, Structural)]
pub enum PumpPhase {
    ToHost,
    HalfClose,
    ToGuest,
    Done,
}

/// One pass over a flow that is up.
#[derive(Clone, Copy, Debug, PartialEq, Eq, Structural)]
pub struct Pump {
    pub established: bool,
    pub read_eof: bool,
    pub wrote_shutdown: bool,
    pub phase: PumpPhase,
    pub broken: bool,
}

impl Pump {
    /// The state the flow is left in.
    pub open spec fn leaves(self) -> HostState {
        if self.broken {
            HostState::Gone
        } else {
            HostState::Up {
                established: self.established,
                read_eof: self.read_eof,
                wrote_shutdown: self.wrote_shutdown,
            }
        }
    }

    pub fn host_state(&self) -> (r: HostState)
        ensures
            r == self.leaves(),
    {
        if self.broken {
            HostState::Gone
        } else {
            HostState::Up {
                established: self.established,
                read_eof: self.read_eof,
                wrote_shutdown: self.wrote_shutdown,
            }
        }
    }

    /// Whether a pass over a flow can begin: only one that is up is pumped.
    pub fn begin(host: HostState, seen: &Seen) -> (r: Option<Pump>)
        ensures
            r == (match host {
                HostState::Up { established, read_eof, wrote_shutdown } => Some(
                    Pump {
                        established: established || !seen.handshaking,
                        read_eof,
                        wrote_shutdown,
                        phase: PumpPhase::ToHost,
                        broken: false,
                    },
                ),
                _ => None,
            }),
    {
        match host {
            HostState::Up { established, read_eof, wrote_shutdown } => Some(
                Pump {
                    established: established || !seen.handshaking,
                    read_eof,
                    wrote_shutdown,
                    phase: PumpPhase::ToHost,
                    broken: false,
                },
            ),
            _ => None,
        }
    }

    /// The guest has ended its stream, and all of it has reached the host.
    pub open spec fn half_closes(self, seen: Seen) -> bool {
        self.established && !self.wrote_shutdown && !seen.may_recv && !seen.can_recv
    }

    /// The host may be read, and the guest has room for what comes.
    pub open spec fn reads(self, seen: Seen) -> bool {
        !self.read_eof && seen.can_send && seen.room > 0
    }

    /// What one look at the flow decides, and where the pass goes on.
    pub open spec fn decides(self, seen: Seen) -> (PumpAction, Pump) {
        if self.broken || self.phase == PumpPhase::Done {
            (PumpAction::Rest, self)
        } else if self.phase == PumpPhase::ToHost && seen.can_recv {
            (PumpAction::WriteToHost, self)
        } else if self.phase != PumpPhase::ToGuest && self.half_closes(seen) {
            (
                PumpAction::ShutdownHost,
                Pump { wrote_shutdown: true, phase: PumpPhase::ToGuest, ..self },
            )
        } else if self.reads(seen) {
            (
                PumpAction::ReadFromHost {
                    want: if seen.room < READ_CHUNK {
                        seen.room
                    } else {
                        READ_CHUNK
                    },
                },
                Pump { phase: PumpPhase::ToGuest, ..self },
            )
        } else {
            (PumpAction::Rest, Pump { phase: PumpPhase::Done, ..self })
        }
    }

    /// Guest bytes go to the host first, then the guest's end of stream, and
    /// then host bytes to the guest.
    pub fn next(&mut self, seen: &Seen) -> (r: PumpAction)
        ensures
            (r, *final(self)) == old(self).decides(*seen),
    {
        if self.broken || matches!(self.phase, PumpPhase::Done) {
            return PumpAction::Rest;
        }
        if matches!(self.phase, PumpPhase::ToHost) && seen.can_recv {
            return PumpAction::WriteToHost;
        }
        if !matches!(self.phase, PumpPhase::ToGuest) && self.established && !self.wrote_shutdown
            && !seen.may_recv && !seen.can_recv {
            self.wrote_shutdown = true;
            self.phase = PumpPhase::ToGuest;
            return PumpAction::ShutdownHost;
        }
        if !self.read_eof && seen.can_send && seen.room > 0 {
            self.phase = PumpPhase::ToGuest;
            let want: usize = if seen.room < READ_CHUNK {
                seen.room
            } else {
                READ_CHUNK
            };
            return PumpAction::ReadFromHost { want };
        }
        self.phase = PumpPhase::Done;
        PumpAction::Rest
    }

    /// A write to the host is over. Bytes that were not taken stay in the
    /// socket's buffer and close the guest's window.
    pub fn wrote(&mut self, outcome: WriteOutcome) -> (r: PumpAction)
        requires
            old(self).phase == PumpPhase::ToHost,
            !old(self).broken,
        ensures
            match outcome {
                WriteOutcome::Failed => r == PumpAction::AbortGuest && *final(self) == (Pump {
                    broken: true,
                    ..*old(self)
                }),
                WriteOutcome::Moved { n } => r == PumpAction::Rest && *final(self) == (if n == 0 {
                    Pump { phase: PumpPhase::HalfClose, ..*old(self) }
                } else {
                    *old(self)
                }),
                _ => r == PumpAction::Rest && *final(self) == (Pump {
                    phase: PumpPhase::HalfClose,
                    ..*old(self)
                }),
            },
    {
        match outcome {
            WriteOutcome::Failed => {
                self.broken = true;
                PumpAction::AbortGuest
            },
            WriteOutcome::Moved { n } => {
                if n == 0 {
                    self.phase = PumpPhase::HalfClose;
                }
                PumpAction::Rest
            },
            WriteOutcome::WouldBlock => {
                self.phase = PumpPhase::HalfClose;
                PumpAction::Rest
            },
            WriteOutcome::NothingThere => {
                self.phase = PumpPhase::HalfClose;
                PumpAction::Rest
            },
        }
    }

    /// A read from the host is over.
    pub fn read(&mut self, outcome: ReadOutcome) -> (r: PumpAction)
        requires
            old(self).phase == PumpPhase::ToGuest,
            !old(self).broken,
        ensures
            match outcome {
                ReadOutcome::Data => r == PumpAction::Rest && *final(self) == *old(self),
                ReadOutcome::EndOfStream => r == PumpAction::CloseGuest && *final(self) == (Pump {
                    read_eof: true,
                    ..*old(self)
                }),
                ReadOutcome::WouldBlock => r == PumpAction::Rest && *final(self) == (Pump {
                    phase: PumpPhase::Done,
                    ..*old(self)
                }),
                ReadOutcome::Failed => r == PumpAction::AbortGuest && *final(self) == (Pump {
                    broken: true,
                    ..*old(self)
                }),
            },
    {
        match outcome {
            ReadOutcome::Data => PumpAction::Rest,
            ReadOutcome::EndOfStream => {
                self.read_eof = true;
                PumpAction::CloseGuest
            },
            ReadOutcome::WouldBlock => {
                self.phase = PumpPhase::Done;
                PumpAction::Rest
            },
            ReadOutcome::Failed => {
                self.broken = true;
                PumpAction::AbortGuest
            },
        }
    }
}

/// Each end of stream is passed on once: after the guest's has been, no pass
/// passes it on again, and after the host's has been read, nothing more is
/// read.
pub proof fn law_streams_end_once(pump: Pump, seen: Seen)
    ensures
        pump.wrote_shutdown ==> !(pump.decides(seen).0 is ShutdownHost),
        pump.read_eof ==> !(pump.decides(seen).0 is ReadFromHost),
        pump.decides(seen).0 is ShutdownHost ==> pump.decides(seen).1.wrote_shutdown,
        pump.wrote_shutdown ==> pump.decides(seen).1.wrote_shutdown,
        pump.read_eof ==> pump.decides(seen).1.read_eof,
{
}

/// A host that answers in the middle of the guest's handshake is not shut
/// down: the guest's end of stream is passed on only once its side has been
/// seen out of the handshake.
pub proof fn law_no_shutdown_in_the_handshake(host: HostState, seen: Seen)
    requires
        host matches HostState::Up { established, .. } && !established,
        seen.handshaking,
    ensures
        ({
            let pump = Pump {
                established: false,
                read_eof: host->read_eof,
                wrote_shutdown: host->wrote_shutdown,
                phase: PumpPhase::ToHost,
                broken: false,
            };
            forall|later: Seen|
                #![trigger pump.decides(later)]
                !(pump.decides(later).0 is ShutdownHost) && !pump.decides(later).1.established
        }),
{
}

/// A read never asks for more than the guest has room for.
pub proof fn law_reads_fit(pump: Pump, seen: Seen)
    ensures
        pump.decides(seen).0 matches PumpAction::ReadFromHost { want } ==> 0 < want <= seen.room
            && want <= READ_CHUNK,
{
}

/// What is seen of a flow's socket when finished flows are reaped.
#[derive(Clone, Copy, Debug, PartialEq, Eq, Structural)]
pub enum SocketState {
    Closed,
    Handshaking,
    Open,
}

/// A finished flow, or one whose guest never got past the handshake: a first
/// segment that was dropped would otherwise leave its flow there forever.
pub open spec fn reaped(flow: TcpFlow, state: SocketState, now: u64) -> bool {
    state == SocketState::Closed || (state == SocketState::Handshaking && now - flow.opened
        > CONNECT_REAP)
}

/// Flows that go on, in order.
pub open spec fn surviving(flows: Seq<TcpFlow>, states: Seq<SocketState>, now: u64) -> Seq<TcpFlow>
    decreases flows.len(),
{
    if flows.len() == 0 {
        flows
    } else {
        let rest = surviving(flows.drop_last(), states, now);
        if reaped(flows.last(), states[flows.len() - 1], now) {
            rest
        } else {
            rest.push(flows.last())
        }
    }
}

/// No two flows share their ends or their number.
pub open spec fn separate(flows: Seq<TcpFlow>) -> bool {
    forall|i: int, j: int|
        0 <= i < j < flows.len() ==> !same_ends(
            (#[trigger] flows[i]).key,
            (#[trigger] flows[j]).key,
        ) && flows[i].id != flows[j].id
}

proof fn lemma_surviving(flows: Seq<TcpFlow>, states: Seq<SocketState>, now: u64)
    ensures
        surviving(flows, states, now).len() <= flows.len(),
        forall|i: int|
            #![trigger surviving(flows, states, now)[i]]
            0 <= i < surviving(flows, states, now).len() ==> exists|j: int|
                0 <= j < flows.len() && #[trigger] flows[j] == surviving(flows, states, now)[i],
        separate(flows) ==> separate(surviving(flows, states, now)),
    decreases flows.len(),
{
    if flows.len() > 0 {
        let early = flows.drop_last();
        lemma_surviving(early, states, now);
        let rest = surviving(early, states, now);
        let kept = surviving(flows, states, now);
        assert forall|i: int| #![trigger kept[i]] 0 <= i < kept.len() implies exists|j: int|
            0 <= j < flows.len() && #[trigger] flows[j] == kept[i] by {
            if i < rest.len() {
                assert(kept[i] == rest[i]);
                let j = choose|j: int| 0 <= j < early.len() && #[trigger] early[j] == rest[i];
                assert(flows[j] == kept[i]);
            } else {
                assert(flows[flows.len() - 1] == kept[i]);
            }
        }
        if separate(flows) {
            assert(separate(early)) by {
                assert forall|i: int, j: int| 0 <= i < j < early.len() implies !same_ends(
                    (#[trigger] early[i]).key,
                    (#[trigger] early[j]).key,
                ) && early[i].id != early[j].id by {
                    assert(flows[i] == early[i] && flows[j] == early[j]);
                }
            }
            assert forall|i: int, j: int| 0 <= i < j < kept.len() implies !same_ends(
                (#[trigger] kept[i]).key,
                (#[trigger] kept[j]).key,
            ) && kept[i].id != kept[j].id by {
                assert(kept[i] == rest[i]);
                let a = choose|a: int| 0 <= a < early.len() && #[trigger] early[a] == rest[i];
                if j < rest.len() {
                    assert(kept[j] == rest[j]);
                } else {
                    assert(flows[a] == kept[i]);
                    assert(flows[flows.len() - 1] == kept[j]);
                }
            }
        }
    }
}

/// The guest's TCP connections.
pub struct TcpNat {
    pub flows: Vec<TcpFlow>,
    pub next_id: u64,
}

impl TcpNat {
    pub open spec fn wf(self) -> bool {
        &&& self.flows@.len() <= MAX_FLOWS
        &&& separate(self.flows@)
        &&& forall|i: int|
            0 <= i < self.flows@.len() ==> (#[trigger] self.flows@[i]).id < self.next_id
    }

    /// Whether some flow has these ends.
    pub open spec fn knows(self, key: FlowKey) -> bool {
        exists|i: int| 0 <= i < self.flows@.len() && same_ends((#[trigger] self.flows@[i]).key, key)
    }

    /// The place of a flow; the number of flows where it is gone.
    pub open spec fn place(self, id: u64) -> int {
        if exists|i: int| 0 <= i < self.flows@.len() && (#[trigger] self.flows@[i]).id == id {
            choose|i: int| 0 <= i < self.flows@.len() && (#[trigger] self.flows@[i]).id == id
        } else {
            self.flows@.len() as int
        }
    }

    pub fn new() -> (r: TcpNat)
        ensures
            r.wf(),
            r.flows@.len() == 0,
            r.next_id == 0,
    {
        TcpNat { flows: Vec::new(), next_id: 0 }
    }

    /// Whether a segment opens a flow: a first segment, for ends that have no
    /// flow yet, while there is room. A repeated first segment finds its flow
    /// already opening, and one past the limit is dropped: the guest gets a
    /// connect timeout.
    pub fn wants_flow(&self, key: &FlowKey, syn: bool, ack: bool) -> (r: bool)
        requires
            self.wf(),
        ensures
            r == (syn && !ack && !self.knows(*key) && self.flows@.len() < 128),
    {
        if !syn || ack {
            return false;
        }
        let mut i: usize = 0;
        while i < self.flows.len()
            invariant
                self.wf(),
                i <= self.flows@.len(),
                forall|j: int| 0 <= j < i ==> !same_ends((#[trigger] self.flows@[j]).key, *key),
            decreases self.flows@.len() - i,
        {
            if same_key(&self.flows[i].key, key) {
                assert(same_ends(self.flows@[i as int].key, *key));
                return false;
            }
            i += 1;
        }
        self.flows.len() < MAX_FLOWS
    }

    /// The number of the flow about to be dialed. Numbers are never used
    /// again, even where the dialing cannot be started.
    pub fn take_id(&mut self) -> (r: u64)
        requires
            old(self).wf(),
            old(self).next_id < u64::MAX,
        ensures
            final(self).wf(),
            r == old(self).next_id,
            final(self).next_id == old(self).next_id + 1,
            final(self).flows == old(self).flows,
    {
        let id: u64 = self.next_id;
        self.next_id = id + 1;
        id
    }

    /// A flow is being dialed.
    pub fn dialing(&mut self, id: u64, key: FlowKey, now: u64)
        requires
            old(self).wf(),
            old(self).flows@.len() < MAX_FLOWS,
            !old(self).knows(key),
            id < old(self).next_id,
            old(self).place(id) == old(self).flows@.len(),
        ensures
            final(self).wf(),
            final(self).next_id == old(self).next_id,
            final(self).flows@ == old(self).flows@.push(
                TcpFlow { id, key, host: HostState::Connecting, opened: now },
            ),
    {
        let ghost before = *self;
        proof {
            assert forall|i: int| 0 <= i < before.flows@.len() implies (
            #[trigger] before.flows@[i]).id != id by {
                if before.flows@[i].id == id {
                    let j = before.place(id);
                    assert(0 <= j < before.flows@.len());
                }
            }
        }
        self.flows.push(TcpFlow { id, key, host: HostState::Connecting, opened: now });
    }

    /// Dialing is over. Where it failed, the guest's connection is reset.
    /// Where the flow is gone already, a success is just dropped.
    pub fn dialed(&mut self, id: u64, connected: bool) -> (r: PumpAction)
        requires
            old(self).wf(),
        ensures
            final(self).wf(),
            final(self).next_id == old(self).next_id,
            ({
                let i = old(self).place(id);
                if i == old(self).flows@.len() {
                    r == PumpAction::Rest && *final(self) == *old(self)
                } else {
                    &&& r == (if connected {
                        PumpAction::Rest
                    } else {
                        PumpAction::AbortGuest
                    })
                    &&& final(self).flows@ == old(self).flows@.update(
                        i,
                        TcpFlow {
                            host: if connected {
                                HostState::Up {
                                    established: false,
                                    read_eof: false,
                                    wrote_shutdown: false,
                                }
                            } else {
                                HostState::Gone
                            },
                            ..old(self).flows@[i]
                        },
                    )
                }
            }),
    {
        let i: usize = self.find(id);
        if i == self.flows.len() {
            return PumpAction::Rest;
        }
        if connected {
            self.leave(
                i,
                HostState::Up { established: false, read_eof: false, wrote_shutdown: false },
            );
            PumpAction::Rest
        } else {
            self.leave(i, HostState::Gone);
            PumpAction::AbortGuest
        }
    }

    fn find(&self, id: u64) -> (r: usize)
        requires
            self.wf(),
        ensures
            r == self.place(id),
            r <= self.flows@.len(),
    {
        let mut i: usize = 0;
        while i < self.flows.len()
            invariant
                self.wf(),
                i <= self.flows@.len(),
                forall|j: int| 0 <= j < i ==> (#[trigger] self.flows@[j]).id != id,
            decreases self.flows@.len() - i,
        {
            if self.flows[i].id == id {
                assert(self.flows@[i as int].id == id);
                return i;
            }
            i += 1;
        }
        i
    }

    /// Leave a flow in this state.
    pub fn leave(&mut self, index: usize, host: HostState)
        requires
            old(self).wf(),
            index < old(self).flows@.len(),
        ensures
            final(self).wf(),
            final(self).next_id == old(self).next_id,
            final(self).flows@ == old(self).flows@.update(
                index as int,
                TcpFlow { host, ..old(self).flows@[index as int] },
            ),
    {
        let ghost before = self.flows@;
        let mut flow = self.flows[index];
        flow.host = host;
        self.flows.set(index, flow);
        proof {
            assert forall|a: int, b: int| 0 <= a < b < self.flows@.len() implies !same_ends(
                (#[trigger] self.flows@[a]).key,
                (#[trigger] self.flows@[b]).key,
            ) && self.flows@[a].id != self.flows@[b].id by {
                assert(before[a].id == self.flows@[a].id && before[b].id == self.flows@[b].id);
            }
            assert forall|a: int| 0 <= a < self.flows@.len() implies (#[trigger] self.flows@[a]).id
                < self.next_id by {
                assert(before[a].id < self.next_id);
            }
        }
    }

    /// Drop the finished flows, given each one's socket.
    pub fn reap(&mut self, states: &[SocketState], now: u64)
        requires
            old(self).wf(),
            states@.len() == old(self).flows@.len(),
        ensures
            final(self).wf(),
            final(self).next_id == old(self).next_id,
            final(self).flows@ == surviving(old(self).flows@, states@, now),
    {
        let ghost before = *self;
        let mut kept: Vec<TcpFlow> = Vec::new();
        let mut i: usize = 0;
        while i < self.flows.len()
            invariant
                *self == before,
                states@.len() == before.flows@.len(),
                i <= before.flows@.len(),
                kept@ == surviving(before.flows@.take(i as int), states@, now),
            decreases before.flows@.len() - i,
        {
            assert(before.flows@.take(i + 1).drop_last() =~= before.flows@.take(i as int));
            let flow = self.flows[i];
            let over: bool = matches!(states[i], SocketState::Closed) || (matches!(
                states[i],
                SocketState::Handshaking
            ) && now.saturating_sub(flow.opened) > CONNECT_REAP);
            if !over {
                kept.push(flow);
            }
            i += 1;
        }
        assert(before.flows@.take(i as int) =~= before.flows@);
        proof {
            lemma_surviving(before.flows@, states@, now);
            assert forall|i: int| 0 <= i < kept@.len() implies (#[trigger] kept@[i]).id
                < before.next_id by {
                let j = choose|j: int|
                    0 <= j < before.flows@.len() && #[trigger] before.flows@[j] == surviving(
                        before.flows@,
                        states@,
                        now,
                    )[i];
            }
        }
        self.flows = kept;
    }
}

} // verus!
