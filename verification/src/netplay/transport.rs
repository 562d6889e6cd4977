//! Nonblocking packet adapters. Reliability belongs to the shared protocol.
//!
//! A guest or spectator owns one connection to the host. The host owns a
//! listener instead, which sorts what arrives on its one socket into a slot
//! per admitted guest and spectator; the rollback timeline then treats each
//! of those as an ordinary point-to-point transport.
use std::collections::VecDeque;
use vstd::prelude::*;
use crate::bytes::{copy_range, same_bytes};
use crate::netplay::report::MAX_PACKET;
use crate::netplay::settings::{Endpoint, IpAddress};

verus! {

/// Packets a queue holds for a reader that has not come yet.
pub const QUEUE_LIMIT: usize = 64;

/// Why a transport failed.
#[derive(Clone, Copy, Debug, PartialEq, Eq, Structural)]
pub enum TransportError {
    /// A packet is longer than any a session exchanges.
    PacketTooLarge,
    /// The reader's buffer cannot hold the packet.
    BufferTooSmall,
    /// The host's network failed. The details stay with the transport.
    Io,
}

/// What passes between a session and a transport: whether it is ready, a
/// packet that arrived, one whose length does not fit, nothing to read, a packet
/// that was taken to be sent, one that was not, or a failure.
pub enum LinkEvent {
    Ready(bool),
    Packet(Seq<u8>),
    Overlong,
    Nothing,
    Sent(Seq<u8>),
    Refused(Seq<u8>),
    Failed(TransportError),
}

/// A point-to-point packet link that never blocks. Nothing is known of what it
/// does; what it is asked and what it answers is kept in its history. The
/// history grows with every call, so an implementation must be a value that
/// changes with every call: one that is no more than a handle, and stays the
/// same whatever it is asked, cannot meet that. One written in plain Rust leaves
/// the history to its default, which says nothing.
pub trait Transport: Sized {
    closed spec fn history(&self) -> Seq<LinkEvent> {
        arbitrary()
    }

    fn route(&self) -> (r: &'static str);

    /// Connection setup may continue off-thread while the cold machine waits.
    fn ready(&mut self) -> (r: Result<bool, TransportError>)
        ensures
            final(self).history() == old(self).history().push(
                match r {
                    Ok(ready) => LinkEvent::Ready(ready),
                    Err(e) => LinkEvent::Failed(e),
                },
            ),
    ;

    /// Read one complete packet without blocking. None means the queue is
    /// empty; a returned length must fit the supplied buffer. Some(0) means a
    /// packet was consumed and discarded (for example, a foreign source).
    fn receive(&mut self, buffer: &mut [u8]) -> (r: Result<Option<usize>, TransportError>)
        ensures
            final(buffer)@.len() == old(buffer)@.len(),
            final(self).history() == old(self).history().push(
                match r {
                    Ok(Some(len)) => if len <= final(buffer)@.len() {
                        LinkEvent::Packet(final(buffer)@.take(len as int))
                    } else {
                        LinkEvent::Overlong
                    },
                    Ok(None) => LinkEvent::Nothing,
                    Err(e) => LinkEvent::Failed(e),
                },
            ),
    ;

    /// False means the transport is temporarily unable to accept this packet.
    fn send(&mut self, packet: &[u8]) -> (r: Result<bool, TransportError>)
        ensures
            final(self).history() == old(self).history().push(
                match r {
                    Ok(taken) => if taken {
                        LinkEvent::Sent(packet@)
                    } else {
                        LinkEvent::Refused(packet@)
                    },
                    Err(e) => LinkEvent::Failed(e),
                },
            ),
    ;
}

/// The byte strings of a queue.
pub open spec fn packets(queue: Seq<Vec<u8>>) -> Seq<Seq<u8>> {
    queue.map_values(|p: Vec<u8>| p@)
}

/// A bounded queue after one more packet: full, it forgets its oldest.
pub open spec fn queued(queue: Seq<Seq<u8>>, packet: Seq<u8>) -> Seq<Seq<u8>> {
    if queue.len() >= 64 {
        queue.drop_first().push(packet)
    } else {
        queue.push(packet)
    }
}

fn enqueue(queue: &mut VecDeque<Vec<u8>>, packet: &[u8])
    requires
        old(queue)@.len() <= 64,
    ensures
        packets(final(queue)@) == queued(packets(old(queue)@), packet@),
        final(queue)@.len() <= 64,
{
    let ghost before = queue@;
    if queue.len() == 64 {
        queue.pop_front();
        assert(packets(queue@) =~= packets(before).drop_first());
    }
    let ghost middle = queue@;
    let copy = copy_range(packet, 0, packet.len());
    assert(copy@ =~= packet@);
    queue.push_back(copy);
    assert(packets(queue@) =~= packets(middle).push(packet@));
}

/// What can be asked of a packet queue.
pub enum QueueCall {
    Push(Seq<u8>),
    Pop,
    Ready,
    Receive,
    Send(Seq<u8>),
}

/// What a packet queue holds: the packets to be read, and those to be collected.
pub struct Queues {
    pub incoming: Seq<Seq<u8>>,
    pub outgoing: Seq<Seq<u8>>,
}

impl Queues {
    /// Whether a packet to send is taken.
    pub open spec fn takes(self, packet: Seq<u8>) -> bool {
        packet.len() <= 1160 && self.outgoing.len() < 64
    }

    /// What is held after a call.
    pub open spec fn called(self, call: QueueCall) -> Queues {
        match call {
            QueueCall::Push(packet) => if packet.len() <= 1160 {
                Queues { incoming: queued(self.incoming, packet), ..self }
            } else {
                self
            },
            QueueCall::Pop => if self.outgoing.len() > 0 {
                Queues { outgoing: self.outgoing.drop_first(), ..self }
            } else {
                self
            },
            QueueCall::Ready => self,
            QueueCall::Receive => if self.incoming.len() > 0 {
                Queues { incoming: self.incoming.drop_first(), ..self }
            } else {
                self
            },
            QueueCall::Send(packet) => if self.takes(packet) {
                Queues { outgoing: self.outgoing.push(packet), ..self }
            } else {
                self
            },
        }
    }

    /// What is held after some calls.
    pub open spec fn called_all(self, calls: Seq<QueueCall>) -> Queues
        decreases calls.len(),
    {
        if calls.len() == 0 {
            self
        } else {
            self.called_all(calls.drop_last()).called(calls.last())
        }
    }

    /// The packets that some calls give to be sent and that are taken, in order.
    pub open spec fn taken(self, calls: Seq<QueueCall>) -> Seq<Seq<u8>>
        decreases calls.len(),
    {
        if calls.len() == 0 {
            Seq::empty()
        } else {
            let before = self.called_all(calls.drop_last());
            match calls.last() {
                QueueCall::Send(packet) if before.takes(packet) => self.taken(
                    calls.drop_last(),
                ).push(packet),
                _ => self.taken(calls.drop_last()),
            }
        }
    }

    /// The packets that some calls collect, in order.
    pub open spec fn popped(self, calls: Seq<QueueCall>) -> Seq<Seq<u8>>
        decreases calls.len(),
    {
        if calls.len() == 0 {
            Seq::empty()
        } else {
            let before = self.called_all(calls.drop_last());
            if calls.last() is Pop && before.outgoing.len() > 0 {
                self.popped(calls.drop_last()).push(before.outgoing[0])
            } else {
                self.popped(calls.drop_last())
            }
        }
    }
}

/// A queue delivers: whatever is called on one that holds nothing, the packets
/// collected are those that were taken to be sent, each once and in order, as far
/// as they no longer wait. What was pushed to be read is never among them.
pub proof fn law_sent_packets_come_out_once_in_order(queues: Queues, calls: Seq<QueueCall>)
    requires
        queues.outgoing.len() == 0,
    ensures
        queues.popped(calls) + queues.called_all(calls).outgoing == queues.taken(calls),
        queues.called_all(calls).outgoing.len() <= QUEUE_LIMIT,
    decreases calls.len(),
{
    if calls.len() == 0 {
        assert(queues.popped(calls) + queues.outgoing =~= queues.taken(calls));
    } else {
        let rest = calls.drop_last();
        law_sent_packets_come_out_once_in_order(queues, rest);
        let waiting = queues.called_all(rest).outgoing;
        let after = queues.called_all(calls).outgoing;
        match calls.last() {
            QueueCall::Pop => {
                if waiting.len() > 0 {
                    assert(queues.popped(rest).push(waiting[0]) + waiting.drop_first()
                        =~= queues.popped(rest) + waiting);
                }
            },
            QueueCall::Send(packet) => {
                assert(queues.popped(rest) + waiting.push(packet) =~= (queues.popped(rest)
                    + waiting).push(packet));
            },
            _ => {},
        }
    }
}

/// The browser feeds incoming data-channel packets and drains outgoing
/// packets. Both queues are bounded independently of how often it services
/// them.
pub struct PacketQueue {
    incoming: VecDeque<Vec<u8>>,
    outgoing: VecDeque<Vec<u8>>,
    past: Ghost<Seq<LinkEvent>>,
}

impl Default for PacketQueue {
    fn default() -> (r: Self)
        ensures
            r.wf(),
            r.incoming() == Seq::<Seq<u8>>::empty(),
            r.outgoing() == Seq::<Seq<u8>>::empty(),
            r.history() == Seq::<LinkEvent>::empty(),
    {
        let r = PacketQueue {
            incoming: VecDeque::new(),
            outgoing: VecDeque::new(),
            past: Ghost(Seq::empty()),
        };
        assert(packets(r.incoming@) =~= Seq::<Seq<u8>>::empty());
        assert(packets(r.outgoing@) =~= Seq::<Seq<u8>>::empty());
        r
    }
}

impl PacketQueue {
    /// Both queues are within their bound.
    pub closed spec fn wf(&self) -> bool {
        self.incoming@.len() <= QUEUE_LIMIT && self.outgoing@.len() <= QUEUE_LIMIT
    }

    /// Packets waiting to be read.
    pub closed spec fn incoming(&self) -> Seq<Seq<u8>> {
        packets(self.incoming@)
    }

    /// Packets waiting to be collected.
    pub closed spec fn outgoing(&self) -> Seq<Seq<u8>> {
        packets(self.outgoing@)
    }

    /// What the queue holds.
    pub open spec fn queues(&self) -> Queues {
        Queues { incoming: self.incoming(), outgoing: self.outgoing() }
    }

    pub fn has_incoming(&self) -> (r: bool)
        ensures
            r == (self.incoming().len() > 0),
    {
        self.incoming.len() > 0
    }

    /// Queue a packet that arrived. A full queue forgets its oldest packet.
    pub fn push(&mut self, packet: &[u8]) -> (r: Result<(), TransportError>)
        requires
            old(self).wf(),
        ensures
            final(self).wf(),
            final(self).queues() == old(self).queues().called(QueueCall::Push(packet@)),
            final(self).outgoing() == old(self).outgoing(),
            final(self).history() == old(self).history(),
            packet@.len() > 1160 ==> (r matches Err(TransportError::PacketTooLarge))
                && final(self).incoming() == old(self).incoming(),
            packet@.len() <= 1160 ==> r is Ok && final(self).incoming() == queued(
                old(self).incoming(),
                packet@,
            ),
    {
        if packet.len() > MAX_PACKET {
            return Err(TransportError::PacketTooLarge);
        }
        enqueue(&mut self.incoming, packet);
        Ok(())
    }

    /// Collect the oldest packet to send.
    pub fn pop(&mut self) -> (r: Option<Vec<u8>>)
        requires
            old(self).wf(),
        ensures
            final(self).wf(),
            final(self).queues() == old(self).queues().called(QueueCall::Pop),
            final(self).incoming() == old(self).incoming(),
            final(self).history() == old(self).history(),
            match r {
                Some(p) => old(self).outgoing().len() > 0 && p@ == old(self).outgoing()[0]
                    && final(self).outgoing() == old(self).outgoing().drop_first(),
                None => old(self).outgoing().len() == 0 && final(self).outgoing()
                    == old(self).outgoing(),
            },
    {
        let ghost before = self.outgoing@;
        let r = self.outgoing.pop_front();
        proof {
            if before.len() > 0 {
                assert(packets(self.outgoing@) =~= packets(before).drop_first());
            }
        }
        r
    }
}

impl Transport for PacketQueue {
    closed spec fn history(&self) -> Seq<LinkEvent> {
        self.past@
    }

    fn route(&self) -> (r: &'static str)
        ensures
            r@ == "direct"@,
    {
        "direct"
    }

    fn ready(&mut self) -> (r: Result<bool, TransportError>)
        ensures
            r == Ok::<bool, TransportError>(true),
            final(self).queues() == old(self).queues().called(QueueCall::Ready),
            final(self).incoming() == old(self).incoming(),
            final(self).outgoing() == old(self).outgoing(),
            old(self).wf() ==> final(self).wf(),
    {
        self.past = Ghost(self.past@.push(LinkEvent::Ready(true)));
        Ok(true)
    }

    /// The oldest packet waiting, copied to the front of `buffer`. A packet
    /// that does not fit is lost.
    fn receive(&mut self, buffer: &mut [u8]) -> (r: Result<Option<usize>, TransportError>)
        ensures
            final(self).queues() == old(self).queues().called(QueueCall::Receive),
            final(self).outgoing() == old(self).outgoing(),
            old(self).incoming().len() == 0 ==> r == Ok::<Option<usize>, TransportError>(None)
                && final(self).incoming() == old(self).incoming(),
            old(self).incoming().len() > 0 ==> {
                let p = old(self).incoming()[0];
                &&& final(self).incoming() == old(self).incoming().drop_first()
                &&& p.len() > old(buffer)@.len() ==> (r matches Err(TransportError::BufferTooSmall))
                &&& p.len() <= old(buffer)@.len() ==> (r matches Ok(Some(n)) && n == p.len()
                    && final(buffer)@.take(p.len() as int) == p)
            },
    {
        let ghost before = self.incoming@;
        let packet = match self.incoming.pop_front() {
            Some(packet) => packet,
            None => {
                self.past = Ghost(self.past@.push(LinkEvent::Nothing));
                return Ok(None);
            },
        };
        assert(packets(self.incoming@) =~= packets(before).drop_first());
        assert(packet@ == packets(before)[0]);
        if packet.len() > buffer.len() {
            self.past = Ghost(self.past@.push(LinkEvent::Failed(TransportError::BufferTooSmall)));
            return Err(TransportError::BufferTooSmall);
        }
        let mut i: usize = 0;
        while i < packet.len()
            invariant
                i <= packet@.len() <= buffer@.len(),
                buffer@.len() == old(buffer)@.len(),
                buffer@.take(i as int) == packet@.take(i as int),
            decreases packet@.len() - i,
        {
            buffer[i] = packet[i];
            i += 1;
            assert(buffer@.take(i as int) =~= packet@.take(i as int));
        }
        assert(packet@.take(i as int) =~= packet@);
        self.past = Ghost(self.past@.push(LinkEvent::Packet(packet@)));
        Ok(Some(packet.len()))
    }

    /// Queue a packet to be collected; a full queue refuses it.
    fn send(&mut self, packet: &[u8]) -> (r: Result<bool, TransportError>)
        ensures
            final(self).incoming() == old(self).incoming(),
            packet@.len() > 1160 ==> (r matches Err(TransportError::PacketTooLarge))
                && final(self).outgoing() == old(self).outgoing(),
            packet@.len() <= 1160 && old(self).outgoing().len() == 64 ==> r == Ok::<
                bool,
                TransportError,
            >(false) && final(self).outgoing() == old(self).outgoing(),
            packet@.len() <= 1160 && old(self).outgoing().len() != 64 ==> r == Ok::<
                bool,
                TransportError,
            >(true) && final(self).outgoing() == old(self).outgoing().push(packet@),
            old(self).wf() ==> {
                &&& final(self).queues() == old(self).queues().called(QueueCall::Send(packet@))
                &&& r == Ok::<bool, TransportError>(true) <==> old(self).queues().takes(packet@)
            },
            old(self).wf() ==> final(self).wf(),
    {
        if packet.len() > MAX_PACKET {
            self.past = Ghost(self.past@.push(LinkEvent::Failed(TransportError::PacketTooLarge)));
            return Err(TransportError::PacketTooLarge);
        }
        if self.outgoing.len() == QUEUE_LIMIT {
            self.past = Ghost(self.past@.push(LinkEvent::Refused(packet@)));
            return Ok(false);
        }
        let ghost before = self.outgoing@;
        let copy = copy_range(packet, 0, packet.len());
        assert(copy@ =~= packet@);
        self.outgoing.push_back(copy);
        self.past = Ghost(self.past@.push(LinkEvent::Sent(packet@)));
        assert(packets(self.outgoing@) =~= packets(before).push(packet@));
        Ok(true)
    }
}

/// What a source on the host's socket was admitted as.
#[derive(Clone, Copy, Debug, PartialEq, Eq, Structural)]
pub enum SlotKind {
    Player,
    Spectator,
}

/// Packets from one guest or spectator, demultiplexed by its source address.
pub struct Slot {
    pub source: Endpoint,
    pub kind: SlotKind,
    pub incoming: VecDeque<Vec<u8>>,
}

/// Sources sharing the host's socket. A source claims a slot with its first
/// control packet for the session; a dropped link frees it.
pub struct SlotTable {
    pub slots: Vec<Slot>,
    /// Slots claimed since the host last asked.
    pub pending: Vec<(SlotKind, Endpoint)>,
    /// Guest addresses the host will accept; empty admits any source that
    /// presents the session ID, as spectators always have.
    pub allowed: Vec<Endpoint>,
    pub players: usize,
    pub spectators: usize,
}

/// Whether two endpoints are the same.
pub fn same_endpoint(a: &Endpoint, b: &Endpoint) -> (r: bool)
    ensures
        r == (*a == *b),
{
    if a.port != b.port {
        return false;
    }
    match (&a.ip, &b.ip) {
        (IpAddress::V4(x), IpAddress::V4(y)) => {
            let r = same_bytes(x, y);
            proof {
                if r {
                    assert forall|i: int| 0 <= i < 4 implies x[i] == y[i] by {
                        assert(x@[i] == y@[i]);
                    }
                    assert(*x =~= *y);
                }
            }
            r
        },
        (IpAddress::V6(x), IpAddress::V6(y)) => {
            let r = same_bytes(x, y);
            proof {
                if r {
                    assert forall|i: int| 0 <= i < 16 implies x[i] == y[i] by {
                        assert(x@[i] == y@[i]);
                    }
                    assert(*x =~= *y);
                }
            }
            r
        },
        _ => false,
    }
}

/// How many slots are of one kind.
pub open spec fn slots_of(slots: Seq<Slot>, kind: SlotKind) -> nat
    decreases slots.len(),
{
    if slots.len() == 0 {
        0
    } else {
        slots_of(slots.drop_last(), kind) + (if slots.last().kind == kind {
            1nat
        } else {
            0nat
        })
    }
}

impl SlotTable {
    /// The slot a source holds; the number of slots where it holds none.
    pub open spec fn index_of(self, source: Endpoint) -> int
    {
        if exists|i: int| 0 <= i < self.slots@.len() && (#[trigger] self.slots@[i]).source == source {
            choose|i: int| 0 <= i < self.slots@.len() && (#[trigger] self.slots@[i]).source == source
        } else {
            self.slots@.len() as int
        }
    }

    /// A source holds at most one slot, and no queue is past its bound.
    pub open spec fn wf(self) -> bool {
        &&& forall|i: int, j: int|
            0 <= i < j < self.slots@.len() ==> (#[trigger] self.slots@[i]).source
                != (#[trigger] self.slots@[j]).source
        &&& forall|i: int|
            0 <= i < self.slots@.len() ==> (#[trigger] self.slots@[i]).incoming@.len()
                <= QUEUE_LIMIT
    }

    /// How many sources of a kind the host serves.
    pub open spec fn cap(self, kind: SlotKind) -> usize {
        match kind {
            SlotKind::Player => self.players,
            SlotKind::Spectator => self.spectators,
        }
    }

    /// Whether a source without a slot may claim one.
    pub open spec fn admits(self, kind: SlotKind, source: Endpoint) -> bool {
        &&& slots_of(self.slots@, kind) < self.cap(kind)
        &&& kind is Player && self.allowed@.len() > 0 ==> self.allowed@.contains(source)
    }

    /// Slot `i` gained a packet and nothing else changed.
    pub open spec fn gained(self, before: SlotTable, i: int, bytes: Seq<u8>) -> bool {
        &&& self.slots@.len() == before.slots@.len()
        &&& self.slots@[i].source == before.slots@[i].source
        &&& self.slots@[i].kind == before.slots@[i].kind
        &&& packets(self.slots@[i].incoming@) == queued(packets(before.slots@[i].incoming@), bytes)
        &&& forall|j: int|
            0 <= j < self.slots@.len() && j != i ==> #[trigger] self.slots@[j] == before.slots@[j]
        &&& self == SlotTable { slots: self.slots, ..before }
    }

    /// A new slot was claimed, with one packet in it.
    pub open spec fn claimed(
        self,
        before: SlotTable,
        kind: SlotKind,
        source: Endpoint,
        bytes: Seq<u8>,
    ) -> bool {
        let n = before.slots@.len() as int;
        &&& self.slots@.len() == n + 1
        &&& forall|j: int| 0 <= j < n ==> #[trigger] self.slots@[j] == before.slots@[j]
        &&& self.slots@[n].source == source
        &&& self.slots@[n].kind == kind
        &&& packets(self.slots@[n].incoming@) == seq![bytes]
        &&& self.pending@ == before.pending@.push((kind, source))
        &&& self == SlotTable { slots: self.slots, pending: self.pending, ..before }
    }

    /// A table without slots.
    pub fn new(allowed: Vec<Endpoint>, players: usize, spectators: usize) -> (r: SlotTable)
        ensures
            r.wf(),
            r.slots@.len() == 0,
            r.pending@.len() == 0,
            r.allowed == allowed,
            r.players == players,
            r.spectators == spectators,
    {
        SlotTable { slots: Vec::new(), pending: Vec::new(), allowed, players, spectators }
    }

    fn find(&self, source: &Endpoint) -> (r: usize)
        requires
            self.wf(),
        ensures
            r == self.index_of(*source),
            r <= self.slots@.len(),
            r < self.slots@.len() ==> self.slots@[r as int].source == *source,
            r == self.slots@.len() ==> forall|i: int|
                0 <= i < self.slots@.len() ==> (#[trigger] self.slots@[i]).source != *source,
    {
        let mut i: usize = 0;
        while i < self.slots.len()
            invariant
                i <= self.slots@.len(),
                forall|j: int| 0 <= j < i ==> (#[trigger] self.slots@[j]).source != *source,
                self.wf(),
            decreases self.slots@.len() - i,
        {
            if same_endpoint(&self.slots[i].source, source) {
                assert(self.slots@[i as int].source == *source);
                return i;
            }
            i += 1;
        }
        i
    }

    /// How many sources of a kind hold slots.
    pub fn count(&self, kind: SlotKind) -> (r: usize)
        ensures
            r == slots_of(self.slots@, kind),
    {
        let mut n: usize = 0;
        let mut i: usize = 0;
        while i < self.slots.len()
            invariant
                n <= i <= self.slots@.len(),
                n == slots_of(self.slots@.take(i as int), kind),
            decreases self.slots@.len() - i,
        {
            proof {
                assert(self.slots@.take(i as int + 1).drop_last() =~= self.slots@.take(i as int));
            }
            if self.slots[i].kind == kind {
                n += 1;
            }
            i += 1;
        }
        assert(self.slots@.take(i as int) =~= self.slots@);
        n
    }

    /// A source presents itself as a player or a spectator. It keeps the slot
    /// it has, cannot be both, and claims a new one only within the limits.
    pub fn accept(&mut self, kind: SlotKind, source: Endpoint, bytes: &[u8])
        requires
            old(self).wf(),
        ensures
            final(self).wf(),
            ({
                let i = old(self).index_of(source);
                if i < old(self).slots@.len() {
                    if old(self).slots@[i].kind == kind {
                        final(self).gained(*old(self), i, bytes@)
                    } else {
                        *final(self) == *old(self)
                    }
                } else if old(self).admits(kind, source) {
                    final(self).claimed(*old(self), kind, source, bytes@)
                } else {
                    *final(self) == *old(self)
                }
            }),
    {
        let at: usize = self.find(&source);
        if at < self.slots.len() {
            if self.slots[at].kind == kind {
                self.queue_at(at, bytes);
            }
            return ;
        }
        let cap: usize = match kind {
            SlotKind::Player => self.players,
            SlotKind::Spectator => self.spectators,
        };
        if self.count(kind) >= cap {
            return ;
        }
        if kind == SlotKind::Player && self.allowed.len() > 0 && !self.lists(&source) {
            return ;
        }
        let copy = copy_range(bytes, 0, bytes.len());
        assert(copy@ =~= bytes@);
        let mut incoming: VecDeque<Vec<u8>> = VecDeque::new();
        incoming.push_back(copy);
        assert(packets(incoming@) =~= seq![bytes@]);
        self.slots.push(Slot { source, kind, incoming });
        self.pending.push((kind, source));
    }

    fn lists(&self, source: &Endpoint) -> (r: bool)
        ensures
            r == self.allowed@.contains(*source),
    {
        let mut i: usize = 0;
        while i < self.allowed.len()
            invariant
                i <= self.allowed@.len(),
                forall|j: int| 0 <= j < i ==> #[trigger] self.allowed@[j] != *source,
            decreases self.allowed@.len() - i,
        {
            if same_endpoint(&self.allowed[i], source) {
                assert(self.allowed@[i as int] == *source);
                return true;
            }
            i += 1;
        }
        false
    }

    fn queue_at(&mut self, at: usize, bytes: &[u8])
        requires
            old(self).wf(),
            at < old(self).slots@.len(),
        ensures
            final(self).wf(),
            final(self).gained(*old(self), at as int, bytes@),
    {
        enqueue(&mut self.slots[at].incoming, bytes);
        proof {
            let before = *old(self);
            assert forall|i: int, j: int| 0 <= i < j < self.slots@.len() implies (
            #[trigger] self.slots@[i]).source != (#[trigger] self.slots@[j]).source by {
                assert(before.slots@[i].source != before.slots@[j].source);
            }
            assert forall|i: int| 0 <= i < self.slots@.len() implies (
            #[trigger] self.slots@[i]).incoming@.len() <= QUEUE_LIMIT by {
                assert(before.slots@[i].incoming@.len() <= QUEUE_LIMIT);
            }
        }
    }

    /// Route a datagram from an already admitted source, whatever its kind.
    pub fn deliver(&mut self, source: Endpoint, bytes: &[u8]) -> (r: bool)
        requires
            old(self).wf(),
        ensures
            final(self).wf(),
            r == (old(self).index_of(source) < old(self).slots@.len()),
            r ==> final(self).gained(*old(self), old(self).index_of(source), bytes@),
            !r ==> *final(self) == *old(self),
    {
        let at: usize = self.find(&source);
        if at < self.slots.len() {
            self.queue_at(at, bytes);
            true
        } else {
            false
        }
    }

    /// The oldest packet waiting for a source's link.
    pub fn take_packet(&mut self, source: Endpoint) -> (r: Option<Vec<u8>>)
        requires
            old(self).wf(),
        ensures
            final(self).wf(),
            *final(self) == (SlotTable { slots: final(self).slots, ..*old(self) }),
            final(self).slots@.len() == old(self).slots@.len(),
            ({
                let i = old(self).index_of(source);
                let waiting = packets(old(self).slots@[i].incoming@);
                if i < old(self).slots@.len() && waiting.len() > 0 {
                    &&& r matches Some(p) && p@ == waiting[0]
                    &&& final(self).slots@[i].source == source
                    &&& final(self).slots@[i].kind == old(self).slots@[i].kind
                    &&& packets(final(self).slots@[i].incoming@) == waiting.drop_first()
                    &&& forall|j: int|
                        0 <= j < final(self).slots@.len() && j != i ==>
                            #[trigger] final(self).slots@[j] == old(self).slots@[j]
                } else {
                    r is None && *final(self) == *old(self)
                }
            }),
    {
        let at: usize = self.find(&source);
        if at >= self.slots.len() || self.slots[at].incoming.len() == 0 {
            return None;
        }
        let ghost before = *self;
        let ghost waiting = self.slots@[at as int].incoming@;
        let r = self.slots[at].incoming.pop_front();
        proof {
            assert(packets(self.slots@[at as int].incoming@) =~= packets(waiting).drop_first());
            assert forall|i: int, j: int| 0 <= i < j < self.slots@.len() implies (
            #[trigger] self.slots@[i]).source != (#[trigger] self.slots@[j]).source by {
                assert(before.slots@[i].source != before.slots@[j].source);
            }
            assert forall|i: int| 0 <= i < self.slots@.len() implies (
            #[trigger] self.slots@[i]).incoming@.len() <= QUEUE_LIMIT by {
                assert(before.slots@[i].incoming@.len() <= QUEUE_LIMIT);
            }
        }
        r
    }

    /// Free a source's slot once its link is gone.
    pub fn release(&mut self, source: Endpoint)
        requires
            old(self).wf(),
        ensures
            final(self).wf(),
            ({
                let i = old(self).index_of(source);
                if i < old(self).slots@.len() {
                    final(self).slots@ == old(self).slots@.remove(i)
                } else {
                    final(self).slots@ == old(self).slots@
                }
            }),
            *final(self) == (SlotTable { slots: final(self).slots, ..*old(self) }),
            final(self).index_of(source) == final(self).slots@.len(),
    {
        let at: usize = self.find(&source);
        let ghost before = self.slots@;
        if at < self.slots.len() {
            self.slots.remove(at);
            proof {
                assert forall|i: int, j: int| 0 <= i < j < self.slots@.len() implies (
                #[trigger] self.slots@[i]).source != (#[trigger] self.slots@[j]).source by {
                    let bi = if i < at { i } else { i + 1 };
                    let bj = if j < at { j } else { j + 1 };
                    assert(before[bi].source != before[bj].source);
                }
                assert forall|i: int| 0 <= i < self.slots@.len() implies (
                #[trigger] self.slots@[i]).incoming@.len() <= QUEUE_LIMIT by {
                    let bi = if i < at { i } else { i + 1 };
                    assert(before[bi].incoming@.len() <= QUEUE_LIMIT);
                }
                assert forall|i: int| 0 <= i < self.slots@.len() implies (
                #[trigger] self.slots@[i]).source != source by {
                    let bi = if i < at { i } else { i + 1 };
                    assert(before[bi].source != before[at as int].source) by {
                        if bi < at {
                            assert(before[bi].source != before[at as int].source);
                        } else {
                            assert(before[at as int].source != before[bi].source);
                        }
                    }
                }
            }
        }
    }

    /// The sources of one kind that claimed slots since the last call, in
    /// the order they came.
    pub fn take_pending(&mut self, kind: SlotKind) -> (r: Vec<Endpoint>)
        requires
            old(self).wf(),
        ensures
            final(self).wf(),
            *final(self) == (SlotTable { pending: final(self).pending, ..*old(self) }),
            r@ == claims_of(old(self).pending@, kind),
            final(self).pending@ == claims_but(old(self).pending@, kind),
    {
        let mut taken: Vec<Endpoint> = Vec::new();
        let mut rest: Vec<(SlotKind, Endpoint)> = Vec::new();
        let mut i: usize = 0;
        assert(self.pending@.take(0) =~= Seq::<(SlotKind, Endpoint)>::empty());
        while i < self.pending.len()
            invariant
                *self == *old(self),
                i <= self.pending@.len(),
                taken@ == claims_of(self.pending@.take(i as int), kind),
                rest@ == claims_but(self.pending@.take(i as int), kind),
            decreases self.pending@.len() - i,
        {
            proof {
                assert(self.pending@.take(i as int + 1).drop_last() =~= self.pending@.take(
                    i as int,
                ));
            }
            let claim = self.pending[i];
            if claim.0 == kind {
                taken.push(claim.1);
            } else {
                rest.push(claim);
            }
            i += 1;
        }
        assert(self.pending@.take(i as int) =~= self.pending@);
        self.pending = rest;
        taken
    }
}

/// The sources of one kind, in order.
pub open spec fn claims_of(claims: Seq<(SlotKind, Endpoint)>, kind: SlotKind) -> Seq<Endpoint>
    decreases claims.len(),
{
    if claims.len() == 0 {
        Seq::empty()
    } else {
        let rest = claims_of(claims.drop_last(), kind);
        if claims.last().0 == kind {
            rest.push(claims.last().1)
        } else {
            rest
        }
    }
}

/// The claims of the other kind, in order.
pub open spec fn claims_but(claims: Seq<(SlotKind, Endpoint)>, kind: SlotKind) -> Seq<
    (SlotKind, Endpoint),
>
    decreases claims.len(),
{
    if claims.len() == 0 {
        Seq::empty()
    } else {
        let rest = claims_but(claims.drop_last(), kind);
        if claims.last().0 == kind {
            rest
        } else {
            rest.push(claims.last())
        }
    }
}

/// Where a datagram read from a host's or guest's socket goes.
#[derive(Clone, Copy, Debug, PartialEq, Eq, Structural)]
pub enum Routed {
    /// It is from the one endpoint this link talks to.
    Peer,
    /// It was queued for another link, or discarded.
    Consumed,
}

/// Sort a datagram: the peer's own goes to the caller, an admitted source's
/// to its slot, and a newcomer's control packet may claim one. `claim` says
/// what the packet's sender presents itself as.
pub fn route_datagram(
    peer: Option<Endpoint>,
    table: &mut Option<SlotTable>,
    source: Endpoint,
    bytes: &[u8],
    claim: Option<SlotKind>,
) -> (r: Routed)
    requires
        *old(table) matches Some(t) ==> t.wf(),
    ensures
        *final(table) matches Some(t) ==> t.wf(),
        (*final(table) is Some) == (*old(table) is Some),
        r == (if peer == Some(source) {
            Routed::Peer
        } else {
            Routed::Consumed
        }),
        peer == Some(source) || *old(table) is None ==> *final(table) == *old(table),
        peer != Some(source) ==> (*old(table) matches Some(before) ==> {
            let after = (*final(table))->0;
            let i = before.index_of(source);
            if i < before.slots@.len() {
                after.gained(before, i, bytes@)
            } else {
                match claim {
                    Some(kind) => if before.admits(kind, source) {
                        after.claimed(before, kind, source, bytes@)
                    } else {
                        after == before
                    },
                    None => after == before,
                }
            }
        }),
{
    if let Some(p) = &peer {
        if same_endpoint(p, &source) {
            return Routed::Peer;
        }
    }
    if let Some(t) = table {
        if !t.deliver(source, bytes) {
            if let Some(kind) = claim {
                t.accept(kind, source, bytes);
            }
        }
    }
    Routed::Consumed
}

/// A datagram never reaches a slot of another source.
pub proof fn law_slots_are_private(
    before: SlotTable,
    after: SlotTable,
    source: Endpoint,
    bytes: Seq<u8>,
    j: int,
)
    requires
        before.wf(),
        before.index_of(source) < before.slots@.len(),
        after.gained(before, before.index_of(source), bytes),
        0 <= j < before.slots@.len(),
        before.slots@[j].source != source,
    ensures
        after.slots@[j] == before.slots@[j],
{
    let i = before.index_of(source);
    assert(exists|k: int| 0 <= k < before.slots@.len() && (#[trigger] before.slots@[k]).source == source);
    assert(before.slots@[i].source == source);
}

} // verus!
