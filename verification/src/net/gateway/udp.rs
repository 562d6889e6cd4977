//! UDP flow table: each guest port and destination pair gets one host
//! socket. Flows die after an idle timeout, as in any home router.
use vstd::prelude::*;
use crate::bytes::same_bytes;
use crate::net::gateway::frames::{BROADCAST_IP, SEGMENT_BROADCAST};

verus! {

pub const MAX_FLOWS: usize = 64;

/// Milliseconds after which an unused flow ends.
pub const IDLE_TIMEOUT: u64 = 60_000;

/// The two ends of a flow.
#[derive(Clone, Copy, Debug)]
pub struct FlowKey {
    pub guest_port: u16,
    pub remote_ip: [u8; 4],
    pub remote_port: u16,
}

/// Two keys name the same ends.
pub open spec fn same_ends(a: FlowKey, b: FlowKey) -> bool {
    a.guest_port == b.guest_port && a.remote_ip@ == b.remote_ip@ && a.remote_port == b.remote_port
}

pub fn same_key(a: &FlowKey, b: &FlowKey) -> (r: bool)
    ensures
        r == same_ends(*a, *b),
{
    a.guest_port == b.guest_port && a.remote_port == b.remote_port && same_bytes(
        &a.remote_ip,
        &b.remote_ip,
    )
}

/// A conversation of the guest's.
#[derive(Clone, Copy, Debug)]
pub struct UdpFlow {
    pub id: u64,
    pub key: FlowKey,
    pub last_used: u64,
}

/// What becomes of a guest's datagram.
#[derive(Clone, Copy, Debug, PartialEq, Eq, Structural)]
pub enum DatagramAction {
    /// Broadcasts are not carried, and a full table loses datagrams as any
    /// network does.
    Lose,
    /// Send it on this flow's socket.
    Send { id: u64 },
    /// Open a socket for it.
    Open,
}

/// Flows that were used lately, in order.
pub open spec fn fresh(flows: Seq<UdpFlow>, now: u64) -> Seq<UdpFlow>
    decreases flows.len(),
{
    if flows.len() == 0 {
        flows
    } else {
        let rest = fresh(flows.drop_last(), now);
        if now - flows.last().last_used < IDLE_TIMEOUT {
            rest.push(flows.last())
        } else {
            rest
        }
    }
}

/// Fresh flows are flows, still in order.
proof fn lemma_fresh(flows: Seq<UdpFlow>, now: u64)
    ensures
        fresh(flows, now).len() <= flows.len(),
        forall|i: int|
            #![trigger fresh(flows, now)[i]]
            0 <= i < fresh(flows, now).len() ==> exists|j: int|
                0 <= j < flows.len() && #[trigger] flows[j] == fresh(flows, now)[i],
        distinct(flows) ==> distinct(fresh(flows, now)),
    decreases flows.len(),
{
    if flows.len() > 0 {
        let early = flows.drop_last();
        lemma_fresh(early, now);
        let rest = fresh(early, now);
        let kept = fresh(flows, now);
        assert forall|i: int| #![trigger kept[i]] 0 <= i < kept.len() implies exists|j: int|
            0 <= j < flows.len() && #[trigger] flows[j] == kept[i] by {
            if i < rest.len() {
                assert(kept[i] == rest[i]);
                let j = choose|j: int| 0 <= j < early.len() && #[trigger] early[j] == rest[i];
                assert(flows[j] == kept[i]);
            } else {
                assert(flows[flows.len() - 1] == kept[i]);
            }
        }
        if distinct(flows) {
            assert(distinct(early)) by {
                assert forall|i: int, j: int| 0 <= i < j < early.len() implies !same_ends(
                    (#[trigger] early[i]).key,
                    (#[trigger] early[j]).key,
                ) && early[i].id != early[j].id by {
                    assert(flows[i] == early[i] && flows[j] == early[j]);
                }
            }
            assert forall|i: int, j: int| 0 <= i < j < kept.len() implies !same_ends(
                (#[trigger] kept[i]).key,
                (#[trigger] kept[j]).key,
            ) && kept[i].id != kept[j].id by {
                assert(kept[i] == rest[i]);
                let a = choose|a: int| 0 <= a < early.len() && #[trigger] early[a] == rest[i];
                if j < rest.len() {
                    assert(kept[j] == rest[j]);
                } else {
                    assert(flows[a] == kept[i]);
                    assert(flows[flows.len() - 1] == kept[j]);
                }
            }
        }
    }
}

/// No two flows share their ends or their number.
pub open spec fn distinct(flows: Seq<UdpFlow>) -> bool {
    forall|i: int, j: int|
        0 <= i < j < flows.len() ==> !same_ends(
            (#[trigger] flows[i]).key,
            (#[trigger] flows[j]).key,
        ) && flows[i].id != flows[j].id
}

/// Addresses that are not carried: the limited broadcast, multicast, and the
/// segment's own directed broadcast. Another network's host may well end in
/// .255, so only the segment's is left out.
pub open spec fn not_carried(dst: Seq<u8>) -> bool {
    dst == BROADCAST_IP@ || 224 <= dst[0] <= 239 || dst == SEGMENT_BROADCAST@
}

/// The guest's UDP conversations.
pub struct UdpNat {
    pub flows: Vec<UdpFlow>,
    pub next_id: u64,
}

impl UdpNat {
    pub open spec fn wf(self) -> bool {
        &&& self.flows@.len() <= MAX_FLOWS
        &&& distinct(self.flows@)
        &&& forall|i: int|
            0 <= i < self.flows@.len() ==> (#[trigger] self.flows@[i]).id < self.next_id
    }

    /// The flow between these ends; the number of flows where there is none.
    pub open spec fn flow_index(self, key: FlowKey) -> int {
        if exists|i: int|
            0 <= i < self.flows@.len() && same_ends((#[trigger] self.flows@[i]).key, key) {
            choose|i: int|
                0 <= i < self.flows@.len() && same_ends((#[trigger] self.flows@[i]).key, key)
        } else {
            self.flows@.len() as int
        }
    }

    pub fn new() -> (r: UdpNat)
        ensures
            r.wf(),
            r.flows@.len() == 0,
            r.next_id == 0,
    {
        UdpNat { flows: Vec::new(), next_id: 0 }
    }

    fn find(&self, key: &FlowKey) -> (r: usize)
        requires
            self.wf(),
        ensures
            r == self.flow_index(*key),
            r <= self.flows@.len(),
            r < self.flows@.len() ==> same_ends(self.flows@[r as int].key, *key),
            r == self.flows@.len() ==> forall|i: int|
                0 <= i < self.flows@.len() ==> !same_ends((#[trigger] self.flows@[i]).key, *key),
    {
        let mut i: usize = 0;
        while i < self.flows.len()
            invariant
                self.wf(),
                i <= self.flows@.len(),
                forall|j: int| 0 <= j < i ==> !same_ends((#[trigger] self.flows@[j]).key, *key),
            decreases self.flows@.len() - i,
        {
            if same_key(&self.flows[i].key, key) {
                assert(same_ends(self.flows@[i as int].key, *key));
                return i;
            }
            i += 1;
        }
        i
    }

    /// End the flows that have been idle for too long.
    pub fn expire(&mut self, now: u64)
        requires
            old(self).wf(),
        ensures
            final(self).wf(),
            final(self).flows@ == fresh(old(self).flows@, now),
            final(self).next_id == old(self).next_id,
    {
        let ghost before = *self;
        let mut kept: Vec<UdpFlow> = Vec::new();
        let mut i: usize = 0;
        while i < self.flows.len()
            invariant
                *self == before,
                i <= before.flows@.len(),
                kept@ == fresh(before.flows@.take(i as int), now),
            decreases before.flows@.len() - i,
        {
            assert(before.flows@.take(i + 1).drop_last() =~= before.flows@.take(i as int));
            let flow = self.flows[i];
            if now.saturating_sub(flow.last_used) < IDLE_TIMEOUT {
                kept.push(flow);
            }
            i += 1;
        }
        assert(before.flows@.take(i as int) =~= before.flows@);
        proof {
            lemma_fresh(before.flows@, now);
            assert forall|i: int| 0 <= i < kept@.len() implies (#[trigger] kept@[i]).id
                < before.next_id by {
                let j = choose|j: int|
                    0 <= j < before.flows@.len() && #[trigger] before.flows@[j] == fresh(
                        before.flows@,
                        now,
                    )[i];
            }
        }
        self.flows = kept;
    }

    /// Forward one guest datagram that no responder claimed.
    pub fn handle_datagram(
        &mut self,
        guest_port: u16,
        dst_ip: [u8; 4],
        dst_port: u16,
        now: u64,
    ) -> (r: DatagramAction)
        requires
            old(self).wf(),
        ensures
            final(self).wf(),
            final(self).next_id == old(self).next_id,
            ({
                let key = FlowKey { guest_port, remote_ip: dst_ip, remote_port: dst_port };
                let i = old(self).flow_index(key);
                if not_carried(dst_ip@) {
                    r == DatagramAction::Lose && *final(self) == *old(self)
                } else if i < old(self).flows@.len() {
                    &&& r == DatagramAction::Send { id: old(self).flows@[i].id }
                    &&& final(self).flows@ == old(self).flows@.update(
                        i,
                        UdpFlow { last_used: now, ..old(self).flows@[i] },
                    )
                } else {
                    &&& final(self).flows@ == fresh(old(self).flows@, now)
                    &&& r == (if final(self).flows@.len() >= 64 {
                        DatagramAction::Lose
                    } else {
                        DatagramAction::Open
                    })
                }
            }),
    {
        if same_bytes(&dst_ip, &BROADCAST_IP) || (224 <= dst_ip[0] && dst_ip[0] <= 239)
            || same_bytes(&dst_ip, &SEGMENT_BROADCAST) {
            return DatagramAction::Lose;
        }
        let key = FlowKey { guest_port, remote_ip: dst_ip, remote_port: dst_port };
        let i: usize = self.find(&key);
        if i < self.flows.len() {
            let ghost before = self.flows@;
            let mut flow = self.flows[i];
            flow.last_used = now;
            self.flows.set(i, flow);
            proof {
                assert forall|a: int, b: int| 0 <= a < b < self.flows@.len() implies !same_ends(
                    (#[trigger] self.flows@[a]).key,
                    (#[trigger] self.flows@[b]).key,
                ) && self.flows@[a].id != self.flows@[b].id by {
                    assert(before[a].id == self.flows@[a].id && before[b].id == self.flows@[b].id);
                }
                assert forall|a: int| 0 <= a < self.flows@.len() implies (
                #[trigger] self.flows@[a]).id < self.next_id by {
                    assert(before[a].id < self.next_id);
                }
            }
            return DatagramAction::Send { id: flow.id };
        }
        self.expire(now);
        if self.flows.len() >= MAX_FLOWS {
            return DatagramAction::Lose;
        }
        DatagramAction::Open
    }

    /// A socket was opened for a flow. Returns its number.
    pub fn opened(&mut self, key: FlowKey, now: u64) -> (r: u64)
        requires
            old(self).wf(),
            old(self).flows@.len() < MAX_FLOWS,
            old(self).flow_index(key) == old(self).flows@.len(),
            old(self).next_id < u64::MAX,
        ensures
            final(self).wf(),
            r == old(self).next_id,
            final(self).next_id == old(self).next_id + 1,
            final(self).flows@ == old(self).flows@.push(
                UdpFlow { id: r, key, last_used: now },
            ),
    {
        let ghost before = *self;
        let id: u64 = self.next_id;
        proof {
            assert forall|i: int| 0 <= i < before.flows@.len() implies !same_ends(
                (#[trigger] before.flows@[i]).key,
                key,
            ) by {
                if same_ends(before.flows@[i].key, key) {
                    let j = before.flow_index(key);
                    assert(0 <= j < before.flows@.len());
                }
            }
        }
        self.next_id = id + 1;
        self.flows.push(UdpFlow { id, key, last_used: now });
        id
    }

    /// A reply came back on the flow at this place. Returns where it is to
    /// be taken as coming from, and which port it is for.
    pub fn replied(&mut self, index: usize, now: u64) -> (r: FlowKey)
        requires
            old(self).wf(),
            index < old(self).flows@.len(),
        ensures
            final(self).wf(),
            r == old(self).flows@[index as int].key,
            final(self).next_id == old(self).next_id,
            final(self).flows@ == old(self).flows@.update(
                index as int,
                UdpFlow { last_used: now, ..old(self).flows@[index as int] },
            ),
    {
        let ghost before = self.flows@;
        let mut flow = self.flows[index];
        flow.last_used = now;
        self.flows.set(index, flow);
        proof {
            assert forall|a: int, b: int| 0 <= a < b < self.flows@.len() implies !same_ends(
                (#[trigger] self.flows@[a]).key,
                (#[trigger] self.flows@[b]).key,
            ) && self.flows@[a].id != self.flows@[b].id by {
                assert(before[a].id == self.flows@[a].id && before[b].id == self.flows@[b].id);
            }
            assert forall|a: int| 0 <= a < self.flows@.len() implies (#[trigger] self.flows@[a]).id
                < self.next_id by {
                assert(before[a].id < self.next_id);
            }
        }
        flow.key
    }
}

} // verus!
