//! Messages that wait for their moment.
//!
//! Some platforms play a message the instant they are handed it, so messages
//! are held until they are due. Messages that are due at the same moment keep
//! the order in which they came.
use vstd::prelude::*;
use crate::bytes::copy_range;

verus! {

/// A message due at a moment.
pub struct Scheduled {
    pub at: u64,
    /// Tells messages of the same moment apart.
    pub seq: u64,
    pub data: Vec<u8>,
}

/// One message goes before another.
pub open spec fn sooner(a: Scheduled, b: Scheduled) -> bool {
    a.at < b.at || (a.at == b.at && a.seq < b.seq)
}

/// The messages that wait.
pub struct SchedQueue {
    pub waiting: Vec<Scheduled>,
    pub seq: u64,
    /// Nothing more is delivered.
    pub stop: bool,
}

/// What is done now.
pub enum Due {
    /// The queue is closed.
    Stopped,
    /// Nothing waits.
    Idle,
    /// Wait this long.
    Wait(u64),
    /// Deliver this message.
    Deliver(Vec<u8>),
}

impl SchedQueue {
    /// Every message has a number of its own.
    pub open spec fn wf(self) -> bool {
        &&& forall|i: int|
            0 <= i < self.waiting@.len() ==> (#[trigger] self.waiting@[i]).seq <= self.seq
        &&& forall|i: int, j: int|
            0 <= i < j < self.waiting@.len() ==> (#[trigger] self.waiting@[i]).seq < (
            #[trigger] self.waiting@[j]).seq
    }

    pub fn new() -> (r: SchedQueue)
        ensures
            r.wf(),
            r.waiting@.len() == 0,
            r.seq == 0,
            !r.stop,
    {
        SchedQueue { waiting: Vec::new(), seq: 0, stop: false }
    }

    /// Hold a message until its moment. An empty one is no message.
    pub fn send(&mut self, data: &[u8], at: u64)
        requires
            old(self).wf(),
            old(self).seq < u64::MAX,
        ensures
            final(self).wf(),
            final(self).stop == old(self).stop,
            if data@.len() == 0 {
                *final(self) == *old(self)
            } else {
                &&& final(self).seq == old(self).seq + 1
                &&& final(self).waiting@.len() == old(self).waiting@.len() + 1
                &&& final(self).waiting@.drop_last() == old(self).waiting@
                &&& final(self).waiting@.last().at == at
                &&& final(self).waiting@.last().seq == final(self).seq
                &&& final(self).waiting@.last().data@ == data@
            },
    {
        if data.len() == 0 {
            return ;
        }
        let copy = copy_range(data, 0, data.len());
        assert(copy@ =~= data@);
        self.seq = self.seq + 1;
        self.waiting.push(Scheduled { at, seq: self.seq, data: copy });
        assert(self.waiting@.drop_last() =~= old(self).waiting@);
    }

    /// Which message goes first.
    pub open spec fn is_first(self, i: int) -> bool {
        &&& 0 <= i < self.waiting@.len()
        &&& forall|j: int|
            0 <= j < self.waiting@.len() && j != i ==> sooner(
                self.waiting@[i],
                #[trigger] self.waiting@[j],
            )
    }

    fn first(&self) -> (r: usize)
        requires
            self.wf(),
            self.waiting@.len() > 0,
        ensures
            self.is_first(r as int),
    {
        let mut best: usize = 0;
        let mut i: usize = 1;
        while i < self.waiting.len()
            invariant
                self.wf(),
                best < i <= self.waiting@.len(),
                forall|j: int|
                    0 <= j < i && j != best ==> sooner(
                        self.waiting@[best as int],
                        #[trigger] self.waiting@[j],
                    ),
            decreases self.waiting@.len() - i,
        {
            if self.waiting[i].at < self.waiting[best].at {
                best = i;
            } else {
                assert(self.waiting@[best as int].seq < self.waiting@[i as int].seq);
            }
            i += 1;
        }
        best
    }

    /// What is done now. A message whose moment has come or gone is delivered
    /// at once; before that, it is waited for.
    pub fn poll(&mut self, now: u64) -> (r: Due)
        requires
            old(self).wf(),
        ensures
            final(self).wf(),
            final(self).stop == old(self).stop,
            final(self).seq == old(self).seq,
            match r {
                Due::Stopped => old(self).stop && *final(self) == *old(self),
                Due::Idle => !old(self).stop && old(self).waiting@.len() == 0 && *final(self)
                    == *old(self),
                Due::Wait(time) => !old(self).stop && *final(self) == *old(self) && exists|i: int|
                    #[trigger]
                    old(self).is_first(i) && old(self).waiting@[i].at > now && time == old(
                        self,
                    ).waiting@[i].at - now,
                Due::Deliver(data) => !old(self).stop && exists|i: int| #[trigger]
                    old(self).is_first(i) && old(self).waiting@[i].at <= now && data@ == old(
                        self,
                    ).waiting@[i].data@ && final(self).waiting@ == old(self).waiting@.remove(i),
            },
    {
        if self.stop {
            return Due::Stopped;
        }
        if self.waiting.len() == 0 {
            return Due::Idle;
        }
        let at: usize = self.first();
        if self.waiting[at].at > now {
            return Due::Wait(self.waiting[at].at - now);
        }
        let ghost before = *self;
        let next = self.waiting.remove(at);
        proof {
            assert(self.waiting@ == before.waiting@.remove(at as int));
            assert(before.is_first(at as int));
            assert forall|i: int, j: int| 0 <= i < j < self.waiting@.len() implies (
            #[trigger] self.waiting@[i]).seq < (#[trigger] self.waiting@[j]).seq by {
                let a = if i < at {
                    i
                } else {
                    i + 1
                };
                let b = if j < at {
                    j
                } else {
                    j + 1
                };
                assert(self.waiting@[i] == before.waiting@[a]);
                assert(self.waiting@[j] == before.waiting@[b]);
            }
            assert forall|i: int| 0 <= i < self.waiting@.len() implies (
            #[trigger] self.waiting@[i]).seq <= self.seq by {
                let a = if i < at {
                    i
                } else {
                    i + 1
                };
                assert(self.waiting@[i] == before.waiting@[a]);
            }
        }
        Due::Deliver(next.data)
    }

    /// Close the queue.
    pub fn shut(&mut self)
        requires
            old(self).wf(),
        ensures
            final(self).wf(),
            *final(self) == (SchedQueue { stop: true, ..*old(self) }),
    {
        self.stop = true;
    }
}

/// There is only one message that goes first.
pub proof fn law_one_message_goes_first(queue: SchedQueue, i: int, j: int)
    requires
        queue.is_first(i),
        queue.is_first(j),
    ensures
        i == j,
{
    if i != j {
        assert(sooner(queue.waiting@[i], queue.waiting@[j]));
        assert(sooner(queue.waiting@[j], queue.waiting@[i]));
    }
}

/// Messages of the same moment go in the order in which they came: the one
/// that goes first came before every other of its moment.
pub proof fn law_equals_keep_their_order(queue: SchedQueue, i: int, j: int)
    requires
        queue.wf(),
        queue.is_first(i),
        0 <= j < queue.waiting@.len(),
        j != i,
        queue.waiting@[j].at == queue.waiting@[i].at,
    ensures
        i < j,
{
    assert(sooner(queue.waiting@[i], queue.waiting@[j]));
    if j < i {
        assert(queue.waiting@[j].seq < queue.waiting@[i].seq);
    }
}

/// A moment of the host's clock as ticks of its timer: so many nanoseconds
/// from now, in ticks of a numerator over a denominator of nanoseconds each. A
/// moment that has gone is now, which is zero.
pub fn host_timestamp(delta: Option<u128>, numer: u32, denom: u32, now: u64) -> (r: u64)
    ensures
        ({
            let n = if numer == 0 {
                1nat
            } else {
                numer as nat
            };
            let d = if denom == 0 {
                1nat
            } else {
                denom as nat
            };
            match delta {
                None => r == 0,
                Some(ns) => {
                    let scaled = if ns * d > u128::MAX {
                        u128::MAX as nat
                    } else {
                        (ns * d) as nat
                    };
                    let ticks = scaled / n % 0x1_0000_0000_0000_0000;
                    r == (if now + ticks > u64::MAX {
                        u64::MAX as int
                    } else {
                        now + ticks
                    })
                },
            }
        }),
{
    let n: u128 = if numer == 0 {
        1
    } else {
        numer as u128
    };
    let d: u128 = if denom == 0 {
        1
    } else {
        denom as u128
    };
    match delta {
        None => 0,
        Some(ns) => {
            let scaled: u128 = match ns.checked_mul(d) {
                Some(v) => v,
                None => u128::MAX,
            };
            let ticks: u64 = (scaled / n % 0x1_0000_0000_0000_0000) as u64;
            if ticks > u64::MAX - now {
                u64::MAX
            } else {
                now + ticks
            }
        },
    }
}

/// How far behind one packet of a list the next one begins: behind its header
/// and its data, at a multiple of four.
pub fn next_packet(length: u16) -> (r: usize)
    ensures
        r % 4 == 0,
        10 + length <= r < 14 + length,
{
    (length as usize + 13) / 4 * 4
}

} // verus!
