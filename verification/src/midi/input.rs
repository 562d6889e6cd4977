//! The host-to-guest input ring.
//!
//! Bytes that do not fit are lost at the tail, as they are when a receiver
//! overruns.
use ringbuf::traits::{Consumer, Observer, Producer};
use ringbuf::HeapRb;
use vstd::prelude::*;

verus! {

/// How many bytes the ring holds. A stream is a few thousand bytes a second
/// and is drained all the time, so this only absorbs a burst.
pub const INPUT_RING_BYTES: usize = 8192;

/// The status byte that says nothing but that the line is alive.
pub const ACTIVE_SENSE: u8 = 0xfe;

/// `ringbuf::HeapRb` of bytes, held whole.
#[verifier::external_body]
pub struct InputRing {
    ring: HeapRb<u8>,
}

/// What a ring holds, the eldest first.
pub uninterp spec fn held(ring: InputRing) -> Seq<u8>;

/// How much a ring can hold.
pub uninterp spec fn room(ring: InputRing) -> nat;

/// `HeapRb::new`. Claimed of it: the ring is empty and can hold as many bytes
/// as were asked for. It panics where that is none.
#[verifier::external_body]
fn new_ring(capacity: usize) -> (r: InputRing)
    requires
        capacity > 0,
    ensures
        held(r) == Seq::<u8>::empty(),
        room(r) == capacity,
{
    InputRing { ring: HeapRb::new(capacity) }
}

/// `Producer::push_slice`. Claimed of it: as many of the bytes as there is
/// room for are put behind what the ring holds, from the first on, and their
/// number is returned.
#[verifier::external_body]
fn push_slice(ring: &mut InputRing, data: &[u8]) -> (n: usize)
    requires
        held(*old(ring)).len() <= room(*old(ring)),
    ensures
        n <= data@.len(),
        n == data@.len() || held(*old(ring)).len() + n == room(*old(ring)),
        held(*final(ring)) == held(*old(ring)) + data@.take(n as int),
        room(*final(ring)) == room(*old(ring)),
        held(*final(ring)).len() <= room(*final(ring)),
{
    ring.ring.push_slice(data)
}

/// `Consumer::try_pop`. Claimed of it: the eldest byte leaves the ring and is
/// returned; where the ring is empty there is none and nothing changes.
#[verifier::external_body]
fn try_pop(ring: &mut InputRing) -> (r: Option<u8>)
    ensures
        room(*final(ring)) == room(*old(ring)),
        match r {
            Some(b) => held(*old(ring)).len() > 0 && b == held(*old(ring))[0] && held(*final(ring))
                == held(*old(ring)).drop_first(),
            None => held(*old(ring)).len() == 0 && held(*final(ring)) == held(*old(ring)),
        },
{
    ring.ring.try_pop()
}

/// `Observer::is_empty`. Claimed of it: it says whether the ring holds
/// nothing.
#[verifier::external_body]
fn is_empty(ring: &InputRing) -> (r: bool)
    ensures
        r == (held(*ring).len() == 0),
{
    ring.ring.is_empty()
}

/// The bytes among the first ones that are passed on: all of them, or all but
/// those that say nothing.
pub open spec fn passed(data: Seq<u8>, strip: bool, n: int) -> Seq<u8>
    decreases n,
{
    if n <= 0 {
        Seq::empty()
    } else if strip && data[n - 1] == ACTIVE_SENSE {
        passed(data, strip, n - 1)
    } else {
        passed(data, strip, n - 1).push(data[n - 1])
    }
}

/// Bytes behind others, as far as there is room.
pub open spec fn filled(before: Seq<u8>, more: Seq<u8>, room: nat) -> Seq<u8> {
    if before.len() + more.len() <= room {
        before + more
    } else {
        (before + more).take(room as int)
    }
}

/// The guest's side of the input.
pub struct MidiInput {
    pub ring: InputRing,
    /// Bytes that say nothing are dropped. A real machine passes them on, and
    /// so does the default; some host interfaces drop them.
    pub strip: bool,
}

impl MidiInput {
    /// The bytes that wait for the guest.
    pub open spec fn waiting(self) -> Seq<u8> {
        held(self.ring)
    }

    pub open spec fn wf(self) -> bool {
        &&& room(self.ring) == INPUT_RING_BYTES
        &&& held(self.ring).len() <= INPUT_RING_BYTES
    }

    pub fn new(strip: bool) -> (r: MidiInput)
        ensures
            r.wf(),
            r.strip == strip,
            r.waiting() == Seq::<u8>::empty(),
    {
        MidiInput { ring: new_ring(INPUT_RING_BYTES), strip }
    }

    /// Bytes have come from the host. What does not fit is lost.
    pub fn push_input(&mut self, data: &[u8])
        requires
            old(self).wf(),
        ensures
            final(self).wf(),
            final(self).strip == old(self).strip,
            final(self).waiting() == filled(
                old(self).waiting(),
                passed(data@, old(self).strip, data@.len() as int),
                8192 as nat,
            ),
    {
        let ghost before = self.waiting();
        let ghost limit = INPUT_RING_BYTES as nat;
        if !self.strip {
            push_slice(&mut self.ring, data);
            proof {
                lemma_all_passed(data@, data@.len() as int);
                assert(data@.take(data@.len() as int) =~= data@);
                assert(self.waiting() =~= filled(before, data@, limit));
            }
            return ;
        }
        let mut i: usize = 0;
        assert(filled(before, passed(data@, true, 0), limit) =~= before);
        while i < data.len()
            invariant
                i <= data@.len(),
                self.wf(),
                self.strip,
                limit == INPUT_RING_BYTES,
                before.len() <= limit,
                old(self).strip,
                before == old(self).waiting(),
                self.waiting() == filled(before, passed(data@, true, i as int), limit),
            decreases data@.len() - i,
        {
            let ghost so_far = passed(data@, true, i as int);
            let ghost here = self.waiting();
            if data[i] != ACTIVE_SENSE {
                let one: [u8; 1] = [data[i]];
                push_slice(&mut self.ring, one.as_slice());
                proof {
                    let b = data@[i as int];
                    assert(one@ =~= seq![b]);
                    assert(one@.take(1) =~= seq![b]);
                    assert(one@.take(0) =~= Seq::empty());
                    assert(passed(data@, true, i + 1) == so_far.push(b));
                    assert(self.waiting() =~= filled(before, so_far.push(b), limit));
                }
            }
            i += 1;
        }
    }

    /// The next byte for the guest.
    pub fn read_byte(&mut self) -> (r: Option<u8>)
        requires
            old(self).wf(),
        ensures
            final(self).wf(),
            final(self).strip == old(self).strip,
            match r {
                Some(b) => old(self).waiting().len() > 0 && b == old(self).waiting()[0]
                    && final(self).waiting() == old(self).waiting().drop_first(),
                None => old(self).waiting().len() == 0 && final(self).waiting() == old(
                    self,
                ).waiting(),
            },
    {
        try_pop(&mut self.ring)
    }

    /// Whether a byte waits for the guest.
    pub fn has_pending_input(&self) -> (r: bool)
        ensures
            r == (self.waiting().len() > 0),
    {
        !is_empty(&self.ring)
    }
}

proof fn lemma_all_passed(data: Seq<u8>, n: int)
    requires
        0 <= n <= data.len(),
    ensures
        passed(data, false, n) == data.take(n),
    decreases n,
{
    if n > 0 {
        lemma_all_passed(data, n - 1);
        assert(data.take(n) =~= data.take(n - 1).push(data[n - 1]));
    } else {
        assert(data.take(n) =~= Seq::empty());
    }
}

/// Nothing is reordered or made up: what waits after bytes have come begins
/// with what waited before, and goes on with the first of those that are
/// passed on.
pub proof fn law_input_keeps_its_order(before: Seq<u8>, more: Seq<u8>, room: nat)
    requires
        before.len() <= room,
    ensures
        ({
            let after = filled(before, more, room);
            &&& after.take(before.len() as int) == before
            &&& after.skip(before.len() as int) == more.take(after.len() - before.len())
            &&& after.len() <= room
        }),
{
    let after = filled(before, more, room);
    assert(after.take(before.len() as int) =~= before);
    assert(after.skip(before.len() as int) =~= more.take(after.len() - before.len()));
}

} // verus!
