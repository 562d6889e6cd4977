//! One coordinated disk change. The host stops every player at a common
//! confirmed frame, compares their states, hands out the image, and lets
//! them resume only when all of them agree on the result.
use vstd::prelude::*;
use crate::bytes::same_bytes;
use crate::netplay::input::MAX_PLAYERS;

verus! {

/// Frames a stopped player may be from another.
pub const MAX_FRAME_GAP: u64 = 32;

/// Milliseconds a disk change may take.
pub const SWAP_TIMEOUT: u64 = 180_000;

/// Floppy drives a machine can have.
pub const DRIVES: usize = 4;

/// Where a disk change stands, on the host and on a guest.
#[derive(Clone, Copy, Debug, PartialEq, Eq, Structural)]
pub enum SwapPhase {
    HostHeld,
    HostReady,
    HostPrepared,
    HostApplied,
    GuestTarget,
    GuestReady,
    GuestBytes,
    GuestApply,
    GuestResume,
}

/// What the players tell each other about a disk change.
#[derive(Clone, Copy, Debug)]
pub enum SwapMessage {
    Begin { drive: usize, size: usize, hash: [u8; 32], writable: bool },
    Held { frame: u64 },
    Target { frame: u64 },
    Ready { hash: [u8; 32] },
    Prepared,
    Apply,
    Applied { hash: [u8; 32] },
    Resume,
}

/// A disk change in progress. The host keeps what each guest has reported,
/// by controller port.
pub struct Swap {
    pub phase: SwapPhase,
    /// The frame everyone stops at.
    pub stop: u64,
    pub drive: usize,
    pub writable: bool,
    pub size: usize,
    pub hash: [u8; 32],
    pub bytes: Option<Vec<u8>>,
    /// The host's own digest at the stopped boundary, kept for spectators.
    pub own_digest: Option<[u8; 32]>,
    pub started: u64,
    pub held: [Option<u64>; MAX_PLAYERS],
    pub ready: [Option<[u8; 32]>; MAX_PLAYERS],
    pub prepared: [bool; MAX_PLAYERS],
    pub applied: [Option<[u8; 32]>; MAX_PLAYERS],
}

/// Every guest of the list has reported.
pub open spec fn all_reported<V>(marks: Seq<Option<V>>, guests: Seq<usize>) -> bool {
    forall|i: int| 0 <= i < guests.len() ==> marks[#[trigger] guests[i] as int] is Some
}

/// Every guest of the list has said it is prepared.
pub open spec fn all_prepared(marks: Seq<bool>, guests: Seq<usize>) -> bool {
    forall|i: int| 0 <= i < guests.len() ==> marks[#[trigger] guests[i] as int]
}

/// Every digest reported is this one.
pub open spec fn all_agree(marks: Seq<Option<[u8; 32]>>, own: Seq<u8>) -> bool {
    forall|p: int|
        #![trigger marks[p]]
        0 <= p < marks.len() ==> (marks[p] matches Some(hash) ==> hash@ == own)
}

/// The ports of a list are controller ports.
pub open spec fn ports_ok(guests: Seq<usize>) -> bool {
    forall|i: int| 0 <= i < guests.len() ==> #[trigger] guests[i] < MAX_PLAYERS
}

/// The furthest frame among `frame` and the first `n` reports.
pub open spec fn furthest(held: Seq<Option<u64>>, frame: u64, n: int) -> u64
    decreases n,
{
    if n <= 0 {
        frame
    } else {
        let rest = furthest(held, frame, n - 1);
        match held[n - 1] {
            Some(f) if f > rest => f,
            _ => rest,
        }
    }
}

/// Nobody has to rewind for a disk change: the frame everyone stops at is
/// one that some player has reached, and no player is past it.
pub proof fn law_nobody_rewinds(held: Seq<Option<u64>>, frame: u64, n: int)
    requires
        0 <= n <= held.len(),
    ensures
        furthest(held, frame, n) >= frame,
        forall|p: int| 0 <= p < n ==> (#[trigger] held[p] matches Some(f) ==> f <= furthest(
            held,
            frame,
            n,
        )),
        furthest(held, frame, n) == frame || exists|p: int|
            0 <= p < n && #[trigger] held[p] == Some(furthest(held, frame, n)),
    decreases n,
{
    if n > 0 {
        law_nobody_rewinds(held, frame, n - 1);
        if furthest(held, frame, n) != frame {
            if furthest(held, frame, n) == furthest(held, frame, n - 1) {
                let p = choose|p: int|
                    0 <= p < n - 1 && #[trigger] held[p] == Some(furthest(held, frame, n - 1));
                assert(held[p] == Some(furthest(held, frame, n)));
            } else {
                assert(held[n - 1] == Some(furthest(held, frame, n)));
            }
        }
    }
}

fn reported<V: Copy>(marks: &[Option<V>], guests: &[usize]) -> (r: bool)
    requires
        marks@.len() == MAX_PLAYERS,
        ports_ok(guests@),
    ensures
        r == all_reported(marks@, guests@),
{
    let mut i: usize = 0;
    while i < guests.len()
        invariant
            marks@.len() == MAX_PLAYERS,
            ports_ok(guests@),
            i <= guests@.len(),
            forall|j: int| 0 <= j < i ==> marks@[#[trigger] guests@[j] as int] is Some,
        decreases guests@.len() - i,
    {
        if marks[guests[i]].is_none() {
            assert(marks@[guests@[i as int] as int] is None);
            return false;
        }
        i += 1;
    }
    true
}

fn prepared_all(marks: &[bool], guests: &[usize]) -> (r: bool)
    requires
        marks@.len() == MAX_PLAYERS,
        ports_ok(guests@),
    ensures
        r == all_prepared(marks@, guests@),
{
    let mut i: usize = 0;
    while i < guests.len()
        invariant
            marks@.len() == MAX_PLAYERS,
            ports_ok(guests@),
            i <= guests@.len(),
            forall|j: int| 0 <= j < i ==> marks@[#[trigger] guests@[j] as int],
        decreases guests@.len() - i,
    {
        if !marks[guests[i]] {
            assert(!marks@[guests@[i as int] as int]);
            return false;
        }
        i += 1;
    }
    true
}

fn agree(marks: &[Option<[u8; 32]>], own: &[u8; 32]) -> (r: bool)
    ensures
        r == all_agree(marks@, own@),
{
    let mut p: usize = 0;
    while p < marks.len()
        invariant
            p <= marks@.len(),
            forall|q: int|
                #![trigger marks@[q]]
                0 <= q < p ==> (marks@[q] matches Some(hash) ==> hash@ == own@),
        decreases marks@.len() - p,
    {
        if let Some(hash) = &marks[p] {
            if !same_bytes(hash, own) {
                assert(marks@[p as int] == Some(*hash));
                return false;
            }
        }
        p += 1;
    }
    true
}

impl Swap {
    /// A change that has just begun.
    pub open spec fn fresh(
        self,
        phase: SwapPhase,
        stop: u64,
        drive: usize,
        writable: bool,
        size: usize,
        hash: [u8; 32],
        now: u64,
    ) -> bool {
        &&& self.phase == phase
        &&& self.stop == stop
        &&& self.drive == drive
        &&& self.writable == writable
        &&& self.size == size
        &&& self.hash == hash
        &&& self.bytes is None
        &&& self.own_digest is None
        &&& self.started == now
        &&& forall|p: int| 0 <= p < MAX_PLAYERS ==> #[trigger] self.held[p] is None
        &&& forall|p: int| 0 <= p < MAX_PLAYERS ==> #[trigger] self.ready[p] is None
        &&& forall|p: int| 0 <= p < MAX_PLAYERS ==> !#[trigger] self.prepared[p]
        &&& forall|p: int| 0 <= p < MAX_PLAYERS ==> #[trigger] self.applied[p] is None
    }

    pub fn new(
        phase: SwapPhase,
        stop: u64,
        drive: usize,
        writable: bool,
        size: usize,
        hash: [u8; 32],
        now: u64,
    ) -> (r: Swap)
        ensures
            r.fresh(phase, stop, drive, writable, size, hash, now),
    {
        Swap {
            phase,
            stop,
            drive,
            writable,
            size,
            hash,
            bytes: None,
            own_digest: None,
            started: now,
            held: [None, None, None, None],
            ready: [None, None, None, None],
            prepared: [false, false, false, false],
            applied: [None, None, None, None],
        }
    }

    /// Whether a player may have stopped this far from another.
    pub open spec fn near(a: u64, b: u64) -> bool {
        -MAX_FRAME_GAP <= a - b <= MAX_FRAME_GAP
    }

    /// A guest has stopped at `peer`. When all have, everyone goes on to the
    /// furthest frame any player has reached, so nobody has to rewind.
    pub fn hold(&mut self, from: usize, peer: u64, frame: u64, guests: &[usize]) -> (r: Option<u64>)
        requires
            from < MAX_PLAYERS,
            ports_ok(guests@),
        ensures
            final(self).held@ == old(self).held@.update(from as int, Some(peer)),
            r == (if all_reported(final(self).held@, guests@) {
                Some(furthest(final(self).held@, frame, MAX_PLAYERS as int))
            } else {
                None
            }),
            match r {
                Some(target) => *final(self) == (Swap {
                    held: final(self).held,
                    stop: target,
                    phase: SwapPhase::HostReady,
                    ..*old(self)
                }),
                None => *final(self) == (Swap { held: final(self).held, ..*old(self) }),
            },
    {
        self.held[from] = Some(peer);
        if !reported(self.held.as_slice(), guests) {
            return None;
        }
        let mut target: u64 = frame;
        let mut p: usize = 0;
        while p < MAX_PLAYERS
            invariant
                p <= MAX_PLAYERS,
                target == furthest(self.held@, frame, p as int),
            decreases MAX_PLAYERS - p,
        {
            if let Some(f) = self.held[p] {
                if f > target {
                    target = f;
                }
            }
            p += 1;
        }
        self.stop = target;
        self.phase = SwapPhase::HostReady;
        Some(target)
    }

    /// A guest's digest at the stopped boundary.
    pub fn report_ready(&mut self, from: usize, hash: [u8; 32])
        requires
            from < MAX_PLAYERS,
        ensures
            final(self).ready@ == old(self).ready@.update(from as int, Some(hash)),
            *final(self) == (Swap { ready: final(self).ready, ..*old(self) }),
    {
        self.ready[from] = Some(hash);
    }

    /// A guest holds the verified image. Returns whether all do.
    pub fn report_prepared(&mut self, from: usize, guests: &[usize]) -> (r: bool)
        requires
            from < MAX_PLAYERS,
            ports_ok(guests@),
        ensures
            final(self).prepared@ == old(self).prepared@.update(from as int, true),
            *final(self) == (Swap { prepared: final(self).prepared, ..*old(self) }),
            r == all_prepared(final(self).prepared@, guests@),
    {
        self.prepared[from] = true;
        prepared_all(self.prepared.as_slice(), guests)
    }

    /// A guest's digest after the change. Returns whether all have reported.
    pub fn report_applied(&mut self, from: usize, hash: [u8; 32], guests: &[usize]) -> (r: bool)
        requires
            from < MAX_PLAYERS,
            ports_ok(guests@),
        ensures
            final(self).applied@ == old(self).applied@.update(from as int, Some(hash)),
            *final(self) == (Swap { applied: final(self).applied, ..*old(self) }),
            r == all_reported(final(self).applied@, guests@),
    {
        self.applied[from] = Some(hash);
        reported(self.applied.as_slice(), guests)
    }

    /// Whether every guest has reported its digest at the boundary.
    pub fn everyone_ready(&self, guests: &[usize]) -> (r: bool)
        requires
            ports_ok(guests@),
        ensures
            r == all_reported(self.ready@, guests@),
    {
        reported(self.ready.as_slice(), guests)
    }

    /// Whether every digest reported before the change is the host's.
    pub fn agreed_before(&self, own: &[u8; 32]) -> (r: bool)
        ensures
            r == all_agree(self.ready@, own@),
    {
        agree(self.ready.as_slice(), own)
    }

    /// Whether every digest reported after the change is the host's.
    pub fn agreed_after(&self, own: &[u8; 32]) -> (r: bool)
        ensures
            r == all_agree(self.applied@, own@),
    {
        agree(self.applied.as_slice(), own)
    }
}

} // verus!
