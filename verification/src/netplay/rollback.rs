//! Bounded, frame-indexed input prediction and rollback, independent of
//! transport.
//!
//! Every player owns one controller port. Each frame executes one input per
//! port, so two players and a four-player adapter session differ only in how
//! many ports a frame carries: prediction, confirmation and replay are the
//! same for all of them.
use std::collections::VecDeque;
use vstd::prelude::*;
use crate::netplay::digest::{digest, sha256};
use crate::netplay::input::{Input, MAX_PLAYERS};
use crate::netplay::machine::{
    frames_shown, keys_before, lemma_replays_show_nothing, lemma_state_prefix, state_at, Machine,
    MachineError, MachineEvent,
};
use crate::netplay::timeline::{
    is_newest_until, lemma_newest_until, lists_from, newest_until, Timeline,
};

verus! {

/// The most snapshot bytes the retained frames may hold.
pub const MEMORY_LIMIT: usize = 0x1000_0000;

/// Frames between two state digests.
pub const HASH_INTERVAL: u64 = 60;

/// The last frame number a timeline can reach.
pub const FRAME_LIMIT: u64 = 0xffff_ffff_0000_0000;

/// Digests kept for comparison with the peers'.
pub const HASHES_KEPT: usize = 8;

/// Why the timeline refused an operation.
#[derive(Clone, Copy, Debug, PartialEq, Eq, Structural)]
pub enum RollbackError {
    /// An input names a port the peer does not own.
    ForeignPort,
    /// An input is past the horizon any honest peer can reach.
    TooFarAhead,
    /// A peer changed an input it had already submitted.
    ChangedInput { frame: u64 },
    /// An acknowledgement names a port that is not a peer's.
    ForeignAcknowledgement,
    /// A peer acknowledged input that was never submitted.
    UnsubmittedAcknowledgement,
    /// Retained snapshots exceed the memory budget.
    SnapshotBudget,
    /// The machine itself failed.
    Machine(MachineError),
}

/// A frame that has been executed and may still have to be replayed.
pub struct Frame {
    pub number: u64,
    pub before: Vec<u8>,
    /// The complete input set this frame executed, remote predictions
    /// included, in port order.
    pub inputs: Vec<Input>,
    pub previous_keys: [u8; 16],
}

/// Confirmed frames and checkpoint digests, retained for a spectator feed
/// once every port's input for a frame is final.
pub struct ConfirmedLog {
    pub inputs: Vec<(u64, [Input; MAX_PLAYERS])>,
    pub hashes: Vec<(u64, [u8; 32])>,
}

/// The inputs of every port by frame, and the frames executed on predictions
/// that may still turn out wrong.
pub struct Rollback {
    pub current: u64,
    pub confirmed: u64,
    /// Next input needed from each player; the local port's entry is unused.
    pub received: [u64; MAX_PLAYERS],
    /// What each peer has acknowledged of this peer's own input.
    pub acknowledged: [u64; MAX_PLAYERS],
    pub local: Timeline<Input>,
    pub remote: Vec<Timeline<Input>>,
    /// A host relays every player's input to every other player, so it keeps
    /// each port's inputs until the last link has acknowledged them. Guests
    /// relay nothing and leave this at the confirmed frontier.
    pub relay_floor: [u64; MAX_PLAYERS],
    pub history: VecDeque<Frame>,
    pub previous_keys: [u8; 16],
    pub dirty: Option<u64>,
    pub bytes: usize,
    pub player: usize,
    pub players: usize,
    pub delay: u64,
    pub window: u64,
    pub hashes: Timeline<[u8; 32]>,
    pub rollbacks: u64,
    pub replayed_frames: u64,
    pub log: Option<ConfirmedLog>,
    /// Every input each port ever contributed, pruned or not.
    pub submitted: Ghost<Seq<Map<u64, Input>>>,
    /// The inputs every frame executed last, from the first frame on.
    pub trace: Ghost<Seq<Seq<Input>>>,
}

/// The smaller of two frame numbers.
pub open spec fn earlier(a: u64, b: u64) -> u64 {
    if a <= b {
        a
    } else {
        b
    }
}

/// The least of the first `n` values, leaving out the one at `skip`.
pub open spec fn least_but(values: Seq<u64>, skip: int, n: int) -> Option<u64>
    decreases n,
{
    if n <= 0 {
        None
    } else {
        let rest = least_but(values, skip, n - 1);
        if n - 1 == skip {
            rest
        } else {
            match rest {
                None => Some(values[n - 1]),
                Some(r) => Some(earlier(r, values[n - 1])),
            }
        }
    }
}

proof fn lemma_least_but(values: Seq<u64>, skip: int, n: int)
    ensures
        least_but(values, skip, n) matches Some(m) ==> {
            &&& forall|p: int| 0 <= p < n && p != skip ==> m <= #[trigger] values[p]
            &&& exists|p: int| 0 <= p < n && p != skip && m == #[trigger] values[p]
        },
        least_but(values, skip, n) is None ==> forall|p: int|
            #![trigger values[p]]
            0 <= p < n ==> p == skip,
    decreases n,
{
    if n > 0 {
        lemma_least_but(values, skip, n - 1);
        let m = least_but(values, skip, n);
        if n - 1 != skip {
            match least_but(values, skip, n - 1) {
                None => {
                    assert(values[n - 1] == m->0);
                },
                Some(r) => {
                    let p = choose|p: int| 0 <= p < n - 1 && p != skip && r == #[trigger] values[p];
                    assert(values[p] == r);
                    assert(values[n - 1] == values[n - 1]);
                },
            }
        }
    }
}

/// A port's prediction for frame `f`: its last known input, without repeating
/// relative mouse motion that belonged to an earlier frame.
pub open spec fn predicted(known: Map<u64, Input>, f: u64) -> Input {
    match newest_until(known, f) {
        None => Input::neutral(),
        Some((e, input)) => if e == f {
            input
        } else {
            input.still()
        },
    }
}

/// The snapshot bytes a list of frames holds.
pub open spec fn snapshot_bytes(frames: Seq<Frame>) -> int
    decreases frames.len(),
{
    if frames.len() == 0 {
        0
    } else {
        snapshot_bytes(frames.drop_last()) + frames.last().before@.len()
    }
}

proof fn lemma_snapshot_bytes_front(frames: Seq<Frame>)
    requires
        frames.len() > 0,
    ensures
        snapshot_bytes(frames) == frames[0].before@.len() + snapshot_bytes(frames.drop_first()),
        snapshot_bytes(frames.drop_first()) >= 0,
    decreases frames.len(),
{
    if frames.len() > 1 {
        lemma_snapshot_bytes_front(frames.drop_last());
        assert(frames.drop_last().drop_first() =~= frames.drop_first().drop_last());
        assert(frames.drop_first().last() == frames.last());
    } else {
        assert(frames.drop_last() =~= Seq::<Frame>::empty());
        assert(frames.drop_first() =~= Seq::<Frame>::empty());
    }
}

proof fn lemma_snapshot_bytes_nonneg(frames: Seq<Frame>)
    ensures
        snapshot_bytes(frames) >= 0,
    decreases frames.len(),
{
    if frames.len() > 0 {
        lemma_snapshot_bytes_nonneg(frames.drop_last());
    }
}

impl Rollback {
    /// Whether a port belongs to another player of the session.
    pub open spec fn is_peer(self, p: int) -> bool {
        0 <= p < self.players && p != self.player
    }

    /// The inputs retained for a port.
    pub open spec fn held(self, p: int) -> Map<u64, Input> {
        if p == self.player {
            self.local@
        } else {
            self.remote@[p]@
        }
    }

    /// The first frame any peer's input is still missing for; zero without
    /// peers.
    pub open spec fn spec_received_frontier(self) -> u64 {
        match least_but(self.received@, self.player as int, self.players as int) {
            Some(m) => m,
            None => 0,
        }
    }

    /// The first local frame a peer this port sends to has yet to
    /// acknowledge.
    pub open spec fn spec_ack_frontier(self) -> u64 {
        if self.player == 0 {
            match least_but(self.acknowledged@, 0, self.players as int) {
                Some(m) => m,
                None => 0,
            }
        } else {
            self.acknowledged[0]
        }
    }

    /// Where confirmation reaches: every port's input is final below it.
    pub open spec fn confirmable(self) -> u64 {
        earlier(self.current, self.spec_received_frontier())
    }

    /// The last frame number an honest peer's input can carry.
    pub open spec fn horizon(self) -> int {
        self.current + self.window + 2 * self.delay + 1
    }

    /// The inputs frame `f` executes now: the local input, and each peer's
    /// input or the prediction for it.
    pub open spec fn executes(self, f: u64) -> Seq<Input> {
        Seq::new(
            self.players as nat,
            |p: int|
                if p == self.player {
                    self.local@[f]
                } else {
                    predicted(self.remote@[p]@, f)
                },
        )
    }

    /// No frame is waiting to be replayed.
    pub open spec fn reconciled(self) -> bool {
        self.dirty is None
    }

    /// Frames below this executed what is now known of their inputs.
    pub open spec fn settled(self) -> int {
        match self.dirty {
            Some(d) => d as int,
            None => self.current as int,
        }
    }

    /// The retained inputs are consistent with everything submitted, and
    /// reach from the confirmed frontier to what the timeline needs.
    pub open spec fn inputs_ok(self) -> bool {
        &&& self.player < self.players
        &&& 2 <= self.players <= MAX_PLAYERS
        &&& self.delay <= 255
        &&& self.window <= 255
        &&& self.remote@.len() == MAX_PLAYERS
        &&& self.submitted@.len() == MAX_PLAYERS
        &&& self.local.wf()
        &&& self.hashes.wf()
        &&& forall|p: int| 0 <= p < MAX_PLAYERS ==> (#[trigger] self.remote@[p]).wf()
        &&& self.confirmed <= self.current <= FRAME_LIMIT
        &&& forall|f: u64|
            self.confirmed <= f < self.current + self.delay ==> #[trigger] self.local@.contains_key(
                f,
            )
        &&& forall|f: u64| #[trigger] self.local@.contains_key(f) ==> f <= self.current + self.delay
        &&& forall|p: int|
            #![trigger self.received[p]]
            self.is_peer(p) ==> {
                &&& self.confirmed <= self.received[p]
                &&& self.received[p] <= self.horizon() + 1
                &&& !self.remote@[p]@.contains_key(self.received[p])
            }
        &&& forall|p: int, f: u64|
            #![trigger self.remote@[p]@.contains_key(f)]
            self.is_peer(p) && self.confirmed <= f < self.received[p]
                ==> self.remote@[p]@.contains_key(f)
        &&& forall|p: int, f: u64|
            #![trigger self.remote@[p]@.contains_key(f)]
            self.is_peer(p) && self.remote@[p]@.contains_key(f) ==> f <= self.horizon()
        &&& forall|p: int| #![trigger self.acknowledged[p]]
            self.is_peer(p) ==> self.acknowledged[p] <= self.current + self.delay + 1
        &&& self.submitted_ok()
    }

    /// The same place at the same table: what a session fixes at its start.
    pub open spec fn same_seat(self, before: Rollback) -> bool {
        &&& self.player == before.player
        &&& self.players == before.players
        &&& self.delay == before.delay
        &&& self.window == before.window
    }

    /// What is retained was submitted, and nothing unconfirmed was dropped.
    pub open spec fn submitted_ok(self) -> bool {
        &&& forall|p: int, f: u64|
            #![trigger self.held(p).contains_key(f)]
            0 <= p < self.players && self.held(p).contains_key(f)
                ==> self.submitted@[p].contains_key(f) && self.submitted@[p][f] == self.held(p)[f]
        &&& forall|p: int, f: u64|
            #![trigger self.submitted@[p].contains_key(f)]
            0 <= p < self.players && f >= self.confirmed && self.submitted@[p].contains_key(f)
                ==> self.held(p).contains_key(f)
        &&& forall|p: int, f: u64|
            #![trigger self.submitted@[p].contains_key(f)]
            self.is_peer(p) && f < self.received[p] ==> self.submitted@[p].contains_key(f)
        &&& forall|f: u64|
            f < self.current + self.delay ==> #[trigger] self.submitted@[self.player as int].contains_key(f)
    }

    /// The retained frames run from the confirmed frontier to `tip`, and the
    /// run so far is recorded up to it.
    pub open spec fn history_ok(self, tip: int) -> bool {
        &&& self.confirmed <= tip
        &&& self.history@.len() == tip - self.confirmed
        &&& self.trace@.len() == tip
        &&& forall|f: int| 0 <= f < tip ==> (#[trigger] self.trace@[f]).len() == self.players
        &&& forall|i: int|
            #![trigger self.history@[i]]
            0 <= i < self.history@.len() ==> {
                &&& self.history@[i].number == self.confirmed + i
                &&& self.history@[i].inputs@ == self.trace@[self.confirmed + i]
                &&& self.history@[i].previous_keys@ == keys_before(
                    self.trace@,
                    self.confirmed + i,
                )
            }
        &&& self.previous_keys@ == keys_before(self.trace@, tip)
        &&& self.bytes == snapshot_bytes(self.history@)
        &&& self.bytes <= MEMORY_LIMIT
    }

    /// Frames below `bound` executed every input submitted for them.
    pub open spec fn faithful(self, bound: int) -> bool {
        forall|f: u64, p: int|
            #![trigger self.submitted@[p].contains_key(f)]
            f < bound && 0 <= p < self.players && self.submitted@[p].contains_key(f)
                ==> self.trace@[f as int][p] == self.submitted@[p][f]
    }

    /// The feed log ends at the confirmed frontier and holds what was
    /// executed.
    pub open spec fn log_ok(self) -> bool {
        self.log matches Some(log) ==> {
            &&& log.inputs@.len() <= self.confirmed
            &&& forall|i: int|
                #![trigger log.inputs@[i]]
                0 <= i < log.inputs@.len() ==> {
                    let f = self.confirmed - log.inputs@.len() + i;
                    &&& log.inputs@[i].0 == f
                    &&& forall|p: int|
                        0 <= p < MAX_PLAYERS ==> #[trigger] log.inputs@[i].1[p] == (if p
                            < self.players {
                            self.trace@[f][p]
                        } else {
                            Input::neutral()
                        })
                }
            &&& forall|i: int|
                0 <= i < log.hashes@.len() ==> 0 < (#[trigger] log.hashes@[i]).0 <= self.confirmed
        }
    }

    /// Everything a timeline keeps between operations.
    pub open spec fn wf(self) -> bool {
        &&& self.inputs_ok()
        &&& self.history_ok(self.current as int)
        &&& self.dirty matches Some(d) ==> self.confirmed <= d < self.current
        &&& self.faithful(self.settled())
        &&& self.log_ok()
        &&& self.hashes_ok()
    }

    /// Retained digests are of frames up to `tip`.
    pub open spec fn hashes_before(self, tip: int) -> bool {
        &&& forall|f: u64| #[trigger] self.hashes@.contains_key(f) ==> f <= tip
        &&& self.log matches Some(log) ==> forall|i: int|
            0 <= i < log.hashes@.len() ==> (#[trigger] log.hashes@[i]).0 <= tip
    }

    /// Digests are of confirmed frames at the checkpoint interval, and few.
    pub open spec fn hashes_ok(self) -> bool {
        &&& forall|f: u64| #[trigger] self.hashes@.contains_key(f) ==> is_checkpoint(f) && f
            <= self.confirmed
        &&& self.hashes.count() <= HASHES_KEPT
    }

    /// `machine` has executed `tip` frames of the recorded run from `origin`,
    /// and every retained snapshot and digest is of that run.
    pub open spec fn follows<M: Machine>(self, machine: M, origin: Seq<u8>, tip: int) -> bool {
        &&& machine.snapshot() == state_at::<M>(origin, self.trace@, tip)
        &&& self.retains::<M>(origin)
    }

    /// Every retained snapshot and digest is of the recorded run from
    /// `origin`.
    pub open spec fn retains<M: Machine>(self, origin: Seq<u8>) -> bool {
        &&& forall|i: int|
            #![trigger self.history@[i]]
            0 <= i < self.history@.len() ==> self.history@[i].before@ == state_at::<M>(
                origin,
                self.trace@,
                self.history@[i].number as int,
            )
        &&& forall|f: u64| #[trigger]
            self.hashes@.contains_key(f) ==> self.hashes@[f]@ == sha256(
                state_at::<M>(origin, self.trace@, f as int),
            )
        &&& self.log matches Some(log) ==> forall|i: int|
            #![trigger log.hashes@[i]]
            0 <= i < log.hashes@.len() ==> log.hashes@[i].1@ == sha256(
                state_at::<M>(origin, self.trace@, log.hashes@[i].0 as int),
            )
    }
}

/// Whether a digest is taken at this frame.
pub open spec fn is_checkpoint(f: u64) -> bool {
    f > 0 && f % HASH_INTERVAL == 0
}

impl Rollback {
    /// Nothing has been played yet: the first `delay` frames are neutral, and
    /// every player is waited for from there on.
    pub open spec fn is_fresh(self, player: usize, players: usize, delay: u8, window: u8) -> bool {
        &&& self.player == player
        &&& self.players == players
        &&& self.delay == delay
        &&& self.window == window
        &&& self.current == 0
        &&& self.confirmed == 0
        &&& self.rollbacks == 0
        &&& self.replayed_frames == 0
        &&& self.history@.len() == 0
        &&& self.bytes == 0
        &&& self.dirty is None
        &&& self.previous_keys@ == Seq::new(16, |i: int| 0u8)
        &&& self.hashes@ == Map::<u64, [u8; 32]>::empty()
        &&& self.trace@ == Seq::<Seq<Input>>::empty()
        &&& forall|p: int|
            #![trigger self.received[p]]
            #![trigger self.acknowledged[p]]
            #![trigger self.relay_floor[p]]
            0 <= p < MAX_PLAYERS ==> self.received[p] == delay && self.acknowledged[p] == delay
                && self.relay_floor[p] == u64::MAX
        &&& self.local@ == neutral_start(delay)
        &&& forall|p: int|
            0 <= p < MAX_PLAYERS ==> (#[trigger] self.remote@[p])@ == neutral_start(delay)
        &&& forall|p: int|
            0 <= p < MAX_PLAYERS ==> #[trigger] self.submitted@[p] == neutral_start(delay)
    }

    /// A timeline at frame zero. The first `delay` frames are neutral for
    /// every port.
    pub fn new(player: usize, players: usize, delay: u8, window: u8) -> (r: Self)
        requires
            player < players,
            2 <= players <= MAX_PLAYERS,
        ensures
            r.wf(),
            r.reconciled(),
            r.is_fresh(player, players, delay, window),
            r.log is None,
    {
        let local = Self::neutral_timeline(delay);
        let mut remote: Vec<Timeline<Input>> = Vec::new();
        while remote.len() < MAX_PLAYERS
            invariant
                remote@.len() <= MAX_PLAYERS,
                forall|p: int|
                    0 <= p < remote@.len() ==> (#[trigger] remote@[p]).wf() && remote@[p]@
                        == neutral_start(delay),
            decreases MAX_PLAYERS - remote@.len(),
        {
            let start = Self::neutral_timeline(delay);
            remote.push(start);
        }
        let r = Rollback {
            current: 0,
            confirmed: 0,
            received: [delay as u64; MAX_PLAYERS],
            acknowledged: [delay as u64; MAX_PLAYERS],
            local,
            remote,
            relay_floor: [u64::MAX; MAX_PLAYERS],
            history: VecDeque::new(),
            previous_keys: [0u8; 16],
            dirty: None,
            bytes: 0,
            player,
            players,
            delay: delay as u64,
            window: window as u64,
            hashes: Timeline::new(),
            rollbacks: 0,
            replayed_frames: 0,
            log: None,
            submitted: Ghost(Seq::new(MAX_PLAYERS as nat, |p: int| neutral_start(delay))),
            trace: Ghost(Seq::empty()),
        };
        assert(r.previous_keys@ =~= keys_before(r.trace@, 0));
        assert(r.previous_keys@ =~= Seq::new(16, |i: int| 0u8));
        r
    }

    fn neutral_timeline(delay: u8) -> (r: Timeline<Input>)
        ensures
            r.wf(),
            r@ == neutral_start(delay),
    {
        let mut r: Timeline<Input> = Timeline::new();
        let mut f: u8 = 0;
        assert(r@ =~= neutral_start(0));
        while f < delay
            invariant
                f <= delay,
                r.wf(),
                r@ == neutral_start(f),
            decreases delay - f,
        {
            r.insert(f as u64, Input::default());
            f += 1;
            assert(r@ =~= neutral_start(f));
        }
        r
    }

    /// The first frame any peer's input is still missing for.
    pub fn received_frontier(&self) -> (r: u64)
        requires
            self.players <= MAX_PLAYERS,
        ensures
            r == self.spec_received_frontier(),
    {
        least_of(&self.received, self.player, self.players)
    }

    /// The first local frame a peer this port sends to has yet to
    /// acknowledge. A guest submits its input to the host alone, which then
    /// owes it to the other players (see `relay_floor`), so the host's
    /// acknowledgement is the only one that can release local history.
    pub fn ack_frontier(&self) -> (r: u64)
        requires
            self.players <= MAX_PLAYERS,
        ensures
            r == self.spec_ack_frontier(),
    {
        if self.player == 0 {
            least_of(&self.acknowledged, 0, self.players)
        } else {
            self.acknowledged[0]
        }
    }
}

fn least_of(values: &[u64; MAX_PLAYERS], skip: usize, n: usize) -> (r: u64)
    requires
        n <= MAX_PLAYERS,
    ensures
        r == (match least_but(values@, skip as int, n as int) {
            Some(m) => m,
            None => 0,
        }),
{
    let mut least: Option<u64> = None;
    for p in 0..n
        invariant
            n <= MAX_PLAYERS,
            least == least_but(values@, skip as int, p as int),
    {
        if p != skip {
            let v: u64 = values[p];
            least = match least {
                None => Some(v),
                Some(r) => Some(
                    if r <= v {
                        r
                    } else {
                        v
                    },
                ),
            };
        }
    }
    match least {
        Some(m) => m,
        None => 0,
    }
}

/// Neutral input for the frames an input delay leaves unsampled.
pub open spec fn neutral_start(delay: u8) -> Map<u64, Input> {
    Map::new(|f: u64| f < delay, |f: u64| Input::neutral())
}

impl Rollback {
    /// Everything but the inputs received from peers and what follows from
    /// them is as in `before`.
    pub open spec fn same_but_received(self, before: Rollback) -> bool {
        &&& self.current == before.current
        &&& self.confirmed == before.confirmed
        &&& self.acknowledged == before.acknowledged
        &&& self.local == before.local
        &&& self.relay_floor == before.relay_floor
        &&& self.history == before.history
        &&& self.previous_keys == before.previous_keys
        &&& self.bytes == before.bytes
        &&& self.player == before.player
        &&& self.players == before.players
        &&& self.delay == before.delay
        &&& self.window == before.window
        &&& self.hashes == before.hashes
        &&& self.rollbacks == before.rollbacks
        &&& self.replayed_frames == before.replayed_frames
        &&& self.log == before.log
        &&& self.trace@ == before.trace@
    }

    /// Take one input of a peer's port. Inputs may arrive late, repeated and
    /// in any order; a peer that submits two different inputs for a frame is
    /// refused, and so is one past the horizon an honest peer can reach.
    pub fn receive(&mut self, player: usize, frame: u64, input: Input) -> (r: Result<
        (),
        RollbackError,
    >)
        requires
            old(self).wf(),
        ensures
            final(self).wf(),
            r is Err ==> *final(self) == *old(self),
            !old(self).is_peer(player as int) ==> r matches Err(RollbackError::ForeignPort),
            old(self).is_peer(player as int) && frame > old(self).horizon() ==> r matches Err(
                RollbackError::TooFarAhead,
            ),
            old(self).is_peer(player as int) && frame <= old(self).horizon() ==> {
                let known = old(self).remote@[player as int]@;
                if known.contains_key(frame) && known[frame] != input {
                    r matches Err(RollbackError::ChangedInput { frame: f }) && f == frame
                } else if known.contains_key(frame) || frame < old(self).confirmed {
                    r is Ok && *final(self) == *old(self)
                } else {
                    r is Ok && final(self).took(*old(self), player as int, frame, input)
                }
            },
    {
        if player >= self.players || player == self.player {
            return Err(RollbackError::ForeignPort);
        }
        // Our submitted input reaches current + delay, allowing the peer's
        // frontier to reach current + delay + 1. It can then predict `window`
        // frames and sample one more delayed input while stalled there.
        if frame > self.current + self.window + 2 * self.delay + 1 {
            return Err(RollbackError::TooFarAhead);
        }
        if let Some(known) = self.remote[player].get(frame) {
            if !known.same(&input) {
                return Err(RollbackError::ChangedInput { frame });
            }
            return Ok(());
        }
        if frame < self.confirmed {
            return Ok(());
        }
        self.remote[player].insert(frame, input);
        self.submitted = Ghost(
            self.submitted@.update(
                player as int,
                self.submitted@[player as int].insert(frame, input),
            ),
        );
        if frame < self.current {
            let retained: usize = self.history.len();
            let index: usize = (frame - self.confirmed) as usize;
            assert(index < retained && index == frame - self.confirmed);
            if !self.history[index].inputs[player].same(&input) {
                self.dirty = match self.dirty {
                    None => Some(frame),
                    Some(d) => Some(
                        if d <= frame {
                            d
                        } else {
                            frame
                        },
                    ),
                };
            }
        }
        let ghost known = self.remote@[player as int]@;
        let mut next: u64 = self.received[player];
        while self.remote[player].contains(next)
            invariant
                self.remote@[player as int].wf(),
                player < self.remote@.len(),
                known == self.remote@[player as int]@,
                old(self).received[player as int] <= next,
                next <= old(self).horizon() + 1,
                old(self).horizon() < u64::MAX - 1,
                forall|f: u64| #[trigger] known.contains_key(f) ==> f <= old(self).horizon(),
                forall|f: u64|
                    old(self).received[player as int] <= f < next ==> #[trigger] known.contains_key(
                        f,
                    ),
            decreases old(self).horizon() + 2 - next,
        {
            next = next + 1;
        }
        self.received[player] = next;
        proof {
            lemma_took_keeps_wf(*old(self), *self, player as int, frame, input);
        }
        Ok(())
    }

    /// What taking a new input of port `p` changes.
    pub open spec fn took(self, before: Rollback, p: int, frame: u64, input: Input) -> bool {
        &&& self.same_but_received(before)
        &&& self.remote@.len() == before.remote@.len()
        &&& self.remote@[p]@ == before.remote@[p]@.insert(frame, input)
        &&& forall|q: int|
            0 <= q < MAX_PLAYERS && q != p ==> #[trigger] self.remote@[q] == before.remote@[q]
        &&& self.remote@[p].wf()
        &&& self.submitted@ == before.submitted@.update(
            p,
            before.submitted@[p].insert(frame, input),
        )
        &&& forall|q: int|
            0 <= q < MAX_PLAYERS && q != p ==> #[trigger] self.received[q] == before.received[q]
        &&& before.received[p] <= self.received[p]
        &&& forall|f: u64|
            before.received[p] <= f < self.received[p] ==> #[trigger] self.remote@[p]@.contains_key(
                f,
            )
        &&& !self.remote@[p]@.contains_key(self.received[p])
        &&& self.dirty == (if frame < before.current && before.trace@[frame as int][p] != input {
            match before.dirty {
                None => Some(frame),
                Some(d) => Some(earlier(d, frame)),
            }
        } else {
            before.dirty
        })
    }
}

proof fn lemma_took_keeps_wf(
    before: Rollback,
    after: Rollback,
    p: int,
    frame: u64,
    input: Input,
)
    requires
        before.wf(),
        before.is_peer(p),
        before.confirmed <= frame <= before.horizon(),
        !before.remote@[p]@.contains_key(frame),
        after.took(before, p, frame, input),
    ensures
        after.wf(),
{
    assert forall|q: int, f: u64| #![trigger after.held(q).contains_key(f)]
        0 <= q < after.players && after.held(q).contains_key(f) implies after.submitted@[q].contains_key(
        f,
    ) && after.submitted@[q][f] == after.held(q)[f] by {
        if q != p {
            assert(before.held(q).contains_key(f));
        } else if f != frame {
            assert(before.held(q).contains_key(f));
        }
    }
    assert forall|q: int, f: u64| #![trigger after.submitted@[q].contains_key(f)]
        0 <= q < after.players && f >= after.confirmed && after.submitted@[q].contains_key(
        f,
    ) implies after.held(q).contains_key(f) by {
        if q != p || f != frame {
            assert(before.submitted@[q].contains_key(f));
            assert(before.held(q).contains_key(f));
        }
    }
    assert forall|q: int, f: u64| #![trigger after.submitted@[q].contains_key(f)]
        after.is_peer(q) && f < after.received[q] implies after.submitted@[q].contains_key(f) by {
        if q != p {
            assert(before.submitted@[q].contains_key(f));
        } else if f < before.received[p] {
            assert(before.submitted@[q].contains_key(f));
        } else {
            assert(after.remote@[p]@.contains_key(f));
            assert(after.held(p).contains_key(f));
        }
    }
    assert forall|q: int, f: u64| #![trigger after.remote@[q]@.contains_key(f)]
        after.is_peer(q) && after.confirmed <= f < after.received[q] implies after.remote@[q]@.contains_key(
        f,
    ) by {
        if q != p || f < before.received[p] {
            assert(before.remote@[q]@.contains_key(f));
        }
    }
    assert forall|q: int, f: u64| #![trigger after.remote@[q]@.contains_key(f)]
        after.is_peer(q) && after.remote@[q]@.contains_key(f) implies f <= after.horizon() by {
        if q != p || f != frame {
            assert(before.remote@[q]@.contains_key(f));
        }
    }
    assert forall|q: int| #![trigger after.received[q]] after.is_peer(q) implies {
        &&& after.confirmed <= after.received[q]
        &&& after.received[q] <= after.horizon() + 1
        &&& !after.remote@[q]@.contains_key(after.received[q])
    } by {
        assert(before.confirmed <= before.received[q]);
        if q == p && after.received[p] > before.received[p] {
            let last = (after.received[p] - 1) as u64;
            assert(after.remote@[p]@.contains_key(last));
        }
    }
    assert forall|q: int| #![trigger after.acknowledged[q]]
        after.is_peer(q) implies after.acknowledged[q] <= after.current + after.delay + 1 by {
        assert(before.is_peer(q));
    }
    assert forall|q: int| 0 <= q < MAX_PLAYERS implies (#[trigger] after.remote@[q]).wf() by {
        assert(before.remote@[q].wf());
    }
    assert forall|f: u64| f < after.current + after.delay implies #[trigger] after.submitted@[after.player as int].contains_key(
        f,
    ) by {
        assert(before.submitted@[before.player as int].contains_key(f));
    }
    assert(after.inputs_ok());
    assert(after.history_ok(after.current as int));
    assert forall|f: u64, q: int| #![trigger after.submitted@[q].contains_key(f)]
        f < after.settled() && 0 <= q < after.players && after.submitted@[q].contains_key(
        f,
    ) implies after.trace@[f as int][q] == after.submitted@[q][f] by {
        if q != p || f != frame {
            assert(before.submitted@[q].contains_key(f));
        }
    }
}

impl Rollback {
    /// Whether `player` may acknowledge everything below `next`: it was
    /// submitted, or acknowledged already.
    pub open spec fn was_sent(self, next: u64, player: int) -> bool {
        next <= self.acknowledged[player] || exists|f: u64| #[trigger]
            self.local@.contains_key(f) && next <= f + 1
    }

    /// A peer reports the next local input it needs.
    pub fn acknowledge(&mut self, player: usize, next: u64) -> (r: Result<(), RollbackError>)
        requires
            old(self).wf(),
        ensures
            final(self).wf(),
            r is Err ==> *final(self) == *old(self),
            !old(self).is_peer(player as int) ==> r matches Err(
                RollbackError::ForeignAcknowledgement,
            ),
            old(self).is_peer(player as int) && !old(self).was_sent(next, player as int)
                ==> r matches Err(RollbackError::UnsubmittedAcknowledgement),
            old(self).is_peer(player as int) && old(self).was_sent(next, player as int) ==> {
                &&& r is Ok
                &&& final(self).acknowledged@ == old(self).acknowledged@.update(
                    player as int,
                    if next >= old(self).acknowledged[player as int] {
                        next
                    } else {
                        old(self).acknowledged[player as int]
                    },
                )
                &&& *final(self) == (Rollback {
                    acknowledged: final(self).acknowledged,
                    ..*old(self)
                })
            },
    {
        if player >= self.players || player == self.player {
            return Err(RollbackError::ForeignAcknowledgement);
        }
        let known: u64 = self.acknowledged[player];
        let sent_end: u64 = match self.local.last() {
            Some(e) => e.0 + 1,
            None => known,
        };
        if next > sent_end && next > known {
            return Err(RollbackError::UnsubmittedAcknowledgement);
        }
        if next > known {
            self.acknowledged[player] = next;
        }
        assert(self.acknowledged@ =~= old(self).acknowledged@.update(
            player as int,
            if next >= known {
                next
            } else {
                known
            },
        ));
        assert forall|p: int| #![trigger self.acknowledged[p]]
            self.is_peer(p) implies self.acknowledged[p] <= self.current + self.delay + 1 by {
            assert(old(self).acknowledged[p] <= self.current + self.delay + 1);
        }
        assert(self.submitted_ok()) by {
            assert(old(self).submitted_ok());
            assert forall|p: int, f: u64| #![trigger self.held(p).contains_key(f)]
                0 <= p < self.players && self.held(p).contains_key(
                f,
            ) implies self.submitted@[p].contains_key(f) && self.submitted@[p][f] == self.held(
                p,
            )[f] by {
                assert(old(self).held(p).contains_key(f));
            }
            assert forall|p: int, f: u64| #![trigger self.submitted@[p].contains_key(f)]
                0 <= p < self.players && f >= self.confirmed && self.submitted@[p].contains_key(
                f,
            ) implies self.held(p).contains_key(f) by {
                assert(old(self).held(p).contains_key(f));
            }
        }
        Ok(())
    }

    /// Inputs still needed by a peer that acknowledged `from` for `player`,
    /// oldest first. A host reads this to relay one port to one link.
    pub fn pending(&self, player: usize, from: u64) -> (r: Vec<(u64, Input)>)
        requires
            self.wf(),
            player < MAX_PLAYERS,
        ensures
            lists_from(r@, self.held(player as int), from),
    {
        if player == self.player {
            self.local.from_frame(from)
        } else {
            self.remote[player].from_frame(from)
        }
    }

    /// The prediction for `player` at `number`.
    fn predict(&self, player: usize, number: u64) -> (r: Input)
        requires
            player < self.remote@.len(),
            self.remote@[player as int].wf(),
        ensures
            r == predicted(self.remote@[player as int]@, number),
    {
        match self.remote[player].at_or_before(number) {
            None => Input::default(),
            Some(e) => if e.0 == number {
                e.1
            } else {
                e.1.without_motion()
            },
        }
    }

    /// Sample the local input `delay` frames ahead. A frame that already has
    /// one keeps it, so a stalled frame is never sampled again.
    pub fn submit_local(&mut self, input: Input) -> (r: bool)
        requires
            old(self).wf(),
        ensures
            final(self).wf(),
            r == !old(self).local@.contains_key((old(self).current + old(self).delay) as u64),
            !r ==> *final(self) == *old(self),
            r ==> final(self).sampled_local(*old(self), input),
            final(self).local@.contains_key((old(self).current + old(self).delay) as u64),
    {
        let frame: u64 = self.current + self.delay;
        if self.local.contains(frame) {
            return false;
        }
        self.local.insert(frame, input);
        self.submitted = Ghost(
            self.submitted@.update(
                self.player as int,
                self.submitted@[self.player as int].insert(frame, input),
            ),
        );
        proof {
            lemma_sampled_keeps_wf(*old(self), *self, input);
        }
        true
    }

    /// What sampling a new local input changes.
    pub open spec fn sampled_local(self, before: Rollback, input: Input) -> bool {
        let frame = (before.current + before.delay) as u64;
        &&& self.local.wf()
        &&& self.local@ == before.local@.insert(frame, input)
        &&& self.submitted@ == before.submitted@.update(
            before.player as int,
            before.submitted@[before.player as int].insert(frame, input),
        )
        &&& self == Rollback { local: self.local, submitted: self.submitted, ..before }
    }
}

proof fn lemma_sampled_keeps_wf(before: Rollback, after: Rollback, input: Input)
    requires
        before.wf(),
        !before.local@.contains_key((before.current + before.delay) as u64),
        after.sampled_local(before, input),
    ensures
        after.wf(),
{
    let frame = (before.current + before.delay) as u64;
    assert(frame == before.current + before.delay);
    assert forall|q: int, f: u64| #![trigger after.held(q).contains_key(f)]
        0 <= q < after.players && after.held(q).contains_key(f) implies after.submitted@[q].contains_key(
        f,
    ) && after.submitted@[q][f] == after.held(q)[f] by {
        if q != after.player || f != frame {
            assert(before.held(q).contains_key(f));
        }
    }
    assert forall|q: int, f: u64| #![trigger after.submitted@[q].contains_key(f)]
        0 <= q < after.players && f >= after.confirmed && after.submitted@[q].contains_key(
        f,
    ) implies after.held(q).contains_key(f) by {
        if q != after.player || f != frame {
            assert(before.submitted@[q].contains_key(f));
            assert(before.held(q).contains_key(f));
        }
    }
    assert forall|q: int, f: u64| #![trigger after.submitted@[q].contains_key(f)]
        after.is_peer(q) && f < after.received[q] implies after.submitted@[q].contains_key(f) by {
        assert(before.submitted@[q].contains_key(f));
    }
    assert forall|f: u64| f < after.current + after.delay implies #[trigger] after.submitted@[after.player as int].contains_key(
        f,
    ) by {
        assert(before.submitted@[before.player as int].contains_key(f));
    }
    assert(after.submitted_ok());
    assert forall|f: u64|
        after.confirmed <= f < after.current + after.delay implies #[trigger] after.local@.contains_key(
        f,
    ) by {
        assert(before.local@.contains_key(f));
    }
    assert(after.inputs_ok());
    assert forall|f: u64, q: int| #![trigger after.submitted@[q].contains_key(f)]
        f < after.settled() && 0 <= q < after.players && after.submitted@[q].contains_key(
        f,
    ) implies after.trace@[f as int][q] == after.submitted@[q][f] by {
        assert(before.submitted@[q].contains_key(f));
    }
}

/// The machine could not be saved.
pub open spec fn save_fails<M: Machine>(machine: M, cause: MachineError) -> bool {
    call_ensures(M::save, (&machine,), Err::<Vec<u8>, MachineError>(cause))
}

impl Rollback {
    /// Everything but the run itself is as in `before`.
    pub open spec fn same_but_run(self, before: Rollback) -> bool {
        self == Rollback {
            history: self.history,
            previous_keys: self.previous_keys,
            bytes: self.bytes,
            trace: self.trace,
            ..before
        }
    }

    /// What running frame `f` on top of the run so far hands the machine.
    pub open spec fn run_of(self, f: u64, replay: bool, ok: bool) -> MachineEvent {
        MachineEvent::Ran {
            inputs: self.executes(f),
            previous_keys: self.previous_keys@,
            replay,
            ok,
        }
    }

    /// What the machine is told when frame `f` is to be run: nothing where it
    /// cannot be saved, or where the snapshot no longer fits the budget, and
    /// one frame otherwise.
    pub open spec fn runs_to<M: Machine>(
        self,
        machine: M,
        f: u64,
        replay: bool,
        after: M,
        r: Result<(), RollbackError>,
    ) -> bool {
        match r {
            Ok(_) => {
                &&& self.bytes + machine.snapshot().len() <= MEMORY_LIMIT
                &&& after.history() == machine.history().push(self.run_of(f, replay, true))
            },
            Err(RollbackError::SnapshotBudget) => {
                &&& self.bytes + machine.snapshot().len() > MEMORY_LIMIT
                &&& after == machine
            },
            Err(RollbackError::Machine(cause)) => {
                ||| after == machine && save_fails(machine, cause)
                ||| after.history() == machine.history().push(self.run_of(f, replay, false))
            },
            Err(_) => false,
        }
    }

    /// Execute frame `number` on top of the run so far.
    fn simulate<M: Machine>(&mut self, machine: &mut M, number: u64, replay: bool) -> (r: Result<
        (),
        RollbackError,
    >)
        requires
            old(self).inputs_ok(),
            old(self).history_ok(number as int),
            old(self).faithful(number as int),
            old(self).local@.contains_key(number),
            old(self).hashes_before(number as int),
            number <= old(self).current,
        ensures
            final(self).same_seat(*old(self)),
            old(self).runs_to::<M>(*old(machine), number, replay, *final(machine), r),
            r is Ok ==> {
                &&& final(self).same_but_run(*old(self))
                &&& final(self).history@.drop_last() == old(self).history@
                &&& final(self).history_ok(number + 1)
                &&& final(self).faithful(number + 1)
                &&& final(self).trace@ == old(self).trace@.push(old(self).executes(number))
                &&& forall|origin: Seq<u8>| #[trigger]
                    old(self).follows::<M>(*old(machine), origin, number as int) ==>
                    final(self).follows::<M>(*final(machine), origin, number + 1)
            },
            r is Err ==> *final(self) == *old(self),
    {
        let local = match self.local.get(number) {
            Some(input) => input,
            None => {
                proof {
                    assert(false);
                }
                Input::default()
            },
        };
        let mut inputs: Vec<Input> = Vec::new();
        let mut player: usize = 0;
        while player < self.players
            invariant
                *self == *old(self),
                self.inputs_ok(),
                player <= self.players,
                inputs@ == self.executes(number).take(player as int),
                local == self.local@[number],
            decreases self.players - player,
        {
            let input = if player == self.player {
                local
            } else {
                self.predict(player, number)
            };
            inputs.push(input);
            player += 1;
            assert(inputs@ =~= self.executes(number).take(player as int));
        }
        assert(inputs@ =~= self.executes(number));
        let before = match machine.save() {
            Ok(state) => state,
            Err(e) => return Err(RollbackError::Machine(e)),
        };
        if before.len() > MEMORY_LIMIT - self.bytes {
            return Err(RollbackError::SnapshotBudget);
        }
        let previous_keys = self.previous_keys;
        match machine.frame(inputs.as_slice(), previous_keys, replay) {
            Ok(_) => {},
            Err(e) => return Err(RollbackError::Machine(e)),
        }
        self.bytes = self.bytes + before.len();
        self.previous_keys = Input::merged_keys(inputs.as_slice());
        self.trace = Ghost(self.trace@.push(inputs@));
        let frame = Frame { number, before, inputs, previous_keys };
        self.history.push_back(frame);
        proof {
            lemma_simulated(*old(self), *self, frame, number);
            assert(self.history@.drop_last() =~= old(self).history@);
            assert forall|origin: Seq<u8>| #[trigger]
                old(self).follows::<M>(*old(machine), origin, number as int) implies self.follows::<
                M,
            >(*machine, origin, number + 1) by {
                lemma_simulated_follows::<M>(
                    *old(self),
                    *self,
                    *old(machine),
                    *machine,
                    frame,
                    origin,
                    number,
                );
            }
        }
        Ok(())
    }
}

proof fn lemma_simulated(before: Rollback, after: Rollback, frame: Frame, number: u64)
    requires
        before.inputs_ok(),
        before.history_ok(number as int),
        before.faithful(number as int),
        before.local@.contains_key(number),
        number <= before.current,
        frame.number == number,
        frame.inputs@ == before.executes(number),
        frame.previous_keys == before.previous_keys,
        after.same_but_run(before),
        after.history@ == before.history@.push(frame),
        after.trace@ == before.trace@.push(before.executes(number)),
        after.previous_keys@ == crate::netplay::input::merged(before.executes(number)),
        after.bytes == before.bytes + frame.before@.len(),
        after.bytes <= MEMORY_LIMIT,
    ensures
        after.history_ok(number + 1),
        after.faithful(number + 1),
{
    let n = number as int;
    assert(after.history@.drop_last() =~= before.history@);
    assert forall|i: int| #![trigger after.history@[i]] 0 <= i < after.history@.len() implies {
        &&& after.history@[i].number == after.confirmed + i
        &&& after.history@[i].inputs@ == after.trace@[after.confirmed + i]
        &&& after.history@[i].previous_keys@ == keys_before(after.trace@, after.confirmed + i)
    } by {
        if i < before.history@.len() {
            assert(before.history@[i] == after.history@[i]);
        }
    }
    assert forall|f: u64, q: int| #![trigger after.submitted@[q].contains_key(f)]
        f < n + 1 && 0 <= q < after.players && after.submitted@[q].contains_key(
        f,
    ) implies after.trace@[f as int][q] == after.submitted@[q][f] by {
        assert(before.submitted@[q].contains_key(f));
        if f == number {
            assert(before.held(q).contains_key(f));
            if q != before.player {
                assert(is_newest_until(before.remote@[q]@, f, f));
                lemma_newest_until(before.remote@[q]@, f, f);
            }
        }
    }
}

proof fn lemma_simulated_follows<M: Machine>(
    before: Rollback,
    after: Rollback,
    machine: M,
    stepped: M,
    frame: Frame,
    origin: Seq<u8>,
    number: u64,
)
    requires
        before.history_ok(number as int),
        before.hashes_before(number as int),
        before.follows::<M>(machine, origin, number as int),
        frame.number == number,
        frame.before@ == machine.snapshot(),
        after.same_but_run(before),
        after.history@ == before.history@.push(frame),
        after.trace@ == before.trace@.push(before.executes(number)),
        stepped.snapshot() == M::after(
            machine.snapshot(),
            before.executes(number),
            before.previous_keys@,
        ),
    ensures
        after.follows::<M>(stepped, origin, number + 1),
{
    let n = number as int;
    lemma_state_prefix::<M>(origin, before.trace@, after.trace@, n);
    assert(state_at::<M>(origin, after.trace@, n + 1) == M::after(
        state_at::<M>(origin, after.trace@, n),
        after.trace@[n],
        keys_before(after.trace@, n),
    ));
    assert forall|i: int| #![trigger after.history@[i]]
        0 <= i < after.history@.len() implies after.history@[i].before@ == state_at::<M>(
        origin,
        after.trace@,
        after.history@[i].number as int,
    ) by {
        if i < before.history@.len() {
            assert(before.history@[i] == after.history@[i]);
            lemma_state_prefix::<M>(
                origin,
                before.trace@,
                after.trace@,
                before.history@[i].number as int,
            );
        }
    }
    assert forall|f: u64| #[trigger] after.hashes@.contains_key(f) implies after.hashes@[f]@
        == sha256(state_at::<M>(origin, after.trace@, f as int)) by {
        lemma_state_prefix::<M>(origin, before.trace@, after.trace@, f as int);
    }
    if let Some(log) = after.log {
        assert forall|i: int| #![trigger log.hashes@[i]]
            0 <= i < log.hashes@.len() implies log.hashes@[i].1@ == sha256(
            state_at::<M>(origin, after.trace@, log.hashes@[i].0 as int),
        ) by {
            lemma_state_prefix::<M>(
                origin,
                before.trace@,
                after.trace@,
                log.hashes@[i].0 as int,
            );
        }
    }
}

/// The first checkpoint past a confirmed frontier.
pub open spec fn first_checkpoint(confirmed: u64) -> int {
    (confirmed / HASH_INTERVAL + 1) * HASH_INTERVAL
}

/// How many checkpoints lie past `confirmed` and not past `end`.
pub open spec fn checkpoint_count(confirmed: u64, end: u64) -> int {
    if end < first_checkpoint(confirmed) {
        0
    } else {
        (end - first_checkpoint(confirmed)) / HASH_INTERVAL as int + 1
    }
}

proof fn lemma_checkpoints(confirmed: u64, end: u64)
    requires
        end <= FRAME_LIMIT,
    ensures
        confirmed < first_checkpoint(confirmed) <= confirmed + HASH_INTERVAL,
        first_checkpoint(confirmed) % HASH_INTERVAL as int == 0,
        checkpoint_count(confirmed, end) >= 0,
        forall|f: u64|
            confirmed < f < first_checkpoint(confirmed) ==> !(#[trigger] is_checkpoint(f)),
{
    let q = confirmed / HASH_INTERVAL;
    assert(confirmed == q * 60 + confirmed % 60);
    assert forall|f: u64| confirmed < f < first_checkpoint(confirmed) implies !(
    #[trigger] is_checkpoint(f)) by {
        assert(q * 60 <= f < q * 60 + 60);
    }
}

impl Rollback {
    /// The state digest of frame `f`, taken of the snapshot before it.
    pub open spec fn digest_at<M: Machine>(self, machine: M, f: int) -> Seq<u8> {
        sha256(
            if f == self.current {
                machine.snapshot()
            } else {
                self.history@[f - self.confirmed].before@
            },
        )
    }

    /// `all` holds the digests of `self`, and those of every checkpoint past
    /// the confirmed frontier and below `limit`.
    pub open spec fn digested<M: Machine>(
        self,
        all: Map<u64, [u8; 32]>,
        machine: M,
        limit: int,
    ) -> bool {
        &&& forall|f: u64| #[trigger]
            all.contains_key(f) <==> self.hashes@.contains_key(f) || (is_checkpoint(f)
                && self.confirmed < f < limit)
        &&& forall|f: u64| #[trigger]
            all.contains_key(f) && f <= self.confirmed ==> all[f] == self.hashes@[f]
        &&& forall|f: u64| #[trigger]
            all.contains_key(f) && f > self.confirmed ==> all[f]@ == self.digest_at::<M>(
                machine,
                f as int,
            )
    }

    /// `after` is `before` with the next `n` checkpoints' digests appended.
    pub open spec fn digests_appended<M: Machine>(
        self,
        before: Seq<(u64, [u8; 32])>,
        after: Seq<(u64, [u8; 32])>,
        machine: M,
        n: int,
    ) -> bool {
        &&& after.len() == before.len() + n
        &&& forall|i: int| 0 <= i < before.len() ==> #[trigger] after[i] == before[i]
        &&& forall|i: int|
            #![trigger after[i]]
            before.len() <= i < after.len() ==> {
                let f = first_checkpoint(self.confirmed) + HASH_INTERVAL * (i - before.len());
                after[i].0 == f && after[i].1@ == self.digest_at::<M>(machine, f)
            }
    }

    /// `after` is `before` with the executed inputs of the frames from the
    /// confirmed frontier to `end` appended.
    pub open spec fn inputs_appended(
        self,
        before: Seq<(u64, [Input; MAX_PLAYERS])>,
        after: Seq<(u64, [Input; MAX_PLAYERS])>,
        end: int,
    ) -> bool {
        &&& after.len() == before.len() + (end - self.confirmed)
        &&& forall|i: int| 0 <= i < before.len() ==> #[trigger] after[i] == before[i]
        &&& forall|i: int|
            #![trigger after[i]]
            before.len() <= i < after.len() ==> {
                let f = self.confirmed + i - before.len();
                &&& after[i].0 == f
                &&& forall|p: int|
                    0 <= p < MAX_PLAYERS ==> #[trigger] after[i].1[p] == (if p < self.players {
                        self.trace@[f][p]
                    } else {
                        Input::neutral()
                    })
            }
    }

    /// The feed log, where one is kept, gained the digests of the next `n`
    /// checkpoints.
    pub open spec fn logged_digests<M: Machine>(self, after: Rollback, machine: M, n: int) -> bool {
        match (self.log, after.log) {
            (None, None) => true,
            (Some(b), Some(a)) => a.inputs == b.inputs && self.digests_appended::<M>(
                b.hashes@,
                a.hashes@,
                machine,
                n,
            ),
            _ => false,
        }
    }

    /// The machine cannot be saved for the digest of its present state. Those of
    /// the checkpoints before it have been taken.
    pub open spec fn digests_fail<M: Machine>(
        self,
        machine: M,
        after: Rollback,
        e: RollbackError,
    ) -> bool {
        &&& (e matches RollbackError::Machine(cause) && save_fails(machine, cause))
        &&& after == Rollback { hashes: after.hashes, log: after.log, ..self }
        &&& self.digested::<M>(after.hashes@, machine, self.current as int)
        &&& self.logged_digests::<M>(
            after,
            machine,
            checkpoint_count(self.confirmed, self.current) - 1,
        )
    }

    /// The feed log, where one is kept, gained the inputs of the frames up
    /// to `end`.
    spec fn logged_inputs(self, after: Rollback, end: int) -> bool {
        match (self.log, after.log) {
            (None, None) => true,
            (Some(b), Some(a)) => a.hashes == b.hashes && self.inputs_appended(
                b.inputs@,
                a.inputs@,
                end,
            ),
            _ => false,
        }
    }

    /// Digest every checkpoint up to `end`.
    fn take_digests<M: Machine>(&mut self, machine: &M, end: u64) -> (r: Result<(), RollbackError>)
        requires
            old(self).wf(),
            old(self).confirmed <= end <= old(self).current,
        ensures
            final(self).same_seat(*old(self)),
            r is Ok ==> {
                &&& *final(self) == (Rollback {
                    hashes: final(self).hashes,
                    log: final(self).log,
                    ..*old(self)
                })
                &&& final(self).hashes.wf()
                &&& old(self).digested::<M>(final(self).hashes@, *machine, end + 1)
                &&& old(self).logged_digests::<M>(
                    *final(self),
                    *machine,
                    checkpoint_count(old(self).confirmed, end),
                )
            },
            r matches Err(e) ==> {
                &&& end == old(self).current && is_checkpoint(end) && old(self).confirmed < end
                &&& old(self).digests_fail::<M>(*machine, *final(self), e)
            },
    {
        let ghost before = *self;
        let first: u64 = (self.confirmed / HASH_INTERVAL + 1) * HASH_INTERVAL;
        let mut checkpoint: u64 = first;
        let ghost mut n: int = 0;
        proof {
            lemma_checkpoints(before.confirmed, end);
        }
        while checkpoint <= end
            invariant
                before == *old(self),
                before.wf(),
                before.confirmed <= end <= before.current,
                *self == (Rollback { hashes: self.hashes, log: self.log, ..before }),
                first == first_checkpoint(before.confirmed),
                first > before.confirmed,
                checkpoint == first + HASH_INTERVAL * n,
                checkpoint % HASH_INTERVAL == 0,
                n >= 0,
                forall|f: u64|
                    before.confirmed < f < first ==> !(#[trigger] is_checkpoint(f)),
                checkpoint <= end + HASH_INTERVAL,
                self.hashes.wf(),
                before.digested::<M>(self.hashes@, *machine, checkpoint as int),
                before.logged_digests::<M>(*self, *machine, n),
            decreases end + HASH_INTERVAL - checkpoint,
        {
            let hash: [u8; 32] = if checkpoint == self.current {
                match machine.save() {
                    Ok(state) => digest(state.as_slice()),
                    Err(e) => {
                        assert(n + 1 == checkpoint_count(before.confirmed, end)) by {
                            lemma_count(end - first, n + 1);
                        }
                        return Err(RollbackError::Machine(e));
                    },
                }
            } else {
                let retained: usize = self.history.len();
                let index: usize = (checkpoint - self.confirmed) as usize;
                assert(index < retained && index == checkpoint - before.confirmed);
                digest(self.history[index].before.as_slice())
            };
            let ghost prior = *self;
            self.hashes.insert(checkpoint, hash);
            if let Some(log) = &mut self.log {
                log.hashes.push((checkpoint, hash));
            }
            proof {
                assert(is_checkpoint(checkpoint));
                assert forall|f: u64| checkpoint < f < checkpoint + HASH_INTERVAL implies !(
                #[trigger] is_checkpoint(f)) by {
                    lemma_between_checkpoints(checkpoint, f);
                }
                n = n + 1;
            }
            checkpoint = checkpoint + HASH_INTERVAL;
        }
        proof {
            assert(n == checkpoint_count(before.confirmed, end)) by {
                if n > 0 {
                    lemma_count(end - first, n);
                }
            }
            assert forall|f: u64| end < f < checkpoint implies !(#[trigger] is_checkpoint(f)) by {
                if n > 0 {
                    lemma_between_checkpoints((checkpoint - HASH_INTERVAL) as u64, f);
                }
            }
        }
        Ok(())
    }
}

proof fn lemma_between_checkpoints(checkpoint: u64, f: u64)
    requires
        checkpoint % HASH_INTERVAL == 0,
        checkpoint < f < checkpoint + HASH_INTERVAL,
    ensures
        !is_checkpoint(f),
{
    assert(checkpoint == 60 * (checkpoint / 60));
}

proof fn lemma_count(distance: int, n: int)
    requires
        n > 0,
        60 * (n - 1) <= distance < 60 * n,
    ensures
        distance / 60 + 1 == n,
{
}

impl Rollback {
    /// How far back a peer's inputs are kept once `end` is confirmed: one
    /// input as the seed for repeat-last prediction, and whatever a relaying
    /// host still owes another link.
    pub open spec fn remote_floor(self, end: u64, p: int) -> u64 {
        let owed = earlier(end, self.relay_floor[p]);
        if owed == 0 {
            0
        } else {
            (owed - 1) as u64
        }
    }

    /// How far back local inputs are kept once `end` is confirmed.
    pub open spec fn local_floor(self, end: u64) -> u64 {
        earlier(
            earlier(end, self.spec_ack_frontier()),
            self.relay_floor[self.player as int],
        )
    }

    /// Record the inputs of the frames from the confirmed frontier to `end`
    /// in the feed log.
    fn log_inputs(&mut self, end: u64)
        requires
            old(self).inputs_ok(),
            old(self).history_ok(old(self).current as int),
            old(self).faithful(old(self).current as int),
            old(self).confirmed <= end <= old(self).confirmable(),
        ensures
            *final(self) == (Rollback { log: final(self).log, ..*old(self) }),
            old(self).logged_inputs(*final(self), end as int),
    {
        let ghost before = *self;
        if self.log.is_none() {
            return ;
        }
        let mut frame: u64 = self.confirmed;
        while frame < end
            invariant
                before == *old(self),
                before.inputs_ok(),
                before.history_ok(before.current as int),
                before.faithful(before.current as int),
                before.log is Some,
                before.confirmed <= frame <= end,
                end <= before.confirmable(),
                *self == (Rollback { log: self.log, ..before }),
                before.logged_inputs(*self, frame as int),
            decreases end - frame,
        {
            let mut inputs: [Input; MAX_PLAYERS] = [Input::default(); MAX_PLAYERS];
            let mut player: usize = 0;
            while player < self.players
                invariant
                    *self == (Rollback { log: self.log, ..before }),
                    before.inputs_ok(),
                    before.history_ok(before.current as int),
                    before.faithful(before.current as int),
                    before.confirmed <= frame < before.confirmable(),
                    player <= before.players,
                    forall|p: int|
                        #![trigger inputs[p]]
                        0 <= p < MAX_PLAYERS ==> inputs[p] == (if p < player {
                            before.trace@[frame as int][p]
                        } else {
                            Input::neutral()
                        }),
                decreases before.players - player,
            {
                proof {
                    let p = player as int;
                    lemma_least_but(before.received@, before.player as int, before.players as int);
                    if p == before.player {
                        assert(before.local@.contains_key(frame));
                        assert(before.held(p).contains_key(frame));
                    } else {
                        assert(frame < before.received[p]);
                        assert(before.remote@[p]@.contains_key(frame));
                        assert(before.held(p).contains_key(frame));
                    }
                    assert(before.submitted@[p].contains_key(frame));
                }
                let input = if player == self.player {
                    self.local.get(frame)
                } else {
                    self.remote[player].get(frame)
                };
                inputs[player] = match input {
                    Some(i) => i,
                    None => Input::default(),
                };
                player += 1;
            }
            if let Some(log) = &mut self.log {
                log.inputs.push((frame, inputs));
            }
            frame += 1;
        }
    }

    /// Release the snapshots before `end`.
    fn drop_history(&mut self, end: u64)
        requires
            old(self).confirmed <= end <= old(self).current,
            old(self).history_ok(old(self).current as int),
        ensures
            *final(self) == (Rollback {
                confirmed: end,
                history: final(self).history,
                bytes: final(self).bytes,
                ..*old(self)
            }),
            final(self).history_ok(old(self).current as int),
            final(self).history@ == old(self).history@.skip(end - old(self).confirmed),
    {
        let ghost before = *self;
        assert(self.history@ =~= before.history@.skip(0));
        while self.confirmed < end
            invariant
                before.confirmed <= self.confirmed <= end <= before.current,
                *self == (Rollback {
                    confirmed: self.confirmed,
                    history: self.history,
                    bytes: self.bytes,
                    ..before
                }),
                before.history_ok(before.current as int),
                self.history_ok(before.current as int),
                self.history@ == before.history@.skip(self.confirmed - before.confirmed),
            decreases end - self.confirmed,
        {
            let ghost frames = self.history@;
            proof {
                lemma_snapshot_bytes_front(frames);
            }
            match self.history.pop_front() {
                Some(frame) => {
                    self.bytes = self.bytes - frame.before.len();
                },
                None => {},
            }
            self.confirmed = self.confirmed + 1;
            proof {
                assert(self.history@ =~= frames.drop_first());
                assert(self.history@ =~= before.history@.skip(self.confirmed - before.confirmed));
                assert forall|i: int| #![trigger self.history@[i]]
                    0 <= i < self.history@.len() implies {
                    &&& self.history@[i].number == self.confirmed + i
                    &&& self.history@[i].inputs@ == self.trace@[self.confirmed + i]
                    &&& self.history@[i].previous_keys@ == keys_before(
                        self.trace@,
                        self.confirmed + i,
                    )
                } by {
                    assert(self.history@[i] == frames[i + 1]);
                }
            }
        }
    }
}

/// `after` is `before` without its oldest entries, as few of them as leave
/// no more than `limit`.
pub open spec fn trimmed<V>(before: Map<u64, V>, after: Map<u64, V>, count: nat, limit: nat) -> bool {
    &&& count <= limit
    &&& exists|floor: u64| #[trigger] dropped_below(before, after, floor)
    &&& count < limit ==> after == before
}

/// `after` is `before` without the entries below `floor`.
pub open spec fn dropped_below<V>(before: Map<u64, V>, after: Map<u64, V>, floor: u64) -> bool {
    after == before.remove_keys(Set::new(|f: u64| f < floor))
}

impl Rollback {
    /// Keep the newest digests only.
    fn trim_hashes(&mut self)
        requires
            old(self).hashes.wf(),
            forall|f: u64| #[trigger] old(self).hashes@.contains_key(f) ==> f < u64::MAX,
        ensures
            final(self).hashes.wf(),
            trimmed(
                old(self).hashes@,
                final(self).hashes@,
                final(self).hashes.count(),
                HASHES_KEPT as nat,
            ),
            *final(self) == (Rollback { hashes: final(self).hashes, ..*old(self) }),
    {
        let ghost before = *self;
        let ghost mut floor: u64 = 0;
        assert(dropped_below(before.hashes@, self.hashes@, 0)) by {
            assert(self.hashes@ =~= before.hashes@.remove_keys(Set::new(|f: u64| f < 0)));
        }
        while self.hashes.len() > HASHES_KEPT
            invariant
                self.hashes.wf(),
                forall|f: u64| #[trigger] before.hashes@.contains_key(f) ==> f < u64::MAX,
                dropped_below(before.hashes@, self.hashes@, floor),
                *self == (Rollback { hashes: self.hashes, ..before }),
                self.hashes.count() < HASHES_KEPT ==> self.hashes@ == before.hashes@,
            decreases self.hashes.count(),
        {
            let ghost prior = self.hashes@;
            self.hashes.pop_first();
            proof {
                let f = choose|f: u64| #[trigger]
                    crate::netplay::timeline::is_oldest(prior, f) && self.hashes@ == prior.remove(
                        f,
                    );
                assert(prior.contains_key(f));
                floor = (f + 1) as u64;
                assert forall|g: u64| before.hashes@.contains_key(g) && g <= f && g
                    != f implies !(#[trigger] prior.contains_key(g)) by {}
                assert(self.hashes@ =~= before.hashes@.remove_keys(Set::new(|g: u64| g < floor)));
            }
        }
    }

    /// Release every input nothing needs once `end` is confirmed.
    fn drop_inputs(&mut self, end: u64)
        requires
            old(self).inputs_ok(),
        ensures
            *final(self) == (Rollback {
                local: final(self).local,
                remote: final(self).remote,
                ..*old(self)
            }),
            final(self).released(*old(self), end),
    {
        let ghost before = *self;
        let mut player: usize = 0;
        while player < MAX_PLAYERS
            invariant
                before.inputs_ok(),
                player <= MAX_PLAYERS,
                *self == (Rollback { remote: self.remote, ..before }),
                self.remote@.len() == MAX_PLAYERS,
                forall|p: int|
                    #![trigger self.remote@[p]]
                    0 <= p < MAX_PLAYERS ==> self.remote@[p].wf() && (if p < player {
                        dropped_below(
                            before.remote@[p]@,
                            self.remote@[p]@,
                            before.remote_floor(end, p),
                        )
                    } else {
                        self.remote@[p] == before.remote@[p]
                    }),
            decreases MAX_PLAYERS - player,
        {
            let owed: u64 = if end <= self.relay_floor[player] {
                end
            } else {
                self.relay_floor[player]
            };
            let floor: u64 = owed.saturating_sub(1);
            self.remote[player].retain_from(floor);
            player += 1;
        }
        let acked: u64 = self.ack_frontier();
        let mut floor: u64 = if end <= acked {
            end
        } else {
            acked
        };
        if floor > self.relay_floor[self.player] {
            floor = self.relay_floor[self.player];
        }
        self.local.retain_from(floor);
    }

    /// The inputs of `self` are those of `before` without what is below the
    /// floors at `end`.
    pub open spec fn released(self, before: Rollback, end: u64) -> bool {
        &&& self.local.wf()
        &&& dropped_below(before.local@, self.local@, before.local_floor(end))
        &&& self.remote@.len() == MAX_PLAYERS
        &&& forall|p: int|
            #![trigger self.remote@[p]]
            0 <= p < MAX_PLAYERS ==> self.remote@[p].wf() && dropped_below(
                before.remote@[p]@,
                self.remote@[p]@,
                before.remote_floor(end, p),
            )
    }
}

impl Rollback {
    /// What confirming everything that can be confirmed changes.
    pub open spec fn confirms_to<M: Machine>(self, after: Rollback, machine: M) -> bool {
        let end = self.confirmable();
        &&& after.confirmed == end
        &&& after.released(self, end)
        &&& after.history@ == self.history@.skip(end - self.confirmed)
        &&& exists|all: Map<u64, [u8; 32]>| #[trigger]
            self.digested::<M>(all, machine, end + 1) && trimmed(
                all,
                after.hashes@,
                after.hashes.count(),
                HASHES_KEPT as nat,
            )
        &&& match (self.log, after.log) {
            (None, None) => true,
            (Some(b), Some(a)) => {
                &&& self.inputs_appended(b.inputs@, a.inputs@, end as int)
                &&& self.digests_appended::<M>(
                    b.hashes@,
                    a.hashes@,
                    machine,
                    checkpoint_count(self.confirmed, end),
                )
            },
            _ => false,
        }
        &&& after == Rollback {
            confirmed: after.confirmed,
            local: after.local,
            remote: after.remote,
            history: after.history,
            bytes: after.bytes,
            hashes: after.hashes,
            log: after.log,
            ..self
        }
    }

    /// Whether confirming now digests the machine's present state.
    pub open spec fn digests_now(self) -> bool {
        self.confirmed < self.current && self.confirmable() == self.current && is_checkpoint(
            self.current,
        )
    }

    /// Confirming has to digest the machine's present state, which cannot be
    /// saved.
    pub open spec fn confirm_fails<M: Machine>(
        self,
        machine: M,
        after: Rollback,
        e: RollbackError,
    ) -> bool {
        self.digests_now() && self.digests_fail::<M>(machine, after, e)
    }

    /// Confirm every frame whose inputs are all final: digest its
    /// checkpoints, feed the log and release what nothing needs any more.
    fn confirm<M: Machine>(&mut self, machine: &M) -> (r: Result<(), RollbackError>)
        requires
            old(self).wf(),
            old(self).reconciled(),
        ensures
            final(self).same_seat(*old(self)),
            r is Ok ==> {
                &&& final(self).wf()
                &&& old(self).confirms_to::<M>(*final(self), *machine)
                &&& forall|origin: Seq<u8>| #[trigger]
                    old(self).follows::<M>(*machine, origin, old(self).current as int) ==>
                    final(self).follows::<M>(*machine, origin, old(self).current as int)
            },
            r matches Err(e) ==> old(self).confirm_fails::<M>(*machine, *final(self), e),
    {
        let ghost before = *self;
        let frontier: u64 = self.received_frontier();
        let end: u64 = if self.current <= frontier {
            self.current
        } else {
            frontier
        };
        proof {
            lemma_frontier(before);
        }
        self.take_digests(machine, end)?;
        let ghost all = self.hashes@;
        proof {
            lemma_same_inputs(before, *self);
        }
        self.log_inputs(end);
        proof {
            lemma_same_inputs(before, *self);
        }
        self.drop_inputs(end);
        self.drop_history(end);
        self.trim_hashes();
        proof {
            assert(before.digested::<M>(all, *machine, end + 1));
            lemma_confirmed_wf::<M>(before, *self, *machine);
            assert forall|origin: Seq<u8>| #[trigger]
                before.follows::<M>(*machine, origin, before.current as int) implies self.follows::<
                M,
            >(*machine, origin, before.current as int) by {
                lemma_confirmed_follows::<M>(before, *self, *machine, origin);
            }
        }
        Ok(())
    }
}

/// The received frontier lies between the confirmed frontier and what every
/// peer has submitted.
pub(crate) proof fn lemma_frontier(r: Rollback)
    requires
        r.inputs_ok(),
    ensures
        r.confirmed <= r.spec_received_frontier(),
        forall|p: int|
            #![trigger r.received[p]]
            r.is_peer(p) ==> r.spec_received_frontier() <= r.received[p],
{
    lemma_least_but(r.received@, r.player as int, r.players as int);
    let q: int = if r.player == 0 {
        1
    } else {
        0
    };
    assert(r.is_peer(q) && r.received@[q] == r.received[q]);
    match least_but(r.received@, r.player as int, r.players as int) {
        Some(m) => {
            let p = choose|p: int|
                0 <= p < r.players && p != r.player && m == #[trigger] r.received@[p];
            assert(r.is_peer(p) && r.confirmed <= r.received[p]);
        },
        None => {
            assert(r.received@[q] >= 0);
        },
    }
}

/// The state of the inputs does not depend on digests and the feed log.
proof fn lemma_same_inputs(a: Rollback, b: Rollback)
    requires
        a.inputs_ok(),
        a.history_ok(a.current as int),
        a.faithful(a.current as int),
        b == (Rollback { hashes: b.hashes, log: b.log, ..a }),
        b.hashes.wf(),
    ensures
        b.inputs_ok(),
        b.history_ok(b.current as int),
        b.faithful(b.current as int),
        b.confirmable() == a.confirmable(),
{
    assert(forall|p: int| a.held(p) == #[trigger] b.held(p));
    assert(b.submitted_ok()) by {
        assert forall|p: int, f: u64| #![trigger b.held(p).contains_key(f)]
            0 <= p < b.players && b.held(p).contains_key(f) implies b.submitted@[p].contains_key(f)
            && b.submitted@[p][f] == b.held(p)[f] by {
            assert(a.held(p).contains_key(f));
        }
    }
}

proof fn lemma_confirmed_inputs(before: Rollback, after: Rollback, end: u64)
    requires
        before.inputs_ok(),
        before.confirmed <= end <= before.confirmable(),
        after.confirmed == end,
        after.released(before, end),
        after.hashes.wf(),
        after == (Rollback {
            confirmed: after.confirmed,
            local: after.local,
            remote: after.remote,
            history: after.history,
            bytes: after.bytes,
            hashes: after.hashes,
            log: after.log,
            ..before
        }),
    ensures
        after.inputs_ok(),
{
    lemma_frontier(before);
    assert forall|p: int, f: u64| #![trigger after.held(p).contains_key(f)]
        0 <= p < after.players && after.held(p).contains_key(f) implies before.held(p).contains_key(
        f,
    ) && before.held(p)[f] == after.held(p)[f] by {
        if p != after.player {
            assert(after.remote@[p].wf());
        }
    }
    assert forall|p: int, f: u64| #![trigger before.held(p).contains_key(f)]
        0 <= p < after.players && f >= end && before.held(p).contains_key(f) implies after.held(
        p,
    ).contains_key(f) by {
        if p != after.player {
            assert(after.remote@[p].wf());
        }
    }
    assert(after.submitted_ok()) by {
        assert forall|p: int, f: u64| #![trigger after.submitted@[p].contains_key(f)]
            0 <= p < after.players && f >= after.confirmed && after.submitted@[p].contains_key(
            f,
        ) implies after.held(p).contains_key(f) by {
            assert(before.held(p).contains_key(f));
        }
        assert forall|p: int, f: u64| #![trigger after.held(p).contains_key(f)]
            0 <= p < after.players && after.held(p).contains_key(
            f,
        ) implies after.submitted@[p].contains_key(f) && after.submitted@[p][f] == after.held(
            p,
        )[f] by {
            assert(before.held(p).contains_key(f));
        }
    }
    assert forall|f: u64|
        after.confirmed <= f < after.current + after.delay implies #[trigger] after.local@.contains_key(
        f,
    ) by {
        assert(before.local@.contains_key(f));
    }
    assert forall|p: int, f: u64| #![trigger after.remote@[p]@.contains_key(f)]
        after.is_peer(p) && after.confirmed <= f
            < after.received[p] implies after.remote@[p]@.contains_key(f) by {
        assert(before.remote@[p]@.contains_key(f));
        assert(before.held(p).contains_key(f));
    }
    assert forall|p: int, f: u64| #![trigger after.remote@[p]@.contains_key(f)]
        after.is_peer(p) && after.remote@[p]@.contains_key(f) implies f <= after.horizon() by {
        assert(after.held(p).contains_key(f));
        assert(before.remote@[p]@.contains_key(f));
    }
    assert forall|p: int| #![trigger after.received[p]] after.is_peer(p) implies {
        &&& after.confirmed <= after.received[p]
        &&& after.received[p] <= after.horizon() + 1
        &&& !after.remote@[p]@.contains_key(after.received[p])
    } by {
        assert(before.is_peer(p));
        assert(!before.remote@[p]@.contains_key(before.received[p]));
        assert(after.held(p) == after.remote@[p]@);
        assert(before.held(p) == before.remote@[p]@);
    }
    assert forall|p: int| #![trigger after.acknowledged[p]]
        after.is_peer(p) implies after.acknowledged[p] <= after.current + after.delay + 1 by {
        assert(before.is_peer(p));
    }
}

proof fn lemma_confirmed_wf<M: Machine>(before: Rollback, after: Rollback, machine: M)
    requires
        before.wf(),
        before.reconciled(),
        before.confirms_to::<M>(after, machine),
        after.history_ok(after.current as int),
        after.hashes.wf(),
    ensures
        after.wf(),
{
    let end = before.confirmable();
    lemma_frontier(before);
    lemma_confirmed_inputs(before, after, end);
    assert(after.faithful(after.current as int)) by {
        assert(before.faithful(before.current as int));
        assert forall|f: u64, q: int| #![trigger after.submitted@[q].contains_key(f)]
            f < after.current && 0 <= q < after.players && after.submitted@[q].contains_key(
            f,
        ) implies after.trace@[f as int][q] == after.submitted@[q][f] by {
            assert(before.submitted@[q].contains_key(f));
        }
    }
    lemma_checkpoints(before.confirmed, end);
    assert(after.log_ok()) by {
        if let (Some(b), Some(a)) = (before.log, after.log) {
            assert forall|i: int| #![trigger a.inputs@[i]] 0 <= i < a.inputs@.len() implies {
                let f = after.confirmed - a.inputs@.len() + i;
                &&& a.inputs@[i].0 == f
                &&& forall|p: int|
                    0 <= p < MAX_PLAYERS ==> #[trigger] a.inputs@[i].1[p] == (if p
                        < after.players {
                        after.trace@[f][p]
                    } else {
                        Input::neutral()
                    })
            } by {
                if i < b.inputs@.len() {
                    assert(a.inputs@[i] == b.inputs@[i]);
                }
            }
            assert forall|i: int| 0 <= i < a.hashes@.len() implies 0 < (#[trigger] a.hashes@[i]).0
                <= after.confirmed by {
                if i < b.hashes@.len() {
                    assert(a.hashes@[i] == b.hashes@[i]);
                } else {
                    let k = i - b.hashes@.len();
                    let first = first_checkpoint(before.confirmed);
                    lemma_checkpoint_within(end - first, k);
                }
            }
        }
    }
}

proof fn lemma_checkpoint_within(distance: int, k: int)
    requires
        0 <= k < distance / 60 + 1,
        distance >= 0,
    ensures
        60 * k <= distance,
{
}

proof fn lemma_confirmed_follows<M: Machine>(
    before: Rollback,
    after: Rollback,
    machine: M,
    origin: Seq<u8>,
)
    requires
        before.wf(),
        before.confirms_to::<M>(after, machine),
        before.follows::<M>(machine, origin, before.current as int),
    ensures
        after.follows::<M>(machine, origin, before.current as int),
{
    let end = before.confirmable();
    lemma_frontier(before);
    lemma_checkpoints(before.confirmed, end);
    assert forall|f: int| before.confirmed < f <= end implies #[trigger] before.digest_at::<M>(
        machine,
        f,
    ) == sha256(state_at::<M>(origin, before.trace@, f)) by {
        if f < before.current {
            assert(before.history@[f - before.confirmed].number == f);
        }
    }
    assert forall|i: int| #![trigger after.history@[i]]
        0 <= i < after.history@.len() implies after.history@[i].before@ == state_at::<M>(
        origin,
        after.trace@,
        after.history@[i].number as int,
    ) by {
        assert(after.history@[i] == before.history@[i + (end - before.confirmed)]);
    }
    if let (Some(b), Some(a)) = (before.log, after.log) {
        assert forall|i: int| #![trigger a.hashes@[i]]
            0 <= i < a.hashes@.len() implies a.hashes@[i].1@ == sha256(
            state_at::<M>(origin, after.trace@, a.hashes@[i].0 as int),
        ) by {
            if i < b.hashes@.len() {
                assert(a.hashes@[i] == b.hashes@[i]);
            } else {
                let k = i - b.hashes@.len();
                let first = first_checkpoint(before.confirmed);
                lemma_checkpoint_within(end - first, k);
                let f = first + 60 * k;
                assert(before.digest_at::<M>(machine, f) == sha256(
                    state_at::<M>(origin, before.trace@, f),
                ));
            }
        }
    }
}

/// Every frame the machine has run since was run as a replay.
pub open spec fn only_replayed<M: Machine>(machine: M, after: M) -> bool {
    forall|i: int|
        machine.history().len() <= i < after.history().len() ==> (
        #[trigger] after.history()[i] matches MachineEvent::Ran { replay, .. } ==> replay)
}

/// One more than a counter, or the counter's limit.
pub open spec fn counted(count: u64, more: int) -> u64 {
    if count + more > u64::MAX {
        u64::MAX
    } else {
        (count + more) as u64
    }
}

impl Rollback {
    /// The run after replaying from `first`: earlier frames as they were, the
    /// rest with what is now known of their inputs.
    pub open spec fn replayed_trace(self, first: int, tip: int) -> Seq<Seq<Input>> {
        Seq::new(
            tip as nat,
            |f: int|
                if f < first {
                    self.trace@[f]
                } else {
                    self.executes(f as u64)
                },
        )
    }

    /// What replaying the frames that executed a wrong prediction changes.
    pub open spec fn replays_to(self, after: Rollback) -> bool {
        match self.dirty {
            None => after == self,
            Some(first) => {
                &&& after.wf()
                &&& after.dirty is None
                &&& after.trace@ == self.replayed_trace(first as int, self.current as int)
                &&& after.rollbacks == counted(self.rollbacks, 1)
                &&& after.replayed_frames == counted(
                    self.replayed_frames,
                    self.current - first,
                )
                &&& after == Rollback {
                    history: after.history,
                    previous_keys: after.previous_keys,
                    bytes: after.bytes,
                    trace: after.trace,
                    dirty: after.dirty,
                    rollbacks: after.rollbacks,
                    replayed_frames: after.replayed_frames,
                    ..self
                }
            },
        }
    }

    /// What a replay from `first` up to `tip` tells the machine: to go back to
    /// the state before `first`, and then to run each frame again, as a replay,
    /// with what is now known of its inputs.
    pub open spec fn replay_events(self, first: int, tip: int) -> Seq<MachineEvent> {
        let run = self.replayed_trace(first, self.current as int);
        seq![
            MachineEvent::Loaded { state: self.history@[first - self.confirmed].before@, ok: true },
        ] + Seq::new(
            (tip - first) as nat,
            |k: int|
                MachineEvent::Ran {
                    inputs: run[first + k],
                    previous_keys: keys_before(run, first + k),
                    replay: true,
                    ok: true,
                },
        )
    }

    /// The timeline in a replay from `first` that has come to frame `f`: the
    /// frames before `first` as they were, and then those run again.
    pub open spec fn resumes_at(self, first: u64, f: u64, after: Rollback) -> bool {
        &&& after == Rollback {
            history: after.history,
            previous_keys: after.previous_keys,
            bytes: after.bytes,
            trace: after.trace,
            dirty: None,
            ..self
        }
        &&& after.history_ok(f as int)
        &&& after.trace@ == self.replayed_trace(first as int, f as int)
        &&& after.history@.take(first - self.confirmed) == self.history@.take(
            first - self.confirmed,
        )
    }

    /// A replay from `first` that stops with the error `e`: the machine does
    /// not take the state back, or a frame on the way cannot be run.
    pub open spec fn replay_fails<M: Machine>(
        self,
        machine: M,
        first: u64,
        after: Rollback,
        machine_after: M,
        e: RollbackError,
    ) -> bool {
        ||| {
            &&& e is Machine
            &&& after == Rollback { dirty: None, ..self }
            &&& machine_after.history() == machine.history().push(
                MachineEvent::Loaded {
                    state: self.history@[first - self.confirmed].before@,
                    ok: false,
                },
            )
        }
        ||| exists|f: u64, at: M|
            {
                &&& first <= f < self.current
                &&& self.resumes_at(first, f, after)
                &&& at.history() == machine.history() + self.replay_events(first as int, f as int)
                &&& forall|origin: Seq<u8>| #[trigger]
                    self.follows::<M>(machine, origin, self.current as int) ==> after.follows::<M>(
                        at,
                        origin,
                        f as int,
                    )
                &&& #[trigger] after.runs_to::<M>(at, f, true, machine_after, Err(e))
            }
    }

    /// Reconciling: the frames that executed a wrong prediction are replayed,
    /// and what has become final is confirmed. The machine is told nothing where
    /// there is nothing to replay. Where this fails the error says why.
    pub open spec fn reconciles_to<M: Machine>(
        self,
        machine: M,
        after: Rollback,
        machine_after: M,
        r: Result<(), RollbackError>,
    ) -> bool {
        ||| {
            &&& r matches Err(e)
            &&& self.dirty matches Some(first)
            &&& self.replay_fails::<M>(machine, first, after, machine_after, e)
        }
        ||| {
            &&& match self.dirty {
                None => machine_after == machine,
                Some(first) => machine_after.history() == machine.history()
                    + self.replay_events(first as int, self.current as int),
            }
            &&& exists|mid: Rollback| #[trigger]
                self.replays_to(mid) && match r {
                    Ok(_) => mid.confirms_to::<M>(after, machine_after),
                    Err(e) => mid.confirm_fails::<M>(machine_after, after, e),
                }
        }
    }

    /// Replay from the first frame that executed a wrong prediction, then
    /// confirm what has become final.
    pub fn reconcile<M: Machine>(&mut self, machine: &mut M) -> (r: Result<(), RollbackError>)
        requires
            old(self).wf(),
        ensures
            final(self).same_seat(*old(self)),
            r is Ok ==> {
                &&& final(self).wf()
                &&& final(self).reconciled()
                &&& old(self).within_window() ==> final(self).within_window()
                &&& forall|origin: Seq<u8>| #[trigger]
                    old(self).follows::<M>(*old(machine), origin, old(self).current as int) ==>
                    final(self).follows::<M>(*final(machine), origin, old(self).current as int)
            },
            old(self).reconciles_to::<M>(*old(machine), *final(self), *final(machine), r),
            only_replayed(*old(machine), *final(machine)),
            old(self).reconciled() && !old(self).digests_now() ==> r is Ok,
    {
        let ghost before = *self;
        let ghost machine_before = *machine;
        if let Some(first) = self.dirty.take() {
            let retained: usize = self.history.len();
            let index: usize = (first - self.confirmed) as usize;
            assert(index < retained && index == first - before.confirmed);
            match machine.load(self.history[index].before.as_slice()) {
                Ok(_) => {},
                Err(e) => return Err(RollbackError::Machine(e)),
            }
            self.previous_keys = self.history[index].previous_keys;
            self.trace = Ghost(self.trace@.take(first as int));
            self.truncate_history(index);
            proof {
                lemma_truncated(before, *self, first);
                assert forall|origin: Seq<u8>| #[trigger]
                    before.follows::<M>(
                    machine_before,
                    origin,
                    before.current as int,
                ) implies self.follows::<M>(*machine, origin, first as int) by {
                    lemma_truncated_follows::<M>(
                        before,
                        *self,
                        machine_before,
                        *machine,
                        origin,
                        first,
                    );
                }
                assert(self.trace@ =~= before.replayed_trace(first as int, first as int));
                assert(machine.history() =~= machine_before.history() + before.replay_events(
                    first as int,
                    first as int,
                ));
                assert(self.history@.take(first - before.confirmed) =~= before.history@.take(
                    first - before.confirmed,
                ));
            }
            let mut frame: u64 = first;
            while frame < self.current
                invariant
                    before == *old(self),
                    before.wf(),
                    before.dirty == Some(first),
                    machine_before == *old(machine),
                    first <= frame <= before.current,
                    *self == (Rollback {
                        history: self.history,
                        previous_keys: self.previous_keys,
                        bytes: self.bytes,
                        trace: self.trace,
                        dirty: None,
                        ..before
                    }),
                    self.inputs_ok(),
                    self.history_ok(frame as int),
                    self.faithful(frame as int),
                    self.hashes_before(frame as int),
                    self.trace@ == before.replayed_trace(first as int, frame as int),
                    before.confirmed <= first,
                    self.history@.take(first - before.confirmed) == before.history@.take(
                        first - before.confirmed,
                    ),
                    machine.history() == machine_before.history() + before.replay_events(
                        first as int,
                        frame as int,
                    ),
                    forall|origin: Seq<u8>| #[trigger]
                        before.follows::<M>(machine_before, origin, before.current as int)
                            ==> self.follows::<M>(*machine, origin, frame as int),
                decreases before.current - frame,
            {
                assert(self.local@.contains_key(frame));
                assert(self.executes(frame) =~= before.executes(frame));
                let ghost prior = *self;
                let ghost reached = *machine;
                let run = self.simulate(machine, frame, true);
                assert(before.resumes_at(first, frame, prior));
                if let Err(e) = run {
                    assert(prior.runs_to::<M>(reached, frame, true, *machine, Err(e)));
                    return Err(e);
                }
                frame = frame + 1;
                proof {
                    lemma_inputs_only(prior, *self);
                    lemma_replay_goes_on(before, prior, first, (frame - 1) as u64);
                    assert(machine.history() =~= machine_before.history() + before.replay_events(
                        first as int,
                        frame as int,
                    ));
                    assert(self.history@.take(first - before.confirmed)
                        =~= prior.history@.take(first - before.confirmed));
                    assert(self.trace@ =~= before.replayed_trace(first as int, frame as int));
                }
            }
            let ghost run = *self;
            self.rollbacks = self.rollbacks.saturating_add(1);
            self.replayed_frames = self.replayed_frames.saturating_add(self.current - first);
            proof {
                lemma_replayed_wf(before, *self, first);
                assert forall|origin: Seq<u8>| #[trigger]
                    before.follows::<M>(
                    machine_before,
                    origin,
                    before.current as int,
                ) implies self.follows::<M>(*machine, origin, before.current as int) by {
                    assert(run.follows::<M>(*machine, origin, before.current as int));
                }
            }
        }
        let ghost mid = *self;
        let ghost replayed = *machine;
        assert(before.replays_to(mid));
        let r = self.confirm(machine);
        proof {
            lemma_frontier(mid);
            if r is Ok {
                assert(mid.confirms_to::<M>(*self, *machine));
                assert forall|origin: Seq<u8>| #[trigger]
                    before.follows::<M>(
                    machine_before,
                    origin,
                    before.current as int,
                ) implies self.follows::<M>(*machine, origin, before.current as int) by {
                    assert(mid.follows::<M>(replayed, origin, before.current as int));
                }
            }
        }
        r
    }

    /// Drop every retained frame from position `keep` on.
    fn truncate_history(&mut self, keep: usize)
        requires
            keep <= old(self).history@.len(),
            old(self).bytes == snapshot_bytes(old(self).history@),
        ensures
            final(self).history@ == old(self).history@.take(keep as int),
            final(self).bytes == snapshot_bytes(final(self).history@),
            final(self).bytes <= old(self).bytes,
            *final(self) == (Rollback {
                history: final(self).history,
                bytes: final(self).bytes,
                ..*old(self)
            }),
    {
        let ghost before = *self;
        assert(self.history@ =~= before.history@.take(self.history@.len() as int));
        while self.history.len() > keep
            invariant
                keep <= self.history@.len() <= before.history@.len(),
                self.history@ == before.history@.take(self.history@.len() as int),
                self.bytes == snapshot_bytes(self.history@),
                self.bytes <= before.bytes,
                *self == (Rollback { history: self.history, bytes: self.bytes, ..before }),
            decreases self.history@.len(),
        {
            let ghost frames = self.history@;
            match self.history.pop_back() {
                Some(frame) => {
                    proof {
                        lemma_snapshot_bytes_nonneg(frames.drop_last());
                        assert(self.history@ =~= frames.drop_last());
                    }
                    self.bytes = self.bytes - frame.before.len();
                },
                None => {},
            }
            assert(self.history@ =~= before.history@.take(self.history@.len() as int));
        }
    }
}

proof fn lemma_replay_goes_on(before: Rollback, part: Rollback, first: u64, f: u64)
    requires
        before.wf(),
        first <= f < before.current,
        before.resumes_at(first, f, part),
        part.executes(f) == before.executes(f),
    ensures
        before.replay_events(first as int, f + 1) == before.replay_events(
            first as int,
            f as int,
        ).push(part.run_of(f, true, true)),
{
    let run = before.replayed_trace(first as int, before.current as int);
    if f > 0 {
        assert(run[f - 1] == part.trace@[f - 1]);
    }
    assert(keys_before(run, f as int) == keys_before(part.trace@, f as int));
    assert(before.replay_events(first as int, f + 1) =~= before.replay_events(
        first as int,
        f as int,
    ).push(part.run_of(f, true, true)));
}

/// The state of the inputs does not depend on the run.
proof fn lemma_inputs_only(a: Rollback, b: Rollback)
    requires
        a.inputs_ok(),
        b.same_but_run(a),
    ensures
        b.inputs_ok(),
{
    assert(forall|p: int| a.held(p) == #[trigger] b.held(p));
    assert(b.submitted_ok()) by {
        assert forall|p: int, f: u64| #![trigger b.held(p).contains_key(f)]
            0 <= p < b.players && b.held(p).contains_key(f) implies b.submitted@[p].contains_key(f)
            && b.submitted@[p][f] == b.held(p)[f] by {
            assert(a.held(p).contains_key(f));
        }
    }
}

proof fn lemma_truncated(before: Rollback, after: Rollback, first: u64)
    requires
        before.wf(),
        before.dirty == Some(first),
        after == (Rollback {
            history: after.history,
            previous_keys: after.previous_keys,
            bytes: after.bytes,
            trace: after.trace,
            dirty: None,
            ..before
        }),
        after.history@ == before.history@.take(first - before.confirmed),
        after.trace@ == before.trace@.take(first as int),
        after.previous_keys == before.history@[first - before.confirmed].previous_keys,
        after.bytes == snapshot_bytes(after.history@),
        after.bytes <= before.bytes,
    ensures
        after.inputs_ok(),
        after.history_ok(first as int),
        after.faithful(first as int),
        after.hashes_before(first as int),
{
    assert(forall|p: int| before.held(p) == #[trigger] after.held(p));
    assert(after.submitted_ok()) by {
        assert forall|p: int, f: u64| #![trigger after.held(p).contains_key(f)]
            0 <= p < after.players && after.held(p).contains_key(
            f,
        ) implies after.submitted@[p].contains_key(f) && after.submitted@[p][f] == after.held(
            p,
        )[f] by {
            assert(before.held(p).contains_key(f));
        }
    }
    assert forall|i: int| #![trigger after.history@[i]] 0 <= i < after.history@.len() implies {
        &&& after.history@[i].number == after.confirmed + i
        &&& after.history@[i].inputs@ == after.trace@[after.confirmed + i]
        &&& after.history@[i].previous_keys@ == keys_before(after.trace@, after.confirmed + i)
    } by {
        assert(after.history@[i] == before.history@[i]);
    }
    assert forall|f: u64, q: int| #![trigger after.submitted@[q].contains_key(f)]
        f < first && 0 <= q < after.players && after.submitted@[q].contains_key(
        f,
    ) implies after.trace@[f as int][q] == after.submitted@[q][f] by {
        assert(before.submitted@[q].contains_key(f));
    }
}

proof fn lemma_truncated_follows<M: Machine>(
    before: Rollback,
    after: Rollback,
    machine: M,
    loaded: M,
    origin: Seq<u8>,
    first: u64,
)
    requires
        before.wf(),
        before.dirty == Some(first),
        before.follows::<M>(machine, origin, before.current as int),
        after == (Rollback {
            history: after.history,
            previous_keys: after.previous_keys,
            bytes: after.bytes,
            trace: after.trace,
            dirty: None,
            ..before
        }),
        after.history@ == before.history@.take(first - before.confirmed),
        after.trace@ == before.trace@.take(first as int),
        loaded.snapshot() == before.history@[first - before.confirmed].before@,
    ensures
        after.follows::<M>(loaded, origin, first as int),
{
    lemma_state_prefix::<M>(origin, before.trace@, after.trace@, first as int);
    assert(before.history@[first - before.confirmed].number == first);
    assert forall|i: int| #![trigger after.history@[i]]
        0 <= i < after.history@.len() implies after.history@[i].before@ == state_at::<M>(
        origin,
        after.trace@,
        after.history@[i].number as int,
    ) by {
        assert(after.history@[i] == before.history@[i]);
        lemma_state_prefix::<M>(
            origin,
            before.trace@,
            after.trace@,
            before.history@[i].number as int,
        );
    }
    assert forall|f: u64| #[trigger] after.hashes@.contains_key(f) implies after.hashes@[f]@
        == sha256(state_at::<M>(origin, after.trace@, f as int)) by {
        lemma_state_prefix::<M>(origin, before.trace@, after.trace@, f as int);
    }
    if let Some(log) = after.log {
        assert forall|i: int| #![trigger log.hashes@[i]]
            0 <= i < log.hashes@.len() implies log.hashes@[i].1@ == sha256(
            state_at::<M>(origin, after.trace@, log.hashes@[i].0 as int),
        ) by {
            lemma_state_prefix::<M>(
                origin,
                before.trace@,
                after.trace@,
                log.hashes@[i].0 as int,
            );
        }
    }
}

proof fn lemma_replayed_wf(before: Rollback, after: Rollback, first: u64)
    requires
        before.wf(),
        before.dirty == Some(first),
        after == (Rollback {
            history: after.history,
            previous_keys: after.previous_keys,
            bytes: after.bytes,
            trace: after.trace,
            dirty: None,
            rollbacks: after.rollbacks,
            replayed_frames: after.replayed_frames,
            ..before
        }),
        after.history_ok(after.current as int),
        after.faithful(after.current as int),
        after.trace@ == before.replayed_trace(first as int, before.current as int),
    ensures
        after.wf(),
{
    assert(forall|p: int| before.held(p) == #[trigger] after.held(p));
    assert(after.submitted_ok()) by {
        assert forall|p: int, f: u64| #![trigger after.held(p).contains_key(f)]
            0 <= p < after.players && after.held(p).contains_key(
            f,
        ) implies after.submitted@[p].contains_key(f) && after.submitted@[p][f] == after.held(
            p,
        )[f] by {
            assert(before.held(p).contains_key(f));
        }
    }
    assert(after.log_ok()) by {
        if let Some(log) = after.log {
            assert forall|i: int| #![trigger log.inputs@[i]] 0 <= i < log.inputs@.len() implies {
                let f = after.confirmed - log.inputs@.len() + i;
                &&& log.inputs@[i].0 == f
                &&& forall|p: int|
                    0 <= p < MAX_PLAYERS ==> #[trigger] log.inputs@[i].1[p] == (if p
                        < after.players {
                        after.trace@[f][p]
                    } else {
                        Input::neutral()
                    })
            } by {
                let f = after.confirmed - log.inputs@.len() + i;
                assert(after.trace@[f] == before.trace@[f]);
            }
        }
    }
}

impl Rollback {
    /// What sampling the local input for the frame `delay` ahead changes.
    pub open spec fn submits_to(self, after: Rollback, input: Input) -> bool {
        if self.local@.contains_key((self.current + self.delay) as u64) {
            after == self
        } else {
            after.sampled_local(self, input)
        }
    }

    /// The timeline may not predict any further, or owes a peer too many
    /// unacknowledged inputs.
    pub open spec fn stalled(self) -> bool {
        ||| self.current >= self.spec_received_frontier() + self.window
        ||| self.current >= self.spec_ack_frontier() + self.window
    }

    /// What executing one more frame changes.
    pub open spec fn steps_to(self, after: Rollback) -> bool {
        &&& after.wf()
        &&& after.current == self.current + 1
        &&& after.trace@ == self.trace@.push(self.executes(self.current))
        &&& after == Rollback {
            current: after.current,
            history: after.history,
            previous_keys: after.previous_keys,
            bytes: after.bytes,
            trace: after.trace,
            ..self
        }
    }

    /// No more than a window of frames is unconfirmed.
    pub open spec fn within_window(self) -> bool {
        self.current <= self.confirmed + self.window
    }

    /// A step that stops with the error `e`: the frame cannot be run, or the
    /// machine cannot be saved after it for a digest that is due.
    pub open spec fn advance_fails<M: Machine>(
        self,
        machine: M,
        input: Input,
        after: Rollback,
        machine_after: M,
        e: RollbackError,
    ) -> bool {
        exists|mid: Rollback| #[trigger]
            self.submits_to(mid, input) && !mid.stalled() && ({
                ||| {
                    &&& mid.runs_to::<M>(machine, self.current, false, machine_after, Err(e))
                    &&& after == mid
                }
                ||| {
                    &&& mid.runs_to::<M>(machine, self.current, false, machine_after, Ok(()))
                    &&& exists|stepped: Rollback| #[trigger]
                        mid.steps_to(stepped) && stepped.confirm_fails::<M>(
                            machine_after,
                            after,
                            e,
                        )
                }
            })
    }

    /// Sample the local input and execute one frame, unless the window is
    /// exhausted: then nothing is executed and the answer is false.
    pub fn advance<M: Machine>(&mut self, machine: &mut M, input: Input) -> (r: Result<
        bool,
        RollbackError,
    >)
        requires
            old(self).wf(),
            old(self).reconciled(),
            old(self).current < FRAME_LIMIT,
        ensures
            final(self).same_seat(*old(self)),
            r is Ok ==> final(self).wf() && final(self).reconciled(),
            (r matches Ok(stepped) && !stepped) <==> old(self).stalled(),
            r == Ok::<bool, RollbackError>(false) ==> {
                &&& *final(machine) == *old(machine)
                &&& old(self).submits_to(*final(self), input)
                &&& final(self).stalled()
            },
            r == Ok::<bool, RollbackError>(true) ==> {
                &&& final(self).within_window()
                &&& old(self).advances_to::<M>(
                    *old(machine),
                    input,
                    *final(self),
                    *final(machine),
                )
                &&& forall|origin: Seq<u8>| #[trigger]
                    old(self).follows::<M>(*old(machine), origin, old(self).current as int) ==>
                    final(self).follows::<M>(*final(machine), origin, old(self).current + 1)
            },
            r matches Err(e) ==> !old(self).stalled() && old(self).advance_fails::<M>(
                *old(machine),
                input,
                *final(self),
                *final(machine),
                e,
            ),
            r matches Err(e) && e is SnapshotBudget ==> old(self).bytes + old(
                machine,
            ).snapshot().len() > MEMORY_LIMIT,
    {
        let ghost before = *self;
        let ghost machine_before = *machine;
        self.submit_local(input);
        let ghost mid = *self;
        proof {
            lemma_frontier_bounds(before);
            lemma_frontier_bounds(mid);
        }
        if self.current >= self.received_frontier() + self.window || self.current
            >= self.ack_frontier() + self.window {
            return Ok(false);
        }
        assert(before.stalled() == mid.stalled());
        assert(forall|origin: Seq<u8>|
            before.follows::<M>(machine_before, origin, before.current as int)
                == #[trigger] mid.follows::<M>(machine_before, origin, before.current as int));
        assert(self.local@.contains_key(self.current)) by {
            if self.delay > 0 {
                assert(before.local@.contains_key(before.current));
            }
        }
        let number: u64 = self.current;
        assert(mid.faithful(mid.current as int));
        assert(before.submits_to(mid, input));
        self.simulate(machine, number, false)?;
        let ghost run = *self;
        let ghost machine_run = *machine;
        self.current = self.current + 1;
        let ghost stepped = *self;
        proof {
            lemma_stepped_wf(mid, stepped);
            assert(mid.steps_to(stepped));
        }
        self.confirm(machine)?;
        proof {
            assert(mid.steps_to(stepped) && stepped.confirms_to::<M>(*self, *machine));
            assert forall|origin: Seq<u8>| #[trigger]
                before.follows::<M>(
                machine_before,
                origin,
                before.current as int,
            ) implies self.follows::<M>(*machine, origin, before.current + 1) by {
                assert(mid.follows::<M>(machine_before, origin, before.current as int));
                assert(run.follows::<M>(machine_run, origin, before.current + 1));
                assert(stepped.follows::<M>(machine_run, origin, before.current + 1));
            }
        }
        Ok(true)
    }
}

impl Rollback {
    /// Executing one frame with the input `sampled`, and confirming. The
    /// machine is told to run that frame once, and not as a replay.
    pub open spec fn advances_to<M: Machine>(
        self,
        machine: M,
        sampled: Input,
        after: Rollback,
        machine_after: M,
    ) -> bool {
        exists|mid: Rollback, stepped: Rollback|
            {
                &&& self.submits_to(mid, sampled)
                &&& !mid.stalled()
                &&& mid.runs_to::<M>(machine, self.current, false, machine_after, Ok(()))
                &&& #[trigger] mid.steps_to(stepped)
                &&& stepped.confirms_to::<M>(after, machine_after)
            }
    }

    /// One turn at the machine: what a late input changed is replayed, and
    /// then one frame is executed where that is asked for and the window
    /// leaves room for it.
    pub open spec fn plays_to<M: Machine>(
        self,
        machine: M,
        sampled: Input,
        advance: bool,
        after: Rollback,
        machine_after: M,
        stepped: bool,
    ) -> bool {
        exists|ready: Rollback, at: M| #[trigger]
            self.reconciles_to::<M>(machine, ready, at, Ok(())) && if stepped {
                advance && ready.advances_to::<M>(at, sampled, after, machine_after)
            } else {
                &&& machine_after == at
                &&& if advance {
                    ready.submits_to(after, sampled) && after.stalled()
                } else {
                    after == ready
                }
            }
    }

    /// A turn at the machine that stops with the error `e`.
    pub open spec fn play_fails<M: Machine>(
        self,
        machine: M,
        sampled: Input,
        advance: bool,
        after: Rollback,
        machine_after: M,
        e: RollbackError,
    ) -> bool {
        ||| self.reconciles_to::<M>(machine, after, machine_after, Err(e))
        ||| advance && exists|ready: Rollback, at: M| #[trigger]
            self.reconciles_to::<M>(machine, ready, at, Ok(())) && ready.advance_fails::<M>(
                at,
                sampled,
                after,
                machine_after,
                e,
            )
    }
}

proof fn lemma_frontier_bounds(r: Rollback)
    requires
        r.inputs_ok(),
    ensures
        r.spec_received_frontier() <= r.horizon() + 1,
        r.spec_ack_frontier() <= r.current + r.delay + 1,
{
    let q: int = if r.player == 0 {
        1
    } else {
        0
    };
    lemma_frontier(r);
    assert(r.is_peer(q) && r.received[q] <= r.horizon() + 1);
    assert(r.acknowledged[q] <= r.current + r.delay + 1);
    if r.player == 0 {
        lemma_least_but(r.acknowledged@, 0, r.players as int);
        assert(r.acknowledged@[q] <= r.current + r.delay + 1);
    }
}

proof fn lemma_stepped_wf(before: Rollback, after: Rollback)
    requires
        before.wf(),
        before.reconciled(),
        before.current < FRAME_LIMIT,
        before.local@.contains_key((before.current + before.delay) as u64),
        after.history_ok(before.current + 1),
        after.faithful(before.current + 1),
        after.trace@ == before.trace@.push(before.executes(before.current)),
        after == (Rollback {
            current: (before.current + 1) as u64,
            history: after.history,
            previous_keys: after.previous_keys,
            bytes: after.bytes,
            trace: after.trace,
            ..before
        }),
    ensures
        after.wf(),
{
    assert(forall|p: int| before.held(p) == #[trigger] after.held(p));
    let newest = (before.current + before.delay) as u64;
    assert(after.submitted_ok()) by {
        assert forall|p: int, f: u64| #![trigger after.held(p).contains_key(f)]
            0 <= p < after.players && after.held(p).contains_key(
            f,
        ) implies after.submitted@[p].contains_key(f) && after.submitted@[p][f] == after.held(
            p,
        )[f] by {
            assert(before.held(p).contains_key(f));
        }
        assert forall|f: u64| f < after.current + after.delay implies #[trigger] after.submitted@[after.player as int].contains_key(
            f,
        ) by {
            if f == newest {
                assert(before.held(before.player as int).contains_key(f));
            } else {
                assert(before.submitted@[before.player as int].contains_key(f));
            }
        }
    }
    assert forall|f: u64|
        after.confirmed <= f < after.current + after.delay implies #[trigger] after.local@.contains_key(
        f,
    ) by {
        if f != newest {
            assert(before.local@.contains_key(f));
        }
    }
    assert forall|p: int, f: u64| #![trigger after.remote@[p]@.contains_key(f)]
        after.is_peer(p) && after.remote@[p]@.contains_key(f) implies f <= after.horizon() by {
        assert(before.remote@[p]@.contains_key(f));
        assert(before.is_peer(p));
    }
    assert forall|p: int| #![trigger after.received[p]] after.is_peer(p) implies {
        &&& after.confirmed <= after.received[p]
        &&& after.received[p] <= after.horizon() + 1
        &&& !after.remote@[p]@.contains_key(after.received[p])
    } by {
        assert(before.is_peer(p));
        assert(before.confirmed <= before.received[p]);
    }
    assert forall|p: int| #![trigger after.acknowledged[p]]
        after.is_peer(p) implies after.acknowledged[p] <= after.current + after.delay + 1 by {
        assert(before.is_peer(p));
        assert(before.acknowledged[p] <= before.current + before.delay + 1);
    }
    assert forall|p: int, f: u64| #![trigger after.remote@[p]@.contains_key(f)]
        after.is_peer(p) && after.confirmed <= f
            < after.received[p] implies after.remote@[p]@.contains_key(f) by {
        assert(before.is_peer(p));
        assert(before.remote@[p]@.contains_key(f));
    }
    assert(after.inputs_ok());
    assert(after.log_ok()) by {
        if let Some(log) = after.log {
            assert forall|i: int| #![trigger log.inputs@[i]] 0 <= i < log.inputs@.len() implies {
                let f = after.confirmed - log.inputs@.len() + i;
                &&& log.inputs@[i].0 == f
                &&& forall|p: int|
                    0 <= p < MAX_PLAYERS ==> #[trigger] log.inputs@[i].1[p] == (if p
                        < after.players {
                        after.trace@[f][p]
                    } else {
                        Input::neutral()
                    })
            } by {
                let f = after.confirmed - log.inputs@.len() + i;
                assert(after.trace@[f] == before.trace@[f]);
            }
        }
    }
}

impl Rollback {
    /// The inputs every port submitted for the first `n` frames.
    pub open spec fn submitted_inputs(self, n: int) -> Seq<Seq<Input>> {
        Seq::new(
            n as nat,
            |f: int| Seq::new(self.players as nat, |p: int| self.submitted@[p][f as u64]),
        )
    }
}

proof fn lemma_trace_is_submitted(r: Rollback, n: int)
    requires
        r.wf(),
        0 <= n <= r.settled(),
        n <= r.spec_received_frontier(),
    ensures
        forall|f: int| 0 <= f < n ==> #[trigger] r.trace@[f] == r.submitted_inputs(n)[f],
{
    lemma_frontier(r);
    assert forall|f: int| 0 <= f < n implies #[trigger] r.trace@[f] == r.submitted_inputs(n)[f] by {
        assert forall|p: int| 0 <= p < r.players implies r.trace@[f][p] == r.submitted_inputs(
            n,
        )[f][p] by {
            if p == r.player {
                assert(r.submitted@[r.player as int].contains_key(f as u64));
            } else {
                assert(r.is_peer(p) && r.spec_received_frontier() <= r.received[p]);
                assert(r.submitted@[p].contains_key(f as u64));
            }
        }
        assert(r.trace@[f] =~= r.submitted_inputs(n)[f]);
    }
}

/// However late, repeated or reordered the peers' inputs arrived: once all of
/// them are known and nothing waits to be replayed, the machine is in the
/// state an uninterrupted run with the submitted inputs reaches.
pub proof fn law_replay_reaches_the_baseline<M: Machine>(
    r: Rollback,
    machine: M,
    origin: Seq<u8>,
)
    requires
        r.wf(),
        r.reconciled(),
        r.follows::<M>(machine, origin, r.current as int),
        r.spec_received_frontier() >= r.current,
    ensures
        machine.snapshot() == state_at::<M>(
            origin,
            r.submitted_inputs(r.current as int),
            r.current as int,
        ),
{
    let n = r.current as int;
    lemma_trace_is_submitted(r, n);
    lemma_state_prefix::<M>(origin, r.trace@, r.submitted_inputs(n), n);
}

/// Peers that start from one machine and hold the same inputs for the frames
/// before a checkpoint take the same digest there: a mismatch is a
/// desynchronization.
pub proof fn law_honest_peers_take_the_same_digest<M: Machine>(
    a: Rollback,
    b: Rollback,
    machine_a: M,
    machine_b: M,
    origin: Seq<u8>,
    f: u64,
)
    requires
        a.wf(),
        b.wf(),
        a.follows::<M>(machine_a, origin, a.current as int),
        b.follows::<M>(machine_b, origin, b.current as int),
        a.players == b.players,
        a.hashes@.contains_key(f),
        b.hashes@.contains_key(f),
        forall|p: int, g: u64|
            #![trigger a.submitted@[p][g]]
            #![trigger b.submitted@[p][g]]
            0 <= p < a.players && g < f ==> a.submitted@[p][g] == b.submitted@[p][g],
    ensures
        a.hashes@[f]@ == b.hashes@[f]@,
{
    let n = f as int;
    lemma_frontier(a);
    lemma_frontier(b);
    lemma_trace_is_submitted(a, n);
    lemma_trace_is_submitted(b, n);
    assert forall|g: int| 0 <= g < n implies #[trigger] a.trace@[g] == b.trace@[g] by {
        assert(a.submitted_inputs(n)[g] =~= b.submitted_inputs(n)[g]);
    }
    lemma_state_prefix::<M>(origin, a.trace@, b.trace@, n);
}

/// A frame is heard and seen once: executing it shows it, and replaying what a
/// late input changed shows nothing.
pub proof fn law_each_frame_is_shown_once<M: Machine>(
    before: Rollback,
    after: Rollback,
    machine: M,
    machine_after: M,
    sampled: Input,
    advance: bool,
    stepped: bool,
)
    requires
        before.plays_to::<M>(machine, sampled, advance, after, machine_after, stepped),
    ensures
        frames_shown(machine_after.history()) == frames_shown(machine.history()) + (if stepped {
            1int
        } else {
            0
        }),
        after.current == before.current + (if stepped {
            1int
        } else {
            0
        }),
{
    let (ready, at) = choose|ready: Rollback, at: M| #[trigger]
        before.reconciles_to::<M>(machine, ready, at, Ok(())) && if stepped {
            advance && ready.advances_to::<M>(at, sampled, after, machine_after)
        } else {
            &&& machine_after == at
            &&& if advance {
                ready.submits_to(after, sampled) && after.stalled()
            } else {
                after == ready
            }
        };
    if let Some(first) = before.dirty {
        lemma_replays_show_nothing(
            machine.history(),
            before.replay_events(first as int, before.current as int),
        );
    }
    assert(frames_shown(at.history()) == frames_shown(machine.history()));
    assert(ready.current == before.current);
    if stepped {
        let (mid, step) = choose|mid: Rollback, step: Rollback|
            {
                &&& ready.submits_to(mid, sampled)
                &&& !mid.stalled()
                &&& mid.runs_to::<M>(at, ready.current, false, machine_after, Ok(()))
                &&& #[trigger] mid.steps_to(step)
                &&& step.confirms_to::<M>(after, machine_after)
            };
        let told = at.history();
        assert(told.push(mid.run_of(ready.current, false, true)).drop_last() =~= told);
    }
}

/// A replay never touches a confirmed frame.
pub proof fn law_confirmed_frames_are_final(before: Rollback, after: Rollback, f: int)
    requires
        before.wf(),
        before.replays_to(after),
        0 <= f < before.confirmed,
    ensures
        after.trace@[f] == before.trace@[f],
{
}

/// Two inputs received in either order leave the same timeline.
pub proof fn law_arrival_order_does_not_matter(
    start: Rollback,
    a: Rollback,
    ab: Rollback,
    b: Rollback,
    ba: Rollback,
    p: int,
    f: u64,
    i: Input,
    q: int,
    g: u64,
    j: Input,
)
    requires
        start.wf(),
        start.is_peer(p),
        start.is_peer(q),
        p != q || f != g,
        a.took(start, p, f, i),
        ab.took(a, q, g, j),
        b.took(start, q, g, j),
        ba.took(b, p, f, i),
    ensures
        forall|x: int| #![trigger ab.remote@[x]]
            start.is_peer(x) ==> ab.remote@[x]@ == ba.remote@[x]@,
        forall|x: int| #![trigger ab.received[x]]
            start.is_peer(x) ==> ab.received[x] == ba.received[x],
        ab.submitted@ == ba.submitted@,
        ab.dirty == ba.dirty,
        ab.same_but_received(ba),
{
    assert forall|x: int| #![trigger ab.remote@[x]] start.is_peer(x) implies ab.remote@[x]@
        == ba.remote@[x]@ by {
        if x != p {
            assert(a.remote@[x] == start.remote@[x]);
            assert(ba.remote@[x] == b.remote@[x]);
        }
        if x != q {
            assert(ab.remote@[x] == a.remote@[x]);
            assert(b.remote@[x] == start.remote@[x]);
        }
        assert(ab.remote@[x]@ =~= ba.remote@[x]@);
    }
    assert(ab.submitted@ =~= ba.submitted@) by {
        if p == q {
            assert(start.submitted@[p].insert(f, i).insert(g, j) =~= start.submitted@[p].insert(
                g,
                j,
            ).insert(f, i));
        }
    }
    assert forall|x: int| #![trigger ab.received[x]] start.is_peer(x) implies ab.received[x]
        == ba.received[x] by {
        let known = ab.remote@[x]@;
        assert(known == ba.remote@[x]@);
        lemma_first_missing(start, a, ab, p, f, i, q, g, j, x);
        lemma_first_missing(start, b, ba, q, g, j, p, f, i, x);
        let l = ab.received[x];
        let r = ba.received[x];
        if l < r {
            assert(ba.remote@[x]@.contains_key(l));
        } else if r < l {
            assert(ab.remote@[x]@.contains_key(r));
        }
    }
}

proof fn lemma_first_missing(
    start: Rollback,
    a: Rollback,
    ab: Rollback,
    p: int,
    f: u64,
    i: Input,
    q: int,
    g: u64,
    j: Input,
    x: int,
)
    requires
        start.wf(),
        start.is_peer(p),
        start.is_peer(q),
        start.is_peer(x),
        a.took(start, p, f, i),
        ab.took(a, q, g, j),
    ensures
        start.received[x] <= ab.received[x],
        !ab.remote@[x]@.contains_key(ab.received[x]),
        forall|h: u64|
            start.received[x] <= h < ab.received[x] ==> #[trigger] ab.remote@[x]@.contains_key(h),
{
    if x != p {
        assert(a.remote@[x] == start.remote@[x] && a.received[x] == start.received[x]);
        assert(!start.remote@[x]@.contains_key(start.received[x]));
    }
    if x != q {
        assert(ab.remote@[x] == a.remote@[x] && ab.received[x] == a.received[x]);
    }
    assert forall|h: u64|
        start.received[x] <= h < ab.received[x] implies #[trigger] ab.remote@[x]@.contains_key(
        h,
    ) by {
        if h < a.received[x] {
            if x == p {
                assert(a.remote@[x]@.contains_key(h));
            }
        }
    }
}

/// A timeline stays sound when a host raises what it still owes its links, or
/// when the feed log is emptied.
pub proof fn lemma_wf_apart_from_relay_and_log(a: Rollback, b: Rollback)
    requires
        a.wf(),
        b == (Rollback { relay_floor: b.relay_floor, log: b.log, ..a }),
        b.log == a.log || (b.log matches Some(log) ==> log.inputs@.len() == 0 && log.hashes@.len()
            == 0),
    ensures
        b.wf(),
        b.stalled() == a.stalled(),
        b.confirmable() == a.confirmable(),
{
    assert(forall|p: int| a.held(p) == #[trigger] b.held(p));
    assert(b.submitted_ok()) by {
        assert forall|p: int, f: u64| #![trigger b.held(p).contains_key(f)]
            0 <= p < b.players && b.held(p).contains_key(f) implies b.submitted@[p].contains_key(f)
            && b.submitted@[p][f] == b.held(p)[f] by {
            assert(a.held(p).contains_key(f));
        }
    }
}

/// What a frame executes for a peer: the peer's own input where it is known.
/// Where it is not, the peer is taken to hold what the last known input below
/// the frame held: the same switches, keys and mouse buttons, and a mouse
/// that does not move. Before anything is known nothing is held.
pub proof fn law_predictions_hold_and_do_not_move(r: Rollback, p: int, f: u64)
    requires
        r.is_peer(p),
    ensures
        r.executes(f).len() == r.players,
        r.remote@[p]@.contains_key(f) ==> r.executes(f)[p] == r.remote@[p]@[f],
        !r.remote@[p]@.contains_key(f) ==> r.executes(f)[p].mouse_dx == 0 && r.executes(f)[p].mouse_dy
            == 0,
        forall|g: u64|
            #![trigger r.remote@[p]@.contains_key(g)]
            g < f && r.remote@[p]@.contains_key(g) && (forall|h: u64|
                g < h <= f ==> !#[trigger] r.remote@[p]@.contains_key(h)) ==> {
                &&& r.executes(f)[p].buttons == r.remote@[p]@[g].buttons
                &&& r.executes(f)[p].keys == r.remote@[p]@[g].keys
                &&& r.executes(f)[p].mouse_buttons == r.remote@[p]@[g].mouse_buttons
            },
        (forall|h: u64| h <= f ==> !#[trigger] r.remote@[p]@.contains_key(h)) ==> {
            &&& r.executes(f)[p].buttons == 0
            &&& r.executes(f)[p].mouse_buttons == 0
            &&& forall|i: int| 0 <= i < 16 ==> #[trigger] r.executes(f)[p].keys@[i] == 0
        },
{
    let known = r.remote@[p]@;
    if known.contains_key(f) {
        lemma_newest_until(known, f, f);
    }
    assert forall|g: u64|
        #![trigger known.contains_key(g)]
        g < f && known.contains_key(g) && (forall|h: u64|
            g < h <= f ==> !#[trigger] known.contains_key(h)) implies newest_until(known, f) == Some(
        (g, known[g]),
    ) by {
        lemma_newest_until(known, f, g);
    }
    if forall|h: u64| h <= f ==> !#[trigger] known.contains_key(h) {
        assert(newest_until(known, f) is None);
    }
}

/// A frame executes the local player's own input.
pub proof fn law_the_own_port_is_never_predicted(r: Rollback, f: u64)
    requires
        r.player < r.players,
    ensures
        r.executes(f)[r.player as int] == r.local@[f],
{
}

} // verus!
