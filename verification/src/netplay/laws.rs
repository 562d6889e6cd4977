//! What the parts of a session promise each other, in plain terms.
use vstd::prelude::*;
use crate::bytes::le_value;
use crate::netplay::config::{
    socket_without_joystick, ColdMachine, Config, ConfigError, PortDevice,
};
use crate::netplay::connection::{
    chunk, chunks, first_silent, known_after, relay_need, Connection, ConnectionError, Link,
};
use crate::netplay::digest::sha256;
use crate::netplay::feed::{Feed, SwapRecord};
use crate::netplay::input::{merged, Input, LocalInput};
use crate::netplay::machine::{keys_before, state_at, Machine, MachineEvent};
use crate::netplay::message::{Action, Message, Progress, SessionError};
use crate::netplay::player::{
    all_running, describes, disk_refusal, disk_to_links, greets, lowest_free, seat_index, to_links,
    GuestPhase, GuestState, Phase, Player,
};
use crate::netplay::report::Report;
use crate::netplay::rollback::{
    checkpoint_count, first_checkpoint, is_checkpoint, least_but, neutral_start, snapshot_bytes,
    ConfirmedLog, Frame, Rollback, RollbackError,
};
use crate::netplay::session::{start_refusal, Session, Stepped};
use crate::netplay::settings::{
    is_session_code, peer_refusal, peers_refusal, ConnectionOptions, Endpoint, IpAddress, Options,
    Role, Settings, SettingsError, Status, WatchOptions,
};
use crate::netplay::spectators::{
    caught_up, noticed, staying, streaming, SpectatorLink, WatchPhase,
};
use crate::netplay::swap::{Swap, SwapMessage, SwapPhase};
use crate::netplay::timeline::lemma_newest_until;
use crate::netplay::transport::{
    claims_but, claims_of, packets, queued, slots_of, LinkEvent, QueueCall, Queues, SlotKind,
    SlotTable, Transport,
};
use crate::netplay::watcher::{Replay, WatchTurn, Watcher, WatcherPhase};
use crate::netplay::wire::Packet;

verus! {

proof fn lemma_least(values: Seq<u64>, skip: int, n: int)
    requires
        n <= values.len(),
    ensures
        least_but(values, skip, n) matches Some(m) ==> {
            &&& forall|p: int| 0 <= p < n && p != skip ==> m <= #[trigger] values[p]
            &&& exists|p: int| 0 <= p < n && p != skip && m == #[trigger] values[p]
        },
        n >= 2 || (n == 1 && skip != 0) ==> least_but(values, skip, n) is Some,
    decreases n,
{
    if n > 0 {
        lemma_least(values, skip, n - 1);
        if n - 1 != skip {
            match least_but(values, skip, n - 1) {
                None => {
                    assert(values[n - 1] == values[n - 1]);
                },
                Some(r) => {
                    let p = choose|p: int| 0 <= p < n - 1 && p != skip && r == #[trigger] values[p];
                    assert(values[p] == r);
                    assert(values[n - 1] == values[n - 1]);
                },
            }
        }
    }
}

/// Confirmation reaches as far as every peer's input is known, and no further
/// than has been executed: to one of these frames, and past none of them.
pub proof fn law_confirmation_waits_for_every_peer(r: Rollback)
    requires
        r.player < r.players <= 4,
        r.players >= 2,
    ensures
        r.confirmable() <= r.current,
        forall|p: int|
            #![trigger r.received[p]]
            0 <= p < r.players && p != r.player ==> r.confirmable() <= r.received[p],
        r.confirmable() == r.current || exists|p: int|
            #![trigger r.received[p]]
            0 <= p < r.players && p != r.player && r.confirmable() == r.received[p],
{
    lemma_least(r.received@, r.player as int, r.players as int);
    let q: int = if r.player == 0 {
        1
    } else {
        0
    };
    assert(r.received@[q] == r.received[q]);
    let m = least_but(r.received@, r.player as int, r.players as int);
    assert(m is Some);
    let p = choose|p: int|
        0 <= p < r.players && p != r.player && m->0 == #[trigger] r.received@[p];
    assert(r.received[p] == m->0);
    assert forall|p: int|
        #![trigger r.received[p]]
        0 <= p < r.players && p != r.player implies r.confirmable() <= r.received[p] by {
        assert(r.received@[p] == r.received[p]);
    }
}

/// A session runs no further than its window past any peer's last known
/// input, nor past what was last acknowledged of its own: by every guest at
/// the host, and by the host at a guest.
pub proof fn law_a_session_waits_within_its_window(r: Rollback)
    requires
        r.player < r.players <= 4,
        r.players >= 2,
    ensures
        r.stalled() <==> {
            ||| exists|p: int|
                #![trigger r.received[p]]
                0 <= p < r.players && p != r.player && r.current >= r.received[p] + r.window
            ||| r.player == 0 && exists|p: int|
                #![trigger r.acknowledged[p]]
                0 < p < r.players && r.current >= r.acknowledged[p] + r.window
            ||| r.player != 0 && r.current >= r.acknowledged[0] + r.window
        },
{
    lemma_least(r.received@, r.player as int, r.players as int);
    lemma_least(r.acknowledged@, 0, r.players as int);
    let q: int = if r.player == 0 {
        1
    } else {
        0
    };
    assert(r.received@[q] == r.received[q]);
    assert(r.acknowledged@[1] == r.acknowledged[1]);
    let m = least_but(r.received@, r.player as int, r.players as int);
    let p = choose|p: int|
        0 <= p < r.players && p != r.player && m->0 == #[trigger] r.received@[p];
    assert(r.received[p] == m->0);
    let k = least_but(r.acknowledged@, 0, r.players as int);
    let a = choose|a: int| 0 <= a < r.players && a != 0 && k->0 == #[trigger] r.acknowledged@[a];
    assert(r.acknowledged[a] == k->0);
    assert forall|p: int| #![trigger r.received[p]] 0 <= p < r.players && p != r.player implies m->0
        <= r.received[p] by {
        assert(r.received@[p] == r.received[p]);
    }
    assert forall|p: int| #![trigger r.acknowledged[p]] 0 < p < r.players implies k->0
        <= r.acknowledged[p] by {
        assert(r.acknowledged@[p] == r.acknowledged[p]);
    }
}

/// A session starts with nothing held for the frames of its input delay, and
/// with nothing known past them: of every port, and acknowledged as such.
pub proof fn law_a_session_starts_neutral(
    r: Rollback,
    player: usize,
    players: usize,
    delay: u8,
    window: u8,
    p: int,
    f: u64,
)
    requires
        r.is_fresh(player, players, delay, window),
        0 <= p < 4,
    ensures
        r.received[p] == delay && r.acknowledged[p] == delay,
        r.local@.contains_key(f) <==> f < delay,
        r.remote@[p]@.contains_key(f) <==> f < delay,
        f < delay ==> r.local@[f].buttons == 0 && r.local@[f].mouse_buttons == 0
            && r.local@[f].mouse_dx == 0 && r.local@[f].mouse_dy == 0 && r.local@[f].keys@
            =~= Seq::new(16, |i: int| 0u8),
        f < delay ==> r.remote@[p]@[f] == r.local@[f],
        r.current == 0 && r.confirmed == 0,
{
    assert(r.remote@[p]@ == neutral_start(delay));
    assert(r.received[p] == delay);
}

/// The input sampled now is for the frame `delay` frames on; a frame that was
/// sampled before keeps its input, and no other frame gains one.
pub proof fn law_samples_are_delayed(r: Rollback, after: Rollback, input: Input, f: u64)
    requires
        r.submits_to(after, input),
        r.current + r.delay < u64::MAX,
    ensures
        f == r.current + r.delay && !r.local@.contains_key(f) ==> after.local@.contains_key(f)
            && after.local@[f] == input,
        r.local@.contains_key(f) ==> after.local@.contains_key(f) && after.local@[f]
            == r.local@[f],
        f != r.current + r.delay ==> (after.local@.contains_key(f) <==> r.local@.contains_key(f)),
        after.current == r.current,
{
}

/// An input that came late and is not what its frame executed has that frame
/// replayed, and everything after it; one that is what was executed, or whose
/// frame has not run yet, changes nothing of that.
pub proof fn law_late_inputs_are_replayed(
    before: Rollback,
    after: Rollback,
    p: int,
    f: u64,
    input: Input,
)
    requires
        after.took(before, p, f, input),
        0 <= p < before.players,
    ensures
        f < before.current && before.trace@[f as int][p] != input ==> after.settled() <= f,
        after.settled() <= before.settled(),
        f >= before.current || before.trace@[f as int][p] == input ==> after.dirty == before.dirty,
        after.settled() == before.settled() || after.settled() == f,
        after.remote@[p]@.contains_key(f) && after.remote@[p]@[f] == input,
{
}

/// An acknowledgement is believed where it does not reach past the input that
/// was sampled.
pub proof fn law_acknowledgements_stay_behind_the_samples(r: Rollback, next: u64, p: int)
    requires
        next > r.acknowledged[p],
    ensures
        r.was_sent(next, p) <==> exists|f: u64| #[trigger]
            r.local@.contains_key(f) && next <= f + 1,
{
}

/// Digests are taken every sixty frames, of no other frame and not of the
/// first.
pub proof fn law_digests_are_taken_every_sixty_frames(f: u64)
    ensures
        is_checkpoint(f) <==> f != 0 && f % 60 == 0,
        is_checkpoint(f) && f <= u64::MAX - 60 ==> is_checkpoint((f + 60) as u64),
        is_checkpoint(f) ==> forall|g: u64| f < g < f + 60 ==> !#[trigger] is_checkpoint(g),
{
    assert forall|g: u64| is_checkpoint(f) && f < g < f + 60 implies !#[trigger] is_checkpoint(
        g,
    ) by {
        assert(g % 60 == (g - f) % 60);
    }
}

/// The digests taken while confirmation goes on are those of the multiples of
/// sixty that it passes, from the first past the old frontier up to the new.
pub proof fn law_confirmation_takes_the_digests_it_passes(confirmed: u64, end: u64, i: int)
    requires
        confirmed <= end,
    ensures
        confirmed < first_checkpoint(confirmed) <= confirmed + 60,
        first_checkpoint(confirmed) % 60 == 0,
        0 <= i < checkpoint_count(confirmed, end) ==> confirmed < first_checkpoint(confirmed) + 60
            * i <= end,
        first_checkpoint(confirmed) + 60 * checkpoint_count(confirmed, end) > end,
        checkpoint_count(confirmed, end) >= 0,
{
    let first = first_checkpoint(confirmed);
    assert(first == (confirmed as int / 60 + 1) * 60);
    if end >= first {
        let d = end - first;
        assert(d / 60 * 60 <= d < d / 60 * 60 + 60);
    }
}

/// A frame fails for memory exactly where its snapshot would bring what is
/// kept past 256 MiB.
pub proof fn law_snapshots_fit_the_budget<M: Machine>(
    r: Rollback,
    machine: M,
    f: u64,
    replay: bool,
    after: M,
)
    ensures
        r.runs_to::<M>(machine, f, replay, after, Err(RollbackError::SnapshotBudget)) ==> r.bytes
            + machine.snapshot().len() > 268_435_456 && after == machine,
        r.runs_to::<M>(machine, f, replay, after, Ok(())) ==> r.bytes + machine.snapshot().len()
            <= 268_435_456,
{
}

/// The keys a frame finds held are those that any player held in the frame
/// before; in the first frame none.
pub proof fn law_a_frame_follows_the_keys_before(trace: Seq<Seq<Input>>, n: int)
    ensures
        n > 0 ==> keys_before(trace, n) == merged(trace[n - 1]),
        n <= 0 ==> keys_before(trace, n) =~= Seq::new(16, |i: int| 0u8),
{
}

/// A state is reached frame by frame, each with its own inputs and the keys
/// before it.
pub proof fn law_states_are_reached_frame_by_frame<M: Machine>(
    origin: Seq<u8>,
    trace: Seq<Seq<Input>>,
    inputs: Seq<Input>,
)
    ensures
        state_at::<M>(origin, trace, 0) == origin,
        state_at::<M>(origin, trace.push(inputs), trace.len() as int + 1) == M::after(
            state_at::<M>(origin, trace, trace.len() as int),
            inputs,
            keys_before(trace, trace.len() as int),
        ),
{
    lemma_state_of_prefix::<M>(origin, trace, inputs, trace.len() as int);
    let more = trace.push(inputs);
    assert(more[trace.len() as int] == inputs);
    if trace.len() > 0 {
        assert(more[trace.len() - 1] == trace[trace.len() - 1]);
    }
}

proof fn lemma_state_of_prefix<M: Machine>(
    origin: Seq<u8>,
    trace: Seq<Seq<Input>>,
    inputs: Seq<Input>,
    n: int,
)
    requires
        0 <= n <= trace.len(),
    ensures
        state_at::<M>(origin, trace.push(inputs), n) == state_at::<M>(origin, trace, n),
    decreases n,
{
    if n > 0 {
        lemma_state_of_prefix::<M>(origin, trace, inputs, n - 1);
        assert(trace.push(inputs)[n - 1] == trace[n - 1]);
        if n > 1 {
            assert(trace.push(inputs)[n - 2] == trace[n - 2]);
        }
    }
}

/// A replay starts at the first frame that ran on a wrong input: the frames
/// before it stay as they ran, and each from there on runs what is now known.
pub proof fn law_a_replay_starts_at_the_wrong_frame(
    before: Rollback,
    after: Rollback,
    first: u64,
    f: int,
)
    requires
        before.replays_to(after),
        before.dirty == Some(first),
        first < before.current,
        before.rollbacks < u64::MAX,
        before.replayed_frames + before.current < u64::MAX,
        0 <= f < before.current,
    ensures
        f < first ==> after.trace@[f] == before.trace@[f],
        f >= first ==> after.trace@[f] == before.executes(f as u64),
        after.rollbacks == before.rollbacks + 1,
        after.replayed_frames == before.replayed_frames + before.current - first,
        after.current == before.current,
        after.dirty is None,
{
}

/// Confirmation drops nothing that is still needed: a frame that is not yet
/// confirmed executes the same after it as before, for every peer whose last
/// confirmed input is held.
pub proof fn law_confirmation_keeps_what_frames_execute<M: Machine>(
    before: Rollback,
    after: Rollback,
    machine: M,
    p: int,
    f: u64,
)
    requires
        before.confirms_to::<M>(after, machine),
        before.is_peer(p),
        p < 4,
        after.confirmed > 0,
        before.remote@[p]@.contains_key((after.confirmed - 1) as u64),
        f >= after.confirmed,
    ensures
        after.executes(f)[p] == before.executes(f)[p],
{
    let end = after.confirmed;
    let floor = before.remote_floor(end, p);
    let known = before.remote@[p]@;
    let kept = after.remote@[p]@;
    assert(after.released(before, end));
    assert(after.remote@[p] == after.remote@[p]);
    assert(crate::netplay::rollback::dropped_below(known, kept, floor));
    assert(floor <= end - 1);
    let last = (end - 1) as u64;
    assert(exists|e: u64| crate::netplay::timeline::is_newest_until(known, f, e)) by {
        lemma_some_newest(known, f, last);
    }
    let e = choose|e: u64| crate::netplay::timeline::is_newest_until(known, f, e);
    assert(known.contains_key(last) && last <= f);
    assert(e >= last);
    assert(kept.contains_key(e) && kept[e] == known[e]);
    assert(crate::netplay::timeline::is_newest_until(kept, f, e)) by {
        assert forall|g: u64| #[trigger] kept.contains_key(g) && g <= f implies g <= e by {
            assert(known.contains_key(g));
        }
    }
    lemma_newest_until(known, f, e);
    lemma_newest_until(kept, f, e);
}

proof fn lemma_some_newest<V>(m: Map<u64, V>, frame: u64, known: u64)
    requires
        m.contains_key(known),
        known <= frame,
    ensures
        exists|e: u64| crate::netplay::timeline::is_newest_until(m, frame, e),
    decreases frame,
{
    if m.contains_key(frame) {
        assert(crate::netplay::timeline::is_newest_until(m, frame, frame));
    } else {
        let less = (frame - 1) as u64;
        lemma_some_newest(m, less, known);
        let e = choose|e: u64| crate::netplay::timeline::is_newest_until(m, less, e);
        assert(crate::netplay::timeline::is_newest_until(m, frame, e));
    }
}

/// Confirmation keeps every local input that a peer may still ask for: at the
/// host what some guest has not acknowledged, at a guest what the host has
/// not, and everything that is not confirmed.
pub proof fn law_unacknowledged_inputs_are_kept<M: Machine>(
    before: Rollback,
    after: Rollback,
    machine: M,
    p: int,
    f: u64,
)
    requires
        before.confirms_to::<M>(after, machine),
        before.player < before.players <= 4,
        before.players >= 2,
        before.local@.contains_key(f),
        f >= after.confirmed || (before.player == 0 && 0 < p < before.players && f
            >= before.acknowledged[p]) || (before.player != 0 && f >= before.acknowledged[0]),
    ensures
        after.local@.contains_key(f),
        after.local@[f] == before.local@[f],
{
    let end = after.confirmed;
    assert(after.released(before, end));
    lemma_least(before.acknowledged@, 0, before.players as int);
    assert(before.acknowledged@[1] == before.acknowledged[1]);
    if before.player == 0 && 0 < p < before.players {
        assert(before.acknowledged@[p] == before.acknowledged[p]);
    }
    assert(before.local_floor(end) <= f);
}

/// A report, byte by byte: `CLNP`, version two, the state's version, the
/// session, the machine's identity, the port, the players, readiness, delay
/// and window, four acknowledgements of eight bytes, the digest's frame and
/// the digest, the number of inputs, and 32 bytes for each. Numbers have their
/// low byte first.
pub proof fn law_reports_are_laid_out(p: Report, bytes: Seq<u8>, i: int)
    requires
        p.carried_by(bytes),
        0 <= i < p.inputs@.len(),
    ensures
        bytes.len() == 136 + 32 * p.inputs@.len(),
        bytes.subrange(0, 4) == seq!['C' as u8, 'L' as u8, 'N' as u8, 'P' as u8],
        le_value(bytes.subrange(4, 6)) == 2,
        le_value(bytes.subrange(6, 10)) == 1,
        bytes.subrange(10, 26) == p.session@,
        bytes.subrange(26, 58) == p.identity@,
        bytes[58] == p.player,
        bytes[59] == p.players,
        bytes[60] == 1 <==> p.ready,
        bytes[60] == 0 <==> !p.ready,
        bytes[61] == p.delay,
        bytes[62] == p.window,
        forall|q: int|
            0 <= q < 4 ==> le_value(bytes.subrange(63 + 8 * q, 71 + 8 * q)) == #[trigger] p.acks[q],
        p.checksum is None ==> le_value(bytes.subrange(95, 103)) == 0,
        p.checksum matches Some(c) ==> le_value(bytes.subrange(95, 103)) == c.0 && bytes.subrange(
            103,
            135,
        ) == c.1@,
        bytes[135] == p.inputs@.len(),
        ({
            let at = 136 + 32 * i;
            let (port, frame, input) = p.inputs@[i];
            &&& bytes[at] == port
            &&& le_value(bytes.subrange(at + 1, at + 9)) == frame
            &&& le_value(bytes.subrange(at + 9, at + 11)) == input.buttons
            &&& bytes.subrange(at + 11, at + 27) == input.keys@
            &&& le_value(bytes.subrange(at + 27, at + 29)) == input.mouse_dx + 32768
            &&& le_value(bytes.subrange(at + 29, at + 31)) == input.mouse_dy + 32768
            &&& bytes[at + 31] == input.mouse_buttons
        }),
{
    assert forall|q: int| 0 <= q < 4 implies le_value(bytes.subrange(63 + 8 * q, 71 + 8 * q))
        == #[trigger] p.acks[q] by {
        assert(q == 0 || q == 1 || q == 2 || q == 3);
    }
    assert(p.inputs@[i] == p.inputs@[i]);
}

/// A report is read where it makes sense: two to four players and a port
/// among them, a delay of six frames at most, a window of one to twelve, at
/// most 32 inputs with the controller's eleven bits and three mouse buttons,
/// sorted by port and frame and each once, and a digest of a sixtieth frame.
pub proof fn law_reports_make_sense(p: Report)
    ensures
        p.acceptable() <==> {
            &&& 2 <= p.players <= 4
            &&& p.player < p.players
            &&& p.delay <= 6
            &&& 1 <= p.window <= 12
            &&& p.inputs@.len() <= 32
            &&& forall|i: int|
                #![trigger p.inputs@[i]]
                0 <= i < p.inputs@.len() ==> p.inputs@[i].0 < p.players && p.inputs@[i].2.buttons
                    < 2048 && p.inputs@[i].2.mouse_buttons < 8
            &&& forall|i: int, j: int|
                #![trigger p.inputs@[i], p.inputs@[j]]
                0 <= i < j < p.inputs@.len() ==> p.inputs@[i].0 < p.inputs@[j].0 || (p.inputs@[i].0
                    == p.inputs@[j].0 && p.inputs@[i].1 < p.inputs@[j].1)
            &&& p.checksum matches Some(c) ==> c.0 != 0 && c.0 % 60 == 0
        },
{
    if p.acceptable() {
        assert forall|i: int, j: int|
            #![trigger p.inputs@[i], p.inputs@[j]]
            0 <= i < j < p.inputs@.len() implies p.inputs@[i].0 < p.inputs@[j].0 || (p.inputs@[i].0
            == p.inputs@[j].0 && p.inputs@[i].1 < p.inputs@[j].1) by {
            assert(crate::netplay::report::precedes(p.inputs@[i], p.inputs@[j]));
        }
    }
}

/// A packet between two players, byte by byte.
pub proof fn law_packets_are_laid_out(p: Packet, bytes: Seq<u8>, i: int)
    requires
        p.carried_by(bytes),
        0 <= i < p.inputs@.len(),
    ensures
        bytes.len() == 111 + 26 * p.inputs@.len(),
        bytes.subrange(0, 4) == seq!['C' as u8, 'L' as u8, 'N' as u8, 'P' as u8],
        le_value(bytes.subrange(4, 6)) == 1,
        le_value(bytes.subrange(6, 10)) == 1,
        bytes.subrange(10, 26) == p.session@,
        bytes.subrange(26, 58) == p.identity@,
        bytes[58] == p.player,
        bytes[59] == 1 <==> p.ready,
        bytes[59] == 0 <==> !p.ready,
        bytes[60] == p.delay,
        bytes[61] == p.window,
        le_value(bytes.subrange(62, 70)) == p.ack,
        p.checksum is None ==> le_value(bytes.subrange(70, 78)) == 0,
        p.checksum matches Some(c) ==> le_value(bytes.subrange(70, 78)) == c.0 && bytes.subrange(
            78,
            110,
        ) == c.1@,
        bytes[110] == p.inputs@.len(),
        ({
            let at = 111 + 26 * i;
            let (frame, input) = p.inputs@[i];
            &&& le_value(bytes.subrange(at, at + 8)) == frame
            &&& le_value(bytes.subrange(at + 8, at + 10)) == input.buttons
            &&& bytes.subrange(at + 10, at + 26) == input.keys@
        }),
{
    assert(p.inputs@[i] == p.inputs@[i]);
}

/// A packet between two players is read where it makes sense.
pub proof fn law_packets_make_sense(p: Packet)
    ensures
        p.acceptable() <==> {
            &&& p.player <= 1
            &&& p.delay <= 6
            &&& 1 <= p.window <= 12
            &&& p.inputs@.len() <= 32
            &&& forall|i: int|
                #![trigger p.inputs@[i]]
                0 <= i < p.inputs@.len() ==> p.inputs@[i].1.buttons < 2048 && p.inputs@[i].1.mouse_dx
                    == 0 && p.inputs@[i].1.mouse_dy == 0 && p.inputs@[i].1.mouse_buttons == 0
            &&& forall|i: int, j: int|
                #![trigger p.inputs@[i], p.inputs@[j]]
                0 <= i < j < p.inputs@.len() ==> p.inputs@[i].0 < p.inputs@[j].0
            &&& p.checksum matches Some(c) ==> c.0 != 0 && c.0 % 60 == 0
        },
{
}

/// A peer of another version is told so: one whose datagram begins with the
/// magic of this session's and carries other version numbers.
pub proof fn law_other_versions_are_recognised(bytes: Seq<u8>, session: Seq<u8>)
    requires
        bytes.len() >= 26,
        bytes.subrange(0, 4) == seq!['C' as u8, 'L' as u8, 'N' as u8, 'P' as u8],
        bytes.subrange(10, 26) == session,
    ensures
        Report::speaks_another_version(bytes, session) <==> !(le_value(bytes.subrange(4, 6)) == 2
            && le_value(bytes.subrange(6, 10)) == 1),
{
}

/// A report is accepted exactly where it comes from the link's own player,
/// was made with the same terms for the same machine, acknowledges nothing
/// that was not sampled, brings inputs of the ports that the link may speak
/// for, not past the horizon and none that were known otherwise, and a digest
/// that is not from the future.
pub proof fn law_reports_are_accepted_on_the_same_terms<T: Transport>(
    c: Connection<T>,
    index: int,
    report: Report,
)
    requires
        0 <= index < c.links@.len(),
    ensures
        c.report_refusal(index, report) is None <==> {
            let player = c.links@[index].player;
            let r = c.rollback;
            &&& report.player == player
            &&& report.players == c.settings.players
            &&& report.delay == c.settings.input_delay
            &&& report.window == c.settings.rollback_frames
            &&& report.identity@ == c.identity@
            &&& report.acks[c.settings.player as int] <= r.acknowledged[player as int] || exists|
                f: u64,
            | #[trigger]
                r.local@.contains_key(f) && report.acks[c.settings.player as int] <= f + 1
            &&& forall|i: int|
                #![trigger report.inputs@[i]]
                0 <= i < report.inputs@.len() ==> {
                    let (port, frame, input) = report.inputs@[i];
                    &&& c.settings.player == 0 ==> port == player
                    &&& c.settings.player != 0 ==> port != c.settings.player
                    &&& frame <= r.current + r.window + 2 * r.delay + 1
                    &&& r.remote@[port as int]@.contains_key(frame) ==> r.remote@[port as int]@[frame]
                        == input
                }
            &&& report.checksum matches Some(d) ==> d.0 <= r.current + c.settings.input_delay + 1
        },
        c.report_refusal(index, report) matches Some(ConnectionError::MachineMismatch)
            ==> report.identity@ != c.identity@,
        c.report_refusal(index, report) matches Some(ConnectionError::SettingsDiffer)
            ==> report.players != c.settings.players || report.delay != c.settings.input_delay
            || report.window != c.settings.rollback_frames,
        c.report_refusal(index, report) matches Some(ConnectionError::ForeignPort { .. })
            <==> report.player != c.links@[index].player,
{
    let player = c.links@[index].player;
    lemma_entries_refusal(c, player, report.inputs@);
}

proof fn lemma_entries_refusal<T: Transport>(
    c: Connection<T>,
    player: usize,
    entries: Seq<(usize, u64, Input)>,
)
    ensures
        c.entries_refusal(player, entries) is None <==> forall|i: int|
            #![trigger entries[i]]
            0 <= i < entries.len() ==> c.entry_refusal(player, entries[i]) is None,
        c.entries_refusal(player, entries) matches Some(e) ==> {
            ||| e is ForeignInput
            ||| e is Echo
            ||| e is Rollback
        },
    decreases entries.len(),
{
    if entries.len() > 0 {
        let early = entries.drop_last();
        lemma_entries_refusal(c, player, early);
        if c.entries_refusal(player, entries) is None {
            assert forall|i: int| #![trigger entries[i]] 0 <= i < entries.len() implies c.entry_refusal(
                player,
                entries[i],
            ) is None by {
                if i < early.len() {
                    assert(early[i] == entries[i]);
                }
            }
        }
        if forall|i: int|
            #![trigger entries[i]]
            0 <= i < entries.len() ==> c.entry_refusal(player, entries[i]) is None {
            assert forall|i: int| #![trigger early[i]] 0 <= i < early.len() implies c.entry_refusal(
                player,
                early[i],
            ) is None by {
                assert(early[i] == entries[i]);
            }
            assert(entries[entries.len() - 1] == entries.last());
        }
    }
}

/// An input that is known stays as it is, whatever a report brings; one that
/// is not confirmed yet and was not known is known from then on, and nothing
/// else is.
pub proof fn law_known_inputs_stay(
    known: Map<u64, Input>,
    entries: Seq<(usize, u64, Input)>,
    p: int,
    confirmed: u64,
    f: u64,
)
    ensures
        known.contains_key(f) ==> known_after(known, entries, p, confirmed).contains_key(f)
            && known_after(known, entries, p, confirmed)[f] == known[f],
        known_after(known, entries, p, confirmed).contains_key(f) && !known.contains_key(f) ==> f
            >= confirmed && exists|i: int|
            #![trigger entries[i]]
            0 <= i < entries.len() && entries[i].0 == p && entries[i].1 == f && entries[i].2
                == known_after(known, entries, p, confirmed)[f],
        forall|i: int|
            #![trigger entries[i]]
            0 <= i < entries.len() && entries[i].0 == p && entries[i].1 == f && f >= confirmed
                ==> known_after(known, entries, p, confirmed).contains_key(f),
    decreases entries.len(),
{
    if entries.len() > 0 {
        let early = entries.drop_last();
        law_known_inputs_stay(known, early, p, confirmed, f);
        let rest = known_after(known, early, p, confirmed);
        let all = known_after(known, entries, p, confirmed);
        if all.contains_key(f) && !known.contains_key(f) {
            if rest.contains_key(f) {
                let i = choose|i: int|
                    #![trigger early[i]]
                    0 <= i < early.len() && early[i].0 == p && early[i].1 == f && early[i].2
                        == rest[f];
                assert(entries[i] == early[i]);
            } else {
                assert(entries[entries.len() - 1].1 == f);
            }
        }
        assert forall|i: int|
            #![trigger entries[i]]
            0 <= i < entries.len() && entries[i].0 == p && entries[i].1 == f && f
                >= confirmed implies all.contains_key(f) by {
            if i < early.len() {
                assert(early[i] == entries[i]);
            }
        }
    }
}

/// A player is given up for lost where some link was silent for ten seconds:
/// the first such link's player, and nobody where there is none.
pub proof fn law_ten_silent_seconds_lose_a_player<T: Transport>(links: Seq<Link<T>>, now: u64)
    ensures
        first_silent(links, now) is None <==> forall|i: int|
            #![trigger links[i]]
            0 <= i < links.len() ==> now < links[i].last_received + 10_000,
        first_silent(links, now) matches Some(player) ==> exists|i: int|
            #![trigger links[i]]
            0 <= i < links.len() && links[i].player == player && now >= links[i].last_received
                + 10_000 && forall|j: int|
                0 <= j < i ==> now < (#[trigger] links[j]).last_received + 10_000,
    decreases links.len(),
{
    if links.len() > 0 {
        let early = links.drop_last();
        law_ten_silent_seconds_lose_a_player(early, now);
        match first_silent(early, now) {
            Some(player) => {
                let i = choose|i: int|
                    #![trigger early[i]]
                    0 <= i < early.len() && early[i].player == player && now
                        >= early[i].last_received + 10_000 && forall|j: int|
                        0 <= j < i ==> now < (#[trigger] early[j]).last_received + 10_000;
                assert(links[i] == early[i]);
                assert forall|j: int| 0 <= j < i implies now < (#[trigger] links[j]).last_received
                    + 10_000 by {
                    assert(early[j] == links[j]);
                }
            },
            None => {
                assert forall|j: int| 0 <= j < early.len() implies now < (
                #[trigger] links[j]).last_received + 10_000 by {
                    assert(early[j] == links[j]);
                }
                let last = links.len() - 1;
                assert(links[last] == links.last());
            },
        }
    }
}

/// Where a turn is refused: for an input that no controller makes, for a
/// player lost, or where nobody has come within a minute.
pub proof fn law_turns_are_refused_for_a_reason<T: Transport>(
    c: Connection<T>,
    held: Input,
    now: u64,
)
    ensures
        held.buttons >= 2048 || held.mouse_buttons >= 8 <==> c.turn_refusal(held, now)
            == Some(ConnectionError::InvalidLocalInput),
        held.buttons < 2048 && held.mouse_buttons < 8 && !c.connected ==> c.turn_refusal(held, now)
            == (if now >= c.started + 60_000 {
            Some(ConnectionError::ConnectTimedOut)
        } else {
            None
        }),
        held.buttons < 2048 && held.mouse_buttons < 8 && c.connected ==> match c.turn_refusal(
            held,
            now,
        ) {
            Some(ConnectionError::PlayerTimedOut { player }) => exists|i: int|
                #![trigger c.links@[i]]
                0 <= i < c.links@.len() && c.links@[i].player == player && now
                    >= c.links@[i].last_received + 10_000,
            Some(_) => false,
            None => forall|i: int|
                #![trigger c.links@[i]]
                0 <= i < c.links@.len() ==> now < c.links@[i].last_received + 10_000,
        },
{
    law_ten_silent_seconds_lose_a_player(c.links@, now);
}

/// A link is served at once where it is forced or has never been, and else
/// every ten milliseconds.
pub proof fn law_links_are_served_every_ten_milliseconds<T: Transport>(
    c: Connection<T>,
    index: int,
    force: bool,
    now: u64,
)
    ensures
        c.due(index, force, now) <==> force || c.links@[index].last_sent is None || now
            >= c.links@[index].last_sent->0 + 10,
{
}

/// What the host keeps of a port for relaying: the frames from the least that
/// any other guest has not acknowledged.
pub proof fn law_relayed_inputs_are_kept_for_the_slowest<T: Transport>(
    links: Seq<Link<T>>,
    source: int,
)
    ensures
        forall|i: int|
            #![trigger links[i]]
            0 <= i < links.len() && links[i].player != source ==> relay_need(links, source)
                <= links[i].acks[source],
        relay_need(links, source) == u64::MAX || exists|i: int|
            #![trigger links[i]]
            0 <= i < links.len() && links[i].player != source && relay_need(links, source)
                == links[i].acks[source],
    decreases links.len(),
{
    if links.len() > 0 {
        let early = links.drop_last();
        law_relayed_inputs_are_kept_for_the_slowest(early, source);
        let need = relay_need(early, source);
        assert forall|i: int|
            #![trigger links[i]]
            0 <= i < links.len() && links[i].player != source implies relay_need(links, source)
            <= links[i].acks[source] by {
            if i < early.len() {
                assert(early[i] == links[i]);
            }
        }
        if need != u64::MAX && relay_need(links, source) == need {
            let i = choose|i: int|
                #![trigger early[i]]
                0 <= i < early.len() && early[i].player != source && need == early[i].acks[source];
            assert(links[i] == early[i]);
        } else if relay_need(links, source) != u64::MAX {
            assert(links[links.len() - 1] == links.last());
        }
    }
}

/// The records owed to a link go out in order, 32 to a packet and none left
/// out, and in one empty packet where there are none.
pub proof fn law_every_record_is_in_a_packet(records: Seq<(usize, u64, Input)>, i: int, c: int)
    requires
        0 <= i < records.len(),
    ensures
        0 <= i / 32 < chunks(records.len() as int),
        chunk(records, i / 32)[i % 32] == records[i],
        i % 32 < chunk(records, i / 32).len(),
        0 <= c < chunks(records.len() as int) ==> 0 < chunk(records, c).len() <= 32,
        chunks(0) == 1,
        chunks(records.len() as int) >= 1,
        chunk(Seq::empty(), 0) == Seq::<(usize, u64, Input)>::empty(),
{
    let n = records.len() as int;
    let k = (n + 31) / 32;
    assert(chunks(n) == k);
    assert(n <= k * 32 < n + 32);
    let b = i / 32;
    assert(b * 32 <= i < b * 32 + 32);
    if 0 <= c < k {
        assert(c * 32 < n);
    }
    assert(i / 32 < k);
}

/// A link is owed what its player has not acknowledged: the host's links the
/// inputs of every port but their own, a guest's link its own port's, and
/// nothing that is not held.
pub proof fn law_links_are_owed_what_they_miss<T: Transport>(
    c: Connection<T>,
    index: int,
    records: Seq<(usize, u64, Input)>,
    source: int,
    f: u64,
)
    requires
        c.is_owed(index, records),
        0 <= source < c.settings.players,
    ensures
        (exists|i: int|
            #![trigger records[i]]
            0 <= i < records.len() && records[i].0 == source && records[i].1 == f) <==> {
            &&& source != c.links@[index].player
            &&& c.settings.player == 0 || source == c.settings.player
            &&& f >= c.links@[index].acks[source]
            &&& c.rollback.held(source).contains_key(f)
        },
{
    if source != c.links@[index].player && (c.settings.player == 0 || source == c.settings.player)
        && f >= c.links@[index].acks[source] && c.rollback.held(source).contains_key(f) {
        assert(c.owes(index, source));
        assert(crate::netplay::connection::lists(records, source, f));
    }
}

/// What a packet acknowledges: of every other port the first frame that is
/// still missing.
pub proof fn law_packets_acknowledge_what_was_received<T: Transport>(c: Connection<T>, p: int)
    requires
        0 <= p < 4,
    ensures
        c.acks_sent().len() == 4,
        p < c.rollback.players && p != c.rollback.player ==> c.acks_sent()[p]
            == c.rollback.received[p],
        p >= c.rollback.players || p == c.rollback.player ==> c.acks_sent()[p] == 0,
{
}

/// A session is complete where the host has heard every guest, and a guest
/// the host.
pub proof fn law_a_session_needs_every_player<T: Transport>(c: Connection<T>)
    ensures
        c.settings.player == 0 ==> (c.complete() <==> c.links@.len() + 1 == c.settings.players
            && forall|i: int| 0 <= i < c.links@.len() ==> (#[trigger] c.links@[i]).seen),
        c.settings.player != 0 ==> (c.complete() <==> c.links@.len() == 1 && forall|i: int|
            0 <= i < c.links@.len() ==> (#[trigger] c.links@[i]).seen),
{
}

/// A player joins where the game has not begun, the port is another's of this
/// session and has no link, and there is a seat left.
pub proof fn law_players_join_on_free_ports<T: Transport>(c: Connection<T>, player: usize)
    ensures
        c.link_refusal(player) is None <==> {
            &&& c.rollback.current == 0
            &&& player < c.settings.players
            &&& player != c.settings.player
            &&& forall|i: int|
                #![trigger c.links@[i]]
                0 <= i < c.links@.len() ==> c.links@[i].player != player
            &&& c.links@.len() < (if c.settings.player == 0 {
                c.settings.players - 1
            } else {
                1
            })
        },
        c.is_free(player as int) <==> {
            &&& player < c.settings.players
            &&& player != c.settings.player
            &&& forall|i: int|
                #![trigger c.links@[i]]
                0 <= i < c.links@.len() ==> c.links@[i].player != player
        },
{
    if exists|i: int| 0 <= i < c.links@.len() && (#[trigger] c.links@[i]).player == player {
        let i = c.link_index(player as int);
        assert(0 <= i < c.links@.len() && c.links@[i].player == player);
    }
}

/// Terms are valid for two to four players, a port among them, a delay of six
/// frames at most and a window of one to twelve; an error names what is not.
pub proof fn law_terms_are_within_their_limits(s: Settings)
    ensures
        s.valid() <==> 2 <= s.players <= 4 && s.player < s.players && s.input_delay <= 6 && 1
            <= s.rollback_frames <= 12,
        s.refusal() is None <==> s.valid(),
        s.refusal() matches Some(SettingsError::Players) <==> s.players < 2 || s.players > 4,
        s.refusal() matches Some(SettingsError::Player { players }) ==> players == s.players
            && s.player >= s.players,
        s.refusal() matches Some(SettingsError::InputDelay) ==> s.input_delay > 6,
        s.refusal() matches Some(SettingsError::RollbackWindow) ==> s.rollback_frames == 0
            || s.rollback_frames > 12,
        s.player == 0 ==> s.spec_expected_links() == s.players - 1,
        s.player != 0 ==> s.spec_expected_links() == 1,
{
}

/// An address can be a peer's where it is of the family that is bound, has a
/// port, and is neither the address of nobody nor one of many.
pub proof fn law_peers_are_single_hosts(bind: Endpoint, peer: Endpoint)
    ensures
        peer_refusal(bind, peer) is None <==> match (bind.ip, peer.ip) {
            (IpAddress::V4(_), IpAddress::V4(a)) => peer.port != 0 && (a[0] < 224 || a[0] > 239)
                && exists|i: int| 0 <= i < 4 && #[trigger] a@[i] != 0,
            (IpAddress::V6(_), IpAddress::V6(a)) => peer.port != 0 && a[0] != 0xff && exists|i: int|
                0 <= i < 16 && #[trigger] a@[i] != 0,
            _ => false,
        },
        peer_refusal(bind, peer) == Some(SettingsError::AddressFamily) <==> (bind.ip is V4) != (
        peer.ip is V4),
        peer_refusal(bind, peer) is Some ==> peer_refusal(bind, peer) == Some(
            SettingsError::AddressFamily,
        ) || peer_refusal(bind, peer) == Some(SettingsError::PeerAddress),
{
}

/// Every one of the peers must be such an address.
pub proof fn law_every_peer_is_looked_at(bind: Endpoint, peers: Seq<Endpoint>)
    ensures
        peers_refusal(bind, peers) is None <==> forall|i: int|
            #![trigger peers[i]]
            0 <= i < peers.len() ==> peer_refusal(bind, peers[i]) is None,
    decreases peers.len(),
{
    if peers.len() > 0 {
        let early = peers.drop_last();
        law_every_peer_is_looked_at(bind, early);
        assert(peers[peers.len() - 1] == peers.last());
        if peers_refusal(bind, peers) is None {
            assert forall|i: int| #![trigger peers[i]] 0 <= i < peers.len() implies peer_refusal(
                bind,
                peers[i],
            ) is None by {
                if i < early.len() {
                    assert(early[i] == peers[i]);
                }
            }
        }
        if forall|i: int|
            #![trigger peers[i]]
            0 <= i < peers.len() ==> peer_refusal(bind, peers[i]) is None {
            assert forall|i: int| #![trigger early[i]] 0 <= i < early.len() implies peer_refusal(
                bind,
                early[i],
            ) is None by {
                assert(early[i] == peers[i]);
            }
        }
    }
}

/// Options are taken where their terms are valid, spectators come to the host
/// alone and are eight at most, the host names no more peers than guests and
/// a guest names the host alone, and every peer can be one.
pub proof fn law_options_are_within_their_limits(o: Options)
    ensures
        o.refusal() is None <==> {
            &&& 2 <= o.players <= 4
            &&& o.player < o.players
            &&& o.input_delay <= 6
            &&& 1 <= o.rollback_frames <= 12
            &&& o.spectators <= 8
            &&& o.spectators > 0 ==> o.player == 0
            &&& o.player == 0 ==> o.peers@.len() < o.players
            &&& o.player != 0 ==> o.peers@.len() == 1
            &&& forall|i: int|
                #![trigger o.peers@[i]]
                0 <= i < o.peers@.len() ==> peer_refusal(o.bind, o.peers@[i]) is None
        },
        o.refusal() == Some(SettingsError::Spectators) ==> o.spectators > 8 || (o.spectators > 0
            && o.player != 0),
        o.refusal() == Some(SettingsError::TooManyPeers) ==> o.player == 0 && o.peers@.len()
            >= o.players,
        o.refusal() == Some(SettingsError::HostAddress) ==> o.player != 0 && o.peers@.len() != 1,
{
    law_every_peer_is_looked_at(o.bind, o.peers@);
    lemma_peers_errors(o.bind, o.peers@);
}

proof fn lemma_peers_errors(bind: Endpoint, peers: Seq<Endpoint>)
    ensures
        peers_refusal(bind, peers) matches Some(e) ==> e == SettingsError::AddressFamily || e
            == SettingsError::PeerAddress,
    decreases peers.len(),
{
    if peers.len() > 0 {
        lemma_peers_errors(bind, peers.drop_last());
    }
}

/// A machine can be played over a network where nothing of it depends on the
/// host: no host files, no CD, only a joystick adapter on the parallel port,
/// no sound or card controller of the host's, plain execution from power on,
/// no serial line and no real floppy drive.
pub proof fn law_networked_machines_depend_on_nothing(cfg: Config, blocked: bool)
    ensures
        cfg.refusal(blocked) is None <==> {
            &&& !blocked
            &&& cfg.run_program_dir is None && !cfg.uaelib_files
            &&& cfg.cd_image_path is None
            &&& cfg.ide_master matches Some(d) ==> !d.cd_image
            &&& cfg.ide_slave matches Some(d) ==> !d.cd_image
            &&& forall|i: int|
                0 <= i < cfg.scsi_units@.len() ==> (#[trigger] cfg.scsi_units@[i] matches Some(d)
                    ==> !d.cd_image)
            &&& forall|i: int|
                0 <= i < cfg.lide_drives@.len() ==> (#[trigger] cfg.lide_drives@[i] matches Some(d)
                    ==> !d.cd_image)
            &&& cfg.parallel_device is Unplugged || cfg.parallel_device is JoystickAdapter
            &&& !cfg.toccata && !cfg.sf2000sd
            &&& !cfg.cpu_jit && cfg.power_on && !cfg.rewind && cfg.run_ahead_frames == 0
            &&& !cfg.warp_boot && cfg.warp_until is None
            &&& cfg.serial_mode is Off
            &&& forall|i: int|
                0 <= i < cfg.floppy_bridges@.len() ==> !#[trigger] cfg.floppy_bridges@[i]
        },
        cfg.refusal(blocked) == Some(ConfigError::HostDependency) <==> blocked,
        cfg.refusal(blocked) == Some(ConfigError::HostFiles) ==> cfg.run_program_dir is Some
            || cfg.uaelib_files,
        cfg.refusal(blocked) == Some(ConfigError::CdImage) ==> cfg.cd_image_path is Some,
        cfg.refusal(blocked) == Some(ConfigError::ParallelDevice) ==> !(
        cfg.parallel_device is Unplugged) && !(cfg.parallel_device is JoystickAdapter),
        cfg.refusal(blocked) == Some(ConfigError::Toccata) ==> cfg.toccata,
        cfg.refusal(blocked) == Some(ConfigError::Sf2000Sd) ==> cfg.sf2000sd,
        cfg.refusal(blocked) == Some(ConfigError::Execution) ==> cfg.cpu_jit || !cfg.power_on
            || cfg.rewind || cfg.run_ahead_frames > 0,
        cfg.refusal(blocked) == Some(ConfigError::WarpBoot) ==> cfg.warp_boot
            || cfg.warp_until is Some,
        cfg.refusal(blocked) == Some(ConfigError::Serial) ==> !(cfg.serial_mode is Off),
        cfg.refusal(blocked) == Some(ConfigError::PhysicalFloppy) ==> exists|i: int|
            0 <= i < cfg.floppy_bridges@.len() && #[trigger] cfg.floppy_bridges@[i],
{
    if cfg.refusal(blocked) is None {
        assert forall|i: int| 0 <= i < cfg.scsi_units@.len() implies (
        #[trigger] cfg.scsi_units@[i] matches Some(d) ==> !d.cd_image) by {
            assert(!crate::netplay::config::is_cd(cfg.scsi_units@[i]));
        }
        assert forall|i: int| 0 <= i < cfg.lide_drives@.len() implies (
        #[trigger] cfg.lide_drives@[i] matches Some(d) ==> !d.cd_image) by {
            assert(!crate::netplay::config::is_cd(cfg.lide_drives@[i]));
        }
    }
    let bridges = cfg.floppy_bridges@;
    if bridges.contains(true) {
        let i = choose|i: int| 0 <= i < bridges.len() && bridges[i] == true;
        assert(bridges[i]);
    }
}

/// A machine joins a session cold: before it has run, without reverse
/// history, and with devices on its game ports that a player can drive.
pub proof fn law_machines_join_cold(m: ColdMachine, cfg: Config, blocked: bool)
    requires
        cfg.refusal(blocked) is None,
    ensures
        m.refusal(cfg, blocked) is None <==> m.emulated_cck == 0 && !m.blocked && !m.time_travel
            && forall|p: int|
            0 <= p < m.game_ports@.len() ==> (#[trigger] m.game_ports@[p] is Mouse
                || m.game_ports@[p] is Joystick || m.game_ports@[p] is Cd32Pad),
        m.refusal(cfg, blocked) == Some(ConfigError::AlreadyRunning) <==> m.emulated_cck > 0,
{
    if m.refusal(cfg, blocked) is None {
        assert forall|p: int| 0 <= p < m.game_ports@.len() implies (
        #[trigger] m.game_ports@[p] is Mouse || m.game_ports@[p] is Joystick
            || m.game_ports@[p] is Cd32Pad) by {
            assert(crate::netplay::config::drivable(m.game_ports@[p]));
        }
    }
}

/// A session code is 32 hexadecimal digits, of either case.
pub proof fn law_session_codes_are_hexadecimal(code: Seq<char>)
    ensures
        is_session_code(code) <==> code.len() == 32 && forall|i: int|
            0 <= i < 32 ==> ('0' <= #[trigger] code[i] <= '9' || 'a' <= code[i] <= 'f' || 'A'
                <= code[i] <= 'F'),
{
    if is_session_code(code) {
        assert forall|i: int| 0 <= i < 32 implies ('0' <= #[trigger] code[i] <= '9' || 'a' <= code[i]
            <= 'f' || 'A' <= code[i] <= 'F') by {
            assert(crate::text::hex_value(code[i]) is Some);
        }
    }
}

/// A state can be captured where every player has it: connected, everything
/// executed confirmed, and all of it acknowledged.
pub proof fn law_captures_wait_for_every_player(s: Status)
    ensures
        s.settled() <==> s.connected && s.confirmed_frame == s.frame && s.acknowledged_frame
            >= s.frame,
{
}

/// Before a disk change every player stops within 32 frames of another; a
/// guest is not sent back, and not more than 32 frames on.
pub proof fn law_disk_changes_stop_nearby(a: u64, b: u64)
    ensures
        Swap::near(a, b) <==> a <= b + 32 && b <= a + 32,
        Swap::near(a, b) == Swap::near(b, a),
{
}

/// A disk change is given up after three minutes, and not before.
pub proof fn law_disk_changes_take_three_minutes<T: Transport, M: Machine>(
    p: Player<T>,
    machine: M,
    now: u64,
    after: Player<T>,
    begun: Seq<Action>,
    done: Seq<Action>,
    r: Result<(), SessionError>,
)
    requires
        p.swap is Some,
        p.swap_serviced::<M>(machine, now, after, begun, done, r),
    ensures
        now >= p.swap->0.started + 180_000 ==> r == Err::<(), SessionError>(
            SessionError::SwapTimedOut,
        ) && after == p,
        r == Err::<(), SessionError>(SessionError::SwapTimedOut) ==> now >= p.swap->0.started
            + 180_000,
{
}

/// A replacement disk is taken for one of the four drives that is there,
/// where it is no larger than the drive takes, is not written to while there
/// is none, and can be read.
pub proof fn law_disks_fit_their_drive(
    drive: usize,
    connected: bool,
    bytes: Seq<u8>,
    writable: bool,
    limit: usize,
    decodable: bool,
)
    ensures
        disk_refusal(drive, connected, bytes, writable, limit, decodable) is None <==> {
            &&& drive < 4 && connected
            &&& bytes.len() <= limit
            &&& bytes.len() == 0 ==> !writable
            &&& bytes.len() > 0 ==> decodable
        },
        disk_refusal(drive, connected, bytes, writable, limit, decodable) == Some(
            SessionError::DriveNotConnected,
        ) <==> drive >= 4 || !connected,
        disk_refusal(drive, connected, bytes, writable, limit, decodable) == Some(
            SessionError::UndecodableDisk,
        ) ==> !decodable,
{
}

/// A transferred disk is taken where it is the one that was announced: of its
/// size and its digest.
pub proof fn law_transfers_are_what_was_announced<T: Transport>(
    p: Player<T>,
    bytes: Seq<u8>,
    connected: bool,
    decodable: bool,
)
    requires
        p.transfer_refusal(bytes, connected, decodable) is None,
    ensures
        p.swap matches Some(swap) && swap.phase == SwapPhase::GuestBytes && bytes.len() == swap.size
            && sha256(bytes) == swap.hash@ && swap.drive < 4 && connected,
{
}

/// A player runs on towards the frame where a disk change stops everybody,
/// and not past it.
pub proof fn law_players_stop_for_a_disk_change<T: Transport>(p: Player<T>, advance: bool)
    ensures
        p.swap is None ==> p.may_advance(advance) == advance,
        p.swap matches Some(swap) ==> (p.may_advance(advance) <==> advance
            && p.connection.rollback.current < swap.stop),
{
}

/// A setup is given up after a quarter of an hour, and not before; meanwhile
/// nothing runs.
pub proof fn law_setups_take_a_quarter_of_an_hour<T: Transport, M: Machine>(
    p: Player<T>,
    machine: M,
    input: LocalInput,
    advance: bool,
    received: u64,
    now: u64,
    after: Player<T>,
    machine_after: M,
    input_after: LocalInput,
    begun: Seq<Action>,
    done: Seq<Action>,
    r: Result<bool, SessionError>,
)
    requires
        p.phase != Phase::Running,
        p.steps_to::<M>(
            machine,
            input,
            advance,
            received,
            now,
            after,
            machine_after,
            input_after,
            begun,
            done,
            r,
        ),
    ensures
        now >= p.started + 900_000 ==> r == Err::<bool, SessionError>(SessionError::SetupTimedOut),
        now < p.started + 900_000 ==> r == Ok::<bool, SessionError>(false),
        now < p.started + 900_000 && p.phase == Phase::GuestBundle && now > p.last_progress + 1_000
            ==> after.progress == Some(Progress::ReceivingFiles { kib: received / 1024 })
            && after.last_progress == now,
        now < p.started + 900_000 && !(p.phase == Phase::GuestBundle && now > p.last_progress
            + 1_000) ==> after.progress == p.progress && after.last_progress == p.last_progress,
        machine_after == machine,
        input_after == input,
{
}

/// A guest is seated that has the same build and asks for a port that is
/// free, or for any while one is, before the game has begun.
pub proof fn law_guests_are_seated_on_free_ports<T: Transport>(
    p: Player<T>,
    build: String,
    player: Option<usize>,
    version: Seq<char>,
)
    ensures
        p.seat_refusal(Message::Hello { build, player }, version) is None <==> {
            &&& build@ == version
            &&& p.connection.rollback.current == 0
            &&& player matches Some(wanted) ==> p.connection.is_free(wanted as int)
            &&& player is None ==> exists|seat: int| #[trigger] p.connection.is_free(seat)
        },
        p.seat_refusal(Message::Hello { build, player }, version) == Some(
            SessionError::DifferentBuild,
        ) <==> build@ != version,
{
}

/// A guest is verified that built the very machine, from its seat, while that
/// is awaited.
pub proof fn law_guests_build_the_same_machine<T: Transport>(
    p: Player<T>,
    from: usize,
    identity: [u8; 32],
)
    requires
        p.verify_refusal(from, identity) is None,
    ensures
        identity@ == p.connection.identity@,
        exists|i: int|
            #![trigger p.guests@[i]]
            0 <= i < p.guests@.len() && p.guests@[i].player == from && p.guests@[i].phase
                == GuestPhase::AwaitVerified,
{
    let i = seat_index(p.guests@, from);
    assert(p.guests@[i].player == from);
}

/// A disk goes to every link of the session, whole, behind the byte that says
/// it is one.
pub proof fn law_disks_go_to_every_link<T: Transport>(
    links: Seq<Link<T>>,
    image: Seq<u8>,
    sent: Seq<Action>,
    i: int,
)
    requires
        disk_to_links(links, image, sent),
        0 <= i < links.len(),
    ensures
        sent.len() == links.len(),
        sent[i] matches Action::SendBytes { to, bytes } && to == links[i].player && bytes@.len()
            == image.len() + 1 && bytes@[0] == 3 && bytes@.skip(1) == image,
{
    assert(sent[i] == sent[i]);
    assert((seq![3u8] + image).skip(1) =~= image);
}

/// A message of a disk change goes to every link, once and in order.
pub proof fn law_changes_are_told_to_every_link<T: Transport>(
    links: Seq<Link<T>>,
    id: u64,
    event: SwapMessage,
    i: int,
)
    requires
        0 <= i < links.len(),
    ensures
        to_links(links, id, event).len() == links.len(),
        to_links(links, id, event)[i] matches Action::Send { to, message } && to == links[i].player
            && message == (Message::Swap { id, event }),
{
}

/// A spectator that follows is silent for less than ten seconds; while it
/// follows it is told of every second. Before that it has a quarter of an
/// hour, and hears of its transfer every second.
pub proof fn law_watchers_wait_their_time(
    w: Watcher,
    received: u64,
    can_send: bool,
    now: u64,
    after: Watcher,
    r: Result<WatchTurn, SessionError>,
)
    requires
        w.turns_to(received, can_send, now, after, r),
    ensures
        w.phase != WatcherPhase::Running && now >= w.started + 900_000 ==> r == Err::<
            WatchTurn,
            SessionError,
        >(SessionError::SetupTimedOut),
        w.phase != WatcherPhase::Running && now < w.started + 900_000 ==> r == Ok::<
            WatchTurn,
            SessionError,
        >(WatchTurn::Wait),
        w.phase == WatcherPhase::Running && now >= w.last_received + 10_000 ==> r == Err::<
            WatchTurn,
            SessionError,
        >(SessionError::HostTimedOut),
        w.phase == WatcherPhase::Running && now < w.last_received + 10_000 ==> {
            let due = can_send && (w.last_status is None || now >= w.last_status->0 + 1_000);
            &&& r == Ok::<WatchTurn, SessionError>(WatchTurn::Follow { send_status: due })
            &&& due ==> after.last_status == Some(now)
            &&& !due ==> after.last_status == w.last_status
        },
        w.phase == WatcherPhase::Bundle && now < w.started + 900_000 && now > w.last_progress
            + 1_000 ==> after.progress == Some(
            Progress::ReceivingFiles { kib: received / 1024 },
        ),
{
}

/// The spectators that stay are those that did not leave, in their order.
pub proof fn law_spectators_stay_in_order(
    links: Seq<SpectatorLink>,
    left: Seq<bool>,
    link: SpectatorLink,
)
    requires
        left.len() > links.len(),
    ensures
        staying(Seq::empty(), left) == Seq::<SpectatorLink>::empty(),
        staying(links.push(link), left) == (if left[links.len() as int] {
            staying(links, left)
        } else {
            staying(links, left).push(link)
        }),
        streaming(Seq::empty()) == 0,
        streaming(links.push(link)) == streaming(links) + (if link.phase == WatchPhase::Streaming {
            1int
        } else {
            0
        }),
{
    assert(links.push(link).drop_last() =~= links);
}

/// A spectator is let in that has the same build, while the history fits and
/// the bundle is kept, and followed once it has built the very machine.
pub proof fn law_spectators_see_the_same_machine(
    link: SpectatorLink,
    message: Message,
    version: Seq<char>,
    identity: Seq<u8>,
    history_full: bool,
    bundle: bool,
)
    ensures
        link.setup_refusal(message, version, identity, history_full, bundle) is None <==> {
            ||| link.phase == WatchPhase::Hello && (message matches Message::Watch { build } && build@
                == version) && !history_full && bundle
            ||| link.phase == WatchPhase::Verified && (message matches Message::Verified {
                identity: theirs,
            } && theirs@ == identity)
        },
{
}

/// A spectator has caught up that does not follow yet, or that has been sent
/// everything up to the end.
pub proof fn law_spectators_catch_up(link: SpectatorLink, cursor: u64, sending: bool, end: u64)
    ensures
        caught_up(link, cursor, sending, end) <==> (link.phase == WatchPhase::Streaming ==> cursor
            >= end && !sending),
{
}

/// A queue holds 64 packets: a packet is queued last, and of a full queue the
/// oldest is given up for it.
pub proof fn law_queues_hold_the_newest(queue: Seq<Seq<u8>>, packet: Seq<u8>)
    ensures
        queued(queue, packet).last() == packet,
        queue.len() < 64 ==> queued(queue, packet).drop_last() == queue,
        queue.len() >= 64 ==> queued(queue, packet).drop_last() == queue.drop_first(),
{
    if queue.len() < 64 {
        assert(queued(queue, packet).drop_last() =~= queue);
    } else {
        assert(queued(queue, packet).drop_last() =~= queue.drop_first());
    }
}

/// A packet is sent where it has 1160 bytes at most and fewer than 64 wait.
pub proof fn law_packets_are_sent_while_there_is_room(q: Queues, packet: Seq<u8>)
    ensures
        q.takes(packet) <==> packet.len() <= 1160 && q.outgoing.len() < 64,
        q.takes(packet) ==> q.called(QueueCall::Send(packet)).outgoing == q.outgoing.push(packet),
        !q.takes(packet) ==> q.called(QueueCall::Send(packet)) == q,
        packet.len() > 1160 ==> q.called(QueueCall::Push(packet)) == q,
        packet.len() <= 1160 ==> q.called(QueueCall::Push(packet)).incoming.last() == packet,
{
}

/// A stranger gets a slot while there is one of the kind, and a player's only
/// where nobody is named or it is.
pub proof fn law_slots_go_to_those_allowed(t: SlotTable, kind: SlotKind, source: Endpoint)
    ensures
        t.admits(kind, source) <==> match kind {
            SlotKind::Player => slots_of(t.slots@, kind) < t.players && (t.allowed@.len() == 0
                || t.allowed@.contains(source)),
            SlotKind::Spectator => slots_of(t.slots@, kind) < t.spectators,
        },
{
}

/// Claims are handed out in their order, those of the kind, and the others
/// wait on in theirs.
pub proof fn law_claims_are_handed_out_in_order(
    claims: Seq<(SlotKind, Endpoint)>,
    kind: SlotKind,
    claim: (SlotKind, Endpoint),
)
    ensures
        claims_of(claims.push(claim), kind) == (if claim.0 == kind {
            claims_of(claims, kind).push(claim.1)
        } else {
            claims_of(claims, kind)
        }),
        claims_but(claims.push(claim), kind) == (if claim.0 == kind {
            claims_but(claims, kind)
        } else {
            claims_but(claims, kind).push(claim)
        }),
        claims_of(Seq::empty(), kind) == Seq::<Endpoint>::empty(),
        claims_but(Seq::empty(), kind) == Seq::<(SlotKind, Endpoint)>::empty(),
{
    assert(claims.push(claim).drop_last() =~= claims);
}

/// A session starts where its options, its configuration and a machine that
/// has not run allow it, and names the first that does not.
pub proof fn law_sessions_start_cold(
    options: ConnectionOptions,
    cfg: Config,
    blocked: bool,
    emulated_cck: u64,
)
    ensures
        start_refusal(options, cfg, blocked, emulated_cck) is None <==> options.refusal() is None
            && cfg.refusal(blocked) is None && emulated_cck == 0,
        options.refusal() matches Some(e) ==> start_refusal(options, cfg, blocked, emulated_cck)
            == Some(SessionError::Connection(ConnectionError::Settings(e))),
{
}

/// Eight digests are kept at most: the newest, and every one while there are
/// fewer.
pub proof fn law_the_newest_digests_are_kept<M: Machine>(
    before: Rollback,
    after: Rollback,
    machine: M,
    f: u64,
    g: u64,
)
    requires
        before.confirms_to::<M>(after, machine),
        before.confirmed <= before.confirmable(),
    ensures
        after.hashes.count() <= 8,
        after.hashes@.contains_key(f) && f < g && (before.hashes@.contains_key(g) || (g % 60 == 0
            && before.confirmed < g <= after.confirmed)) ==> after.hashes@.contains_key(g),
        after.hashes@.contains_key(f) ==> before.hashes@.contains_key(f) || (f % 60 == 0
            && before.confirmed < f <= after.confirmed),
        after.hashes.count() < 8 && f % 60 == 0 && before.confirmed < f <= after.confirmed
            ==> after.hashes@.contains_key(f),
{
    let end = before.confirmable();
    let all = choose|all: Map<u64, [u8; 32]>| #[trigger]
        before.digested::<M>(all, machine, end + 1) && crate::netplay::rollback::trimmed(
            all,
            after.hashes@,
            after.hashes.count(),
            8,
        );
    assert(before.digested::<M>(all, machine, end + 1));
    let floor = choose|floor: u64| #[trigger]
        crate::netplay::rollback::dropped_below(all, after.hashes@, floor);
    assert(crate::netplay::rollback::dropped_below(all, after.hashes@, floor));
    assert(all.contains_key(f) <==> before.hashes@.contains_key(f) || (is_checkpoint(f)
        && before.confirmed < f < end + 1));
    assert(all.contains_key(g) <==> before.hashes@.contains_key(g) || (is_checkpoint(g)
        && before.confirmed < g < end + 1));
}

/// A report that is taken is noted of its link alone: when it came, that it
/// did, whether its player is ready and what that player has. The host is
/// connected once it has heard every guest, a guest once the host is ready,
/// and either stays so.
pub proof fn law_reports_are_noted_of_their_link<T: Transport>(
    c: Connection<T>,
    index: int,
    report: Report,
    now: u64,
    after: Connection<T>,
)
    requires
        c.takes_report(index, report, now, after),
        0 <= index < c.links@.len(),
    ensures
        after.links@[index].seen,
        after.links@[index].last_received == now,
        after.links@[index].ready == report.ready,
        after.links@[index].acks == report.acks,
        after.links@[index].player == c.links@[index].player,
        after.links@[index].last_sent == c.links@[index].last_sent,
        after.links@.len() == c.links@.len(),
        forall|i: int|
            0 <= i < c.links@.len() && i != index ==> #[trigger] after.links@[i] == c.links@[i],
        c.connected ==> after.connected,
        !c.connected && c.settings.player != 0 ==> after.connected == report.ready,
        !c.connected && c.settings.player == 0 ==> (after.connected <==> c.links@.len() + 1
            == c.settings.players && forall|i: int|
            0 <= i < c.links@.len() ==> (#[trigger] after.links@[i]).seen),
        ({
            let player = c.links@[index].player as int;
            let next = report.acks[c.settings.player as int];
            0 <= player < 4 ==> after.rollback.acknowledged[player] == (if next
                >= c.rollback.acknowledged[player] {
                next
            } else {
                c.rollback.acknowledged[player]
            })
        }),
{
    assert(after.links@[index] == c.noted(index, report, now));
}

/// A digest that a report brings is kept for its player and its frame, where
/// that frame was not compared yet; what others reported stays.
pub proof fn law_digests_are_kept_by_player<T: Transport>(
    c: Connection<T>,
    index: int,
    report: Report,
    now: u64,
    after: Connection<T>,
    frame: u64,
    hash: [u8; 32],
    p: int,
)
    requires
        c.takes_report(index, report, now, after),
        0 <= index < c.links@.len(),
        c.links@[index].player < 4,
        report.checksum == Some((frame, hash)),
        0 <= p < 4,
    ensures
        frame <= c.last_checked ==> after.peer_hashes == c.peer_hashes,
        frame > c.last_checked ==> after.peer_hashes@.contains_key(frame)
            && after.peer_hashes@[frame][c.links@[index].player as int] == Some(hash),
        frame > c.last_checked && p != c.links@[index].player && c.peer_hashes@.contains_key(frame)
            ==> after.peer_hashes@[frame][p] == c.peer_hashes@[frame][p],
{
}

/// A session is desynchronized where a player's digest of a frame is not
/// one's own, and nowhere else: neither where one of them is missing.
pub proof fn law_different_digests_are_desynchronized<T: Transport>(
    c: Connection<T>,
    frame: u64,
    p: int,
)
    requires
        0 <= p < 4,
    ensures
        c.disagrees(frame, p) <==> c.rollback.hashes@.contains_key(frame)
            && c.peer_hashes@.contains_key(frame) && (c.peer_hashes@[frame][p] matches Some(theirs)
            && theirs@ != c.rollback.hashes@[frame]@),
{
}

/// A link is offered four packets at a time at most, and one at least; it was
/// served now where it took the first.
pub proof fn law_links_are_offered_four_packets<T: Transport>(
    c: Connection<T>,
    index: int,
    after: Link<T>,
    now: u64,
)
    requires
        c.served(index, after, now),
    ensures
        ({
            let past = c.links@[index].transport.history();
            let present = after.transport.history();
            &&& past.len() < present.len() <= past.len() + 4
            &&& forall|i: int|
                past.len() <= i < present.len() ==> (#[trigger] present[i] is Sent
                    || present[i] is Refused)
            &&& present[past.len() as int] is Sent ==> after.last_sent == Some(now)
            &&& present[past.len() as int] is Refused ==> after.last_sent
                == c.links@[index].last_sent
        }),
{
    let (records, k) = choose|records: Seq<(usize, u64, Input)>, k: int|
        #![trigger c.offers(records, k)]
        {
            &&& c.is_owed(index, records)
            &&& 0 <= k <= 4
            &&& k <= chunks(records.len() as int)
            &&& after.transport.history() == c.links@[index].transport.history() + c.offers(
                records,
                k,
            )
            &&& after.last_sent == (if k > 0 {
                Some(now)
            } else {
                c.links@[index].last_sent
            })
        };
    let past = c.links@[index].transport.history();
    let present = after.transport.history();
    let offers = c.offers(records, k);
    let n = records.len() as int;
    assert(chunks(n) >= 1) by {
        if n > 0 {
            assert((n + 31) / 32 >= 1);
        }
    }
    assert forall|i: int| past.len() <= i < present.len() implies (#[trigger] present[i] is Sent
        || present[i] is Refused) by {
        assert(present[i] == offers[i - past.len()]);
    }
    assert(present[past.len() as int] == offers[0]);
}

/// A link is read 64 times at most in a turn, and until it has nothing.
pub proof fn law_links_are_read_until_they_are_empty<T: Transport>(answers: Seq<LinkEvent>)
    requires
        Connection::<T>::reading(answers, true),
    ensures
        0 < answers.len() <= 64,
        answers.len() < 64 ==> answers.last() is Nothing,
        forall|i: int| 0 <= i < answers.len() - 1 ==> !(#[trigger] answers[i] is Nothing),
{
}

/// What a status shows of a session: where it is, what is confirmed, what
/// everybody it sends to has, and what was compared.
pub proof fn law_a_status_shows_the_session<T: Transport>(c: Connection<T>)
    requires
        c.rollback.player < c.rollback.players <= 4,
        c.rollback.players >= 2,
    ensures
        c.spec_status().connected == c.connected,
        c.spec_status().frame == c.rollback.current,
        c.spec_status().confirmed_frame == c.rollback.confirmed,
        c.spec_status().checked_frame == c.last_checked,
        c.spec_status().rollbacks == c.rollback.rollbacks,
        c.spec_status().replayed_frames == c.rollback.replayed_frames,
        c.spec_status().behind == 0,
        c.rollback.player != 0 ==> c.spec_status().acknowledged_frame == c.rollback.acknowledged[0],
        c.rollback.player == 0 ==> forall|p: int|
            #![trigger c.rollback.acknowledged[p]]
            0 < p < c.rollback.players ==> c.spec_status().acknowledged_frame
                <= c.rollback.acknowledged[p],
{
    lemma_least(c.rollback.acknowledged@, 0, c.rollback.players as int);
    assert forall|p: int|
        #![trigger c.rollback.acknowledged[p]]
        c.rollback.player == 0 && 0 < p < c.rollback.players implies c.spec_status().acknowledged_frame
        <= c.rollback.acknowledged[p] by {
        assert(c.rollback.acknowledged@[p] == c.rollback.acknowledged[p]);
    }
}

/// What a status shows of a spectator: what it has executed, which is final,
/// how far it was compared and how far it is behind. It stands for two
/// players until it has been told.
pub proof fn law_a_status_shows_the_spectator(w: Watcher, replay: Replay)
    requires
        w.replay == Some(replay),
    ensures
        w.spec_status().connected <==> w.phase == WatcherPhase::Running,
        w.spec_status().frame == replay.executed,
        w.spec_status().confirmed_frame == replay.executed,
        w.spec_status().acknowledged_frame == replay.executed,
        w.spec_status().checked_frame == replay.checked,
        w.spec_status().behind == replay.behind,
        w.spec_status().rollbacks == 0 && w.spec_status().replayed_frames == 0,
        replay.players matches Some(n) ==> w.spec_players() == n,
        replay.players is None ==> w.spec_players() == 2,
        forall|sending: bool| #[trigger]
            w.settled(sending) <==> w.phase == WatcherPhase::Running && !sending && !replay.swap_due,
{
}

/// The role is the host's for the first port, a guest's for any other, and a
/// spectator's where one watches; watching needs an address that can be the
/// host's.
pub proof fn law_roles_go_by_the_port(o: Options, w: WatchOptions)
    ensures
        o.player == 0 ==> ConnectionOptions::Direct(o).spec_role() == Role::Host,
        o.player != 0 ==> ConnectionOptions::Direct(o).spec_role() == Role::Guest,
        ConnectionOptions::Watch(w).spec_role() == Role::Spectator,
        ConnectionOptions::Direct(o).refusal() == o.refusal(),
        ConnectionOptions::Watch(w).refusal() == peer_refusal(w.bind, w.host),
{
}

/// The history for spectators takes frames in their order as long as they
/// fit; the first that does not overruns it, and nothing is added any more.
pub proof fn law_histories_take_what_fits(
    feed: Feed,
    inputs: Seq<(u64, [Input; 4])>,
    after: Feed,
)
    requires
        feed.wf(),
        feed.takes_frames(inputs, after),
    ensures
        feed.overrun ==> after.frames@ == feed.frames@ && after.overrun,
        !feed.overrun && feed.frames@.len() + inputs.len() <= feed.limit ==> after.frames@
            == feed.frames@ + inputs && !after.overrun,
        !feed.overrun && feed.frames@.len() + inputs.len() > feed.limit ==> after.overrun
            && after.frames@.len() == feed.limit && after.frames@ == (feed.frames@ + inputs).take(
            feed.limit as int,
        ),
        after.checkpoints == feed.checkpoints && after.swaps == feed.swaps && after.limit
            == feed.limit,
{
    if !feed.overrun && feed.frames@.len() + inputs.len() > feed.limit {
        assert(after.frames@ =~= (feed.frames@ + inputs).take(feed.limit as int));
    }
}

/// A disk change begins at a guest that plays and changes nothing yet, with
/// the next number, for a drive it has and a disk that the drive takes; it
/// answers with the frame it is at.
pub proof fn law_changes_begin_at_an_idle_guest<T: Transport, M: Machine>(
    p: Player<T>,
    machine: M,
    from: usize,
    id: u64,
    drive: usize,
    size: usize,
    hash: [u8; 32],
    writable: bool,
    drives: Seq<bool>,
    now: u64,
    after: Player<T>,
    begun: Seq<Action>,
    done: Seq<Action>,
    r: Result<(), SessionError>,
)
    requires
        p.swap_handled::<M>(
            machine,
            from,
            id,
            (SwapMessage::Begin { drive, size, hash, writable }),
            drives,
            now,
            after,
            begun,
            done,
            r,
        ),
    ensures
        r is Ok <==> {
            &&& p.role == Role::Guest && p.connection.connected && p.phase == Phase::Running
            &&& p.swap is None
            &&& id == p.swap_id + 1
            &&& drive < 4 && drives[drive as int]
            &&& size <= p.floppy_limit
            &&& size == 0 ==> !writable
        },
        r is Ok ==> (after.swap matches Some(swap) && swap.phase == SwapPhase::GuestTarget
            && swap.drive == drive && swap.size == size && swap.hash == hash && swap.writable
            == writable && swap.started == now && swap.stop == p.connection.rollback.current
            && after.swap_id == id),
        r is Ok ==> done == begun + to_links(
            p.connection.links@,
            id,
            SwapMessage::Held { frame: p.connection.rollback.current },
        ),
        r is Err ==> after == p,
{
}

/// A disk change goes on phase by phase. The host waits for every guest's
/// frame and sends them the furthest; a guest takes it as its stop where that
/// is at most 32 frames on; the host notes who is ready. A guest resumes when
/// it is told to. A message out of its phase is refused.
pub proof fn law_changes_go_on_phase_by_phase<T: Transport>(
    p: Player<T>,
    from: usize,
    event: SwapMessage,
    after: Player<T>,
    sent: Seq<Action>,
    r: Result<(), SessionError>,
)
    requires
        p.swap is Some,
        from < 4,
        p.swap_answers(from, event, after, sent, r),
    ensures
        ({
            let swap = p.swap->0;
            let frame = p.connection.rollback.current;
            &&& event matches SwapMessage::Held { frame: peer } ==> {
                &&& swap.phase != SwapPhase::HostHeld ==> r == Err::<(), SessionError>(
                    SessionError::SwapPhase,
                )
                &&& swap.phase == SwapPhase::HostHeld ==> (r is Ok <==> peer <= frame + 32 && frame
                    <= peer + 32)
                &&& r is Ok ==> after.swap->0.held[from as int] == Some(peer)
                &&& r is Ok && after.swap->0.phase == SwapPhase::HostReady ==> after.swap->0.stop
                    >= frame && after.swap->0.stop >= peer
            }
            &&& event matches SwapMessage::Target { frame: target } ==> {
                &&& r is Ok <==> swap.phase == SwapPhase::GuestTarget && frame <= target && target
                    <= frame + 32
                &&& r is Ok ==> after.swap->0.stop == target && after.swap->0.phase
                    == SwapPhase::GuestReady
            }
            &&& event matches SwapMessage::Ready { hash } ==> {
                &&& r is Ok <==> swap.phase == SwapPhase::HostReady
                &&& r is Ok ==> after.swap->0.ready[from as int] == Some(hash) && after.swap->0.phase
                    == SwapPhase::HostReady
            }
            &&& event is Prepared && swap.phase != SwapPhase::HostPrepared ==> r is Err
            &&& event is Apply && swap.phase != SwapPhase::GuestApply ==> r is Err
            &&& event is Resume ==> {
                &&& r is Ok <==> swap.phase == SwapPhase::GuestResume
                &&& r is Ok ==> after.swap is None
            }
            &&& event is Begin ==> r is Err
        }),
{
    let swap = p.swap->0;
    if event is Held && swap.phase == SwapPhase::HostHeld && r is Ok {
        let held = after.swap->0.held@;
        crate::netplay::swap::law_nobody_rewinds(held, p.connection.rollback.current, 4);
        assert(held[from as int] == Some(event->Held_frame));
    }
}

/// At the stop a guest says that it is ready, with its digest; the host, once
/// every guest is, sends the disk where all of them have its own digest, and
/// ends the session where one has not.
pub proof fn law_changes_wait_for_agreement<T: Transport>(
    p: Player<T>,
    own: [u8; 32],
    after: Player<T>,
    sent: Seq<Action>,
    r: Result<(), SessionError>,
)
    requires
        p.swap is Some,
        p.boundary_answers(own, after, sent, r),
    ensures
        ({
            let swap = p.swap->0;
            let guests = crate::netplay::player::seats(p.guests@);
            let all = forall|i: int|
                0 <= i < guests.len() ==> swap.ready@[#[trigger] guests[i] as int] is Some;
            let same = forall|q: int|
                #![trigger swap.ready@[q]]
                0 <= q < 4 ==> (swap.ready@[q] matches Some(h) ==> h@ == own@);
            &&& swap.phase == SwapPhase::GuestReady ==> r is Ok && sent == to_links(
                p.connection.links@,
                p.swap_id,
                SwapMessage::Ready { hash: own },
            ) && after.swap->0.phase == SwapPhase::GuestBytes
            &&& swap.phase == SwapPhase::HostReady && all && same ==> r is Ok && after.swap->0.phase
                == SwapPhase::HostPrepared && after.swap->0.own_digest == Some(own)
                && disk_to_links(p.connection.links@, swap.bytes->0@, sent)
            &&& swap.phase == SwapPhase::HostReady && all && !same ==> r == Err::<(), SessionError>(
                SessionError::DifferBefore,
            )
            &&& swap.phase == SwapPhase::HostReady && !all ==> r is Ok && after == p && sent.len()
                == 0
            &&& swap.phase != SwapPhase::HostReady && swap.phase != SwapPhase::GuestReady ==> r is Ok
                && after == p && sent.len() == 0
        }),
{
}

/// A change is asked for at a host that plays, is connected and changes
/// nothing yet, with a disk that the drive takes; every guest is told what
/// comes, under the next number.
pub proof fn law_changes_are_asked_of_an_idle_host<T: Transport>(
    p: Player<T>,
    drive: usize,
    bytes: Vec<u8>,
    writable: bool,
    connected: bool,
    decodable: bool,
    sending: bool,
    now: u64,
    after: Player<T>,
    begun: Seq<Action>,
    done: Seq<Action>,
    r: Result<(), SessionError>,
)
    requires
        p.asked_to_change(
            drive,
            bytes,
            writable,
            connected,
            decodable,
            sending,
            now,
            after,
            begun,
            done,
            r,
        ),
    ensures
        r is Ok <==> {
            &&& p.role == Role::Host && p.phase == Phase::Running && p.connection.connected
            &&& p.swap is None && !sending
            &&& disk_refusal(drive, connected, bytes@, writable, p.floppy_limit, decodable) is None
            &&& p.swap_id < u64::MAX
        },
        r is Ok ==> after.swap_id == p.swap_id + 1,
        r is Ok ==> (after.swap matches Some(swap) && swap.phase == SwapPhase::HostHeld && swap.drive
            == drive && swap.bytes == Some(bytes) && swap.hash@ == sha256(bytes@) && swap.stop
            == p.connection.rollback.current && swap.started == now && swap.writable == writable),
        r is Err ==> after == p && done == begun,
{
}

/// A change is over at the host where every guest that reported has its
/// digest, and there is something to keep of it.
pub proof fn law_changes_end_in_agreement<T: Transport>(
    p: Player<T>,
    applied: Seq<Option<[u8; 32]>>,
    own: Seq<u8>,
)
    requires
        p.settle_refusal(applied, own) is None,
    ensures
        p.swap matches Some(swap) && swap.own_digest is Some && swap.bytes is Some,
        forall|q: int|
            #![trigger applied[q]]
            0 <= q < applied.len() ==> (applied[q] matches Some(h) ==> h@ == own),
{
}

/// A disk is changed at the stop alone, where everybody has it all, with the
/// disk at hand.
pub proof fn law_disks_are_changed_at_the_stop<T: Transport>(p: Player<T>)
    ensures
        p.disk_refusal() is None <==> {
            &&& p.swap matches Some(swap) && p.connection.rollback.current == swap.stop
                && swap.bytes is Some
            &&& p.connection.connected
            &&& p.connection.rollback.confirmed == p.connection.rollback.current
            &&& p.connection.rollback.spec_ack_frontier() >= p.connection.rollback.current
        },
{
}

/// Terms are what was offered or asked for, each in its place.
pub proof fn law_terms_are_what_was_said<T: Transport>(
    p: Player<T>,
    o: Options,
    delay: u8,
    window: u8,
    players: usize,
    player: usize,
)
    ensures
        p.offer_terms(delay, window, players, player).input_delay == delay,
        p.offer_terms(delay, window, players, player).rollback_frames == window,
        p.offer_terms(delay, window, players, player).players == players,
        p.offer_terms(delay, window, players, player).player == player,
        p.offer_terms(delay, window, players, player).session == p.connection.settings.session,
        o.spec_settings().input_delay == o.input_delay,
        o.spec_settings().rollback_frames == o.rollback_frames,
        o.spec_settings().players == o.players,
        o.spec_settings().player == o.player,
        o.spec_settings().session == o.session,
        p.offered matches Some(terms) ==> p.terms() == terms,
        p.offered is None ==> p.terms() == p.connection.settings,
{
}

/// A connection starts, and a setup is adopted, where the terms are valid, the
/// machine is one that can be played over a network, and every player past
/// the second has a joystick in the adapter.
pub proof fn law_connections_start_with_joysticks_in_the_adapter<T: Transport>(
    settings: Settings,
    machine: ColdMachine,
    cfg: Config,
    blocked: bool,
)
    ensures
        Connection::<T>::start_refusal(settings, machine, cfg, blocked) is None <==> {
            &&& settings.valid()
            &&& machine.refusal(cfg, blocked) is None
            &&& forall|p: int|
                2 <= p < settings.players ==> #[trigger] machine.devices@[p] is Joystick
        },
        Connection::<T>::adoption_refusal(settings, machine, cfg, blocked) is None <==> {
            &&& machine.refusal(cfg, blocked) is None
            &&& forall|p: int|
                2 <= p < settings.players ==> #[trigger] machine.devices@[p] is Joystick
        },
{
    let devices = machine.devices@;
    let n = settings.players as int;
    if exists|p: int| socket_without_joystick(devices, n, p) {
        let p = choose|p: int| socket_without_joystick(devices, n, p);
        assert(!(devices[p] is Joystick));
    } else {
        assert forall|p: int| 2 <= p < n implies #[trigger] devices[p] is Joystick by {
            lemma_first_socket(devices, n, p);
        }
    }
}

proof fn lemma_first_socket(devices: Seq<PortDevice>, players: int, p: int)
    requires
        2 <= p < players,
        !(exists|q: int| socket_without_joystick(devices, players, q)),
    ensures
        devices[p] is Joystick,
    decreases p,
{
    if !(devices[p] is Joystick) {
        assert forall|q: int| 2 <= q < p implies #[trigger] devices[q] == PortDevice::Joystick by {
            lemma_first_socket(devices, players, q);
        }
        assert(socket_without_joystick(devices, players, p));
    }
}

/// What the snapshots take is the sum of their lengths.
pub proof fn law_snapshots_are_counted(frames: Seq<Frame>, frame: Frame)
    ensures
        snapshot_bytes(Seq::empty()) == 0,
        snapshot_bytes(frames.push(frame)) == snapshot_bytes(frames) + frame.before@.len(),
{
    assert(frames.push(frame).drop_last() =~= frames);
}

/// The log of confirmed frames goes on with the inputs that they ran on, frame
/// by frame, and with nothing held for the ports that nobody has.
pub proof fn law_the_log_holds_what_ran(
    r: Rollback,
    before: Seq<(u64, [Input; 4])>,
    after: Seq<(u64, [Input; 4])>,
    end: int,
    f: int,
    p: int,
)
    requires
        r.inputs_appended(before, after, end),
        r.confirmed <= f < end,
        0 <= p < 4,
    ensures
        after.len() == before.len() + end - r.confirmed,
        after.take(before.len() as int) == before,
        after[before.len() + f - r.confirmed].0 == f,
        p < r.players ==> after[before.len() + f - r.confirmed].1[p] == r.trace@[f][p],
        p >= r.players ==> after[before.len() + f - r.confirmed].1[p].buttons == 0
            && after[before.len() + f - r.confirmed].1[p].mouse_dx == 0,
{
    assert(after.take(before.len() as int) =~= before);
    let i = before.len() + f - r.confirmed;
    assert(after[i] == after[i]);
    assert(after[i].1[p] == after[i].1[p]);
}

/// The digests that are logged are those of the sixtieth frames that were
/// passed, in their order: of the machine where it is there now, else of the
/// snapshot that was taken before the frame.
pub proof fn law_the_log_holds_the_digests<M: Machine>(
    r: Rollback,
    before: Seq<(u64, [u8; 32])>,
    after: Seq<(u64, [u8; 32])>,
    machine: M,
    n: int,
    i: int,
)
    requires
        r.digests_appended::<M>(before, after, machine, n),
        0 <= i < n,
    ensures
        after.len() == before.len() + n,
        after.take(before.len() as int) == before,
        after[before.len() + i].0 == (r.confirmed as int / 60 + 1 + i) * 60,
        ({
            let f = after[before.len() + i].0;
            after[before.len() + i].1@ == sha256(
                if f == r.current {
                    machine.snapshot()
                } else {
                    r.history@[f - r.confirmed].before@
                },
            )
        }),
{
    assert(after.take(before.len() as int) =~= before);
    let k = before.len() + i;
    assert(after[k] == after[k]);
    assert((r.confirmed as int / 60 + 1) * 60 + 60 * i == (r.confirmed as int / 60 + 1 + i) * 60);
}

/// A failed session stays failed, and does nothing any more.
pub proof fn law_failures_stay<T: Transport, M: Machine>(
    s: Session<T>,
    machine: M,
    input: LocalInput,
    advance: bool,
    received: u64,
    can_send: bool,
    now: u64,
    after: Session<T>,
    machine_after: M,
    input_after: LocalInput,
    begun: Seq<Action>,
    done: Seq<Action>,
    r: Result<Stepped, SessionError>,
)
    requires
        s.steps_to::<M>(
            machine,
            input,
            advance,
            received,
            can_send,
            now,
            after,
            machine_after,
            input_after,
            begun,
            done,
            r,
        ),
    ensures
        s.failure is Some ==> r is Err && after == s && machine_after == machine && input_after
            == input,
        r is Err ==> after.failure is Some && done == begun,
        r is Ok ==> after.failure is None && s.failure is None,
{
}

/// A guest that names no port gets the lowest that is free.
pub proof fn law_the_lowest_free_port_is_given<T: Transport>(c: Connection<T>, seat: int, p: int)
    requires
        lowest_free(c, seat),
    ensures
        0 <= seat < c.settings.players && seat != c.settings.player,
        forall|i: int|
            #![trigger c.links@[i]]
            0 <= i < c.links@.len() ==> c.links@[i].player != seat,
        0 <= p < seat && p != c.settings.player ==> exists|i: int|
            #![trigger c.links@[i]]
            0 <= i < c.links@.len() && c.links@[i].player == p,
{
    law_players_join_on_free_ports(c, seat as usize);
    if 0 <= p < seat && p != c.settings.player {
        law_players_join_on_free_ports(c, p as usize);
        assert(!c.is_free(p));
    }
}

/// A guest greets the host, with its build and the port it was configured
/// for.
pub proof fn law_guests_greet_the_host(
    action: Action,
    version: Seq<char>,
    port: Option<usize>,
)
    requires
        greets(action, version, port),
    ensures
        action matches Action::Send { to, message } && to == 0 && (message matches Message::Hello {
            build,
            player,
        } && build@ == version && player == port),
{
}

/// A link starts unheard: nothing was sent on it, and nothing is acknowledged.
pub proof fn law_links_start_unheard<T: Transport>(
    link: Link<T>,
    player: usize,
    transport: T,
    now: u64,
    p: int,
)
    requires
        link.is_new(player, transport, now),
        0 <= p < 4,
    ensures
        link.player == player,
        !link.seen && !link.ready,
        link.acks[p] == 0,
        link.last_received == now,
        link.last_sent is None,
        link.transport == transport,
{
}

/// A connection starts at frame zero, with nothing compared and nobody heard,
/// on the terms that it was given.
pub proof fn law_connections_start_at_zero<T: Transport>(
    c: Connection<T>,
    settings: Settings,
    identity: Seq<u8>,
    now: u64,
)
    requires
        c.begins(settings, identity, now),
    ensures
        c.settings == settings,
        c.identity@ == identity,
        !c.connected && c.failure is None,
        c.started == now,
        c.last_checked == 0,
        c.rollback.current == 0 && c.rollback.confirmed == 0,
        c.rollback.player == settings.player && c.rollback.players == settings.players,
        c.rollback.delay == settings.input_delay && c.rollback.window == settings.rollback_frames,
        forall|f: u64| !#[trigger] c.peer_hashes@.contains_key(f),
{
}

/// A change of the audience is noticed where a spectator left, or began to
/// follow, and not else.
pub proof fn law_changes_of_the_audience_are_noticed(
    links: Seq<SpectatorLink>,
    was: Seq<WatchPhase>,
    left: Seq<bool>,
    i: int,
)
    requires
        0 <= i < links.len(),
    ensures
        left[i] ==> noticed(links, was, left),
        was[i] != WatchPhase::Streaming && links[i].phase == WatchPhase::Streaming ==> noticed(
            links,
            was,
            left,
        ),
        (forall|j: int|
            #![trigger links[j]]
            0 <= j < links.len() ==> !left[j] && (links[j].phase == WatchPhase::Streaming
                ==> was[j] == WatchPhase::Streaming)) ==> !noticed(links, was, left),
{
    assert(links[i] == links[i]);
}

/// A session runs where every one of its guests does.
pub proof fn law_all_guests_run(guests: Seq<GuestState>, guest: GuestState)
    ensures
        all_running(Seq::empty()),
        all_running(guests.push(guest)) <==> all_running(guests) && guest.phase
            == GuestPhase::Running,
{
    let more = guests.push(guest);
    if all_running(more) {
        assert forall|i: int| 0 <= i < guests.len() implies (#[trigger] guests[i]).phase
            == GuestPhase::Running by {
            assert(more[i] == guests[i]);
        }
        assert(more[guests.len() as int].phase == GuestPhase::Running);
    }
}

/// A connection whose links are not all up waits: its clocks start anew, and
/// nothing else changes. It is ready where every link of the session is there
/// and says so.
pub proof fn law_connections_wait_for_their_links<T: Transport>(
    c: Connection<T>,
    after: Connection<T>,
    now: u64,
    answers: Seq<LinkEvent>,
    ready: bool,
    i: int,
)
    requires
        after.waiting_from(c, now),
        c.poll_result(answers, Ok(ready)),
        0 <= i < c.links@.len(),
    ensures
        after.started == now,
        after.links@[i].last_received == now,
        after.links@[i].last_sent == c.links@[i].last_sent,
        after.rollback == c.rollback && after.connected == c.connected,
        ready <==> c.links@.len() == (if c.settings.player == 0 {
            c.settings.players - 1
        } else {
            1
        }) && forall|j: int|
            0 <= j < c.links@.len() ==> #[trigger] answers[j] == LinkEvent::Ready(true),
{
    assert(after.links@[i] == (Link { last_received: now, ..c.links@[i] }));
}

/// What the log holds goes to the history for spectators, frames and digests,
/// and the log is empty then; without a history nothing is kept.
pub proof fn law_the_log_goes_to_the_history<T: Transport>(
    c: Connection<T>,
    after: Connection<T>,
    feed: Feed,
    log: ConfirmedLog,
)
    requires
        c.drains_to(after),
        c.feed == Some(feed),
        c.rollback.log == Some(log),
        feed.wf(),
        !feed.overrun,
        feed.frames@.len() + log.inputs@.len() <= feed.limit,
    ensures
        after.feed matches Some(fed) && fed.frames@ == feed.frames@ + log.inputs@
            && fed.checkpoints@ == feed.checkpoints@ + log.hashes@ && fed.swaps == feed.swaps
            && !fed.overrun,
        after.rollback.log matches Some(rest) && rest.inputs@.len() == 0 && rest.hashes@.len() == 0,
        after.rollback.trace == c.rollback.trace && after.links == c.links,
{
}

/// Once every digest agrees, the frames that were compared are done with: the
/// last of them is what is checked, and nothing up to it is kept.
pub proof fn law_compared_digests_are_done_with<T: Transport>(
    c: Connection<T>,
    after: Connection<T>,
    f: u64,
    p: int,
)
    requires
        after.agreed_from(c),
        0 <= p < 4,
    ensures
        c.peer_hashes@.contains_key(f) && c.rollback.hashes@.contains_key(f) ==> f
            <= after.last_checked && (c.peer_hashes@[f][p] matches Some(theirs) ==> theirs@
            == c.rollback.hashes@[f]@),
        f <= after.last_checked ==> !after.peer_hashes@.contains_key(f),
        f > after.last_checked && c.peer_hashes@.contains_key(f)
            ==> after.peer_hashes@.contains_key(f) && after.peer_hashes@[f] == c.peer_hashes@[f],
        after.last_checked >= c.last_checked,
{
    assert(!c.disagrees(f, p));
    if c.peer_hashes@.contains_key(f) && c.rollback.hashes@.contains_key(f) {
        assert(c.compared(f));
    }
}

/// The first frame that differs is named, and of the players that differ
/// there the first.
pub proof fn law_the_first_difference_is_named<T: Transport>(
    c: Connection<T>,
    player: usize,
    frame: u64,
    f: u64,
    p: int,
)
    requires
        c.desynchronized_at(player, frame),
        0 <= p < 4,
        c.rollback.hashes@.contains_key(f),
        c.peer_hashes@.contains_key(f),
        f < frame || (f == frame && p < player),
    ensures
        c.peer_hashes@[f][p] matches Some(theirs) ==> theirs@ == c.rollback.hashes@[f]@,
        c.peer_hashes@[frame][player as int] matches Some(theirs) && theirs@
            != c.rollback.hashes@[frame]@,
{
    assert(!c.disagrees(f, p));
}

/// What is asked of the keeper of a slot that is claimed: it is the newcomer's
/// alone, holds what came with the claim, and is announced last.
pub proof fn law_claims_are_announced(
    before: SlotTable,
    after: SlotTable,
    kind: SlotKind,
    source: Endpoint,
    bytes: Seq<u8>,
)
    requires
        after.claimed(before, kind, source, bytes),
    ensures
        after.slots@.len() == before.slots@.len() + 1,
        after.slots@.last().source == source && after.slots@.last().kind == kind,
        packets(after.slots@.last().incoming@) == seq![bytes],
        after.pending@.last() == (kind, source),
        after.pending@.drop_last() == before.pending@,
        slots_of(after.slots@, kind) == slots_of(after.slots@.drop_last(), kind) + 1,
        after.players == before.players && after.spectators == before.spectators,
{
    assert(after.pending@.drop_last() =~= before.pending@);
}

/// A replay loads the snapshot that was taken before the wrong frame, and then
/// runs every frame from there on, each with what is now known, the keys of
/// the frame before, and without showing it.
pub proof fn law_a_replay_runs_each_frame_again(r: Rollback, first: int, tip: int, k: int)
    requires
        r.confirmed <= first <= tip <= r.current,
        0 <= k < tip - first,
    ensures
        r.replay_events(first, tip).len() == 1 + tip - first,
        r.replay_events(first, tip)[0] == (MachineEvent::Loaded {
            state: r.history@[first - r.confirmed].before@,
            ok: true,
        }),
        r.replay_events(first, tip)[1 + k] matches MachineEvent::Ran {
            inputs,
            previous_keys,
            replay,
            ok,
        } && inputs == r.executes((first + k) as u64) && replay && ok && (k > 0 ==> previous_keys
            == merged(r.executes((first + k - 1) as u64))) && (k == 0 && first > 0 ==> previous_keys
            == merged(r.trace@[first - 1])),
{
    let run = r.replayed_trace(first, r.current as int);
    let e = r.replay_events(first, tip)[1 + k];
    assert(e == MachineEvent::Ran {
        inputs: run[first + k],
        previous_keys: keys_before(run, first + k),
        replay: true,
        ok: true,
    });
}

/// A turn takes the local input exactly where the session is connected, the
/// frame goes on, and the frame that it is for has none yet; what is taken is
/// the sample, and its motion is then used up.
pub proof fn law_a_turn_takes_the_input_once<T: Transport, M: Machine>(
    c: Connection<T>,
    machine: M,
    input: LocalInput,
    advance: bool,
    now: u64,
    after: Connection<T>,
    machine_after: M,
    input_after: LocalInput,
    r: Result<bool, ConnectionError>,
)
    requires
        c.takes_turn::<M>(machine, input, advance, now, after, machine_after, input_after, r),
        c.turn_refusal(input.held, now) is None,
        c.rollback.current + c.rollback.delay < u64::MAX,
    ensures
        ({
            let frame = (c.rollback.current + c.rollback.delay) as u64;
            let takes = c.connected && advance && !c.rollback.local@.contains_key(frame);
            &&& takes ==> input_after.mouse_pending.0 == input.mouse_pending.0
                - input.sampled().mouse_dx && input_after.held == input.held
            &&& !takes ==> input_after == input
        }),
        !c.connected ==> machine_after == machine && (r matches Ok(stepped) ==> !stepped),
{
    crate::netplay::input::law_motion_is_conserved(input);
}

/// A refused turn changes nothing.
pub proof fn law_refused_turns_change_nothing<T: Transport, M: Machine>(
    c: Connection<T>,
    machine: M,
    input: LocalInput,
    advance: bool,
    now: u64,
    after: Connection<T>,
    machine_after: M,
    input_after: LocalInput,
    r: Result<bool, ConnectionError>,
    e: ConnectionError,
)
    requires
        c.takes_turn::<M>(machine, input, advance, now, after, machine_after, input_after, r),
        c.turn_refusal(input.held, now) == Some(e),
    ensures
        r == Err::<bool, ConnectionError>(e),
        after == c && machine_after == machine && input_after == input,
{
}

/// What is no report of this session is passed over, unless it is one of
/// another version.
pub proof fn law_foreign_packets_are_passed_over<T: Transport>(
    c: Connection<T>,
    index: int,
    bytes: Seq<u8>,
    now: u64,
    after: Connection<T>,
    r: Result<(), ConnectionError>,
)
    requires
        c.handles_packet(index, bytes, now, after, r),
    ensures
        Report::speaks_another_version(bytes, c.settings.session@) ==> r == Err::<
            (),
            ConnectionError,
        >(ConnectionError::Version) && after == c,
        !Report::speaks_another_version(bytes, c.settings.session@) && (forall|report: Report|
            #[trigger] report.carried_by(bytes) && report.acceptable() ==> report.session@
                != c.settings.session@) ==> r is Ok && after == c,
{
}

/// A report brings its inputs into the timeline: an input of a frame that is
/// not confirmed is known from then on, as it was before where it was known;
/// what was executed and what was sampled stay.
pub proof fn law_reports_bring_their_inputs<T: Transport>(
    c: Connection<T>,
    index: int,
    report: Report,
    now: u64,
    after: Connection<T>,
    i: int,
    f: u64,
)
    requires
        c.takes_report(index, report, now, after),
        0 <= i < report.inputs@.len(),
        c.rollback.is_peer(report.inputs@[i].0 as int),
        report.inputs@[i].1 == f,
        f >= c.rollback.confirmed,
    ensures
        ({
            let p = report.inputs@[i].0 as int;
            &&& after.rollback.remote@[p]@.contains_key(f)
            &&& c.rollback.remote@[p]@.contains_key(f) ==> after.rollback.remote@[p]@[f]
                == c.rollback.remote@[p]@[f]
        }),
        after.rollback.trace@ == c.rollback.trace@,
        after.rollback.local == c.rollback.local,
        after.rollback.current == c.rollback.current,
{
    let p = report.inputs@[i].0 as int;
    assert(after.rollback.remote@[p]@ == known_after(
        c.rollback.remote@[p]@,
        report.inputs@,
        p,
        c.rollback.confirmed,
    ));
    law_known_inputs_stay(c.rollback.remote@[p]@, report.inputs@, p, c.rollback.confirmed, f);
    assert(report.inputs@[i] == report.inputs@[i]);
}

/// The host keeps what it relays for the slowest of the other guests; a guest
/// relays nothing.
pub proof fn law_the_host_keeps_what_it_relays<T: Transport>(
    c: Connection<T>,
    after: Rollback,
    p: int,
    i: int,
)
    requires
        c.floors_to(after),
        0 <= p < 4,
    ensures
        c.settings.player == 0 && p < c.settings.players && 0 <= i < c.links@.len()
            && c.links@[i].player != p ==> after.relay_floor[p] <= c.links@[i].acks[p],
        c.settings.player == 0 && p >= c.settings.players ==> after.relay_floor[p] == u64::MAX,
        c.settings.player != 0 ==> after == c.rollback,
{
    law_relayed_inputs_are_kept_for_the_slowest(c.links@, p);
    if c.settings.player == 0 {
        assert(after.relay_floor[p] == c.relay_floor(p));
        if 0 <= i < c.links@.len() {
            assert(c.links@[i].player == c.links@[i].player);
        }
    }
}

/// The disk that is put in is the one that was announced, in its drive and
/// with its protection; what is kept of a change says the same, and the frame
/// and the digests on either side of it.
pub proof fn law_changes_put_in_the_announced_disk<T: Transport>(
    p: Player<T>,
    action: Action,
    swap: Swap,
    own: Seq<u8>,
    record: SwapRecord,
)
    requires
        p.swap == Some(swap),
        p.changes_floppy(action),
        describes(swap, own, record),
    ensures
        action matches Action::ChangeFloppy { drive, bytes, writable } && drive == swap.drive
            && writable == swap.writable && (swap.bytes matches Some(image) && bytes@ == image@),
        record.frame == swap.stop && record.drive == swap.drive && record.writable == swap.writable,
        swap.bytes matches Some(image) && record.bytes@ == image@,
        swap.own_digest == Some(record.before),
        record.after@ == own,
{
}

/// A change that is over is reported, as an ejection where there was no disk.
pub proof fn law_finished_changes_are_reported<T: Transport>(p: Player<T>, after: Player<T>)
    requires
        p.finishes_to(after),
    ensures
        after.swap is None,
        p.swap matches Some(swap) && after.progress == Some(
            Progress::Changed { drive: swap.drive, ejected: swap.size == 0 },
        ),
        after.connection == p.connection && after.swap_id == p.swap_id,
{
}

} // verus!
