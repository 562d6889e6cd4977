//! The machine a session drives, as far as the timeline needs it.
use vstd::prelude::*;
use crate::netplay::input::{merged, Input};

verus! {

/// A machine could not be saved, restored or run. The details stay with the
/// machine.
#[derive(Clone, Copy, Debug, PartialEq, Eq, Structural)]
pub struct MachineError;

/// What a machine was told to do, and whether it could.
pub enum MachineEvent {
    /// A saved state was put back.
    Loaded { state: Seq<u8>, ok: bool },
    /// A frame was run.
    Ran { inputs: Seq<Input>, previous_keys: Seq<u8>, replay: bool, ok: bool },
}

/// A deterministic machine that can be checkpointed. Its state after a frame
/// is a function of the state before it, the controller inputs and the keys
/// held in the previous frame; whether the frame is a replay only decides
/// what the host hears and sees of it. What a machine was told to do is kept
/// in its history: an implementation must be a value that changes whenever it
/// loads a state or runs a frame, even where that fails. Saving leaves the
/// machine as it was, so the history does not show it. A machine written in
/// plain Rust leaves the three functions of the model to their defaults, which
/// say nothing.
pub trait Machine: Sized {
    /// Every state put back and every frame run, in order.
    closed spec fn history(&self) -> Seq<MachineEvent> {
        arbitrary()
    }

    /// The machine's complete state.
    closed spec fn snapshot(&self) -> Seq<u8> {
        arbitrary()
    }

    /// The state one frame later.
    closed spec fn after(state: Seq<u8>, inputs: Seq<Input>, previous_keys: Seq<u8>) -> Seq<u8> {
        arbitrary()
    }

    fn save(&self) -> (r: Result<Vec<u8>, MachineError>)
        ensures
            r matches Ok(state) ==> state@ == self.snapshot(),
    ;

    fn load(&mut self, state: &[u8]) -> (r: Result<(), MachineError>)
        ensures
            r is Ok ==> final(self).snapshot() == state@,
            final(self).history() == old(self).history().push(
                MachineEvent::Loaded { state: state@, ok: r is Ok },
            ),
    ;

    /// One frame with one input per controller port, in port order.
    fn frame(&mut self, inputs: &[Input], previous_keys: [u8; 16], replay: bool) -> (r: Result<
        (),
        MachineError,
    >)
        ensures
            r is Ok ==> final(self).snapshot() == Self::after(
                old(self).snapshot(),
                inputs@,
                previous_keys@,
            ),
            final(self).history() == old(self).history().push(
                MachineEvent::Ran {
                    inputs: inputs@,
                    previous_keys: previous_keys@,
                    replay,
                    ok: r is Ok,
                },
            ),
    ;
}

/// How many frames were run to be heard and seen, and not as a replay.
pub open spec fn frames_shown(events: Seq<MachineEvent>) -> int
    decreases events.len(),
{
    if events.len() == 0 {
        0
    } else {
        frames_shown(events.drop_last()) + (match events.last() {
            MachineEvent::Ran { replay: false, .. } => 1int,
            _ => 0int,
        })
    }
}

/// Events that are all replays show nothing.
pub proof fn lemma_replays_show_nothing(events: Seq<MachineEvent>, more: Seq<MachineEvent>)
    requires
        forall|i: int|
            0 <= i < more.len() ==> (#[trigger] more[i] matches MachineEvent::Ran {
                replay,
                ..
            } ==> replay),
    ensures
        frames_shown(events + more) == frames_shown(events),
    decreases more.len(),
{
    if more.len() == 0 {
        assert(events + more =~= events);
    } else {
        let rest = more.drop_last();
        assert forall|i: int| 0 <= i < rest.len() implies (
        #[trigger] rest[i] matches MachineEvent::Ran { replay, .. } ==> replay) by {
            assert(rest[i] == more[i]);
        }
        lemma_replays_show_nothing(events, rest);
        assert((events + more).drop_last() =~= events + rest);
        assert((events + more).last() == more[more.len() - 1]);
    }
}

/// The keys held in the frame before frame `n` of a run.
pub open spec fn keys_before(trace: Seq<Seq<Input>>, n: int) -> Seq<u8> {
    if n <= 0 {
        Seq::new(16, |i: int| 0u8)
    } else {
        merged(trace[n - 1])
    }
}

/// The state after `n` frames of an uninterrupted run from `origin` in which
/// frame `f` executes the inputs `trace[f]`.
pub open spec fn state_at<M: Machine>(origin: Seq<u8>, trace: Seq<Seq<Input>>, n: int) -> Seq<u8>
    decreases n,
{
    if n <= 0 {
        origin
    } else {
        M::after(state_at::<M>(origin, trace, n - 1), trace[n - 1], keys_before(trace, n - 1))
    }
}

/// The state after `n` frames depends on the inputs of those frames alone.
pub proof fn lemma_state_prefix<M: Machine>(
    origin: Seq<u8>,
    a: Seq<Seq<Input>>,
    b: Seq<Seq<Input>>,
    n: int,
)
    requires
        forall|f: int| 0 <= f < n ==> #[trigger] a[f] == b[f],
    ensures
        state_at::<M>(origin, a, n) == state_at::<M>(origin, b, n),
        keys_before(a, n) == keys_before(b, n),
    decreases n,
{
    if n > 0 {
        assert(a[n - 1] == b[n - 1]);
        lemma_state_prefix::<M>(origin, a, b, n - 1);
    }
}

} // verus!
