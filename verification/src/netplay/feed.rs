//! The confirmed history a host retains for its spectators.
use vstd::prelude::*;
use crate::netplay::input::{Input, MAX_PLAYERS};
use crate::netplay::rollback::ConfirmedLog;

verus! {

/// Why a record does not belong to the history.
#[derive(Clone, Copy, Debug, PartialEq, Eq, Structural)]
pub enum FeedError {
    /// Frames are recorded one after another, from the first.
    FrameOutOfOrder,
    /// A change or checkpoint is past the recorded frames.
    NotReached,
}

/// A media change every player applied at a confirmed frame.
pub struct SwapRecord {
    pub frame: u64,
    pub drive: usize,
    pub writable: bool,
    /// State digests on either side of the change.
    pub before: [u8; 32],
    pub after: [u8; 32],
    pub bytes: Vec<u8>,
}

/// Confirmed frames, checkpoints and media changes from cold boot on. Past
/// its limit the history stops growing and is full: a latecomer can no
/// longer replay it.
pub struct Feed {
    pub limit: usize,
    pub players: usize,
    pub frames: Vec<(u64, [Input; MAX_PLAYERS])>,
    pub checkpoints: Vec<(u64, [u8; 32])>,
    pub swaps: Vec<SwapRecord>,
    pub overrun: bool,
}

impl Feed {
    /// Frames are numbered from zero without gaps.
    pub open spec fn wf(self) -> bool {
        &&& self.frames@.len() <= self.limit
        &&& forall|i: int| 0 <= i < self.frames@.len() ==> (#[trigger] self.frames@[i]).0 == i
        &&& self.overrun ==> self.frames@.len() == self.limit
    }

    /// Taking these frames makes `self` into `after`: as many of the first as fit
    /// are recorded, and one that does not leaves the history full.
    pub open spec fn takes_frames(
        self,
        inputs: Seq<(u64, [Input; MAX_PLAYERS])>,
        after: Feed,
    ) -> bool {
        &&& after.overrun == (self.overrun || self.frames@.len() + inputs.len() > self.limit)
        &&& after.frames@ == (if self.overrun {
            self.frames@
        } else if self.frames@.len() + inputs.len() <= self.limit {
            self.frames@ + inputs
        } else {
            self.frames@ + inputs.take(self.limit - self.frames@.len())
        })
        &&& after == Feed { frames: after.frames, overrun: after.overrun, ..self }
    }

    /// Taking a log of confirmed frames and digests makes `self` into
    /// `after`.
    pub open spec fn takes(self, log: ConfirmedLog, after: Feed) -> bool {
        exists|framed: Feed| #[trigger]
            self.takes_frames(log.inputs@, framed) && after == (Feed {
                checkpoints: after.checkpoints,
                ..framed
            }) && after.checkpoints@ == (if framed.overrun {
                framed.checkpoints@
            } else {
                framed.checkpoints@ + log.hashes@
            })
    }

    pub fn new(limit: usize, players: usize) -> (r: Feed)
        ensures
            r.wf(),
            r.limit == limit,
            r.players == players,
            r.frames@.len() == 0,
            r.checkpoints@.len() == 0,
            r.swaps@.len() == 0,
            !r.overrun,
    {
        Feed {
            limit,
            players,
            frames: Vec::new(),
            checkpoints: Vec::new(),
            swaps: Vec::new(),
            overrun: false,
        }
    }

    /// Whether frames have been left out for want of room.
    pub fn full(&self) -> (r: bool)
        ensures
            r == self.overrun,
    {
        self.overrun
    }

    /// Frames recorded so far.
    pub fn frames(&self) -> (r: u64)
        ensures
            r == self.frames@.len(),
    {
        self.frames.len() as u64
    }

    /// Record the next confirmed frame.
    pub fn record_frame(&mut self, frame: u64, inputs: [Input; MAX_PLAYERS]) -> (r: Result<
        (),
        FeedError,
    >)
        requires
            old(self).wf(),
        ensures
            final(self).wf(),
            old(self).overrun ==> r is Ok && *final(self) == *old(self),
            !old(self).overrun && frame != old(self).frames@.len() ==> r == Err::<(), FeedError>(
                FeedError::FrameOutOfOrder,
            ) && *final(self) == *old(self),
            !old(self).overrun && frame == old(self).frames@.len() && frame == old(self).limit
                ==> r is Ok && *final(self) == (Feed { overrun: true, ..*old(self) }),
            !old(self).overrun && frame == old(self).frames@.len() && frame < old(self).limit ==> {
                &&& r is Ok
                &&& final(self).frames@ == old(self).frames@.push((frame, inputs))
                &&& *final(self) == (Feed { frames: final(self).frames, ..*old(self) })
            },
    {
        if self.overrun {
            return Ok(());
        }
        if frame != self.frames.len() as u64 {
            return Err(FeedError::FrameOutOfOrder);
        }
        if self.frames.len() >= self.limit {
            self.overrun = true;
        } else {
            self.frames.push((frame, inputs));
        }
        Ok(())
    }

    /// Record a state digest of a recorded frame.
    pub fn record_checkpoint(&mut self, frame: u64, hash: [u8; 32]) -> (r: Result<(), FeedError>)
        requires
            old(self).wf(),
        ensures
            final(self).wf(),
            old(self).overrun ==> r is Ok && *final(self) == *old(self),
            !old(self).overrun && frame > old(self).frames@.len() ==> r == Err::<(), FeedError>(
                FeedError::NotReached,
            ) && *final(self) == *old(self),
            !old(self).overrun && frame <= old(self).frames@.len() ==> {
                &&& r is Ok
                &&& final(self).checkpoints@ == old(self).checkpoints@.push((frame, hash))
                &&& *final(self) == (Feed { checkpoints: final(self).checkpoints, ..*old(self) })
            },
    {
        if self.overrun {
            return Ok(());
        }
        if frame > self.frames.len() as u64 {
            return Err(FeedError::NotReached);
        }
        self.checkpoints.push((frame, hash));
        Ok(())
    }

    /// Record a media change at a recorded frame.
    pub fn record_swap(&mut self, swap: SwapRecord) -> (r: Result<(), FeedError>)
        requires
            old(self).wf(),
        ensures
            final(self).wf(),
            old(self).overrun ==> r is Ok && *final(self) == *old(self),
            !old(self).overrun && swap.frame > old(self).frames@.len() ==> r == Err::<
                (),
                FeedError,
            >(FeedError::NotReached) && *final(self) == *old(self),
            !old(self).overrun && swap.frame <= old(self).frames@.len() ==> {
                &&& r is Ok
                &&& final(self).swaps@ == old(self).swaps@.push(swap)
                &&& *final(self) == (Feed { swaps: final(self).swaps, ..*old(self) })
            },
    {
        if self.overrun {
            return Ok(());
        }
        if swap.frame > self.frames.len() as u64 {
            return Err(FeedError::NotReached);
        }
        self.swaps.push(swap);
        Ok(())
    }
}

} // verus!
