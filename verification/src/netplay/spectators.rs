//! The host's side of its spectators. Whatever happens on a spectator's
//! link, the players' session is never affected.
use vstd::prelude::*;
use crate::bytes::same_bytes;
use crate::netplay::message::{
    json_payload, kind_of, payload, Message, Progress, SessionError, KEEPALIVE, KIND_FEED,
    KIND_JSON, MAX_JSON, SETUP_TIMEOUT, SPECTATOR_TIMEOUT,
};
use crate::text::{chars_of, same_chars};

verus! {

/// How far a spectator has come.
#[derive(Clone, Copy, Debug, PartialEq, Eq, Structural)]
pub enum WatchPhase {
    Hello,
    Verified,
    Streaming,
}

/// The host's link to one spectator.
#[derive(Clone, Copy, Debug, PartialEq, Eq, Structural)]
pub struct SpectatorLink {
    pub phase: WatchPhase,
    pub started: u64,
    pub last_seen: u64,
    pub last_sent: u64,
}

/// What a spectator is answered.
#[derive(Clone, Copy, Debug, PartialEq, Eq, Structural)]
pub enum SpectatorReply {
    /// The retained machine bundle.
    Bundle,
    /// The start of the stream.
    Start,
}

/// What has arrived on a spectator's link, without its kind.
pub enum SpectatorArrival {
    Json(Vec<u8>),
    Feed(Vec<u8>),
}

impl SpectatorLink {
    pub fn new(now: u64) -> (r: SpectatorLink)
        ensures
            r == (SpectatorLink {
                phase: WatchPhase::Hello,
                started: now,
                last_seen: now,
                last_sent: now,
            }),
    {
        SpectatorLink { phase: WatchPhase::Hello, started: now, last_seen: now, last_sent: now }
    }

    /// Tell setup messages from reports on the stream.
    pub fn sort_message(&self, bytes: &[u8]) -> (r: Result<SpectatorArrival, SessionError>)
        ensures
            match kind_of(bytes@) {
                Some(k) => if k == 1u8 {
                    if bytes@.len() <= 2048 {
                        r matches Ok(SpectatorArrival::Json(body)) && body@ == bytes@.skip(1)
                    } else {
                        r matches Err(SessionError::InvalidSetupMessage)
                    }
                } else if k == 4u8 && self.phase == WatchPhase::Streaming {
                    r matches Ok(SpectatorArrival::Feed(body)) && body@ == bytes@.skip(1)
                } else {
                    r matches Err(SessionError::UnexpectedSpectatorMessage)
                },
                None => r matches Err(SessionError::UnexpectedSpectatorMessage),
            },
    {
        if bytes.len() == 0 {
            return Err(SessionError::UnexpectedSpectatorMessage);
        }
        if bytes[0] == KIND_JSON {
            return match json_payload(bytes) {
                Ok(json) => Ok(SpectatorArrival::Json(json)),
                Err(e) => Err(e),
            };
        }
        if bytes[0] == KIND_FEED && matches!(self.phase, WatchPhase::Streaming) {
            return Ok(SpectatorArrival::Feed(payload(bytes)));
        }
        Err(SessionError::UnexpectedSpectatorMessage)
    }

    /// Why a spectator's setup message ends its link.
    pub open spec fn setup_refusal(
        self,
        message: Message,
        version: Seq<char>,
        identity: Seq<u8>,
        history_full: bool,
        bundle: bool,
    ) -> Option<SessionError> {
        match (message, self.phase) {
            (Message::Watch { build }, WatchPhase::Hello) => if build@ != version {
                Some(SessionError::SpectatorBuild)
            } else if history_full {
                Some(SessionError::HistoryTooLarge)
            } else if !bundle {
                Some(SessionError::NoBundle)
            } else {
                None
            },
            (Message::Verified { identity: theirs }, WatchPhase::Verified) => if theirs@
                != identity {
                Some(SessionError::SpectatorMachine)
            } else {
                None
            },
            _ => Some(SessionError::UnexpectedSpectatorSetup),
        }
    }

    /// A spectator's setup message. One that finds the history too large to
    /// replay is told so before its link ends.
    pub fn receive_message(
        &mut self,
        message: &Message,
        version: &str,
        identity: &[u8; 32],
        history_full: bool,
        bundle: bool,
        now: u64,
    ) -> (r: Result<SpectatorReply, SessionError>)
        ensures
            ({
                let refusal = old(self).setup_refusal(
                    *message,
                    version@,
                    identity@,
                    history_full,
                    bundle,
                );
                &&& r is Ok <==> refusal is None
                &&& r matches Err(e) ==> refusal == Some(e) && *final(self) == *old(self)
            }),
            r matches Ok(reply) ==> match old(self).phase {
                WatchPhase::Hello => reply == SpectatorReply::Bundle && *final(self) == (
                SpectatorLink { phase: WatchPhase::Verified, ..*old(self) }),
                _ => reply == SpectatorReply::Start && *final(self) == (SpectatorLink {
                    phase: WatchPhase::Streaming,
                    last_seen: now,
                    ..*old(self)
                }),
            },
    {
        match message {
            Message::Watch { build } => {
                if !matches!(self.phase, WatchPhase::Hello) {
                    return Err(SessionError::UnexpectedSpectatorSetup);
                }
                let theirs = chars_of(build.as_str());
                let ours = chars_of(version);
                if !same_chars(theirs.as_slice(), ours.as_slice()) {
                    return Err(SessionError::SpectatorBuild);
                }
                if history_full {
                    return Err(SessionError::HistoryTooLarge);
                }
                if !bundle {
                    return Err(SessionError::NoBundle);
                }
                self.phase = WatchPhase::Verified;
                Ok(SpectatorReply::Bundle)
            },
            Message::Verified { identity: theirs } => {
                if !matches!(self.phase, WatchPhase::Verified) {
                    return Err(SessionError::UnexpectedSpectatorSetup);
                }
                if !same_bytes(theirs, identity) {
                    return Err(SessionError::SpectatorMachine);
                }
                self.phase = WatchPhase::Streaming;
                self.last_seen = now;
                Ok(SpectatorReply::Start)
            },
            _ => Err(SessionError::UnexpectedSpectatorSetup),
        }
    }

    /// A report on the stream. A spectator sends nothing but its status.
    pub fn receive_report(&mut self, only_status: bool, now: u64) -> (r: Result<(), SessionError>)
        ensures
            r is Ok <==> old(self).phase == WatchPhase::Streaming && only_status,
            r matches Err(e) ==> e == (if old(self).phase == WatchPhase::Streaming {
                SessionError::UnexpectedSpectatorFeed
            } else {
                SessionError::UnexpectedSpectatorMessage
            }) && *final(self) == *old(self),
            r is Ok ==> *final(self) == (SpectatorLink { last_seen: now, ..*old(self) }),
    {
        if !matches!(self.phase, WatchPhase::Streaming) {
            return Err(SessionError::UnexpectedSpectatorMessage);
        }
        if !only_status {
            return Err(SessionError::UnexpectedSpectatorFeed);
        }
        self.last_seen = now;
        Ok(())
    }

    /// Whether the spectator is to be sent more of the game, once its
    /// messages are read.
    pub fn serve(&self, now: u64, feed: bool) -> (r: Result<bool, SessionError>)
        ensures
            match self.phase {
                WatchPhase::Streaming => if now - self.last_seen >= 10_000 {
                    r matches Err(SessionError::SpectatorTimedOut)
                } else {
                    r == Ok::<bool, SessionError>(feed)
                },
                _ => if now - self.started >= 900_000 {
                    r matches Err(SessionError::SpectatorSetupTimedOut)
                } else {
                    r == Ok::<bool, SessionError>(false)
                },
            },
    {
        if !matches!(self.phase, WatchPhase::Streaming) {
            if now.saturating_sub(self.started) >= SETUP_TIMEOUT {
                return Err(SessionError::SpectatorSetupTimedOut);
            }
            return Ok(false);
        }
        if now.saturating_sub(self.last_seen) >= SPECTATOR_TIMEOUT {
            return Err(SessionError::SpectatorTimedOut);
        }
        Ok(feed)
    }

    /// What was sent of the game just now. Returns whether an idle link must
    /// be kept alive with the head of the feed.
    pub fn note_sent(&mut self, sent: bool, can_send: bool, now: u64) -> (r: bool)
        ensures
            r == (!sent && can_send && now - old(self).last_sent >= 1_000),
            *final(self) == (if sent || r {
                SpectatorLink { last_sent: now, ..*old(self) }
            } else {
                *old(self)
            }),
    {
        if sent {
            self.last_sent = now;
            return false;
        }
        if now.saturating_sub(self.last_sent) >= KEEPALIVE && can_send {
            self.last_sent = now;
            return true;
        }
        false
    }
}

/// The spectators a host serves.
pub struct Audience {
    pub links: Vec<SpectatorLink>,
    pub limit: usize,
}

/// Links that are still there, in order.
pub open spec fn staying(links: Seq<SpectatorLink>, left: Seq<bool>) -> Seq<SpectatorLink>
    decreases links.len(),
{
    if links.len() == 0 {
        links
    } else {
        let rest = staying(links.drop_last(), left);
        if left[links.len() - 1] {
            rest
        } else {
            rest.push(links.last())
        }
    }
}

/// How many of these links carry the stream.
pub open spec fn streaming(links: Seq<SpectatorLink>) -> nat
    decreases links.len(),
{
    if links.len() == 0 {
        0
    } else {
        streaming(links.drop_last()) + (if links.last().phase == WatchPhase::Streaming {
            1nat
        } else {
            0
        })
    }
}

/// Somebody left, or began to watch.
pub open spec fn noticed(
    links: Seq<SpectatorLink>,
    was: Seq<WatchPhase>,
    left: Seq<bool>,
) -> bool {
    exists|i: int|
        #![trigger links[i]]
        0 <= i < links.len() && (left[i] || (was[i] != WatchPhase::Streaming && links[i].phase
            == WatchPhase::Streaming))
}

/// Everything the players confirmed has reached this spectator.
pub open spec fn caught_up(link: SpectatorLink, cursor: u64, sending: bool, end: u64) -> bool {
    link.phase != WatchPhase::Streaming || (cursor >= end && !sending)
}

impl Audience {
    pub open spec fn wf(self) -> bool {
        self.links@.len() <= self.limit
    }

    pub fn new(limit: usize) -> (r: Audience)
        ensures
            r.wf(),
            r.links@.len() == 0,
            r.limit == limit,
    {
        Audience { links: Vec::new(), limit }
    }

    /// Spectators being served, in any phase of their setup.
    pub fn count(&self) -> (r: usize)
        ensures
            r == self.links@.len(),
    {
        self.links.len()
    }

    /// Take in spectators while there is room. Returns how many of the
    /// arrivals, from the first on, are taken in.
    pub fn welcome(&mut self, arrivals: usize, now: u64) -> (r: usize)
        requires
            old(self).wf(),
        ensures
            final(self).wf(),
            r == (if arrivals <= old(self).limit - old(self).links@.len() {
                arrivals as int
            } else {
                old(self).limit - old(self).links@.len()
            }),
            final(self).limit == old(self).limit,
            final(self).links@ == old(self).links@ + Seq::new(
                r as nat,
                |i: int|
                    SpectatorLink {
                        phase: WatchPhase::Hello,
                        started: now,
                        last_seen: now,
                        last_sent: now,
                    },
            ),
    {
        let ghost before = *self;
        let mut taken: usize = 0;
        while taken < arrivals && self.links.len() < self.limit
            invariant
                self.wf(),
                self.limit == before.limit,
                taken <= arrivals,
                self.links@ =~= before.links@ + Seq::new(
                    taken as nat,
                    |i: int|
                        SpectatorLink {
                            phase: WatchPhase::Hello,
                            started: now,
                            last_seen: now,
                            last_sent: now,
                        },
                ),
            decreases arrivals - taken,
        {
            self.links.push(SpectatorLink::new(now));
            taken += 1;
        }
        taken
    }

    /// Close a service pass: the links that failed are dropped, and the user
    /// is told when somebody left or began to watch.
    pub fn close_pass(&mut self, was: &[WatchPhase], left: &[bool]) -> (r: Option<Progress>)
        requires
            old(self).wf(),
            was@.len() == old(self).links@.len(),
            left@.len() == old(self).links@.len(),
        ensures
            final(self).wf(),
            final(self).limit == old(self).limit,
            final(self).links@ == staying(old(self).links@, left@),
            r == (if noticed(old(self).links@, was@, left@) {
                Some(Progress::Watching { spectators: streaming(final(self).links@) as usize })
            } else {
                None
            }),
    {
        let ghost before = *self;
        let mut kept: Vec<SpectatorLink> = Vec::new();
        let mut changed = false;
        let mut watching: usize = 0;
        let mut i: usize = 0;
        while i < self.links.len()
            invariant
                *self == before,
                before.wf(),
                was@.len() == before.links@.len(),
                left@.len() == before.links@.len(),
                i <= before.links@.len(),
                kept@.len() <= i,
                kept@ == staying(before.links@.take(i as int), left@),
                watching == streaming(kept@),
                watching <= kept@.len(),
                changed == exists|j: int|
                    #![trigger before.links@[j]]
                    0 <= j < i && (left@[j] || (was@[j] != WatchPhase::Streaming
                        && before.links@[j].phase == WatchPhase::Streaming)),
            decreases before.links@.len() - i,
        {
            assert(before.links@.take(i + 1).drop_last() =~= before.links@.take(i as int));
            let link = self.links[i];
            if left[i] {
                assert(before.links@[i as int] == link);
                changed = true;
            } else {
                if !matches!(was[i], WatchPhase::Streaming) && matches!(
                    link.phase,
                    WatchPhase::Streaming
                ) {
                    assert(before.links@[i as int] == link);
                    changed = true;
                }
                let ghost prior = kept@;
                kept.push(link);
                assert(kept@.drop_last() =~= prior);
                if matches!(link.phase, WatchPhase::Streaming) {
                    watching += 1;
                }
            }
            i += 1;
        }
        assert(before.links@.take(i as int) =~= before.links@);
        self.links = kept;
        if changed {
            Some(Progress::Watching { spectators: watching })
        } else {
            None
        }
    }

    /// Whether each spectator that watches has received and acknowledged the
    /// whole feed, which ends at `end`. Those still in setup are not waited
    /// for.
    pub fn delivered(&self, cursors: &[u64], sending: &[bool], end: u64) -> (r: bool)
        requires
            cursors@.len() == self.links@.len(),
            sending@.len() == self.links@.len(),
        ensures
            r == forall|i: int|
                0 <= i < self.links@.len() ==> caught_up(
                    #[trigger] self.links@[i],
                    cursors@[i],
                    sending@[i],
                    end,
                ),
    {
        let mut i: usize = 0;
        while i < self.links.len()
            invariant
                cursors@.len() == self.links@.len(),
                sending@.len() == self.links@.len(),
                i <= self.links@.len(),
                forall|j: int|
                    0 <= j < i ==> caught_up(
                        #[trigger] self.links@[j],
                        cursors@[j],
                        sending@[j],
                        end,
                    ),
            decreases self.links@.len() - i,
        {
            if matches!(self.links[i].phase, WatchPhase::Streaming) && (cursors[i] < end
                || sending[i]) {
                assert(!caught_up(
                    self.links@[i as int],
                    cursors@[i as int],
                    sending@[i as int],
                    end,
                ));
                return false;
            }
            i += 1;
        }
        true
    }
}

} // verus!
