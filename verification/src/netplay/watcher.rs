//! A spectator's side: it follows the host's confirmed history and plays no
//! part in the game.
use vstd::prelude::*;
use crate::netplay::config::{machine_identity, ColdMachine, Config};
use crate::netplay::connection::ConnectionError;
use crate::netplay::digest::sha256;
use crate::netplay::message::{
    json_payload, kind_of, payload, Message, Progress, SessionError, KEEPALIVE, KIND_BUNDLE,
    KIND_FEED, KIND_JSON, MAX_JSON, PROGRESS_INTERVAL, SETUP_TIMEOUT, SPECTATOR_TIMEOUT,
};
use crate::netplay::settings::Status;
use crate::text::{chars_of, text_of};

verus! {

/// How far a spectator has come.
#[derive(Clone, Copy, Debug, PartialEq, Eq, Structural)]
pub enum WatcherPhase {
    Bundle,
    Start,
    Running,
}

/// How far the replay of the host's history has come.
#[derive(Clone, Copy, Debug, PartialEq, Eq, Structural)]
pub struct Replay {
    /// Ports the host drives, once the feed has said so.
    pub players: Option<usize>,
    pub executed: u64,
    pub checked: u64,
    /// Confirmed host frames yet to execute.
    pub behind: u64,
    /// A media change waits at the next frame.
    pub swap_due: bool,
}

/// A spectator, from setup to the end of the game.
pub struct Watcher {
    pub phase: WatcherPhase,
    pub started: u64,
    pub progress: Option<Progress>,
    pub last_progress: u64,
    pub last_received: u64,
    /// When the host was last told how far this spectator is.
    pub last_status: Option<u64>,
    /// Running unpaced through the backlog.
    pub catching_up: bool,
    pub replay: Option<Replay>,
}

/// What has arrived from the host, without its kind.
pub enum WatchArrival {
    Bundle(Vec<u8>),
    Json(Vec<u8>),
    Feed(Vec<u8>),
}

/// What a spectator does next.
#[derive(Clone, Copy, Debug, PartialEq, Eq, Structural)]
pub enum WatchTurn {
    /// Setup is not over.
    Wait,
    /// Compare checkpoints, follow media changes and run frames.
    Follow {
        /// Tell the host how far this spectator is.
        send_status: bool,
    },
}

impl Watcher {
    /// A spectator replays only once it has the machine.
    pub open spec fn wf(self) -> bool {
        self.replay is None <==> self.phase == WatcherPhase::Bundle
    }

    /// A spectator that has just addressed its host.
    pub fn new(now: u64) -> (r: Watcher)
        ensures
            r.wf(),
            r == (Watcher {
                phase: WatcherPhase::Bundle,
                started: now,
                progress: Some(Progress::ConnectingToHost),
                last_progress: now,
                last_received: now,
                last_status: Some(now),
                catching_up: false,
                replay: None,
            }),
    {
        Watcher {
            phase: WatcherPhase::Bundle,
            started: now,
            progress: Some(Progress::ConnectingToHost),
            last_progress: now,
            last_received: now,
            last_status: Some(now),
            catching_up: false,
            replay: None,
        }
    }

    /// Tell the kinds of messages apart: the bundle while it is waited for,
    /// the feed while it runs, and setup messages at any time.
    pub fn sort_message(&self, bytes: &[u8]) -> (r: Result<WatchArrival, SessionError>)
        ensures
            match kind_of(bytes@) {
                Some(k) => if k == 2u8 && self.phase == WatcherPhase::Bundle {
                    r matches Ok(WatchArrival::Bundle(body)) && body@ == bytes@.skip(1)
                } else if k == 1u8 {
                    if bytes@.len() <= 2048 {
                        r matches Ok(WatchArrival::Json(body)) && body@ == bytes@.skip(1)
                    } else {
                        r matches Err(SessionError::InvalidSetupMessage)
                    }
                } else if k == 4u8 && self.phase == WatcherPhase::Running {
                    r matches Ok(WatchArrival::Feed(body)) && body@ == bytes@.skip(1)
                } else {
                    r matches Err(SessionError::UnexpectedWatchMessage)
                },
                None => r matches Err(SessionError::UnexpectedWatchMessage),
            },
    {
        if bytes.len() == 0 {
            return Err(SessionError::UnexpectedWatchMessage);
        }
        if bytes[0] == KIND_BUNDLE && matches!(self.phase, WatcherPhase::Bundle) {
            return Ok(WatchArrival::Bundle(payload(bytes)));
        }
        if bytes[0] == KIND_JSON {
            return match json_payload(bytes) {
                Ok(json) => Ok(WatchArrival::Json(json)),
                Err(e) => Err(e),
            };
        }
        if bytes[0] == KIND_FEED && matches!(self.phase, WatcherPhase::Running) {
            return Ok(WatchArrival::Feed(payload(bytes)));
        }
        Err(SessionError::UnexpectedWatchMessage)
    }

    /// Take over the machine of the host's bundle. The result is sent back,
    /// for the host to compare.
    pub fn adopt_bundle(
        &mut self,
        machine: &ColdMachine,
        cfg: &Config,
        blocked: bool,
        build: &[u8],
    ) -> (r: Result<[u8; 32], SessionError>)
        requires
            old(self).wf(),
            old(self).phase == WatcherPhase::Bundle,
        ensures
            final(self).wf(),
            r is Ok <==> machine.refusal(*cfg, blocked) is None,
            r matches Err(e) ==> machine.refusal(*cfg, blocked) matches Some(c) && e
                == SessionError::Connection(ConnectionError::Config(c)) && *final(self) == *old(
                self,
            ),
            r matches Ok(identity) ==> {
                &&& identity@ == sha256(build@ + machine.snapshot@)
                &&& *final(self) == (Watcher {
                    phase: WatcherPhase::Start,
                    progress: Some(Progress::WatchVerified),
                    replay: Some(
                        Replay { players: None, executed: 0, checked: 0, behind: 0, swap_due: false },
                    ),
                    ..*old(self)
                })
            },
    {
        let identity = match machine_identity(machine, cfg, blocked, build) {
            Ok(identity) => identity,
            Err(e) => {
                return Err(SessionError::Connection(ConnectionError::Config(e)));
            },
        };
        self.replay = Some(
            Replay { players: None, executed: 0, checked: 0, behind: 0, swap_due: false },
        );
        self.phase = WatcherPhase::Start;
        self.progress = Some(Progress::WatchVerified);
        Ok(identity)
    }

    /// A setup message from the host.
    pub fn receive_message(&mut self, message: &Message, route: &'static str, now: u64) -> (r:
        Result<(), SessionError>)
        requires
            old(self).wf(),
        ensures
            final(self).wf(),
            r is Err ==> *final(self) == *old(self),
            match *message {
                Message::Start => if old(self).phase == WatcherPhase::Start {
                    &&& r is Ok
                    &&& *final(self) == (Watcher {
                        phase: WatcherPhase::Running,
                        last_received: now,
                        last_status: None,
                        progress: Some(Progress::Spectating { route }),
                        ..*old(self)
                    })
                } else {
                    r matches Err(SessionError::UnexpectedMessage)
                },
                Message::Refused { reason } => r matches Err(
                    SessionError::SpectatorDeclined { reason: said },
                ) && said@ == reason@,
                _ => r matches Err(SessionError::UnexpectedMessage),
            },
    {
        match message {
            Message::Start => {
                if !matches!(self.phase, WatcherPhase::Start) {
                    return Err(SessionError::UnexpectedMessage);
                }
                self.phase = WatcherPhase::Running;
                self.last_received = now;
                self.last_status = None;
                self.progress = Some(Progress::Spectating { route });
                Ok(())
            },
            Message::Refused { reason } => Err(
                SessionError::SpectatorDeclined { reason: text_of(chars_of(reason.as_str()).as_slice()) },
            ),
            _ => Err(SessionError::UnexpectedMessage),
        }
    }

    /// More of the feed has arrived.
    pub fn note_feed(&mut self, now: u64)
        requires
            old(self).wf(),
        ensures
            final(self).wf(),
            *final(self) == (Watcher { last_received: now, ..*old(self) }),
    {
        self.last_received = now;
    }

    /// How far the replay has come.
    pub fn note_replay(&mut self, replay: Replay)
        requires
            old(self).wf(),
            old(self).phase != WatcherPhase::Bundle,
        ensures
            final(self).wf(),
            *final(self) == (Watcher { replay: Some(replay), ..*old(self) }),
    {
        self.replay = Some(replay);
    }

    /// A media change of the host was followed.
    pub fn note_swap(&mut self, drive: usize, ejected: bool)
        requires
            old(self).wf(),
        ensures
            final(self).wf(),
            *final(self) == (Watcher {
                progress: Some(Progress::Followed { drive, ejected }),
                ..*old(self)
            }),
    {
        self.progress = Some(Progress::Followed { drive, ejected });
    }

    /// Whether the host must hear how far this spectator is.
    pub open spec fn status_due(self, can_send: bool, now: u64) -> bool {
        can_send && match self.last_status {
            None => true,
            Some(last) => now - last >= KEEPALIVE,
        }
    }

    /// What one turn does.
    pub open spec fn turns_to(
        self,
        received: u64,
        can_send: bool,
        now: u64,
        after: Self,
        r: Result<WatchTurn, SessionError>,
    ) -> bool {
        if self.phase != WatcherPhase::Running {
            if now - self.started >= SETUP_TIMEOUT {
                r == Err::<WatchTurn, SessionError>(SessionError::SetupTimedOut) && after == self
            } else {
                let report = self.phase == WatcherPhase::Bundle && now - self.last_progress
                    > PROGRESS_INTERVAL;
                &&& r == Ok::<WatchTurn, SessionError>(WatchTurn::Wait)
                &&& after == (if report {
                    Watcher {
                        progress: Some(Progress::ReceivingFiles { kib: received / 1024 }),
                        last_progress: now,
                        ..self
                    }
                } else {
                    self
                })
            }
        } else if now - self.last_received >= SPECTATOR_TIMEOUT {
            r == Err::<WatchTurn, SessionError>(SessionError::HostTimedOut) && after == self
        } else {
            let due = self.status_due(can_send, now);
            &&& r == Ok::<WatchTurn, SessionError>(WatchTurn::Follow { send_status: due })
            &&& after == (if due {
                Watcher { last_status: Some(now), ..self }
            } else {
                self
            })
        }
    }

    /// One turn, once the messages are read: `received` bytes of the bundle
    /// have arrived, and `can_send` says whether the link takes a message.
    pub fn turn(&mut self, received: u64, can_send: bool, now: u64) -> (r: Result<
        WatchTurn,
        SessionError,
    >)
        requires
            old(self).wf(),
        ensures
            final(self).wf(),
            old(self).turns_to(received, can_send, now, *final(self), r),
    {
        if !matches!(self.phase, WatcherPhase::Running) {
            if now.saturating_sub(self.started) >= SETUP_TIMEOUT {
                return Err(SessionError::SetupTimedOut);
            }
            if matches!(self.phase, WatcherPhase::Bundle) && now.saturating_sub(self.last_progress)
                > PROGRESS_INTERVAL {
                self.progress = Some(Progress::ReceivingFiles { kib: received / 1024 });
                self.last_progress = now;
            }
            return Ok(WatchTurn::Wait);
        }
        if now.saturating_sub(self.last_received) >= SPECTATOR_TIMEOUT {
            return Err(SessionError::HostTimedOut);
        }
        let due: bool = can_send && match self.last_status {
            None => true,
            Some(last) => now.saturating_sub(last) >= KEEPALIVE,
        };
        if due {
            self.last_status = Some(now);
        }
        Ok(WatchTurn::Follow { send_status: due })
    }

    pub open spec fn spec_status(self) -> Status {
        let (executed, checked, behind) = match self.replay {
            Some(replay) => (replay.executed, replay.checked, replay.behind),
            None => (0u64, 0u64, 0u64),
        };
        Status {
            connected: self.phase == WatcherPhase::Running,
            frame: executed,
            confirmed_frame: executed,
            acknowledged_frame: executed,
            rollbacks: 0,
            replayed_frames: 0,
            checked_frame: checked,
            behind,
        }
    }

    pub fn status(&self) -> (r: Status)
        ensures
            r == self.spec_status(),
    {
        let (executed, checked, behind) = match self.replay {
            Some(replay) => (replay.executed, replay.checked, replay.behind),
            None => (0u64, 0u64, 0u64),
        };
        Status {
            connected: matches!(self.phase, WatcherPhase::Running),
            frame: executed,
            confirmed_frame: executed,
            acknowledged_frame: executed,
            rollbacks: 0,
            replayed_frames: 0,
            checked_frame: checked,
            behind,
        }
    }

    /// Ports the session drives; two until the feed has said so.
    pub open spec fn spec_players(self) -> usize {
        match self.replay {
            Some(replay) => match replay.players {
                Some(players) => players,
                None => 2,
            },
            None => 2,
        }
    }

    pub fn players(&self) -> (r: usize)
        ensures
            r == self.spec_players(),
    {
        match self.replay {
            Some(replay) => match replay.players {
                Some(players) => players,
                None => 2,
            },
            None => 2,
        }
    }

    pub open spec fn settled(self, sending: bool) -> bool {
        &&& self.phase == WatcherPhase::Running
        &&& !sending
        &&& self.replay matches Some(replay) && !replay.swap_due
    }

    pub fn ready_to_capture(&self, sending: bool) -> (r: bool)
        ensures
            r == self.settled(sending),
    {
        matches!(self.phase, WatcherPhase::Running) && !sending && match self.replay {
            Some(replay) => !replay.swap_due,
            None => false,
        }
    }
}

} // verus!
