//! A participant's session, whatever its role.
use vstd::prelude::*;
use crate::netplay::config::{validate_config, Config, ConfigError};
use crate::netplay::connection::{unsaved, ConnectionError};
use crate::netplay::digest::{digest, sha256};
use crate::netplay::input::{pending, Input, LocalInput};
use crate::netplay::machine::Machine;
use crate::netplay::message::{Action, Progress, SessionError};
use crate::netplay::player::Player;
use crate::netplay::rollback::FRAME_LIMIT;
use crate::netplay::settings::{ConnectionOptions, Role, Status};
use crate::netplay::spectators::Audience;
use crate::netplay::transport::Transport;
use crate::netplay::watcher::{WatchTurn, Watcher};

verus! {

/// What a participant does: play, or watch.
pub enum Track<T: Transport> {
    Play(Player<T>),
    Watch(Watcher),
}

/// What a step of a session was.
#[derive(Clone, Copy, Debug, PartialEq, Eq, Structural)]
pub enum Stepped {
    /// A player's step; whether a frame ran.
    Played(bool),
    /// A spectator's turn.
    Watched(WatchTurn),
}

/// A step as a player's.
pub open spec fn played(r: Result<Stepped, SessionError>) -> Result<bool, SessionError> {
    match r {
        Ok(Stepped::Played(stepped)) => Ok(stepped),
        Ok(Stepped::Watched(_)) => Ok(false),
        Err(e) => Err(e),
    }
}

/// A step as a spectator's.
pub open spec fn watched(r: Result<Stepped, SessionError>) -> Result<WatchTurn, SessionError> {
    match r {
        Ok(Stepped::Watched(turn)) => Ok(turn),
        Ok(Stepped::Played(_)) => Ok(WatchTurn::Wait),
        Err(e) => Err(e),
    }
}

/// Desktop setup and media coordination around the shared rollback protocol,
/// or a spectator's lockstep replay of the host's confirmed history.
pub struct Session<T: Transport> {
    pub options: ConnectionOptions,
    pub track: Track<T>,
    /// The spectators a host serves.
    pub audience: Audience,
    pub failure: Option<SessionError>,
}

/// Why a session does not start: its options, its configuration, or a
/// machine that has run already.
pub open spec fn start_refusal(
    options: ConnectionOptions,
    cfg: Config,
    blocked: bool,
    emulated_cck: u64,
) -> Option<SessionError> {
    if options.refusal() is Some {
        Some(SessionError::Connection(ConnectionError::Settings(options.refusal()->0)))
    } else if cfg.refusal(blocked) is Some {
        Some(SessionError::Connection(ConnectionError::Config(cfg.refusal(blocked)->0)))
    } else if emulated_cck != 0 {
        Some(SessionError::Connection(ConnectionError::Config(ConfigError::AlreadyRunning)))
    } else {
        None
    }
}

/// The role these options give, where a session may start with them.
pub fn starting_role(
    options: &ConnectionOptions,
    cfg: &Config,
    blocked: bool,
    emulated_cck: u64,
) -> (r: Result<Role, SessionError>)
    ensures
        r is Ok <==> start_refusal(*options, *cfg, blocked, emulated_cck) is None,
        r matches Err(e) ==> start_refusal(*options, *cfg, blocked, emulated_cck) == Some(e),
        r matches Ok(role) ==> role == options.spec_role(),
{
    match options.validate() {
        Ok(_) => {},
        Err(e) => {
            return Err(SessionError::Connection(ConnectionError::Settings(e)));
        },
    }
    match validate_config(cfg, blocked) {
        Ok(_) => {},
        Err(e) => {
            return Err(SessionError::Connection(ConnectionError::Config(e)));
        },
    }
    if emulated_cck != 0 {
        return Err(
            SessionError::Connection(ConnectionError::Config(ConfigError::AlreadyRunning)),
        );
    }
    Ok(options.role())
}

impl<T: Transport> Session<T> {
    pub open spec fn wf(self) -> bool {
        &&& self.audience.wf()
        &&& match self.track {
            Track::Play(player) => player.wf(),
            Track::Watch(watcher) => watcher.wf(),
        }
    }

    pub fn new(options: ConnectionOptions, track: Track<T>, spectators: usize) -> (r: Self)
        requires
            match track {
                Track::Play(player) => player.wf(),
                Track::Watch(watcher) => watcher.wf(),
            },
        ensures
            r.wf(),
            r.options == options,
            r.track == track,
            r.audience.limit == spectators,
            r.audience.links@.len() == 0,
            r.failure is None,
    {
        Session { options, track, audience: Audience::new(spectators), failure: None }
    }

    pub fn options(&self) -> (r: &ConnectionOptions)
        ensures
            *r == self.options,
    {
        &self.options
    }

    pub open spec fn spec_role(self) -> Role {
        match self.track {
            Track::Play(player) => player.role,
            Track::Watch(_) => Role::Spectator,
        }
    }

    pub fn role(&self) -> (r: Role)
        ensures
            r == self.spec_role(),
    {
        match &self.track {
            Track::Play(player) => player.role,
            Track::Watch(_) => Role::Spectator,
        }
    }

    /// The controller port this participant owns; spectators own none.
    pub fn port(&self) -> (r: Option<usize>)
        ensures
            r == (match self.track {
                Track::Play(player) => Some(player.terms().player),
                Track::Watch(_) => None,
            }),
    {
        match &self.track {
            Track::Play(player) => match player.offered {
                Some(terms) => Some(terms.player),
                None => Some(player.connection.player()),
            },
            Track::Watch(_) => None,
        }
    }

    /// Controller ports the session drives.
    pub fn players(&self) -> (r: usize)
        ensures
            r == (match self.track {
                Track::Play(player) => player.terms().players,
                Track::Watch(watcher) => watcher.spec_players(),
            }),
    {
        match &self.track {
            Track::Play(player) => match player.offered {
                Some(terms) => terms.players,
                None => player.connection.players(),
            },
            Track::Watch(watcher) => watcher.players(),
        }
    }

    pub open spec fn spec_status(self) -> Status {
        match self.track {
            Track::Play(player) => player.connection.spec_status(),
            Track::Watch(watcher) => watcher.spec_status(),
        }
    }

    pub fn status(&self) -> (r: Status)
        requires
            self.wf(),
        ensures
            r == self.spec_status(),
    {
        match &self.track {
            Track::Play(player) => player.connection.status(),
            Track::Watch(watcher) => watcher.status(),
        }
    }

    /// Confirmed host frames a spectator has yet to execute.
    pub fn behind(&self) -> (r: u64)
        requires
            self.wf(),
        ensures
            r == self.spec_status().behind,
            self.track is Play ==> r == 0,
    {
        self.status().behind
    }

    /// A spectator running unpaced through its backlog.
    pub fn catching_up(&self) -> (r: bool)
        ensures
            r == (self.track matches Track::Watch(watcher) && watcher.catching_up),
    {
        match &self.track {
            Track::Play(_) => false,
            Track::Watch(watcher) => watcher.catching_up,
        }
    }

    pub fn set_catching_up(&mut self, catching_up: bool)
        requires
            old(self).wf(),
        ensures
            final(self).wf(),
            *final(self) == (match old(self).track {
                Track::Play(_) => *old(self),
                Track::Watch(watcher) => Session {
                    track: Track::Watch(Watcher { catching_up, ..watcher }),
                    ..*old(self)
                },
            }),
    {
        match &mut self.track {
            Track::Play(_) => {},
            Track::Watch(watcher) => {
                watcher.catching_up = catching_up;
            },
        }
    }

    /// Spectators the host is currently serving, in any setup phase.
    pub fn spectator_count(&self) -> (r: usize)
        ensures
            r == self.audience.links@.len(),
    {
        self.audience.count()
    }

    /// Guests the host has seated so far.
    pub fn guest_count(&self) -> (r: usize)
        ensures
            r == (match self.track {
                Track::Play(player) => player.guests@.len() as int,
                Track::Watch(_) => 0,
            }),
    {
        match &self.track {
            Track::Play(player) => player.guests.len(),
            Track::Watch(_) => 0,
        }
    }

    /// What there is to tell the user, once.
    pub fn take_progress(&mut self) -> (r: Option<Progress>)
        requires
            old(self).wf(),
        ensures
            final(self).wf(),
            match old(self).track {
                Track::Play(player) => r == player.progress && *final(self) == (Session {
                    track: Track::Play(Player { progress: None, ..player }),
                    ..*old(self)
                }),
                Track::Watch(watcher) => r == watcher.progress && *final(self) == (Session {
                    track: Track::Watch(Watcher { progress: None, ..watcher }),
                    ..*old(self)
                }),
            },
    {
        match &mut self.track {
            Track::Play(player) => player.progress.take(),
            Track::Watch(watcher) => watcher.progress.take(),
        }
    }

    /// Whether the machine stands at a boundary that can be captured.
    /// `sending` says whether any link has setup or media bytes in flight.
    pub open spec fn settled(self, sending: bool) -> bool {
        match self.track {
            Track::Play(player) => player.swap is None && !sending
                && player.connection.spec_status().settled(),
            Track::Watch(watcher) => watcher.settled(sending),
        }
    }

    pub fn ready_to_capture(&self, sending: bool) -> (r: bool)
        requires
            self.wf(),
        ensures
            r == self.settled(sending),
    {
        match &self.track {
            Track::Play(player) => player.ready_to_capture(sending),
            Track::Watch(watcher) => watcher.ready_to_capture(sending),
        }
    }

    /// The digest of a confirmed machine state.
    pub fn confirmed_state_digest<M: Machine>(&self, machine: &M, sending: bool) -> (r: Result<
        [u8; 32],
        SessionError,
    >)
        requires
            self.wf(),
        ensures
            match self.track {
                Track::Play(player) => {
                    &&& player.connection.failure is Some ==> r == Err::<[u8; 32], SessionError>(
                        SessionError::Connection(ConnectionError::Failed),
                    )
                    &&& player.connection.failure is None
                        && !player.connection.spec_status().settled() ==> r == Err::<
                        [u8; 32],
                        SessionError,
                    >(SessionError::Connection(ConnectionError::NotConfirmed))
                    &&& player.connection.failure is None
                        && player.connection.spec_status().settled() ==> match r {
                        Ok(hash) => hash@ == sha256(machine.snapshot()),
                        Err(e) => e matches SessionError::Connection(c) && unsaved(*machine, c),
                    }
                },
                Track::Watch(watcher) => if self.failure is Some {
                    r matches Err(SessionError::Failed)
                } else if !watcher.settled(sending) {
                    r matches Err(SessionError::NotSettled)
                } else {
                    match r {
                        Ok(hash) => hash@ == sha256(machine.snapshot()),
                        Err(e) => e matches SessionError::Connection(c) && unsaved(*machine, c),
                    }
                },
            },
    {
        match &self.track {
            Track::Play(player) => match player.connection.confirmed_state_digest(machine) {
                Ok(hash) => Ok(hash),
                Err(e) => Err(SessionError::Connection(e)),
            },
            Track::Watch(watcher) => {
                if self.failure.is_some() {
                    return Err(SessionError::Failed);
                }
                if !watcher.ready_to_capture(sending) {
                    return Err(SessionError::NotSettled);
                }
                match machine.save() {
                    Ok(state) => Ok(digest(state.as_slice())),
                    Err(e) => Err(SessionError::Connection(ConnectionError::Machine(e))),
                }
            },
        }
    }

    pub open spec fn idle(self, sending: bool) -> bool {
        self.track matches Track::Play(player) && player.idle(sending)
    }

    pub fn can_change_disk(&self, sending: bool) -> (r: bool)
        ensures
            r == self.idle(sending),
    {
        match &self.track {
            Track::Play(player) => player.can_change_disk(sending),
            Track::Watch(_) => false,
        }
    }

    /// Queue one host-controlled insertion or eject.
    pub fn change_disk(
        &mut self,
        drive: usize,
        bytes: Vec<u8>,
        writable: bool,
        connected: bool,
        decodable: bool,
        sending: bool,
        now: u64,
        out: &mut Vec<Action>,
    ) -> (r: Result<(), SessionError>)
        requires
            old(self).wf(),
        ensures
            final(self).wf(),
            match old(self).track {
                Track::Play(player) => {
                    &&& *final(self) == (Session { track: final(self).track, ..*old(self) })
                    &&& final(self).track matches Track::Play(after) && player.asked_to_change(
                        drive,
                        bytes,
                        writable,
                        connected,
                        decodable,
                        sending,
                        now,
                        after,
                        old(out)@,
                        final(out)@,
                        r,
                    )
                },
                Track::Watch(_) => {
                    &&& r == Err::<(), SessionError>(SessionError::NotIdle)
                    &&& *final(self) == *old(self)
                    &&& final(out)@ == old(out)@
                },
            },
    {
        match &mut self.track {
            Track::Play(player) => player.change_disk(
                drive,
                bytes,
                writable,
                connected,
                decodable,
                sending,
                now,
                out,
            ),
            Track::Watch(_) => Err(SessionError::NotIdle),
        }
    }

    /// What a step does: nothing once the session has failed, and otherwise a
    /// player's step or a spectator's turn, whose failure is the session's.
    pub open spec fn steps_to<M: Machine>(
        self,
        machine: M,
        input: LocalInput,
        advance: bool,
        received: u64,
        can_send: bool,
        now: u64,
        after: Self,
        machine_after: M,
        input_after: LocalInput,
        begun: Seq<Action>,
        done: Seq<Action>,
        r: Result<Stepped, SessionError>,
    ) -> bool {
        &&& r is Err ==> done == begun
        &&& self.failure matches Some(e) ==> {
            &&& r matches Err(again) && again.same(e)
            &&& after == self
            &&& machine_after == machine
            &&& input_after == input
        }
        &&& match r {
            Ok(_) => after.failure is None,
            Err(e) => after.failure matches Some(kept) && kept.same(e),
        }
        &&& self.failure is None ==> {
            &&& after == Session { track: after.track, failure: after.failure, ..self }
            &&& match self.track {
                Track::Play(player) => after.track matches Track::Play(stepped)
                    && player.steps_to::<M>(
                    machine,
                    input,
                    advance,
                    received,
                    now,
                    stepped,
                    machine_after,
                    input_after,
                    begun,
                    done,
                    played(r),
                ),
                Track::Watch(watcher) => {
                    &&& machine_after == machine
                    &&& input_after == input
                    &&& done == begun
                    &&& after.track matches Track::Watch(turned) && watcher.turns_to(
                        received,
                        can_send,
                        now,
                        turned,
                        watched(r),
                    )
                },
            }
        }
        &&& r matches Ok(stepped) ==> (stepped is Played <==> self.track is Play)
    }

    /// The same with an input that is held for this step alone.
    pub fn step<M: Machine>(
        &mut self,
        machine: &mut M,
        input: Input,
        advance: bool,
        received: u64,
        can_send: bool,
        now: u64,
        out: &mut Vec<Action>,
    ) -> (r: Result<Stepped, SessionError>)
        requires
            old(self).wf(),
            old(self).spec_status().frame < FRAME_LIMIT,
        ensures
            final(self).wf(),
            exists|rest: LocalInput| #[trigger]
                old(self).steps_to::<M>(
                    *old(machine),
                    pending(input),
                    advance,
                    received,
                    can_send,
                    now,
                    *final(self),
                    *final(machine),
                    rest,
                    old(out)@,
                    final(out)@,
                    r,
                ),
    {
        let mut local = LocalInput::from(input);
        self.step_local(machine, &mut local, advance, received, can_send, now, out)
    }

    /// How the session reaches the others. `own` is the route of a link that
    /// is not a player's: a host's listener, or a spectator's link to its
    /// host.
    pub fn route(&self, own: Option<&'static str>) -> (r: &'static str)
        requires
            self.track is Watch ==> own is Some,
        ensures
            match own {
                Some(name) => r == name,
                None => match self.track {
                    Track::Play(player) => if player.connection.links@.len() == 0 {
                        r@ == "connecting"@
                    } else {
                        call_ensures(T::route, (&player.connection.links@[0].transport,), r)
                    },
                    Track::Watch(_) => false,
                },
            },
    {
        match own {
            Some(name) => name,
            None => match &self.track {
                Track::Play(player) => player.connection.route(),
                Track::Watch(_) => "",
            },
        }
    }

    /// One step, once the messages are read. A session that failed once
    /// stays failed, with the same error.
    pub fn step_local<M: Machine>(
        &mut self,
        machine: &mut M,
        input: &mut LocalInput,
        advance: bool,
        received: u64,
        can_send: bool,
        now: u64,
        out: &mut Vec<Action>,
    ) -> (r: Result<Stepped, SessionError>)
        requires
            old(self).wf(),
            old(self).spec_status().frame < FRAME_LIMIT,
        ensures
            final(self).wf(),
            old(self).steps_to::<M>(
                *old(machine),
                *old(input),
                advance,
                received,
                can_send,
                now,
                *final(self),
                *final(machine),
                *final(input),
                old(out)@,
                final(out)@,
                r,
            ),
    {
        if let Some(e) = &self.failure {
            return Err(e.copied());
        }
        let result: Result<Stepped, SessionError> = match &mut self.track {
            Track::Play(player) => match player.step(machine, input, advance, received, now, out) {
                Ok(stepped) => Ok(Stepped::Played(stepped)),
                Err(e) => Err(e),
            },
            Track::Watch(watcher) => match watcher.turn(received, can_send, now) {
                Ok(turn) => Ok(Stepped::Watched(turn)),
                Err(e) => Err(e),
            },
        };
        match result {
            Ok(stepped) => Ok(stepped),
            Err(e) => {
                self.failure = Some(e.copied());
                Err(e)
            },
        }
    }
}

} // verus!
