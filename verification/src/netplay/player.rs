//! A player's session: setup, seating and disk changes around the shared
//! rollback timeline.
use vstd::prelude::*;
use crate::bytes::{copy_range, same_bytes};
use crate::netplay::config::{ColdMachine, Config};
use crate::netplay::connection::{unsaved, Connection, ConnectionError, Link};
use crate::netplay::digest::{digest, sha256};
use crate::netplay::feed::SwapRecord;
use crate::netplay::input::{LocalInput, MAX_PLAYERS};
use crate::netplay::machine::Machine;
use crate::netplay::message::{
    framed, kind_of, payload, Action, Message, Progress, SessionError, KIND_BUNDLE, KIND_DISK,
    KIND_JSON, MAX_JSON, PROGRESS_INTERVAL, SETUP_TIMEOUT,
};
use crate::netplay::rollback::FRAME_LIMIT;
use crate::netplay::settings::{Role, Settings};
use crate::netplay::swap::{
    all_agree, all_prepared, all_reported, furthest, ports_ok, Swap, SwapMessage, SwapPhase, DRIVES,
    MAX_FRAME_GAP, SWAP_TIMEOUT,
};
use crate::netplay::transport::Transport;
use crate::text::{chars_of, same_chars, text_of};

verus! {

/// Where a player's session stands.
#[derive(Clone, Copy, Debug, PartialEq, Eq, Structural)]
pub enum Phase {
    /// The host is waiting for its guests to finish setup.
    HostSetup,
    GuestOffer,
    GuestBundle,
    GuestStart,
    Running,
}

/// Where one guest is in the host's setup.
#[derive(Clone, Copy, Debug, PartialEq, Eq, Structural)]
pub enum GuestPhase {
    AwaitVerified,
    Running,
}

/// A guest that has a port.
#[derive(Clone, Copy, Debug, PartialEq, Eq, Structural)]
pub struct GuestState {
    pub player: usize,
    pub phase: GuestPhase,
}

/// A connection the host has accepted but not yet seated: it has no port
/// until its greeting says which one it wants.
#[derive(Clone, Copy, Debug, PartialEq, Eq, Structural)]
pub struct PendingGuest {
    pub started: u64,
}

/// A player of a session, from setup to play, with the disk change under way.
pub struct Player<T: Transport> {
    pub role: Role,
    pub connection: Connection<T>,
    /// The terms a guest was offered and has not adopted yet.
    pub offered: Option<Settings>,
    pub phase: Phase,
    /// The host's guests, in the order they were seated.
    pub guests: Vec<GuestState>,
    /// Connections the host has accepted but not yet seated.
    pub pending: Vec<PendingGuest>,
    pub started: u64,
    pub progress: Option<Progress>,
    pub last_progress: u64,
    pub swap: Option<Swap>,
    pub swap_id: u64,
    /// The drive is taking the replacement disk.
    pub changing: bool,
    /// Bytes a floppy image may have.
    pub floppy_limit: usize,
}

/// The ports of a list of guests.
pub open spec fn seats(guests: Seq<GuestState>) -> Seq<usize> {
    guests.map_values(|g: GuestState| g.player)
}

/// A swap message for each of these links.
pub open spec fn to_links<T: Transport>(
    links: Seq<Link<T>>,
    id: u64,
    event: SwapMessage,
) -> Seq<Action> {
    Seq::new(
        links.len(),
        |i: int| Action::Send { to: links[i].player, message: Message::Swap { id, event } },
    )
}

impl<T: Transport> Player<T> {
    /// The seats of a host are its links, in order; a guest has the one link
    /// to its host.
    pub open spec fn seats_ok(self) -> bool {
        if self.role == Role::Host {
            &&& self.guests@.len() == self.connection.links@.len()
            &&& forall|i: int|
                #![trigger self.guests@[i]]
                0 <= i < self.guests@.len() ==> self.guests@[i].player
                    == self.connection.links@[i].player
        } else {
            &&& self.guests@.len() == 0
            &&& self.pending@.len() == 0
            &&& self.connection.links@.len() == 1
            &&& self.connection.links@[0].player == 0
            &&& self.connection.feed is None
        }
    }

    /// The phases of a disk change belong to one side.
    pub open spec fn swap_ok(self) -> bool {
        self.swap matches Some(swap) ==> {
            &&& self.phase == Phase::Running
            &&& swap.drive < DRIVES
            &&& self.role == Role::Host ==> swap.bytes is Some
            &&& (self.role == Role::Host) == (swap.phase == SwapPhase::HostHeld || swap.phase
                == SwapPhase::HostReady || swap.phase == SwapPhase::HostPrepared || swap.phase
                == SwapPhase::HostApplied)
        }
    }

    pub open spec fn wf(self) -> bool {
        &&& self.connection.wf()
        &&& self.role != Role::Spectator
        &&& (self.role == Role::Host) == (self.connection.settings.player == 0)
        &&& self.phase == Phase::HostSetup || self.phase == Phase::Running || self.role
            == Role::Guest
        &&& self.phase == Phase::HostSetup ==> self.role == Role::Host
        &&& self.seats_ok()
        &&& self.phase != Phase::Running ==> self.connection.rollback.current == 0
            && !self.connection.connected && self.connection.failure is None
        &&& self.offered matches Some(terms) ==> terms.valid() && terms.player != 0
            && terms.session == self.connection.settings.session
        &&& self.offered is Some <==> self.phase == Phase::GuestBundle
        &&& self.swap_ok()
        &&& self.changing ==> (self.swap matches Some(swap) && (swap.phase
            == SwapPhase::HostPrepared || swap.phase == SwapPhase::GuestApply))
    }

    /// The ports of the guests the host coordinates a change with.
    fn guest_players(&self) -> (r: Vec<usize>)
        ensures
            r@ == seats(self.guests@),
    {
        let mut r: Vec<usize> = Vec::new();
        let mut i: usize = 0;
        while i < self.guests.len()
            invariant
                i <= self.guests@.len(),
                r@ =~= seats(self.guests@.take(i as int)),
            decreases self.guests@.len() - i,
        {
            r.push(self.guests[i].player);
            i += 1;
        }
        assert(self.guests@.take(i as int) =~= self.guests@);
        r
    }

    proof fn lemma_seats_are_ports(self)
        requires
            self.wf(),
        ensures
            ports_ok(seats(self.guests@)),
    {
        assert forall|i: int| 0 <= i < self.guests@.len() implies #[trigger] seats(
            self.guests@,
        )[i] < MAX_PLAYERS by {
            if self.role == Role::Host {
                assert(self.connection.links@[i].player < self.connection.settings.players);
                assert(self.guests@[i].player == self.connection.links@[i].player);
            }
        }
    }

    /// Tell every linked player about the disk change.
    fn swap_send(&self, event: SwapMessage, out: &mut Vec<Action>)
        ensures
            final(out)@ == old(out)@ + to_links(self.connection.links@, self.swap_id, event),
    {
        let ghost before = out@;
        let mut i: usize = 0;
        while i < self.connection.links.len()
            invariant
                i <= self.connection.links@.len(),
                out@ =~= before + to_links(self.connection.links@, self.swap_id, event).take(
                    i as int,
                ),
            decreases self.connection.links@.len() - i,
        {
            out.push(
                Action::Send {
                    to: self.connection.links[i].player,
                    message: Message::Swap { id: self.swap_id, event },
                },
            );
            i += 1;
        }
        assert(to_links(self.connection.links@, self.swap_id, event).take(i as int) =~= to_links(
            self.connection.links@,
            self.swap_id,
            event,
        ));
    }
}

impl<T: Transport> Player<T> {
    /// What a session needs to take a disk change.
    pub open spec fn takes_swaps(self) -> bool {
        &&& self.role == Role::Guest
        &&& self.connection.connected
        &&& self.phase == Phase::Running
        &&& self.swap is None
    }

    /// A description the guest's machine can follow.
    pub open spec fn describes_swap(
        self,
        drive: usize,
        size: usize,
        writable: bool,
        drives: Seq<bool>,
    ) -> bool {
        &&& drive < DRIVES
        &&& drives[drive as int]
        &&& size <= self.floppy_limit
        &&& size > 0 || !writable
    }

    /// A guest stops for a disk change that its host announces.
    fn begin_swap(
        &mut self,
        id: u64,
        drive: usize,
        size: usize,
        hash: [u8; 32],
        writable: bool,
        drives: &[bool; DRIVES],
        now: u64,
        out: &mut Vec<Action>,
    ) -> (r: Result<(), SessionError>)
        requires
            old(self).wf(),
            old(self).phase == Phase::Running,
        ensures
            final(self).wf(),
            !(old(self).takes_swaps() && old(self).swap_id + 1 == id) ==> r == Err::<
                (),
                SessionError,
            >(SessionError::UnexpectedSwap),
            old(self).takes_swaps() && old(self).swap_id + 1 == id && !old(self).describes_swap(
                drive,
                size,
                writable,
                drives@,
            ) ==> r == Err::<(), SessionError>(SessionError::InvalidSwap),
            r is Err ==> *final(self) == *old(self) && final(out)@ == old(out)@,
            r is Ok ==> {
                let frame = old(self).connection.rollback.current;
                &&& (final(self).swap matches Some(swap) && swap.fresh(
                    SwapPhase::GuestTarget,
                    frame,
                    drive,
                    writable,
                    size,
                    hash,
                    now,
                ))
                &&& *final(self) == (Player {
                    swap: final(self).swap,
                    swap_id: id,
                    progress: Some(Progress::HostChanging { drive }),
                    ..*old(self)
                })
                &&& final(out)@ == old(out)@ + to_links(
                    old(self).connection.links@,
                    id,
                    SwapMessage::Held { frame },
                )
            },
            old(self).takes_swaps() && old(self).swap_id + 1 == id && old(self).describes_swap(
                drive,
                size,
                writable,
                drives@,
            ) ==> r is Ok,
    {
        let status = self.connection.status();
        if !matches!(self.role, Role::Guest) || !status.connected || self.swap.is_some()
            || self.swap_id == u64::MAX || self.swap_id + 1 != id {
            return Err(SessionError::UnexpectedSwap);
        }
        if drive >= DRIVES || !drives[drive] || size > self.floppy_limit || (size == 0
            && writable) {
            return Err(SessionError::InvalidSwap);
        }
        self.swap_id = id;
        let frame: u64 = status.frame;
        self.swap = Some(
            Swap::new(SwapPhase::GuestTarget, frame, drive, writable, size, hash, now),
        );
        self.progress = Some(Progress::HostChanging { drive });
        self.swap_send(SwapMessage::Held { frame }, out);
        Ok(())
    }

    /// Whether the drive may take the replacement now: every player stands at
    /// the frame they stopped at, and the image is known to be whole.
    pub open spec fn disk_refusal(self) -> Option<SessionError> {
        match self.swap {
            None => Some(SessionError::NoSwap),
            Some(swap) => if !(self.connection.spec_status().settled()
                && self.connection.rollback.current == swap.stop) {
                Some(SessionError::NotAtBoundary)
            } else if swap.bytes is None {
                Some(SessionError::DiskNotVerified)
            } else {
                None
            },
        }
    }

    /// The order to put the replacement into its drive.
    pub open spec fn changes_floppy(self, action: Action) -> bool {
        &&& self.swap matches Some(swap) && swap.bytes matches Some(image)
            && action matches Action::ChangeFloppy { drive, bytes, writable } && drive
            == swap.drive && bytes@ == image@ && writable == swap.writable
    }

    fn apply_disk(&mut self, out: &mut Vec<Action>) -> (r: Result<(), SessionError>)
        requires
            old(self).wf(),
            old(self).swap matches Some(swap) && (swap.phase == SwapPhase::HostPrepared
                || swap.phase == SwapPhase::GuestApply),
        ensures
            final(self).wf(),
            r is Ok <==> old(self).disk_refusal() is None,
            r matches Err(e) ==> old(self).disk_refusal() == Some(e) && *final(self) == *old(
                self,
            ) && final(out)@ == old(out)@,
            r is Ok ==> {
                &&& *final(self) == (Player { changing: true, ..*old(self) })
                &&& final(out)@.len() == old(out)@.len() + 1
                &&& final(out)@.drop_last() == old(out)@
                &&& old(self).changes_floppy(final(out)@.last())
            },
    {
        let status = self.connection.status();
        match &self.swap {
            None => {
                return Err(SessionError::NoSwap);
            },
            Some(swap) => {
                if !status.ready_to_capture() || status.frame != swap.stop {
                    return Err(SessionError::NotAtBoundary);
                }
                match &swap.bytes {
                    None => {
                        return Err(SessionError::DiskNotVerified);
                    },
                    Some(image) => {
                        let bytes = copy_range(image.as_slice(), 0, image.len());
                        assert(bytes@ =~= image@);
                        let ghost before = out@;
                        out.push(
                            Action::ChangeFloppy {
                                drive: swap.drive,
                                bytes,
                                writable: swap.writable,
                            },
                        );
                        assert(out@.drop_last() =~= before);
                    },
                }
            },
        }
        self.changing = true;
        Ok(())
    }

    /// The change is over on this side.
    pub open spec fn finishes_to(self, after: Self) -> bool {
        &&& self.swap matches Some(swap) && after == (Player {
            swap: None,
            progress: Some(
                Progress::Changed { drive: swap.drive, ejected: swap.size == 0 },
            ),
            ..self
        })
    }

    fn finish_swap(&mut self)
        requires
            old(self).wf(),
            old(self).swap is Some,
            !old(self).changing,
        ensures
            final(self).wf(),
            old(self).finishes_to(*final(self)),
    {
        if let Some(swap) = self.swap.take() {
            self.progress = Some(
                Progress::Changed { drive: swap.drive, ejected: swap.size == 0 },
            );
        }
    }
}

/// A record says what a disk change did.
pub open spec fn describes(swap: Swap, own: Seq<u8>, record: SwapRecord) -> bool {
    &&& record.frame == swap.stop
    &&& record.drive == swap.drive
    &&& record.writable == swap.writable
    &&& swap.own_digest == Some(record.before)
    &&& record.after@ == own
    &&& swap.bytes matches Some(image) && record.bytes@ == image@
}

impl<T: Transport> Player<T> {
    /// Why a change that every guest has applied cannot be closed, given the
    /// guests' digests and the host's own.
    pub open spec fn settle_refusal(
        self,
        applied: Seq<Option<[u8; 32]>>,
        own: Seq<u8>,
    ) -> Option<SessionError> {
        match self.swap {
            None => Some(SessionError::NoSwap),
            Some(swap) => if !all_agree(applied, own) {
                Some(SessionError::DifferAfter)
            } else if swap.own_digest is None {
                Some(SessionError::DigestMissing)
            } else if swap.bytes is None {
                Some(SessionError::DiskNotRetained)
            } else if self.connection.feed matches Some(feed) && !(feed.limit
                < self.connection.rollback.confirmed || feed.overrun || swap.stop
                <= self.connection.rollback.confirmed) {
                Some(
                    SessionError::Connection(
                        ConnectionError::Feed(crate::netplay::feed::FeedError::NotReached),
                    ),
                )
            } else {
                None
            },
        }
    }

    /// Every player agrees on the change: spectators replay it at this frame
    /// with the same digests on either side, and the game goes on.
    pub fn settle_swap(&mut self, own: [u8; 32], out: &mut Vec<Action>) -> (r: Result<
        (),
        SessionError,
    >)
        requires
            old(self).wf(),
            old(self).connection.failure is None,
            !old(self).changing,
            old(self).role == Role::Host,
        ensures
            final(self).wf(),
            r is Ok <==> old(self).settle_refusal(old(self).swap->0.applied@, own@) is None,
            r matches Err(e) ==> old(self).settle_refusal(old(self).swap->0.applied@, own@) == Some(
                e,
            ) && final(out)@ == old(out)@ && *final(self) == (Player {
                connection: final(self).connection,
                ..*old(self)
            }) && if e is Connection {
                old(self).connection.drains_to(final(self).connection)
            } else {
                final(self).connection == old(self).connection
            },
            r is Ok ==> {
                let swap = old(self).swap->0;
                &&& final(out)@ == old(out)@ + to_links(
                    old(self).connection.links@,
                    old(self).swap_id,
                    SwapMessage::Resume,
                )
                &&& *final(self) == (Player {
                    connection: final(self).connection,
                    swap: None,
                    progress: Some(
                        Progress::Changed { drive: swap.drive, ejected: swap.size == 0 },
                    ),
                    ..*old(self)
                })
                &&& exists|record: SwapRecord| #[trigger]
                    old(self).connection.records_swap(record, final(self).connection)
                        && describes(swap, own@, record)
            },
    {
        let record = match &self.swap {
            None => {
                return Err(SessionError::NoSwap);
            },
            Some(swap) => {
                if !swap.agreed_after(&own) {
                    return Err(SessionError::DifferAfter);
                }
                let before = match swap.own_digest {
                    Some(before) => before,
                    None => {
                        return Err(SessionError::DigestMissing);
                    },
                };
                match &swap.bytes {
                    None => {
                        return Err(SessionError::DiskNotRetained);
                    },
                    Some(image) => {
                        let bytes = copy_range(image.as_slice(), 0, image.len());
                        assert(bytes@ =~= image@);
                        SwapRecord {
                            frame: swap.stop,
                            drive: swap.drive,
                            writable: swap.writable,
                            before,
                            after: own,
                            bytes,
                        }
                    },
                }
            },
        };
        let ghost noted = record;
        let ghost stood = self.connection;
        match self.connection.feed_swap(record) {
            Ok(_) => {
                assert(stood.records_swap(noted, self.connection));
            },
            Err(e) => {
                return Err(SessionError::Connection(e));
            },
        }
        self.swap_send(SwapMessage::Resume, out);
        self.finish_swap();
        Ok(())
    }
}

impl<T: Transport> Player<T> {
    /// Nothing but the disk change itself has moved on.
    pub open spec fn only_swap(self, before: Self) -> bool {
        self == Player { swap: self.swap, ..before }
    }

    /// What a report about the disk change in progress does, where it does
    /// not ask for a digest of this machine.
    pub open spec fn swap_answers(
        self,
        from: usize,
        event: SwapMessage,
        after: Self,
        sent: Seq<Action>,
        r: Result<(), SessionError>,
    ) -> bool {
        let frame = self.connection.rollback.current;
        let guests = seats(self.guests@);
        let links = self.connection.links@;
        let swap = self.swap->0;
        match (event, swap.phase) {
            (SwapMessage::Held { frame: peer }, SwapPhase::HostHeld) => if !Swap::near(
                peer,
                frame,
            ) {
                r == Err::<(), SessionError>(SessionError::PeerFrame) && after == self
            } else {
                &&& r is Ok
                &&& after.only_swap(self)
                &&& after.swap matches Some(now) && now.held@ == swap.held@.update(
                    from as int,
                    Some(peer),
                ) && if all_reported(now.held@, guests) {
                    let target = furthest(now.held@, frame, MAX_PLAYERS as int);
                    &&& now == Swap {
                        held: now.held,
                        stop: target,
                        phase: SwapPhase::HostReady,
                        ..swap
                    }
                    &&& sent == to_links(
                        links,
                        self.swap_id,
                        SwapMessage::Target { frame: target },
                    )
                } else {
                    &&& now == Swap { held: now.held, ..swap }
                    &&& sent == Seq::<Action>::empty()
                }
            },
            (SwapMessage::Target { frame: target }, SwapPhase::GuestTarget) => if frame <= target
                <= frame + MAX_FRAME_GAP {
                &&& r is Ok
                &&& after == Player {
                    swap: Some(Swap { stop: target, phase: SwapPhase::GuestReady, ..swap }),
                    ..self
                }
                &&& sent == Seq::<Action>::empty()
            } else {
                r == Err::<(), SessionError>(SessionError::SwapTarget) && after == self
            },
            (SwapMessage::Ready { hash }, SwapPhase::HostReady) => {
                &&& r is Ok
                &&& after.only_swap(self)
                &&& sent == Seq::<Action>::empty()
                &&& after.swap matches Some(now) && now.ready@ == swap.ready@.update(
                    from as int,
                    Some(hash),
                ) && now == (Swap { ready: now.ready, ..swap })
            },
            (SwapMessage::Prepared, SwapPhase::HostPrepared) => {
                let marks = swap.prepared@.update(from as int, true);
                if !all_prepared(marks, guests) {
                    &&& r is Ok
                    &&& after.only_swap(self)
                    &&& sent == Seq::<Action>::empty()
                    &&& after.swap matches Some(now) && now.prepared@ == marks && now == (Swap {
                        prepared: now.prepared,
                        ..swap
                    })
                } else if self.disk_refusal() is Some {
                    &&& r == Err::<(), SessionError>(self.disk_refusal()->0)
                    &&& after.only_swap(self)
                    &&& after.swap matches Some(now) && now.prepared@ == marks && now == (Swap {
                        prepared: now.prepared,
                        ..swap
                    })
                } else {
                    &&& r is Ok
                    &&& after == Player { swap: after.swap, changing: true, ..self }
                    &&& sent.len() == 1 && self.changes_floppy(sent[0])
                    &&& after.swap matches Some(now) && now.prepared@ == marks && now == (Swap {
                        prepared: now.prepared,
                        ..swap
                    })
                }
            },
            (SwapMessage::Apply, SwapPhase::GuestApply) => if self.disk_refusal() is Some {
                r == Err::<(), SessionError>(self.disk_refusal()->0) && after == self
            } else {
                &&& r is Ok
                &&& after == Player { changing: true, ..self }
                &&& sent.len() == 1 && self.changes_floppy(sent[0])
            },
            (SwapMessage::Applied { hash }, SwapPhase::HostApplied) => !all_reported(
                swap.applied@.update(from as int, Some(hash)),
                guests,
            ) ==> {
                &&& r is Ok
                &&& after.only_swap(self)
                &&& sent == Seq::<Action>::empty()
                &&& after.swap matches Some(now) && now.applied@ == swap.applied@.update(
                    from as int,
                    Some(hash),
                ) && now == (Swap { applied: now.applied, ..swap })
            },
            (SwapMessage::Resume, SwapPhase::GuestResume) => {
                &&& r is Ok
                &&& self.finishes_to(after)
                &&& sent == Seq::<Action>::empty()
            },
            _ => r == Err::<(), SessionError>(SessionError::SwapPhase) && after == self,
        }
    }

    /// What the guests report of the changed machine is noted, and nothing
    /// else changes.
    pub open spec fn notes(self, applied: Seq<Option<[u8; 32]>>, after: Self) -> bool {
        &&& after.only_swap(self)
        &&& after.swap matches Some(now) && now.applied@ == applied && now == (Swap {
            applied: now.applied,
            ..self.swap->0
        })
    }

    /// What the last guest's report on a change does: the digests of all
    /// players are compared, and only where they agree does the game go on.
    pub open spec fn swap_closes<M: Machine>(
        self,
        machine: M,
        from: usize,
        hash: [u8; 32],
        after: Self,
        sent: Seq<Action>,
        r: Result<(), SessionError>,
    ) -> bool {
        let swap = self.swap->0;
        let applied = swap.applied@.update(from as int, Some(hash));
        let own = sha256(machine.snapshot());
        if self.connection.failure is Some {
            &&& r == Err::<(), SessionError>(SessionError::Connection(ConnectionError::Failed))
            &&& self.notes(applied, after)
        } else if !self.connection.spec_status().settled() {
            &&& r == Err::<(), SessionError>(
                SessionError::Connection(ConnectionError::NotConfirmed),
            )
            &&& self.notes(applied, after)
        } else {
            match r {
                Err(e) => {
                    &&& (e matches SessionError::Connection(m) && unsaved(machine, m))
                        || self.settle_refusal(applied, own) == Some(e)
                    &&& self.notes(
                        applied,
                        Player { connection: self.connection, ..after },
                    )
                    &&& if e is Connection && !(e->Connection_0 is Machine) {
                        self.connection.drains_to(after.connection)
                    } else {
                        after.connection == self.connection
                    }
                },
                Ok(_) => {
                    &&& self.settle_refusal(applied, own) is None
                    &&& after == Player {
                        connection: after.connection,
                        swap: None,
                        progress: Some(
                            Progress::Changed { drive: swap.drive, ejected: swap.size == 0 },
                        ),
                        ..self
                    }
                    &&& exists|record: SwapRecord| #[trigger]
                        self.connection.records_swap(record, after.connection) && describes(
                            swap,
                            own,
                            record,
                        )
                    &&& sent == to_links(
                        self.connection.links@,
                        self.swap_id,
                        SwapMessage::Resume,
                    )
                },
            }
        }
    }

    /// What a player's message about a disk change does.
    pub open spec fn swap_handled<M: Machine>(
        self,
        machine: M,
        from: usize,
        id: u64,
        event: SwapMessage,
        drives: Seq<bool>,
        now: u64,
        after: Self,
        begun: Seq<Action>,
        done: Seq<Action>,
        r: Result<(), SessionError>,
    ) -> bool {
        match event {
            SwapMessage::Begin { drive, size, hash, writable } => if !(self.takes_swaps()
                && self.swap_id + 1 == id) {
                r == Err::<(), SessionError>(SessionError::UnexpectedSwap) && after == self
            } else if !self.describes_swap(drive, size, writable, drives) {
                r == Err::<(), SessionError>(SessionError::InvalidSwap) && after == self
            } else {
                let frame = self.connection.rollback.current;
                &&& r is Ok
                &&& after == Player {
                    swap: after.swap,
                    swap_id: id,
                    progress: Some(Progress::HostChanging { drive }),
                    ..self
                }
                &&& done == begun + to_links(
                    self.connection.links@,
                    id,
                    SwapMessage::Held { frame },
                )
                &&& after.swap matches Some(swap) && swap.fresh(
                    SwapPhase::GuestTarget,
                    frame,
                    drive,
                    writable,
                    size,
                    hash,
                    now,
                )
            },
            _ => if id != self.swap_id {
                r == Err::<(), SessionError>(SessionError::SwapIdentifier) && after == self
            } else if self.swap is None {
                r == Err::<(), SessionError>(SessionError::NoSwap) && after == self
            } else if self.changing {
                r == Err::<(), SessionError>(SessionError::SwapPhase) && after == self
            } else {
                &&& exists|sent: Seq<Action>|
                    done == begun + sent && #[trigger] self.swap_answers(
                        from,
                        event,
                        after,
                        sent,
                        r,
                    )
                &&& (event matches SwapMessage::Applied { hash } && self.swap->0.phase
                    == SwapPhase::HostApplied && all_reported(
                    self.swap->0.applied@.update(from as int, Some(hash)),
                    seats(self.guests@),
                )) ==> exists|sent: Seq<Action>|
                    done == begun + sent && #[trigger] self.swap_closes::<M>(
                        machine,
                        from,
                        event->Applied_hash,
                        after,
                        sent,
                        r,
                    )
            },
        }
    }

    /// A player's message about a disk change.
    pub fn swap_message<M: Machine>(
        &mut self,
        machine: &M,
        from: usize,
        id: u64,
        event: SwapMessage,
        drives: &[bool; DRIVES],
        now: u64,
        out: &mut Vec<Action>,
    ) -> (r: Result<(), SessionError>)
        requires
            old(self).wf(),
            old(self).phase == Phase::Running,
            from < MAX_PLAYERS,
        ensures
            final(self).wf(),
            r is Err ==> final(out)@ == old(out)@,
            old(self).swap_handled::<M>(
                *machine,
                from,
                id,
                event,
                drives@,
                now,
                *final(self),
                old(out)@,
                final(out)@,
                r,
            ),
    {
        let ghost before = *self;
        let ghost begun = out@;
        let ghost none = Seq::<Action>::empty();
        assert(out@ =~= begun + none);
        if let SwapMessage::Begin { drive, size, hash, writable } = event {
            return self.begin_swap(id, drive, size, hash, writable, drives, now, out);
        }
        if id != self.swap_id {
            return Err(SessionError::SwapIdentifier);
        }
        if self.swap.is_none() {
            return Err(SessionError::NoSwap);
        }
        if self.changing {
            return Err(SessionError::SwapPhase);
        }
        let frame: u64 = self.connection.status().frame;
        let guests = self.guest_players();
        proof {
            self.lemma_seats_are_ports();
        }
        let phase = match &self.swap {
            Some(swap) => swap.phase,
            None => {
                return Err(SessionError::NoSwap);
            },
        };
        match event {
            SwapMessage::Held { frame: peer } => {
                if !matches!(phase, SwapPhase::HostHeld) {
                    assert(before.swap_answers(from, event, *self, none, Err(SessionError::SwapPhase)));
                    return Err(SessionError::SwapPhase);
                }
                let gap: u64 = if peer >= frame {
                    peer - frame
                } else {
                    frame - peer
                };
                if gap > MAX_FRAME_GAP {
                    assert(before.swap_answers(from, event, *self, none, Err(SessionError::PeerFrame)));
                    return Err(SessionError::PeerFrame);
                }
                let mut target: Option<u64> = None;
                if let Some(swap) = &mut self.swap {
                    target = swap.hold(from, peer, frame, guests.as_slice());
                }
                match target {
                    Some(target) => {
                        self.swap_send(SwapMessage::Target { frame: target }, out);
                        let ghost sent = to_links(
                            before.connection.links@,
                            before.swap_id,
                            SwapMessage::Target { frame: target },
                        );
                        assert(before.swap_answers(from, event, *self, sent, Ok(())));
                    },
                    None => {
                        assert(before.swap_answers(from, event, *self, none, Ok(())));
                    },
                }
            },
            SwapMessage::Target { frame: target } => {
                if !matches!(phase, SwapPhase::GuestTarget) {
                    assert(before.swap_answers(from, event, *self, none, Err(SessionError::SwapPhase)));
                    return Err(SessionError::SwapPhase);
                }
                if target < frame || target - frame > MAX_FRAME_GAP {
                    assert(before.swap_answers(from, event, *self, none, Err(SessionError::SwapTarget)));
                    return Err(SessionError::SwapTarget);
                }
                if let Some(swap) = &mut self.swap {
                    swap.stop = target;
                    swap.phase = SwapPhase::GuestReady;
                }
                assert(before.swap_answers(from, event, *self, none, Ok(())));
            },
            SwapMessage::Ready { hash } => {
                if !matches!(phase, SwapPhase::HostReady) {
                    assert(before.swap_answers(from, event, *self, none, Err(SessionError::SwapPhase)));
                    return Err(SessionError::SwapPhase);
                }
                if let Some(swap) = &mut self.swap {
                    swap.report_ready(from, hash);
                }
                assert(before.swap_answers(from, event, *self, none, Ok(())));
            },
            SwapMessage::Prepared => {
                if !matches!(phase, SwapPhase::HostPrepared) {
                    assert(before.swap_answers(from, event, *self, none, Err(SessionError::SwapPhase)));
                    return Err(SessionError::SwapPhase);
                }
                let mut all = false;
                if let Some(swap) = &mut self.swap {
                    all = swap.report_prepared(from, guests.as_slice());
                }
                if all {
                    assert(self.disk_refusal() == before.disk_refusal());
                    let ghost marked = *self;
                    match self.apply_disk(out) {
                        Ok(_) => {
                            let ghost sent = seq![out@.last()];
                            assert(out@ =~= begun + sent);
                            assert(before.changes_floppy(sent[0]));
                            assert(before.swap_answers(from, event, *self, sent, Ok(())));
                        },
                        Err(e) => {
                            assert(before.swap_answers(from, event, *self, none, Err(e)));
                            return Err(e);
                        },
                    }
                } else {
                    assert(before.swap_answers(from, event, *self, none, Ok(())));
                }
            },
            SwapMessage::Apply => {
                if !matches!(phase, SwapPhase::GuestApply) {
                    assert(before.swap_answers(from, event, *self, none, Err(SessionError::SwapPhase)));
                    return Err(SessionError::SwapPhase);
                }
                match self.apply_disk(out) {
                    Ok(_) => {
                        let ghost sent = seq![out@.last()];
                        assert(out@ =~= begun + sent);
                        assert(before.swap_answers(from, event, *self, sent, Ok(())));
                    },
                    Err(e) => {
                        assert(before.swap_answers(from, event, *self, none, Err(e)));
                        return Err(e);
                    },
                }
            },
            SwapMessage::Applied { hash } => {
                if !matches!(phase, SwapPhase::HostApplied) {
                    assert(before.swap_answers(from, event, *self, none, Err(SessionError::SwapPhase)));
                    return Err(SessionError::SwapPhase);
                }
                let mut all = false;
                if let Some(swap) = &mut self.swap {
                    all = swap.report_applied(from, hash, guests.as_slice());
                }
                if all {
                    let own = match self.connection.confirmed_state_digest(machine) {
                        Ok(own) => own,
                        Err(e) => {
                            let e = SessionError::Connection(e);
                            assert(before.swap_answers(from, event, *self, none, Err(e)));
                            assert(before.swap_closes::<M>(*machine, from, hash, *self, none, Err(e)));
                            return Err(e);
                        },
                    };
                    match self.settle_swap(own, out) {
                        Ok(_) => {
                            let ghost sent = to_links(
                                before.connection.links@,
                                before.swap_id,
                                SwapMessage::Resume,
                            );
                            assert(before.swap_answers(from, event, *self, sent, Ok(())));
                            assert(before.swap_closes::<M>(*machine, from, hash, *self, sent, Ok(())));
                        },
                        Err(e) => {
                            assert(before.swap_answers(from, event, *self, none, Err(e)));
                            assert(before.swap_closes::<M>(*machine, from, hash, *self, none, Err(e)));
                            return Err(e);
                        },
                    }
                } else {
                    assert(before.swap_answers(from, event, *self, none, Ok(())));
                }
            },
            SwapMessage::Resume => {
                if !matches!(phase, SwapPhase::GuestResume) {
                    assert(before.swap_answers(from, event, *self, none, Err(SessionError::SwapPhase)));
                    return Err(SessionError::SwapPhase);
                }
                self.finish_swap();
                assert(before.swap_answers(from, event, *self, none, Ok(())));
            },
            SwapMessage::Begin { .. } => {},
        }
        Ok(())
    }
}

/// The players resume after a disk change only in agreement: where the host
/// tells them to go on, every digest any guest reported is the digest of the
/// host's own machine.
pub proof fn law_players_resume_in_agreement<T: Transport, M: Machine>(
    player: Player<T>,
    machine: M,
    from: usize,
    hash: [u8; 32],
    after: Player<T>,
    sent: Seq<Action>,
    guest: int,
)
    requires
        player.swap is Some,
        from < MAX_PLAYERS,
        0 <= guest < MAX_PLAYERS,
        player.swap_closes::<M>(machine, from, hash, after, sent, Ok(())),
    ensures
        ({
            let applied = player.swap->0.applied@.update(from as int, Some(hash));
            applied[guest] matches Some(theirs) ==> theirs@ == sha256(machine.snapshot())
        }),
{
    let applied = player.swap->0.applied@.update(from as int, Some(hash));
    assert(all_agree(applied, sha256(machine.snapshot())));
    assert(applied[guest] == applied[guest]);
}

/// Why a disk is refused before anybody is stopped for it. `connected` says
/// whether the machine has the drive, `decodable` whether the image is one
/// that the drive can read.
pub open spec fn disk_refusal(
    drive: usize,
    connected: bool,
    bytes: Seq<u8>,
    writable: bool,
    limit: usize,
    decodable: bool,
) -> Option<SessionError> {
    if drive >= DRIVES || !connected {
        Some(SessionError::DriveNotConnected)
    } else if bytes.len() > limit || (bytes.len() == 0 && writable) {
        Some(SessionError::InvalidDisk)
    } else if bytes.len() > 0 && !decodable {
        Some(SessionError::UndecodableDisk)
    } else {
        None
    }
}

pub fn validate_disk(
    drive: usize,
    connected: bool,
    bytes: &[u8],
    writable: bool,
    limit: usize,
    decodable: bool,
) -> (r: Result<(), SessionError>)
    ensures
        r is Ok <==> disk_refusal(drive, connected, bytes@, writable, limit, decodable) is None,
        r matches Err(e) ==> disk_refusal(drive, connected, bytes@, writable, limit, decodable)
            == Some(e),
{
    if drive >= DRIVES || !connected {
        return Err(SessionError::DriveNotConnected);
    }
    if bytes.len() > limit || (bytes.len() == 0 && writable) {
        return Err(SessionError::InvalidDisk);
    }
    if bytes.len() > 0 && !decodable {
        return Err(SessionError::UndecodableDisk);
    }
    Ok(())
}

impl<T: Transport> Player<T> {
    /// The drive has taken the replacement disk, or failed to.
    pub fn disk_changed<M: Machine>(
        &mut self,
        machine: &M,
        changed: bool,
        out: &mut Vec<Action>,
    ) -> (r: Result<(), SessionError>)
        requires
            old(self).wf(),
        ensures
            final(self).wf(),
            r is Err ==> final(out)@ == old(out)@,
            !old(self).changing ==> r == Err::<(), SessionError>(SessionError::NoSwap)
                && *final(self) == *old(self),
            old(self).changing && !changed ==> r == Err::<(), SessionError>(
                SessionError::FloppyFailed,
            ) && *final(self) == (Player { changing: false, ..*old(self) }),
            old(self).changing && changed && old(self).role == Role::Host ==> {
                &&& r is Ok
                &&& *final(self) == (Player {
                    changing: false,
                    swap: Some(Swap { phase: SwapPhase::HostApplied, ..old(self).swap->0 }),
                    ..*old(self)
                })
                &&& final(out)@ == old(out)@ + to_links(
                    old(self).connection.links@,
                    old(self).swap_id,
                    SwapMessage::Apply,
                )
            },
            old(self).changing && changed && old(self).role == Role::Guest ==> {
                &&& old(self).connection.failure is Some ==> r == Err::<(), SessionError>(
                    SessionError::Connection(ConnectionError::Failed),
                )
                &&& old(self).connection.failure is None
                    && !old(self).connection.spec_status().settled() ==> r == Err::<
                    (),
                    SessionError,
                >(SessionError::Connection(ConnectionError::NotConfirmed))
                &&& *final(self) == (Player {
                    changing: false,
                    swap: Some(Swap { phase: SwapPhase::GuestResume, ..old(self).swap->0 }),
                    ..*old(self)
                })
                &&& match r {
                    Ok(_) => {
                        &&& exists|hash: [u8; 32]|
                            hash@ == sha256(machine.snapshot()) && final(out)@ == old(out)@
                                + #[trigger] to_links(
                                old(self).connection.links@,
                                old(self).swap_id,
                                SwapMessage::Applied { hash },
                            )
                    },
                    Err(e) => e matches SessionError::Connection(c) && (unsaved(*machine, c) || c
                        == ConnectionError::Failed || c == ConnectionError::NotConfirmed),
                }
                &&& old(self).connection.failure is None
                    && old(self).connection.spec_status().settled() ==> (r matches Err(e)
                    ==> e matches SessionError::Connection(c) && unsaved(*machine, c))
            },
    {
        if !self.changing {
            return Err(SessionError::NoSwap);
        }
        self.changing = false;
        if !changed {
            return Err(SessionError::FloppyFailed);
        }
        if matches!(self.role, Role::Host) {
            if let Some(swap) = &mut self.swap {
                swap.phase = SwapPhase::HostApplied;
            }
            self.swap_send(SwapMessage::Apply, out);
            return Ok(());
        }
        if let Some(swap) = &mut self.swap {
            swap.phase = SwapPhase::GuestResume;
        }
        match self.connection.confirmed_state_digest(machine) {
            Ok(hash) => {
                self.swap_send(SwapMessage::Applied { hash }, out);
                Ok(())
            },
            Err(e) => Err(SessionError::Connection(e)),
        }
    }

    /// Whether a disk change may start. `sending` says whether any link still
    /// has setup or media bytes in flight.
    pub open spec fn idle(self, sending: bool) -> bool {
        &&& self.role == Role::Host
        &&& self.phase == Phase::Running
        &&& self.connection.connected
        &&& self.swap is None
        &&& !sending
    }

    pub fn can_change_disk(&self, sending: bool) -> (r: bool)
        ensures
            r == self.idle(sending),
    {
        matches!(self.role, Role::Host) && matches!(self.phase, Phase::Running)
            && self.connection.connected && self.swap.is_none() && !sending
    }

    pub fn ready_to_capture(&self, sending: bool) -> (r: bool)
        requires
            self.wf(),
        ensures
            r == (self.swap is None && !sending && self.connection.spec_status().settled()),
    {
        self.swap.is_none() && !sending && self.connection.status().ready_to_capture()
    }

    /// What a request to change a disk does.
    pub open spec fn asked_to_change(
        self,
        drive: usize,
        bytes: Vec<u8>,
        writable: bool,
        connected: bool,
        decodable: bool,
        sending: bool,
        now: u64,
        after: Self,
        begun: Seq<Action>,
        done: Seq<Action>,
        r: Result<(), SessionError>,
    ) -> bool {
        let refusal = if !self.idle(sending) {
            Some(SessionError::NotIdle)
        } else if disk_refusal(
            drive,
            connected,
            bytes@,
            writable,
            self.floppy_limit,
            decodable,
        ) is Some {
            disk_refusal(drive, connected, bytes@, writable, self.floppy_limit, decodable)
        } else if self.swap_id == u64::MAX {
            Some(SessionError::SwapIdentifierExhausted)
        } else {
            None
        };
        match refusal {
            Some(e) => r == Err::<(), SessionError>(e) && after == self && done == begun,
            None => {
                let id = (self.swap_id + 1) as u64;
                let size = bytes@.len() as usize;
                &&& r is Ok
                &&& after == Player {
                    swap: after.swap,
                    swap_id: id,
                    progress: Some(Progress::Pausing { drive }),
                    ..self
                }
                &&& after.swap matches Some(swap) && swap.bytes == Some(bytes) && swap.hash@
                    == sha256(bytes@) && (Swap { bytes: None, ..swap }).fresh(
                    SwapPhase::HostHeld,
                    self.connection.rollback.current,
                    drive,
                    writable,
                    size,
                    swap.hash,
                    now,
                ) && done == begun + to_links(
                    self.connection.links@,
                    id,
                    SwapMessage::Begin { drive, size, hash: swap.hash, writable },
                )
            },
        }
    }

    /// Queue one host-controlled insertion or eject. The image is examined
    /// before the game is stopped, so a bad selection leaves play untouched.
    pub fn change_disk(
        &mut self,
        drive: usize,
        bytes: Vec<u8>,
        writable: bool,
        connected: bool,
        decodable: bool,
        sending: bool,
        now: u64,
        out: &mut Vec<Action>,
    ) -> (r: Result<(), SessionError>)
        requires
            old(self).wf(),
        ensures
            final(self).wf(),
            old(self).asked_to_change(
                drive,
                bytes,
                writable,
                connected,
                decodable,
                sending,
                now,
                *final(self),
                old(out)@,
                final(out)@,
                r,
            ),
    {
        if !self.can_change_disk(sending) {
            return Err(SessionError::NotIdle);
        }
        validate_disk(
            drive,
            connected,
            bytes.as_slice(),
            writable,
            self.floppy_limit,
            decodable,
        )?;
        let size: usize = bytes.len();
        let hash = digest(bytes.as_slice());
        if self.swap_id == u64::MAX {
            return Err(SessionError::SwapIdentifierExhausted);
        }
        let frame: u64 = self.connection.status().frame;
        self.swap_id = self.swap_id + 1;
        let mut swap = Swap::new(SwapPhase::HostHeld, frame, drive, writable, size, hash, now);
        swap.bytes = Some(bytes);
        self.swap = Some(swap);
        self.swap_send(SwapMessage::Begin { drive, size, hash, writable }, out);
        self.progress = Some(Progress::Pausing { drive });
        Ok(())
    }

    /// Why the bytes of a replacement disk are refused by a guest.
    pub open spec fn transfer_refusal(
        self,
        bytes: Seq<u8>,
        connected: bool,
        decodable: bool,
    ) -> Option<SessionError> {
        match self.swap {
            None => Some(SessionError::UnexpectedDisk),
            Some(swap) => if swap.phase != SwapPhase::GuestBytes || bytes.len() != swap.size
                || sha256(bytes) != swap.hash@ {
                Some(SessionError::InvalidTransfer)
            } else {
                disk_refusal(
                    swap.drive,
                    connected,
                    bytes,
                    swap.writable,
                    self.floppy_limit,
                    decodable,
                )
            },
        }
    }

    /// A guest takes the replacement disk's bytes, once they are those that
    /// were announced. `connected` and `decodable` are about the drive that
    /// was announced and these bytes.
    pub fn receive_disk(
        &mut self,
        bytes: Vec<u8>,
        connected: bool,
        decodable: bool,
        out: &mut Vec<Action>,
    ) -> (r: Result<(), SessionError>)
        requires
            old(self).wf(),
        ensures
            final(self).wf(),
            r is Ok <==> old(self).transfer_refusal(bytes@, connected, decodable) is None,
            r matches Err(e) ==> old(self).transfer_refusal(bytes@, connected, decodable) == Some(
                e,
            ) && *final(self) == *old(self) && final(out)@ == old(out)@,
            r is Ok ==> {
                &&& *final(self) == (Player {
                    swap: Some(
                        Swap {
                            bytes: Some(bytes),
                            phase: SwapPhase::GuestApply,
                            ..old(self).swap->0
                        },
                    ),
                    ..*old(self)
                })
                &&& final(out)@ == old(out)@ + to_links(
                    old(self).connection.links@,
                    old(self).swap_id,
                    SwapMessage::Prepared,
                )
            },
    {
        let limit: usize = self.floppy_limit;
        match &mut self.swap {
            None => {
                return Err(SessionError::UnexpectedDisk);
            },
            Some(swap) => {
                if !matches!(swap.phase, SwapPhase::GuestBytes) || bytes.len() != swap.size {
                    return Err(SessionError::InvalidTransfer);
                }
                let found = digest(bytes.as_slice());
                if !same_bytes(&found, &swap.hash) {
                    return Err(SessionError::InvalidTransfer);
                }
                validate_disk(
                    swap.drive,
                    connected,
                    bytes.as_slice(),
                    swap.writable,
                    limit,
                    decodable,
                )?;
                swap.bytes = Some(bytes);
                swap.phase = SwapPhase::GuestApply;
            },
        }
        self.swap_send(SwapMessage::Prepared, out);
        Ok(())
    }
}

/// The replacement disk for each of these links.
pub open spec fn disk_to_links<T: Transport>(
    links: Seq<Link<T>>,
    image: Seq<u8>,
    sent: Seq<Action>,
) -> bool {
    &&& sent.len() == links.len()
    &&& forall|i: int|
        #![trigger sent[i]]
        0 <= i < sent.len() ==> (sent[i] matches Action::SendBytes { to, bytes } && to
            == links[i].player && bytes@ == seq![KIND_DISK] + image)
}

impl<T: Transport> Player<T> {
    /// What reaching the common boundary does, given this machine's digest:
    /// a guest reports it, and the host hands out the disk once every guest
    /// has reported the host's own.
    pub open spec fn boundary_answers(
        self,
        own: [u8; 32],
        after: Self,
        sent: Seq<Action>,
        r: Result<(), SessionError>,
    ) -> bool {
        let swap = self.swap->0;
        if swap.phase == SwapPhase::GuestReady {
            &&& r is Ok
            &&& after == Player {
                swap: Some(Swap { phase: SwapPhase::GuestBytes, ..swap }),
                ..self
            }
            &&& sent == to_links(
                self.connection.links@,
                self.swap_id,
                SwapMessage::Ready { hash: own },
            )
        } else if swap.phase == SwapPhase::HostReady && all_reported(
            swap.ready@,
            seats(self.guests@),
        ) {
            if !all_agree(swap.ready@, own@) {
                r == Err::<(), SessionError>(SessionError::DifferBefore) && after == self
            } else {
                &&& r is Ok
                &&& after == Player {
                    swap: Some(
                        Swap { own_digest: Some(own), phase: SwapPhase::HostPrepared, ..swap },
                    ),
                    ..self
                }
                &&& disk_to_links(self.connection.links@, swap.bytes->0@, sent)
            }
        } else {
            &&& r is Ok
            &&& after == self
            &&& sent == Seq::<Action>::empty()
        }
    }

    pub fn reach_boundary(&mut self, own: [u8; 32], out: &mut Vec<Action>) -> (r: Result<
        (),
        SessionError,
    >)
        requires
            old(self).wf(),
            old(self).swap is Some,
            !old(self).changing,
        ensures
            final(self).wf(),
            r is Err ==> final(out)@ == old(out)@,
            exists|sent: Seq<Action>|
                final(out)@ == old(out)@ + sent && #[trigger] old(self).boundary_answers(
                    own,
                    *final(self),
                    sent,
                    r,
                ),
    {
        let ghost before = *self;
        let ghost begun = out@;
        let ghost none = Seq::<Action>::empty();
        assert(out@ =~= begun + none);
        let guests = self.guest_players();
        proof {
            self.lemma_seats_are_ports();
        }
        let mut framed_disk: Vec<u8> = Vec::new();
        let mut report = false;
        match &mut self.swap {
            None => {
                return Ok(());
            },
            Some(swap) => {
                if matches!(swap.phase, SwapPhase::GuestReady) {
                    swap.phase = SwapPhase::GuestBytes;
                    report = true;
                } else if matches!(swap.phase, SwapPhase::HostReady) && swap.everyone_ready(
                    guests.as_slice(),
                ) {
                    if !swap.agreed_before(&own) {
                        assert(before.boundary_answers(
                            own,
                            *old(self),
                            none,
                            Err(SessionError::DifferBefore),
                        ));
                        return Err(SessionError::DifferBefore);
                    }
                    if let Some(image) = &swap.bytes {
                        framed_disk = framed(KIND_DISK, image.as_slice());
                    }
                    swap.own_digest = Some(own);
                    swap.phase = SwapPhase::HostPrepared;
                } else {
                    assert(before.boundary_answers(own, before, none, Ok(())));
                    return Ok(());
                }
            },
        }
        if report {
            self.swap_send(SwapMessage::Ready { hash: own }, out);
            let ghost sent = to_links(
                before.connection.links@,
                before.swap_id,
                SwapMessage::Ready { hash: own },
            );
            assert(before.boundary_answers(own, *self, sent, Ok(())));
            return Ok(());
        }
        let mut i: usize = 0;
        let ghost mut sent = none;
        while i < self.connection.links.len()
            invariant
                i <= self.connection.links@.len(),
                framed_disk@ == seq![KIND_DISK] + before.swap->0.bytes->0@,
                self.connection == before.connection,
                out@ =~= begun + sent,
                disk_to_links(
                    before.connection.links@.take(i as int),
                    before.swap->0.bytes->0@,
                    sent,
                ),
            decreases self.connection.links@.len() - i,
        {
            let bytes = copy_range(framed_disk.as_slice(), 0, framed_disk.len());
            assert(bytes@ =~= framed_disk@);
            out.push(Action::SendBytes { to: self.connection.links[i].player, bytes });
            proof {
                sent = sent.push(out@.last());
            }
            i += 1;
        }
        assert(before.connection.links@.take(i as int) =~= before.connection.links@);
        assert(before.boundary_answers(own, *self, sent, Ok(())));
        Ok(())
    }

    /// What waiting at the stopped boundary does.
    pub open spec fn swap_serviced<M: Machine>(
        self,
        machine: M,
        now: u64,
        after: Self,
        begun: Seq<Action>,
        done: Seq<Action>,
        r: Result<(), SessionError>,
    ) -> bool {
        match self.swap {
            None => r is Ok && after == self && done == begun,
            Some(swap) => if now - swap.started >= SWAP_TIMEOUT {
                r == Err::<(), SessionError>(SessionError::SwapTimedOut) && after == self
            } else if self.connection.rollback.current != swap.stop
                || !self.connection.spec_status().settled() || self.changing {
                r is Ok && after == self && done == begun
            } else {
                ||| (self.connection.failure is Some && r == Err::<(), SessionError>(
                    SessionError::Connection(ConnectionError::Failed),
                ) && after == self)
                ||| (self.connection.failure is None && (r matches Err(
                    SessionError::Connection(e),
                ) && unsaved(machine, e)) && after == self)
                ||| self.connection.failure is None && exists|own: [u8; 32], sent: Seq<Action>|
                    own@ == sha256(machine.snapshot()) && done == begun + sent
                        && #[trigger] self.boundary_answers(own, after, sent, r)
            },
        }
    }

    /// Progress a media change that is waiting on the stopped boundary.
    pub fn service_swap<M: Machine>(&mut self, machine: &M, now: u64, out: &mut Vec<Action>) -> (r:
        Result<(), SessionError>)
        requires
            old(self).wf(),
        ensures
            final(self).wf(),
            r is Err ==> final(out)@ == old(out)@,
            old(self).swap_serviced::<M>(
                *machine,
                now,
                *final(self),
                old(out)@,
                final(out)@,
                r,
            ),
    {
        let status = self.connection.status();
        let ghost begun = out@;
        match &self.swap {
            None => {
                return Ok(());
            },
            Some(swap) => {
                if now.saturating_sub(swap.started) >= SWAP_TIMEOUT {
                    return Err(SessionError::SwapTimedOut);
                }
                if status.frame != swap.stop || !status.ready_to_capture() || self.changing {
                    return Ok(());
                }
            },
        }
        match self.connection.confirmed_state_digest(machine) {
            Ok(own) => self.reach_boundary(own, out),
            Err(e) => Err(SessionError::Connection(e)),
        }
    }
}

/// What kind of message has arrived, with what follows its kind.
pub enum Arrival {
    Disk(Vec<u8>),
    Bundle(Vec<u8>),
    Json(Vec<u8>),
}

impl<T: Transport> Player<T> {
    /// The terms this player goes by: those it was offered, once it was.
    pub open spec fn terms(self) -> Settings {
        match self.offered {
            Some(terms) => terms,
            None => self.connection.settings,
        }
    }

    /// Tell the kinds of messages apart. A guest that waits for its machine
    /// takes nothing but a disk or the bundle; everybody else takes disks and
    /// setup messages.
    pub fn sort_message(&self, bytes: &[u8]) -> (r: Result<Arrival, SessionError>)
        ensures
            kind_of(bytes@) == Some(3u8) ==> (r matches Ok(Arrival::Disk(body)) && body@
                == bytes@.skip(1)),
            kind_of(bytes@) != Some(3u8) && self.phase == Phase::GuestBundle ==> (if kind_of(
                bytes@,
            ) == Some(2u8) {
                r matches Ok(Arrival::Bundle(body)) && body@ == bytes@.skip(1)
            } else {
                r matches Err(SessionError::ExpectedBundle)
            }),
            kind_of(bytes@) != Some(3u8) && self.phase != Phase::GuestBundle ==> (if kind_of(
                bytes@,
            ) == Some(1u8) && bytes@.len() <= 2048 {
                r matches Ok(Arrival::Json(body)) && body@ == bytes@.skip(1)
            } else {
                r matches Err(SessionError::InvalidSetupMessage)
            }),
    {
        if bytes.len() > 0 && bytes[0] == KIND_DISK {
            return Ok(Arrival::Disk(payload(bytes)));
        }
        if matches!(self.phase, Phase::GuestBundle) {
            if bytes.len() == 0 || bytes[0] != KIND_BUNDLE {
                return Err(SessionError::ExpectedBundle);
            }
            return Ok(Arrival::Bundle(payload(bytes)));
        }
        match crate::netplay::message::json_payload(bytes) {
            Ok(json) => Ok(Arrival::Json(json)),
            Err(e) => Err(e),
        }
    }

    /// A guest takes over the machine of its host's bundle.
    pub fn adopt_bundle(
        &mut self,
        machine: &ColdMachine,
        cfg: &Config,
        blocked: bool,
        build: &[u8],
        input: &mut LocalInput,
        out: &mut Vec<Action>,
    ) -> (r: Result<(), SessionError>)
        requires
            old(self).wf(),
            old(self).phase == Phase::GuestBundle,
            machine.devices@.len() >= MAX_PLAYERS,
        ensures
            final(self).wf(),
            ({
                let refusal = Connection::<T>::adoption_refusal(
                    old(self).terms(),
                    *machine,
                    *cfg,
                    blocked,
                );
                &&& r is Ok <==> refusal is None
                &&& r matches Err(e) ==> refusal matches Some(c) && e
                    == SessionError::Connection(c) && *final(self) == *old(self)
                    && *final(input) == *old(input) && final(out)@ == old(out)@
            }),
            r is Ok ==> {
                &&& final(self).connection.identity@ == sha256(build@ + machine.snapshot@)
                &&& final(self).connection == (Connection {
                    settings: old(self).terms(),
                    identity: final(self).connection.identity,
                    rollback: final(self).connection.rollback,
                    ..old(self).connection
                })
                &&& final(self).connection.rollback.is_fresh(
                    old(self).terms().player,
                    old(self).terms().players,
                    old(self).terms().input_delay,
                    old(self).terms().rollback_frames,
                )
                &&& final(self).connection.rollback.log is None
                &&& *final(self) == (Player {
                    connection: final(self).connection,
                    offered: None,
                    phase: Phase::GuestStart,
                    progress: Some(Progress::SetupVerified),
                    ..*old(self)
                })
                &&& final(input).held == crate::netplay::input::Input::neutral()
                &&& final(input).mouse_pending == (0i32, 0i32)
                &&& final(out)@ == old(out)@.push(
                    Action::Send {
                        to: 0,
                        message: Message::Verified { identity: final(self).connection.identity },
                    },
                )
            },
    {
        let terms = match self.offered {
            Some(terms) => terms,
            None => {
                return Err(SessionError::UnexpectedMessage);
            },
        };
        match self.connection.adopt(terms, machine, cfg, blocked, build) {
            Ok(_) => {},
            Err(e) => {
                return Err(SessionError::Connection(e));
            },
        }
        *input = LocalInput::default();
        self.offered = None;
        out.push(
            Action::Send {
                to: 0,
                message: Message::Verified { identity: self.connection.identity },
            },
        );
        self.phase = Phase::GuestStart;
        self.progress = Some(Progress::SetupVerified);
        Ok(())
    }

    /// The terms an offer makes.
    pub open spec fn offer_terms(
        self,
        delay: u8,
        window: u8,
        players: usize,
        player: usize,
    ) -> Settings {
        Settings {
            input_delay: delay,
            rollback_frames: window,
            players,
            player,
            session: self.connection.settings.session,
        }
    }

    fn take_offer(&mut self, delay: u8, window: u8, players: usize, player: usize) -> (r: Result<
        (),
        SessionError,
    >)
        requires
            old(self).wf(),
            old(self).phase == Phase::GuestOffer,
        ensures
            final(self).wf(),
            r is Err ==> *final(self) == *old(self),
            ({
                let terms = old(self).offer_terms(delay, window, players, player);
                match terms.refusal() {
                    Some(e) => r == Err::<(), SessionError>(
                        SessionError::Connection(ConnectionError::Settings(e)),
                    ),
                    None => if player == 0 {
                        r == Err::<(), SessionError>(SessionError::HostOwnsPort)
                    } else {
                        &&& r is Ok
                        &&& *final(self) == (Player {
                            offered: Some(terms),
                            phase: Phase::GuestBundle,
                            progress: Some(Progress::Joining { player }),
                            ..*old(self)
                        })
                    },
                }
            }),
    {
        let terms = Settings {
            input_delay: delay,
            rollback_frames: window,
            players,
            player,
            session: self.connection.settings.session,
        };
        match terms.validate() {
            Ok(_) => {},
            Err(e) => {
                return Err(SessionError::Connection(ConnectionError::Settings(e)));
            },
        }
        if player == 0 {
            return Err(SessionError::HostOwnsPort);
        }
        self.offered = Some(terms);
        self.phase = Phase::GuestBundle;
        self.progress = Some(Progress::Joining { player });
        Ok(())
    }
}

/// The place of a player among the guests; the number of guests where there
/// is none.
pub open spec fn seat_index(guests: Seq<GuestState>, player: usize) -> int {
    if exists|i: int| 0 <= i < guests.len() && (#[trigger] guests[i]).player == player {
        choose|i: int| 0 <= i < guests.len() && (#[trigger] guests[i]).player == player
    } else {
        guests.len() as int
    }
}

/// Every guest has the machine and may play.
pub open spec fn all_running(guests: Seq<GuestState>) -> bool {
    forall|i: int| 0 <= i < guests.len() ==> (#[trigger] guests[i]).phase == GuestPhase::Running
}

impl<T: Transport> Player<T> {
    /// Why a guest's claim to have built the machine is refused.
    pub open spec fn verify_refusal(self, from: usize, identity: [u8; 32]) -> Option<
        SessionError,
    > {
        let seat = seat_index(self.guests@, from);
        if identity@ != self.connection.identity@ {
            Some(SessionError::DifferentMachine)
        } else if seat == self.guests@.len() {
            Some(SessionError::UnknownGuest)
        } else if self.guests@[seat].phase != GuestPhase::AwaitVerified {
            Some(SessionError::UnexpectedMessage)
        } else {
            None
        }
    }

    /// A guest has built the machine. The game starts once every port has a
    /// player: a latecomer could not reproduce the frames already executed.
    fn verify_guest(&mut self, from: usize, identity: [u8; 32], out: &mut Vec<Action>) -> (r: Result<
        (),
        SessionError,
    >)
        requires
            old(self).wf(),
            old(self).role == Role::Host,
        ensures
            final(self).wf(),
            r is Ok <==> old(self).verify_refusal(from, identity) is None,
            r matches Err(e) ==> old(self).verify_refusal(from, identity) == Some(e)
                && *final(self) == *old(self) && final(out)@ == old(out)@,
            r is Ok ==> {
                let seat = seat_index(old(self).guests@, from);
                let guests = old(self).guests@.update(
                    seat,
                    GuestState { player: from, phase: GuestPhase::Running },
                );
                let full = guests.len() == old(self).connection.settings.spec_expected_links()
                    && all_running(guests);
                &&& final(self).guests@ == guests
                &&& *final(self) == (Player {
                    guests: final(self).guests,
                    phase: if full {
                        Phase::Running
                    } else {
                        old(self).phase
                    },
                    progress: if full {
                        Some(
                            Progress::AllReady { players: old(self).connection.settings.players },
                        )
                    } else {
                        old(self).progress
                    },
                    ..*old(self)
                })
                &&& final(out)@ == old(out)@.push(
                    Action::Send { to: from, message: Message::Start },
                )
            },
    {
        let ghost before = *self;
        if !same_bytes(&identity, &self.connection.identity) {
            return Err(SessionError::DifferentMachine);
        }
        let mut seat: usize = 0;
        while seat < self.guests.len() && self.guests[seat].player != from
            invariant
                seat <= self.guests@.len(),
                *self == before,
                forall|i: int| 0 <= i < seat ==> (#[trigger] self.guests@[i]).player != from,
            decreases self.guests@.len() - seat,
        {
            seat += 1;
        }
        if seat == self.guests.len() {
            assert(seat_index(self.guests@, from) == self.guests@.len());
            return Err(SessionError::UnknownGuest);
        }
        proof {
            let i = seat_index(self.guests@, from);
            assert(self.guests@[seat as int].player == from);
            assert(self.guests@[i].player == from);
            assert(self.guests@[i].player == self.connection.links@[i].player);
            assert(self.guests@[seat as int].player == self.connection.links@[seat as int].player);
            assert(i == seat);
        }
        if !matches!(self.guests[seat].phase, GuestPhase::AwaitVerified) {
            return Err(SessionError::UnexpectedMessage);
        }
        self.guests.set(seat, GuestState { player: from, phase: GuestPhase::Running });
        proof {
            assert forall|i: int| 0 <= i < self.guests@.len() implies (
            #[trigger] self.guests@[i]).player == self.connection.links@[i].player by {
                assert(before.guests@[i].player == before.connection.links@[i].player);
            }
        }
        out.push(Action::Send { to: from, message: Message::Start });
        if self.guests.len() == self.connection.settings.expected_links() {
            let mut i: usize = 0;
            let ghost marked = *self;
            while i < self.guests.len() && matches!(self.guests[i].phase, GuestPhase::Running)
                invariant
                    i <= self.guests@.len(),
                    *self == marked,
                    forall|j: int|
                        0 <= j < i ==> (#[trigger] self.guests@[j]).phase == GuestPhase::Running,
                decreases self.guests@.len() - i,
            {
                i += 1;
            }
            if i == self.guests.len() {
                self.phase = Phase::Running;
                self.progress = Some(
                    Progress::AllReady { players: self.connection.settings.players },
                );
            } else {
                assert(self.guests@[i as int].phase != GuestPhase::Running);
            }
        }
        Ok(())
    }

    /// A setup message from the player at `from`.
    pub fn receive_message<M: Machine>(
        &mut self,
        machine: &M,
        from: usize,
        message: &Message,
        drives: &[bool; DRIVES],
        now: u64,
        out: &mut Vec<Action>,
    ) -> (r: Result<(), SessionError>)
        requires
            old(self).wf(),
            from < MAX_PLAYERS,
        ensures
            final(self).wf(),
            r is Err ==> final(out)@ == old(out)@,
            r is Err && !(message is Swap) ==> *final(self) == *old(self),
            match *message {
                Message::Offer { delay, window, players, player } => if old(self).phase
                    == Phase::GuestOffer {
                    let terms = old(self).offer_terms(delay, window, players, player);
                    &&& r is Ok <==> terms.valid() && player != 0
                    &&& terms.refusal() matches Some(e) ==> r == Err::<(), SessionError>(
                        SessionError::Connection(ConnectionError::Settings(e)),
                    )
                    &&& terms.valid() && player == 0 ==> r == Err::<(), SessionError>(
                        SessionError::HostOwnsPort,
                    )
                    &&& r is Ok ==> *final(self) == (Player {
                        offered: Some(terms),
                        phase: Phase::GuestBundle,
                        progress: Some(Progress::Joining { player }),
                        ..*old(self)
                    }) && final(out)@ == old(out)@
                } else {
                    r == Err::<(), SessionError>(SessionError::UnexpectedMessage)
                },
                Message::Verified { identity } => if old(self).role == Role::Host {
                    &&& r is Ok <==> old(self).verify_refusal(from, identity) is None
                    &&& r matches Err(e) ==> old(self).verify_refusal(from, identity) == Some(e)
                    &&& r is Ok ==> {
                        let seat = seat_index(old(self).guests@, from);
                        let guests = old(self).guests@.update(
                            seat,
                            GuestState { player: from, phase: GuestPhase::Running },
                        );
                        let full = guests.len()
                            == old(self).connection.settings.spec_expected_links()
                            && all_running(guests);
                        &&& final(self).guests@ == guests
                        &&& *final(self) == (Player {
                            guests: final(self).guests,
                            phase: if full {
                                Phase::Running
                            } else {
                                old(self).phase
                            },
                            progress: if full {
                                Some(
                                    Progress::AllReady {
                                        players: old(self).connection.settings.players,
                                    },
                                )
                            } else {
                                old(self).progress
                            },
                            ..*old(self)
                        })
                        &&& final(out)@ == old(out)@.push(
                            Action::Send { to: from, message: Message::Start },
                        )
                    }
                } else {
                    r == Err::<(), SessionError>(SessionError::UnexpectedMessage)
                },
                Message::Start => if old(self).phase == Phase::GuestStart {
                    &&& r is Ok
                    &&& *final(self) == (Player { phase: Phase::Running, ..*old(self) })
                    &&& final(out)@ == old(out)@
                } else {
                    r == Err::<(), SessionError>(SessionError::UnexpectedMessage)
                },
                Message::Refused { reason } => r matches Err(
                    SessionError::Declined { reason: said },
                ) && said@ == reason@,
                Message::Swap { id, event } => if old(self).phase == Phase::Running {
                    old(self).swap_handled::<M>(
                        *machine,
                        from,
                        id,
                        event,
                        drives@,
                        now,
                        *final(self),
                        old(out)@,
                        final(out)@,
                        r,
                    )
                } else {
                    r == Err::<(), SessionError>(SessionError::UnexpectedMessage) && *final(self)
                        == *old(self)
                },
                Message::Hello { .. } | Message::Watch { .. } => r == Err::<(), SessionError>(
                    SessionError::UnexpectedMessage,
                ),
            },
    {
        match message {
            Message::Offer { delay, window, players, player } => {
                if matches!(self.phase, Phase::GuestOffer) {
                    return self.take_offer(*delay, *window, *players, *player);
                }
            },
            Message::Verified { identity } => {
                if matches!(self.role, Role::Host) {
                    return self.verify_guest(from, *identity, out);
                }
            },
            Message::Start => {
                if matches!(self.phase, Phase::GuestStart) {
                    self.phase = Phase::Running;
                    return Ok(());
                }
            },
            Message::Refused { reason } => {
                return Err(
                    SessionError::Declined {
                        reason: text_of(chars_of(reason.as_str()).as_slice()),
                    },
                );
            },
            Message::Swap { id, event } => {
                if matches!(self.phase, Phase::Running) {
                    return self.swap_message(machine, from, *id, *event, drives, now, out);
                }
            },
            Message::Hello { .. } => {},
            Message::Watch { .. } => {},
        }
        Err(SessionError::UnexpectedMessage)
    }
}

/// A guest's greeting to its host.
pub open spec fn greets(action: Action, version: Seq<char>, port: Option<usize>) -> bool {
    match action {
        Action::Send { to, message: Message::Hello { build, player } } => to == 0 && build@
            == version && player == port,
        _ => false,
    }
}

/// Where a port is free there is room for its link.
proof fn lemma_room_for_free_port<T: Transport>(c: Connection<T>, seat: int)
    requires
        c.links_ok(),
        c.settings.player == 0,
        c.is_free(seat),
    ensures
        c.links@.len() < c.settings.spec_expected_links(),
{
    let links = c.links@;
    let n = links.len();
    assert forall|i: int| 0 <= i < n implies (#[trigger] links[i]).player != seat by {
        if links[i].player == seat {
            let j = choose|j: int| 0 <= j < n && (#[trigger] links[j]).player == seat;
            assert(c.link_index(seat) == j);
        }
    }
    if n == c.settings.players - 1 {
        assert(links[0].player != seat && links[0].player != 0);
        if n >= 2 {
            assert(links[1].player != seat && links[1].player != links[0].player);
        }
        if n >= 3 {
            assert(links[2].player != seat && links[2].player != links[0].player
                && links[2].player != links[1].player);
        }
    }
}

impl<T: Transport> Player<T> {
    /// A host that waits for its guests, on a machine every one of them will
    /// be sent.
    pub fn host(
        settings: Settings,
        spectators: usize,
        feed_limit: usize,
        floppy_limit: usize,
        staged: &ColdMachine,
        cfg: &Config,
        blocked: bool,
        build: &[u8],
        now: u64,
    ) -> (r: Result<Self, SessionError>)
        requires
            settings.player == 0,
            staged.devices@.len() >= MAX_PLAYERS,
        ensures
            ({
                let refusal = Connection::<T>::start_refusal(settings, *staged, *cfg, blocked);
                &&& r is Ok <==> refusal is None
                &&& r matches Err(e) ==> refusal matches Some(c) && e
                    == SessionError::Connection(c)
            }),
            r matches Ok(p) ==> {
                &&& p.wf()
                &&& p.role == Role::Host
                &&& p.phase == Phase::HostSetup
                &&& p.connection.begins(settings, sha256(build@ + staged.snapshot@), now)
                &&& p.connection.links@.len() == 0
                &&& p.offered is None
                &&& p.guests@.len() == 0
                &&& p.pending@.len() == 0
                &&& !p.changing
                &&& p.swap is None
                &&& p.swap_id == 0
                &&& p.started == now
                &&& p.last_progress == now
                &&& p.floppy_limit == floppy_limit
                &&& p.progress == Some(Progress::WaitingForPlayers)
                &&& spectators == 0 ==> p.connection.feed is None
                &&& spectators > 0 ==> (p.connection.feed matches Some(feed) && feed.limit
                    == feed_limit && feed.players == settings.players && feed.frames@.len() == 0
                    && !feed.overrun)
                &&& p.connection.rollback.log is Some <==> spectators > 0
            },
    {
        let mut connection = match Connection::<T>::without_links(
            settings,
            staged,
            cfg,
            blocked,
            build,
            now,
        ) {
            Ok(connection) => connection,
            Err(e) => {
                return Err(SessionError::Connection(e));
            },
        };
        if spectators > 0 {
            match connection.enable_feed(feed_limit) {
                Ok(_) => {},
                Err(e) => {
                    return Err(SessionError::Connection(e));
                },
            }
        }
        Ok(
            Player {
                role: Role::Host,
                connection,
                offered: None,
                phase: Phase::HostSetup,
                guests: Vec::new(),
                pending: Vec::new(),
                started: now,
                progress: Some(Progress::WaitingForPlayers),
                last_progress: now,
                swap: None,
                swap_id: 0,
                changing: false,
                floppy_limit,
            },
        )
    }

    /// A guest that has just introduced itself to its host. `names_player`
    /// says whether it was configured for its port or takes any.
    pub fn guest(
        settings: Settings,
        names_player: bool,
        floppy_limit: usize,
        transport: T,
        machine: &ColdMachine,
        cfg: &Config,
        blocked: bool,
        build: &[u8],
        version: &str,
        now: u64,
        out: &mut Vec<Action>,
    ) -> (r: Result<Self, SessionError>)
        requires
            settings.player != 0,
            machine.devices@.len() >= MAX_PLAYERS,
        ensures
            ({
                let refusal = Connection::<T>::start_refusal(settings, *machine, *cfg, blocked);
                &&& r is Ok <==> refusal is None
                &&& r matches Err(e) ==> refusal matches Some(c) && e
                    == SessionError::Connection(c) && final(out)@ == old(out)@
            }),
            r matches Ok(p) ==> {
                &&& p.wf()
                &&& p.role == Role::Guest
                &&& p.phase == Phase::GuestOffer
                &&& p.connection.begins(settings, sha256(build@ + machine.snapshot@), now)
                &&& p.connection.links@.len() == 1
                &&& p.connection.links@[0].is_new(0, transport, now)
                &&& p.connection.feed is None
                &&& p.connection.rollback.log is None
                &&& p.offered is None
                &&& p.guests@.len() == 0
                &&& p.pending@.len() == 0
                &&& !p.changing
                &&& p.swap is None
                &&& p.swap_id == 0
                &&& p.started == now
                &&& p.last_progress == now
                &&& p.floppy_limit == floppy_limit
                &&& p.progress == Some(Progress::WaitingForPlayers)
                &&& final(out)@.len() == old(out)@.len() + 1
                &&& final(out)@.drop_last() == old(out)@
                &&& greets(
                    final(out)@.last(),
                    version@,
                    if names_player {
                        Some(settings.player)
                    } else {
                        None
                    },
                )
            },
    {
        let connection = match Connection::with_transport(
            settings,
            transport,
            machine,
            cfg,
            blocked,
            build,
            now,
        ) {
            Ok(connection) => connection,
            Err(e) => {
                return Err(SessionError::Connection(e));
            },
        };
        let ghost before = out@;
        out.push(
            Action::Send {
                to: 0,
                message: Message::Hello {
                    build: crate::text::text_of(chars_of(version).as_slice()),
                    player: if names_player {
                        Some(settings.player)
                    } else {
                        None
                    },
                },
            },
        );
        assert(out@.drop_last() =~= before);
        Ok(
            Player {
                role: Role::Guest,
                connection,
                offered: None,
                phase: Phase::GuestOffer,
                guests: Vec::new(),
                pending: Vec::new(),
                started: now,
                progress: Some(Progress::WaitingForPlayers),
                last_progress: now,
                swap: None,
                swap_id: 0,
                changing: false,
                floppy_limit,
            },
        )
    }

    /// Take in new connections while there are ports for them. Returns how
    /// many of the arrivals, from the first on, are taken in; the others find
    /// every controller port taken.
    pub fn admit_guests(&mut self, arrivals: usize, now: u64) -> (r: usize)
        requires
            old(self).wf(),
            old(self).role == Role::Host,
        ensures
            final(self).wf(),
            r <= arrivals,
            exists|free: Seq<usize>|
                #![trigger free.len()]
                {
                    &&& forall|p: usize| #[trigger] free.contains(p) <==> old(
                        self,
                    ).connection.is_free(p as int)
                    &&& forall|i: int, j: int| 0 <= i < j < free.len() ==> free[i] < free[j]
                    &&& r == (if old(self).pending@.len() >= free.len() {
                        0
                    } else if arrivals <= free.len() - old(self).pending@.len() {
                        arrivals as int
                    } else {
                        free.len() - old(self).pending@.len()
                    })
                },
            final(self).pending@ == old(self).pending@ + Seq::new(
                r as nat,
                |i: int| PendingGuest { started: now },
            ),
            *final(self) == (Player { pending: final(self).pending, ..*old(self) }),
    {
        let free = self.connection.free_players();
        let ghost open = free@;
        let ghost before = *self;
        let mut taken: usize = 0;
        while taken < arrivals && self.pending.len() < free.len()
            invariant
                taken <= arrivals,
                before.pending@.len() <= self.pending@.len(),
                free@ == open,
                taken == self.pending@.len() - before.pending@.len(),
                self.pending@ =~= before.pending@ + Seq::new(
                    taken as nat,
                    |i: int| PendingGuest { started: now },
                ),
                taken > 0 ==> self.pending@.len() <= free@.len(),
                *self == (Player { pending: self.pending, ..before }),
            decreases arrivals - taken,
        {
            self.pending.push(PendingGuest { started: now });
            taken += 1;
        }
        assert(open.len() == free@.len());
        taken
    }

    /// Whether a connection has taken too long to introduce itself.
    pub fn pending_timed_out(&self, index: usize, now: u64) -> (r: bool)
        requires
            index < self.pending@.len(),
        ensures
            r == (now - self.pending@[index as int].started >= 900_000),
    {
        now.saturating_sub(self.pending[index].started) >= SETUP_TIMEOUT
    }

    /// A connection has left, timed out, or been given a seat or a refusal.
    pub fn drop_pending(&mut self, index: usize)
        requires
            old(self).wf(),
            index < old(self).pending@.len(),
        ensures
            final(self).wf(),
            final(self).pending@ == old(self).pending@.remove(index as int),
            *final(self) == (Player { pending: final(self).pending, ..*old(self) }),
    {
        self.pending.remove(index);
    }
}

/// The seat a newcomer gets: the one it wants, or else the lowest free port.
pub open spec fn lowest_free<T: Transport>(c: Connection<T>, seat: int) -> bool {
    &&& c.is_free(seat)
    &&& forall|p: int| #[trigger] c.is_free(p) ==> seat <= p
}

impl<T: Transport> Player<T> {
    /// Why a newcomer is turned away.
    pub open spec fn seat_refusal(self, message: Message, version: Seq<char>) -> Option<
        SessionError,
    > {
        match message {
            Message::Hello { build, player } => if build@ != version {
                Some(SessionError::DifferentBuild)
            } else {
                match player {
                    Some(wanted) => if !self.connection.is_free(wanted as int) {
                        Some(SessionError::PortTaken { player: wanted })
                    } else if self.connection.rollback.current != 0 {
                        Some(SessionError::Connection(ConnectionError::GameStarted))
                    } else {
                        None
                    },
                    None => if forall|p: int| !#[trigger] self.connection.is_free(p) {
                        Some(SessionError::SessionFull)
                    } else if self.connection.rollback.current != 0 {
                        Some(SessionError::Connection(ConnectionError::GameStarted))
                    } else {
                        None
                    },
                }
            },
            _ => Some(SessionError::MustIntroduce),
        }
    }

    /// The port that a newcomer takes, or why it is turned away.
    pub fn seat_for(&self, message: &Message, version: &str) -> (r: Result<usize, SessionError>)
        requires
            self.wf(),
        ensures
            r is Ok <==> self.seat_refusal(*message, version@) is None,
            r matches Err(e) ==> self.seat_refusal(*message, version@) == Some(e),
            r matches Ok(seat) ==> {
                &&& message matches Message::Hello { player, .. } && match player {
                    Some(wanted) => seat == wanted,
                    None => lowest_free(self.connection, seat as int),
                }
                &&& self.connection.is_free(seat as int)
            },
    {
        let (build, player) = match message {
            Message::Hello { build, player } => (build, *player),
            _ => {
                return Err(SessionError::MustIntroduce);
            },
        };
        let theirs = chars_of(build.as_str());
        let ours = chars_of(version);
        if !same_chars(theirs.as_slice(), ours.as_slice()) {
            return Err(SessionError::DifferentBuild);
        }
        let free = self.connection.free_players();
        let seat: usize = match player {
            Some(wanted) => {
                let mut i: usize = 0;
                while i < free.len() && free[i] != wanted
                    invariant
                        i <= free@.len(),
                        forall|j: int| 0 <= j < i ==> free@[j] != wanted,
                    decreases free@.len() - i,
                {
                    i += 1;
                }
                if i == free.len() {
                    assert(!free@.contains(wanted));
                    return Err(SessionError::PortTaken { player: wanted });
                }
                assert(free@.contains(wanted)) by {
                    assert(free@[i as int] == wanted);
                }
                wanted
            },
            None => {
                if free.len() == 0 {
                    assert forall|p: int| !#[trigger] self.connection.is_free(p) by {
                        if self.connection.is_free(p) {
                            assert(free@.contains(p as usize));
                        }
                    }
                    return Err(SessionError::SessionFull);
                }
                proof {
                    assert(free@.contains(free@[0]));
                    assert forall|p: int| #[trigger] self.connection.is_free(p) implies free@[0]
                        <= p by {
                        assert(free@.contains(p as usize));
                    }
                }
                free[0]
            },
        };
        assert(self.connection.is_free(seat as int));
        if self.connection.rollback.current != 0 {
            return Err(SessionError::Connection(ConnectionError::GameStarted));
        }
        Ok(seat)
    }

    /// Seat a newcomer that has introduced itself, and hand it the setup. A
    /// caller that cannot be seated is turned away on its own link: nothing
    /// a stranger sends ends the game for the players.
    pub fn seat_guest(
        &mut self,
        message: &Message,
        transport: T,
        version: &str,
        now: u64,
        out: &mut Vec<Action>,
    ) -> (r: Result<usize, SessionError>)
        requires
            old(self).wf(),
            old(self).role == Role::Host,
        ensures
            final(self).wf(),
            r is Ok <==> old(self).seat_refusal(*message, version@) is None,
            r matches Err(e) ==> old(self).seat_refusal(*message, version@) == Some(e)
                && *final(self) == *old(self) && final(out)@ == old(out)@,
            r matches Ok(seat) ==> {
                let settings = old(self).connection.settings;
                &&& message matches Message::Hello { player, .. } && match player {
                    Some(wanted) => seat == wanted,
                    None => lowest_free(old(self).connection, seat as int),
                }
                &&& old(self).connection.is_free(seat as int)
                &&& final(self).connection.links@.len() == old(self).connection.links@.len() + 1
                &&& final(self).connection.links@.drop_last() == old(self).connection.links@
                &&& final(self).connection.links@.last().is_new(seat, transport, now)
                &&& final(self).guests@ == old(self).guests@.push(
                    GuestState { player: seat, phase: GuestPhase::AwaitVerified },
                )
                &&& final(self).connection == (Connection {
                    links: final(self).connection.links,
                    ..old(self).connection
                })
                &&& *final(self) == (Player {
                    connection: final(self).connection,
                    guests: final(self).guests,
                    progress: Some(Progress::SendingSetup { player: seat }),
                    ..*old(self)
                })
                &&& final(out)@ == old(out)@ + seq![
                    Action::Send {
                        to: seat,
                        message: Message::Offer {
                            delay: settings.input_delay,
                            window: settings.rollback_frames,
                            players: settings.players,
                            player: seat,
                        },
                    },
                    Action::SendBundle { to: seat },
                ]
            },
    {
        let ghost before = *self;
        let ghost begun = out@;
        let seat: usize = match self.seat_for(message, version) {
            Ok(seat) => seat,
            Err(e) => {
                return Err(e);
            },
        };
        proof {
            lemma_room_for_free_port(self.connection, seat as int);
        }
        match self.connection.add_link(seat, transport, now) {
            Ok(_) => {},
            Err(e) => {
                return Err(SessionError::Connection(e));
            },
        }
        self.guests.push(GuestState { player: seat, phase: GuestPhase::AwaitVerified });
        proof {
            assert forall|i: int| 0 <= i < self.guests@.len() implies (
            #[trigger] self.guests@[i]).player == self.connection.links@[i].player by {
                if i < before.guests@.len() {
                    assert(before.guests@[i].player == before.connection.links@[i].player);
                    assert(self.connection.links@[i] == before.connection.links@[i]);
                }
            }
        }
        out.push(
            Action::Send {
                to: seat,
                message: Message::Offer {
                    delay: self.connection.settings.input_delay,
                    window: self.connection.settings.rollback_frames,
                    players: self.connection.settings.players,
                    player: seat,
                },
            },
        );
        out.push(Action::SendBundle { to: seat });
        self.progress = Some(Progress::SendingSetup { player: seat });
        Ok(seat)
    }
}

impl<T: Transport> Player<T> {
    /// A host that sends game packets before its offer does not transfer
    /// setups.
    pub fn check_host(&self, game_packets: bool) -> (r: Result<(), SessionError>)
        ensures
            r is Err <==> self.phase == Phase::GuestOffer && game_packets,
            r matches Err(e) ==> e == SessionError::PeerWithoutSetup,
    {
        if matches!(self.phase, Phase::GuestOffer) && game_packets {
            return Err(SessionError::PeerWithoutSetup);
        }
        Ok(())
    }

    /// Whether the game may run on: nobody steps past the frame everyone
    /// stops at.
    pub open spec fn may_advance(self, advance: bool) -> bool {
        advance && (self.swap matches Some(swap) ==> self.connection.rollback.current < swap.stop)
    }

    /// Waiting for the setup to end: `received` bytes of it have arrived.
    pub open spec fn waits_to(self, after: Self, received: u64, now: u64) -> bool {
        let report = self.phase == Phase::GuestBundle && now - self.last_progress
            > PROGRESS_INTERVAL;
        after == Player {
            connection: Connection { started: now, ..self.connection },
            progress: if report {
                Some(Progress::ReceivingFiles { kib: received / 1024 })
            } else {
                self.progress
            },
            last_progress: if report {
                now
            } else {
                self.last_progress
            },
            ..self
        }
    }

    /// What one step does. A session in setup waits; a running one steps its
    /// timeline and then sees to a disk change.
    pub open spec fn steps_to<M: Machine>(
        self,
        machine: M,
        input: LocalInput,
        advance: bool,
        received: u64,
        now: u64,
        after: Self,
        machine_after: M,
        input_after: LocalInput,
        begun: Seq<Action>,
        done: Seq<Action>,
        r: Result<bool, SessionError>,
    ) -> bool {
        if self.phase != Phase::Running {
            &&& machine_after == machine
            &&& input_after == input
            &&& if now - self.started >= SETUP_TIMEOUT {
                &&& r == Err::<bool, SessionError>(SessionError::SetupTimedOut)
                &&& after == self
                &&& done == begun
            } else {
                &&& r == Ok::<bool, SessionError>(false)
                &&& self.waits_to(after, received, now)
                &&& done == begun
            }
        } else {
            exists|mid: Self, stepped: Result<bool, ConnectionError>|
                {
                    &&& mid == Player { connection: mid.connection, ..self }
                    &&& #[trigger] self.connection.stepped_to::<M>(
                        machine,
                        input,
                        self.may_advance(advance),
                        now,
                        mid.connection,
                        machine_after,
                        input_after,
                        stepped,
                    )
                    &&& match stepped {
                        Err(e) => {
                            &&& r == Err::<bool, SessionError>(SessionError::Connection(e))
                            &&& after == mid
                            &&& done == begun
                        },
                        Ok(ran) => mid.served_to::<M>(machine_after, now, after, begun, done, ran, r),
                    }
                }
        }
    }

    /// Seeing to a disk change once the timeline has been stepped.
    pub open spec fn served_to<M: Machine>(
        self,
        machine: M,
        now: u64,
        after: Self,
        begun: Seq<Action>,
        done: Seq<Action>,
        ran: bool,
        r: Result<bool, SessionError>,
    ) -> bool {
        exists|served: Result<(), SessionError>| #[trigger]
            self.swap_serviced::<M>(machine, now, after, begun, done, served) && r == (
            match served {
                Ok(_) => Ok::<bool, SessionError>(ran),
                Err(e) => Err::<bool, SessionError>(e),
            })
    }

    /// One step of the session, once its messages are read.
    pub fn step<M: Machine>(
        &mut self,
        machine: &mut M,
        input: &mut LocalInput,
        advance: bool,
        received: u64,
        now: u64,
        out: &mut Vec<Action>,
    ) -> (r: Result<bool, SessionError>)
        requires
            old(self).wf(),
            old(self).connection.rollback.current < FRAME_LIMIT,
        ensures
            final(self).wf(),
            r is Err ==> final(out)@ == old(out)@,
            old(self).steps_to::<M>(
                *old(machine),
                *old(input),
                advance,
                received,
                now,
                *final(self),
                *final(machine),
                *final(input),
                old(out)@,
                final(out)@,
                r,
            ),
    {
        if !matches!(self.phase, Phase::Running) {
            if now.saturating_sub(self.started) >= SETUP_TIMEOUT {
                return Err(SessionError::SetupTimedOut);
            }
            self.connection.started = now;
            if matches!(self.phase, Phase::GuestBundle) && now.saturating_sub(self.last_progress)
                > PROGRESS_INTERVAL {
                self.progress = Some(Progress::ReceivingFiles { kib: received / 1024 });
                self.last_progress = now;
            }
            return Ok(false);
        }
        let mut may: bool = advance;
        if let Some(swap) = &self.swap {
            may = advance && self.connection.status().frame < swap.stop;
        }
        assert(may == old(self).may_advance(advance));
        let stepped = self.connection.step_local(machine, input, may, now);
        let ghost mid = *self;
        assert(mid == (Player { connection: mid.connection, ..*old(self) }));
        assert(mid.wf());
        assert(old(self).connection.stepped_to::<M>(
            *old(machine),
            *old(input),
            old(self).may_advance(advance),
            now,
            mid.connection,
            *machine,
            *input,
            stepped,
        ));
        let ran: bool = match stepped {
            Ok(ran) => ran,
            Err(e) => {
                return Err(SessionError::Connection(e));
            },
        };
        let served = self.service_swap(&*machine, now, out);
        assert(mid.swap_serviced::<M>(*machine, now, *self, old(out)@, out@, served));
        let r: Result<bool, SessionError> = match served {
            Ok(_) => Ok(ran),
            Err(e) => Err(e),
        };
        assert(mid.served_to::<M>(*machine, now, *self, old(out)@, out@, ran, r));
        r
    }
}

} // verus!
