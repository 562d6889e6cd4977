//! One participant's timeline and the links that feed it.
use vstd::prelude::*;
use crate::bytes::{copy_range, same_bytes};
use crate::netplay::config::{machine_identity, validate_player_ports, ColdMachine, Config,
    ConfigError};
use crate::netplay::digest::{digest, sha256};
use crate::netplay::feed::{Feed, FeedError, SwapRecord};
use crate::netplay::input::{pending, Input, LocalInput, MAX_PLAYERS};
use crate::netplay::machine::{frames_shown, Machine, MachineError};
use crate::netplay::report::{
    entry_acceptable, in_record_order, law_reports_pass_the_version_check, lemma_image_carries, precedes,
    report_image, Report, MAX_INPUTS, MAX_PACKET,
};
use crate::netplay::rollback::{
    law_each_frame_is_shown_once, save_fails, ConfirmedLog, Rollback, RollbackError, FRAME_LIMIT,
};
use crate::netplay::settings::{Settings, SettingsError, Status};
use crate::netplay::timeline::{
    has_frame, is_newest_until, lemma_newest_until, newest_until, Timeline,
};
use crate::netplay::transport::{LinkEvent, Transport, TransportError};

verus! {

/// Packets one service call may send to one link. Redundant unacknowledged
/// inputs for three other ports can outgrow a single datagram.
pub const MAX_SEND_PACKETS: usize = 4;

/// Packets one service call reads from one link, so that window input stays
/// responsive under a burst.
pub const RECEIVE_BUDGET: usize = 64;

/// Milliseconds of silence after which a running peer is given up.
pub const PEER_TIMEOUT: u64 = 10_000;

/// Milliseconds the first packets may take.
pub const CONNECT_TIMEOUT: u64 = 60_000;

/// Milliseconds between two unforced packets.
pub const RESEND: u64 = 10;

/// Why a session stopped, or an operation was refused.
#[derive(Clone, Copy, Debug, PartialEq, Eq, Structural)]
pub enum ConnectionError {
    Settings(SettingsError),
    Config(ConfigError),
    /// A transport failed, of itself, while a packet was read from it, or while
    /// one was handed to it.
    Transport(TransportError),
    Receiving(TransportError),
    Sending(TransportError),
    Rollback(RollbackError),
    Feed(FeedError),
    Machine(MachineError),
    /// A host with more than two players holds one link per guest.
    OneLinkPerGuest,
    /// Players must all join before the game starts.
    GameStarted,
    /// The port is not another player's of this session.
    NotInSession { player: usize },
    /// The port already has a player.
    PortTaken { player: usize },
    SessionFull,
    /// A peer of this session uses another datagram version.
    Version,
    /// A packet claims another port than its link's.
    ForeignPort { claimed: usize, player: usize },
    SettingsDiffer,
    /// The peers did not start from the same machine.
    MachineMismatch,
    /// A guest submitted input for a port that is not its own.
    ForeignInput { player: usize, port: usize },
    /// The host sent this player its own input back.
    Echo,
    ChecksumTooFarAhead,
    InvalidLocalInput,
    PlayerTimedOut { player: usize },
    ConnectTimedOut,
    Desynchronized { player: usize, frame: u64 },
    /// Spectator history must start at frame zero.
    LateFeed,
    /// The session has failed before.
    Failed,
    /// The frame is not confirmed by every player.
    NotConfirmed,
}

/// One peer's link. A guest holds a single link to the host; the host holds
/// one per guest and relays between them.
pub struct Link<T> {
    pub player: usize,
    pub transport: T,
    /// A valid packet has arrived from this peer.
    pub seen: bool,
    /// The peer reports that it has everyone it is waiting for.
    pub ready: bool,
    /// What this peer still needs from each player.
    pub acks: [u64; MAX_PLAYERS],
    pub last_received: u64,
    pub last_sent: Option<u64>,
}

impl<T> Link<T> {
    /// Nothing has come over the link yet.
    pub open spec fn is_new(self, player: usize, transport: T, now: u64) -> bool {
        &&& self.player == player
        &&& self.transport == transport
        &&& !self.seen
        &&& !self.ready
        &&& forall|p: int| 0 <= p < MAX_PLAYERS ==> #[trigger] self.acks[p] == 0
        &&& self.last_received == now
        &&& self.last_sent is None
    }
}

/// A peer of a session: its links, its timeline, and what it has been told.
pub struct Connection<T: Transport> {
    pub links: Vec<Link<T>>,
    pub settings: Settings,
    pub identity: [u8; 32],
    pub rollback: Rollback,
    pub connected: bool,
    pub started: u64,
    /// Digests the peers reported, by frame and then by player.
    pub peer_hashes: Timeline<[Option<[u8; 32]>; MAX_PLAYERS]>,
    pub last_checked: u64,
    pub failure: Option<ConnectionError>,
    pub feed: Option<Feed>,
}

/// A timeline set up for these settings.
pub open spec fn timeline_of(rollback: Rollback, settings: Settings) -> bool {
    &&& rollback.player == settings.player
    &&& rollback.players == settings.players
    &&& rollback.delay == settings.input_delay
    &&& rollback.window == settings.rollback_frames
}

/// Only bits that controllers and mice have.
pub open spec fn input_valid(input: Input) -> bool {
    input.buttons <= Input::BUTTONS && input.mouse_buttons <= 7
}

/// Every retained input is one a controller can produce.
pub open spec fn inputs_valid(rollback: Rollback) -> bool {
    forall|p: int, f: u64|
        #![trigger rollback.held(p).contains_key(f)]
        0 <= p < rollback.players && rollback.held(p).contains_key(f) ==> input_valid(
            rollback.held(p)[f],
        )
}

impl<T: Transport> Connection<T> {
    /// The links are those of distinct other players, and no more than a
    /// complete session has.
    pub open spec fn links_ok(self) -> bool {
        &&& self.settings.valid()
        &&& timeline_of(self.rollback, self.settings)
        &&& self.links@.len() <= self.settings.spec_expected_links()
        &&& forall|i: int|
            #![trigger self.links@[i]]
            0 <= i < self.links@.len() ==> self.links@[i].player < self.settings.players
                && self.links@[i].player != self.settings.player
        &&& forall|i: int, j: int|
            0 <= i < j < self.links@.len() ==> (#[trigger] self.links@[i]).player
                != (#[trigger] self.links@[j]).player
        &&& self.peer_hashes.wf()
    }

    /// The feed continues where the timeline's log begins.
    pub open spec fn feed_ok(self) -> bool {
        match (self.feed, self.rollback.log) {
            (None, None) => true,
            (Some(feed), Some(log)) => feed.wf() && (feed.overrun || feed.frames@.len()
                + log.inputs@.len() == self.rollback.confirmed),
            _ => false,
        }
    }

    /// The timeline is sound, and at rest nothing waits to be replayed.
    pub open spec fn timeline_ok(self) -> bool {
        &&& self.rollback.wf()
        &&& self.rollback.reconciled()
        &&& self.rollback.within_window()
        &&& !self.connected ==> self.rollback.current == 0
        &&& self.feed_ok()
        &&& inputs_valid(self.rollback)
    }

    pub open spec fn wf(self) -> bool {
        self.links_ok() && (self.failure is None ==> self.timeline_ok())
    }

    /// The link of a player; the number of links where there is none.
    pub open spec fn link_index(self, player: int) -> int {
        if exists|i: int| 0 <= i < self.links@.len() && (#[trigger] self.links@[i]).player == player {
            choose|i: int| 0 <= i < self.links@.len() && (#[trigger] self.links@[i]).player == player
        } else {
            self.links@.len() as int
        }
    }

    /// Whether a port of another player has no link yet.
    pub open spec fn is_free(self, player: int) -> bool {
        &&& 0 <= player < self.settings.players
        &&& player != self.settings.player
        &&& self.link_index(player) == self.links@.len()
    }

    fn find(&self, player: usize) -> (r: usize)
        requires
            self.links_ok(),
        ensures
            r == self.link_index(player as int),
            r <= self.links@.len(),
            r < self.links@.len() ==> self.links@[r as int].player == player,
            r == self.links@.len() ==> forall|i: int|
                0 <= i < self.links@.len() ==> (#[trigger] self.links@[i]).player != player,
    {
        let mut i: usize = 0;
        while i < self.links.len()
            invariant
                self.links_ok(),
                i <= self.links@.len(),
                forall|j: int| 0 <= j < i ==> (#[trigger] self.links@[j]).player != player,
            decreases self.links@.len() - i,
        {
            if self.links[i].player == player {
                assert(self.links@[i as int].player == player);
                return i;
            }
            i += 1;
        }
        i
    }

    /// Why these settings and this machine cannot start a session.
    pub open spec fn start_refusal(
        settings: Settings,
        machine: ColdMachine,
        cfg: Config,
        blocked: bool,
    ) -> Option<ConnectionError> {
        if settings.refusal() is Some {
            Some(ConnectionError::Settings(settings.refusal()->0))
        } else if machine.refusal(cfg, blocked) is Some {
            Some(ConnectionError::Config(machine.refusal(cfg, blocked)->0))
        } else if exists|p: int| crate::netplay::config::socket_without_joystick(
            machine.devices@,
            settings.players as int,
            p,
        ) {
            let p = choose|p: int| crate::netplay::config::socket_without_joystick(
                machine.devices@,
                settings.players as int,
                p,
            );
            Some(ConnectionError::Config(ConfigError::AdapterSocket { player: p as usize }))
        } else {
            None
        }
    }

    /// A connection that nothing has come over yet.
    pub open spec fn begins(self, settings: Settings, identity: Seq<u8>, now: u64) -> bool {
        &&& self.settings == settings
        &&& self.identity@ == identity
        &&& self.rollback.is_fresh(
            settings.player,
            settings.players,
            settings.input_delay,
            settings.rollback_frames,
        )
        &&& self.peer_hashes@ == Map::<u64, [Option<[u8; 32]>; MAX_PLAYERS]>::empty()
        &&& !self.connected
        &&& self.started == now
        &&& self.last_checked == 0
        &&& self.failure is None
    }

    /// A peer whose links are added as the other players arrive.
    pub fn without_links(
        settings: Settings,
        machine: &ColdMachine,
        cfg: &Config,
        blocked: bool,
        build: &[u8],
        now: u64,
    ) -> (r: Result<Self, ConnectionError>)
        requires
            machine.devices@.len() >= MAX_PLAYERS,
        ensures
            r is Ok <==> Self::start_refusal(settings, *machine, *cfg, blocked) is None,
            r matches Err(e) ==> Self::start_refusal(settings, *machine, *cfg, blocked) == Some(e),
            r matches Ok(c) ==> {
                &&& c.wf()
                &&& c.begins(settings, sha256(build@ + machine.snapshot@), now)
                &&& c.links@.len() == 0
                &&& c.feed is None
                &&& c.rollback.log is None
            },
    {
        match settings.validate() {
            Ok(_) => {},
            Err(e) => return Err(ConnectionError::Settings(e)),
        }
        let identity = match machine_identity(machine, cfg, blocked, build) {
            Ok(identity) => identity,
            Err(e) => return Err(ConnectionError::Config(e)),
        };
        match validate_player_ports(machine.devices.as_slice(), settings.players) {
            Ok(_) => {},
            Err(e) => {
                proof {
                    if let ConfigError::AdapterSocket { player } = e {
                        lemma_one_socket(machine.devices@, settings.players as int, player as int);
                    }
                }
                return Err(ConnectionError::Config(e));
            },
        }
        let rollback = Rollback::new(
            settings.player,
            settings.players,
            settings.input_delay,
            settings.rollback_frames,
        );
        Ok(
            Connection {
                links: Vec::new(),
                settings,
                identity,
                rollback,
                connected: false,
                started: now,
                peer_hashes: Timeline::new(),
                last_checked: 0,
                failure: None,
                feed: None,
            },
        )
    }

    /// Why another player's link cannot be added.
    pub open spec fn link_refusal(self, player: usize) -> Option<ConnectionError> {
        if self.rollback.current != 0 {
            Some(ConnectionError::GameStarted)
        } else if player >= self.settings.players || player == self.settings.player {
            Some(ConnectionError::NotInSession { player })
        } else if self.link_index(player as int) < self.links@.len() {
            Some(ConnectionError::PortTaken { player })
        } else if self.links@.len() >= self.settings.spec_expected_links() {
            Some(ConnectionError::SessionFull)
        } else {
            None
        }
    }

    /// Admit another player's link. Every player must be present before the
    /// first frame: the timeline has no way to seat a latecomer.
    pub fn add_link(&mut self, player: usize, transport: T, now: u64) -> (r: Result<
        (),
        ConnectionError,
    >)
        requires
            old(self).wf(),
        ensures
            final(self).wf(),
            r is Ok <==> old(self).link_refusal(player) is None,
            r matches Err(e) ==> old(self).link_refusal(player) == Some(e) && *final(self)
                == *old(self),
            !old(self).is_free(player as int) ==> r is Err,
            r is Ok ==> {
                &&& final(self).links@.len() == old(self).links@.len() + 1
                &&& forall|i: int|
                    0 <= i < old(self).links@.len() ==> #[trigger] final(self).links@[i]
                        == old(self).links@[i]
                &&& final(self).links@.last().is_new(player, transport, now)
                &&& *final(self) == (Connection { links: final(self).links, ..*old(self) })
            },
    {
        if self.rollback.current != 0 {
            return Err(ConnectionError::GameStarted);
        }
        if player >= self.settings.players || player == self.settings.player {
            return Err(ConnectionError::NotInSession { player });
        }
        if self.find(player) < self.links.len() {
            return Err(ConnectionError::PortTaken { player });
        }
        if self.links.len() >= self.settings.expected_links() {
            return Err(ConnectionError::SessionFull);
        }
        self.links.push(
            Link {
                player,
                transport,
                seen: false,
                ready: false,
                acks: [0u64; MAX_PLAYERS],
                last_received: now,
                last_sent: None,
            },
        );
        Ok(())
    }

    /// A complete two-player session, or a guest's single link to the host.
    pub fn with_transport(
        settings: Settings,
        transport: T,
        machine: &ColdMachine,
        cfg: &Config,
        blocked: bool,
        build: &[u8],
        now: u64,
    ) -> (r: Result<Self, ConnectionError>)
        requires
            machine.devices@.len() >= MAX_PLAYERS,
        ensures
            settings.player == 0 && settings.players != 2 ==> r matches Err(
                ConnectionError::OneLinkPerGuest,
            ),
            !(settings.player == 0 && settings.players != 2) ==> {
                &&& r is Ok <==> Self::start_refusal(settings, *machine, *cfg, blocked) is None
                &&& r matches Err(e) ==> Self::start_refusal(settings, *machine, *cfg, blocked)
                    == Some(e)
            },
            r matches Ok(c) ==> {
                &&& c.wf()
                &&& c.begins(settings, sha256(build@ + machine.snapshot@), now)
                &&& c.feed is None
                &&& c.rollback.log is None
                &&& c.links@.len() == 1
                &&& c.links@[0].is_new(
                    if settings.player == 0 {
                        1
                    } else {
                        0
                    },
                    transport,
                    now,
                )
            },
    {
        let peer: usize = if settings.hosting() {
            1
        } else {
            0
        };
        if settings.hosting() && settings.players != 2 {
            return Err(ConnectionError::OneLinkPerGuest);
        }
        match Self::without_links(settings, machine, cfg, blocked, build, now) {
            Ok(connection) => {
                let mut connection = connection;
                match connection.add_link(peer, transport, now) {
                    Ok(_) => Ok(connection),
                    Err(e) => Err(e),
                }
            },
            Err(e) => Err(e),
        }
    }

    /// Ports still waiting for a player, lowest first.
    pub fn free_players(&self) -> (r: Vec<usize>)
        requires
            self.links_ok(),
        ensures
            forall|i: int, j: int| 0 <= i < j < r@.len() ==> r@[i] < r@[j],
            forall|p: usize| #[trigger] r@.contains(p) <==> self.is_free(p as int),
            r@.len() + self.links@.len() == self.settings.players - 1,
    {
        let mut r: Vec<usize> = Vec::new();
        let mut p: usize = 0;
        while p < self.settings.players
            invariant
                self.links_ok(),
                p <= self.settings.players,
                forall|i: int| 0 <= i < r@.len() ==> #[trigger] r@[i] < p,
                forall|i: int, j: int| 0 <= i < j < r@.len() ==> r@[i] < r@[j],
                forall|q: usize| #[trigger] r@.contains(q) <==> q < p && self.is_free(q as int),
            decreases self.settings.players - p,
        {
            let ghost before = r@;
            let free = p != self.settings.player && self.find(p) == self.links.len();
            if free {
                r.push(p);
            }
            proof {
                assert forall|q: usize| #[trigger] r@.contains(q) <==> q < p + 1 && self.is_free(
                    q as int,
                ) by {
                    if r@.contains(q) && free {
                        let i = choose|i: int| 0 <= i < r@.len() && r@[i] == q;
                        if i < before.len() {
                            assert(before[i] == q);
                            assert(before.contains(q));
                        }
                    }
                    if before.contains(q) && free {
                        let i = choose|i: int| 0 <= i < before.len() && before[i] == q;
                        assert(r@[i] == q);
                    }
                    if q == p && free {
                        assert(r@[before.len() as int] == q);
                    }
                }
            }
            p += 1;
        }
        proof {
            law_every_port_is_free_or_linked(*self, r@);
        }
        r
    }

    pub fn link(&self, player: usize) -> (r: Option<&T>)
        requires
            self.links_ok(),
        ensures
            match r {
                Some(t) => self.link_index(player as int) < self.links@.len() && *t
                    == self.links@[self.link_index(player as int)].transport,
                None => self.link_index(player as int) == self.links@.len(),
            },
    {
        let i: usize = self.find(player);
        if i < self.links.len() {
            Some(&self.links[i].transport)
        } else {
            None
        }
    }

    pub fn player(&self) -> (r: usize)
        ensures
            r == self.settings.player,
    {
        self.settings.player
    }

    pub fn players(&self) -> (r: usize)
        ensures
            r == self.settings.players,
    {
        self.settings.players
    }

    pub fn identity(&self) -> (r: [u8; 32])
        ensures
            r == self.identity,
    {
        self.identity
    }

    pub open spec fn spec_status(self) -> Status {
        Status {
            connected: self.connected,
            frame: self.rollback.current,
            confirmed_frame: self.rollback.confirmed,
            acknowledged_frame: self.rollback.spec_ack_frontier(),
            rollbacks: self.rollback.rollbacks,
            replayed_frames: self.rollback.replayed_frames,
            checked_frame: self.last_checked,
            behind: 0,
        }
    }

    pub fn status(&self) -> (r: Status)
        requires
            self.links_ok(),
        ensures
            r == self.spec_status(),
    {
        Status {
            connected: self.connected,
            frame: self.rollback.current,
            confirmed_frame: self.rollback.confirmed,
            acknowledged_frame: self.rollback.ack_frontier(),
            rollbacks: self.rollback.rollbacks,
            replayed_frames: self.rollback.replayed_frames,
            checked_frame: self.last_checked,
            behind: 0,
        }
    }
}

impl<T: Transport> Connection<T> {
    /// How the first link reaches its peer.
    pub fn route(&self) -> (r: &'static str)
        ensures
            self.links@.len() == 0 ==> r@ == "connecting"@,
            self.links@.len() > 0 ==> call_ensures(
                T::route,
                (&self.links@[0].transport,),
                r,
            ),
    {
        if self.links.len() == 0 {
            "connecting"
        } else {
            self.links[0].transport.route()
        }
    }

    pub fn link_mut(&mut self, player: usize) -> (r: Option<&mut T>)
        requires
            old(self).links_ok(),
        ensures
            ({
                let i = old(self).link_index(player as int);
                match r {
                    None => i == old(self).links@.len() && *final(self) == *old(self),
                    Some(t) => {
                        &&& i < old(self).links@.len()
                        &&& *t == old(self).links@[i].transport
                        &&& final(self).links@ == old(self).links@.update(
                            i,
                            Link { transport: *final(t), ..old(self).links@[i] },
                        )
                        &&& *final(self) == (Connection {
                            links: final(self).links,
                            ..*old(self)
                        })
                    },
                }
            }),
    {
        let i: usize = self.find(player);
        if i < self.links.len() {
            Some(&mut self.links[i].transport)
        } else {
            None
        }
    }

    /// Every peer's link, in the order they joined.
    pub fn links_mut(&mut self) -> (r: &mut [Link<T>])
        ensures
            r@ == old(self).links@,
            final(self).links@ == final(r)@,
            *final(self) == (Connection { links: final(self).links, ..*old(self) }),
    {
        self.links.as_mut_slice()
    }

    /// Every peer's link, in the order they joined.
    pub fn transports(&self) -> (r: &[Link<T>])
        ensures
            r@ == self.links@,
    {
        self.links.as_slice()
    }

    /// The only link of a two-player peer, which the browser owns directly.
    pub fn transport_mut(&mut self) -> (r: &mut T)
        requires
            old(self).links@.len() > 0,
        ensures
            *r == old(self).links@[0].transport,
            final(self).links@ == old(self).links@.update(
                0,
                Link { transport: *final(r), ..old(self).links@[0] },
            ),
            *final(self) == (Connection { links: final(self).links, ..*old(self) }),
    {
        &mut self.links[0].transport
    }

    /// Retain the confirmed history for spectators. Must precede the first
    /// frame so late joiners can replay from cold boot.
    pub fn enable_feed(&mut self, limit: usize) -> (r: Result<(), ConnectionError>)
        requires
            old(self).wf(),
        ensures
            final(self).wf(),
            old(self).rollback.current != 0 || old(self).rollback.confirmed != 0 ==> r == Err::<
                (),
                ConnectionError,
            >(ConnectionError::LateFeed) && *final(self) == *old(self),
            old(self).rollback.current == 0 && old(self).rollback.confirmed == 0 ==> {
                &&& r is Ok
                &&& (final(self).feed matches Some(feed) && feed.limit == limit && feed.players
                    == old(self).settings.players && feed.frames@.len() == 0 && !feed.overrun)
                &&& (final(self).rollback.log matches Some(log) && log.inputs@.len() == 0
                    && log.hashes@.len() == 0)
                &&& *final(self) == (Connection {
                    feed: final(self).feed,
                    rollback: Rollback {
                        log: final(self).rollback.log,
                        ..old(self).rollback
                    },
                    ..*old(self)
                })
            },
    {
        if self.rollback.current != 0 || self.rollback.confirmed != 0 {
            return Err(ConnectionError::LateFeed);
        }
        self.rollback.log = Some(ConfirmedLog { inputs: Vec::new(), hashes: Vec::new() });
        self.feed = Some(Feed::new(limit, self.settings.players));
        proof {
            if self.failure is None {
                crate::netplay::rollback::lemma_wf_apart_from_relay_and_log(
                    old(self).rollback,
                    self.rollback,
                );
            }
        }
        Ok(())
    }

    pub fn feed(&self) -> (r: Option<&Feed>)
        ensures
            match r {
                Some(feed) => self.feed == Some(*feed),
                None => self.feed is None,
            },
    {
        self.feed.as_ref()
    }

    /// What moving the timeline's log into the feed changes.
    pub open spec fn drains_to(self, after: Self) -> bool {
        match (self.feed, self.rollback.log) {
            (Some(feed), Some(log)) => {
                &&& (after.rollback.log matches Some(rest) && rest.inputs@.len() == 0
                    && rest.hashes@.len() == 0)
                &&& (after.feed matches Some(fed) && feed.takes(log, fed))
                &&& after == Connection {
                    feed: after.feed,
                    rollback: Rollback { log: after.rollback.log, ..self.rollback },
                    ..self
                }
            },
            _ => after == self,
        }
    }

    /// Move what was confirmed since the last call into the feed.
    fn drain_feed(&mut self) -> (r: Result<(), ConnectionError>)
        requires
            old(self).links_ok(),
            old(self).rollback.wf(),
            old(self).feed_ok(),
        ensures
            r is Ok,
            final(self).links_ok(),
            final(self).rollback.wf(),
            final(self).feed_ok(),
            old(self).drains_to(*final(self)),
    {
        let ghost before = *self;
        if self.feed.is_none() {
            return Ok(());
        }
        let log = match self.rollback.log.take() {
            Some(log) => log,
            None => ConfirmedLog { inputs: Vec::new(), hashes: Vec::new() },
        };
        let mut feed = match self.feed.take() {
            Some(feed) => feed,
            None => Feed::new(0, 0),
        };
        let ghost feed_before = feed;
        let mut i: usize = 0;
        while i < log.inputs.len()
            invariant
                before.rollback.log == Some(log),
                before.feed == Some(feed_before),
                before.rollback.wf(),
                before.feed_ok(),
                i <= log.inputs@.len(),
                feed.wf(),
                feed_before.takes_frames(log.inputs@.take(i as int), feed),
            decreases log.inputs@.len() - i,
        {
            let entry = log.inputs[i];
            proof {
                let f = before.rollback.confirmed - log.inputs@.len() + i;
                assert(log.inputs@[i as int].0 == f);
                assert(log.inputs@.take(i as int + 1) =~= log.inputs@.take(i as int).push(entry));
            }
            match feed.record_frame(entry.0, entry.1) {
                Ok(_) => {},
                Err(e) => {
                    return Err(ConnectionError::Feed(e));
                },
            }
            i += 1;
            proof {
                assert(feed_before.frames@ + log.inputs@.take(i as int) =~= (feed_before.frames@
                    + log.inputs@.take(i - 1)).push(entry));
                let room = feed_before.limit - feed_before.frames@.len();
                if room < i {
                    assert(log.inputs@.take(i as int).take(room) =~= log.inputs@.take(
                        i - 1,
                    ).take(room));
                    if room == i - 1 {
                        assert(log.inputs@.take(i - 1).take(room) =~= log.inputs@.take(i - 1));
                    }
                }
            }
        }
        assert(log.inputs@.take(i as int) =~= log.inputs@);
        let ghost framed = feed;
        let mut i: usize = 0;
        assert(framed.checkpoints@ + log.hashes@.take(0) =~= framed.checkpoints@);
        while i < log.hashes.len()
            invariant
                before.rollback.log == Some(log),
                before.feed == Some(feed_before),
                before.rollback.wf(),
                before.feed_ok(),
                i <= log.hashes@.len(),
                feed.wf(),
                framed.wf(),
                feed_before.takes_frames(log.inputs@, framed),
                feed == (Feed { checkpoints: feed.checkpoints, ..framed }),
                feed.checkpoints@ == (if framed.overrun {
                    framed.checkpoints@
                } else {
                    framed.checkpoints@ + log.hashes@.take(i as int)
                }),
            decreases log.hashes@.len() - i,
        {
            let entry = log.hashes[i];
            assert(0 < log.hashes@[i as int].0 <= before.rollback.confirmed);
            match feed.record_checkpoint(entry.0, entry.1) {
                Ok(_) => {},
                Err(e) => {
                    return Err(ConnectionError::Feed(e));
                },
            }
            i += 1;
            assert(log.hashes@.take(i as int) =~= log.hashes@.take(i - 1).push(entry));
            assert(framed.checkpoints@ + log.hashes@.take(i as int) =~= (framed.checkpoints@
                + log.hashes@.take(i - 1)).push(entry));
        }
        assert(log.hashes@.take(i as int) =~= log.hashes@);
        self.feed = Some(feed);
        self.rollback.log = Some(ConfirmedLog { inputs: Vec::new(), hashes: Vec::new() });
        proof {
            crate::netplay::rollback::lemma_wf_apart_from_relay_and_log(
                before.rollback,
                self.rollback,
            );
        }
        Ok(())
    }

    /// A media change stands in the feed behind everything confirmed before
    /// it, unless the feed has overrun.
    pub open spec fn records_swap(self, swap: SwapRecord, after: Self) -> bool {
        match self.feed {
            None => after == self,
            Some(_) => exists|mid: Self| #[trigger]
                self.drains_to(mid) && after == (Connection { feed: after.feed, ..mid }) && (
                mid.feed matches Some(fed) && after.feed matches Some(noted) && if fed.overrun {
                    noted == fed
                } else {
                    &&& noted.swaps@ == fed.swaps@.push(swap)
                    &&& noted == Feed { swaps: noted.swaps, ..fed }
                }),
        }
    }

    /// Record a media change applied at the current confirmed boundary.
    pub fn feed_swap(&mut self, swap: SwapRecord) -> (r: Result<(), ConnectionError>)
        requires
            old(self).wf(),
            old(self).failure is None,
        ensures
            final(self).wf(),
            *final(self) == (Connection {
                feed: final(self).feed,
                rollback: Rollback { log: final(self).rollback.log, ..old(self).rollback },
                ..*old(self)
            }),
            old(self).feed is None ==> r is Ok && *final(self) == *old(self),
            r is Ok <==> (old(self).feed matches Some(feed) ==> feed.limit
                < old(self).rollback.confirmed || feed.overrun || swap.frame
                <= old(self).rollback.confirmed),
            r matches Err(e) ==> e == ConnectionError::Feed(FeedError::NotReached),
            r is Ok ==> old(self).records_swap(swap, *final(self)),
            r is Err ==> old(self).drains_to(*final(self)),
    {
        self.drain_feed()?;
        let ghost mid = *self;
        proof {
            assert(old(self).drains_to(mid));
            lemma_same_inputs_valid(old(self).rollback, mid.rollback);
        }
        let mut feed = match self.feed.take() {
            Some(feed) => feed,
            None => {
                assert(self.feed == old(self).feed);
                return Ok(());
            },
        };
        let r = feed.record_swap(swap);
        self.feed = Some(feed);
        match r {
            Ok(_) => Ok(()),
            Err(e) => Err(ConnectionError::Feed(e)),
        }
    }

    /// A transport-coordinated media change may only touch a fully confirmed
    /// boundary. No retained prediction can subsequently restore older media.
    pub fn confirmed_state_digest<M: Machine>(&self, machine: &M) -> (r: Result<
        [u8; 32],
        ConnectionError,
    >)
        requires
            self.wf(),
        ensures
            self.failure is Some ==> r == Err::<[u8; 32], ConnectionError>(
                ConnectionError::Failed,
            ),
            self.failure is None && !self.spec_status().settled() ==> r == Err::<
                [u8; 32],
                ConnectionError,
            >(ConnectionError::NotConfirmed),
            self.failure is None && self.spec_status().settled() ==> match r {
                Ok(hash) => hash@ == sha256(machine.snapshot()),
                Err(e) => unsaved(*machine, e),
            },
    {
        if self.failure.is_some() {
            return Err(ConnectionError::Failed);
        }
        if !self.status().ready_to_capture() {
            return Err(ConnectionError::NotConfirmed);
        }
        match machine.save() {
            Ok(state) => Ok(digest(state.as_slice())),
            Err(e) => Err(ConnectionError::Machine(e)),
        }
    }
}

/// Every port of another player is free or has a link, and none is both: where
/// `free` are the free ports, they and the links are as many as there are other
/// players.
pub proof fn law_every_port_is_free_or_linked<T: Transport>(
    connection: Connection<T>,
    free: Seq<usize>,
)
    requires
        connection.links_ok(),
        forall|i: int, j: int| 0 <= i < j < free.len() ==> free[i] < free[j],
        forall|p: usize| #[trigger] free.contains(p) <==> connection.is_free(p as int),
    ensures
        free.len() + connection.links@.len() == connection.settings.players - 1,
{
    let links = connection.links@;
    let players = connection.settings.players as int;
    let own = connection.settings.player as int;
    let n = free.len() as int;
    let all = Seq::new(
        1 + free.len() + links.len(),
        |i: int|
            if i == 0 {
                own
            } else if i <= n {
                free[i - 1] as int
            } else {
                links[i - 1 - n].player as int
            },
    );
    assert forall|i: int| 1 <= i <= n implies connection.is_free(#[trigger] all[i]) by {
        assert(free.contains(free[i - 1]));
    }
    assert forall|i: int| n < i < all.len() implies 0 <= #[trigger] all[i] < players && all[i]
        != own && !connection.is_free(all[i]) by {
        assert(links[i - 1 - n].player == all[i]);
    }
    assert(all.no_duplicates()) by {
        assert forall|i: int, j: int| 0 <= i < j < all.len() implies all[i] != all[j] by {
            if n < i {
                assert(links[i - 1 - n].player != links[j - 1 - n].player);
            }
        }
    }
    assert forall|p: int| #[trigger] all.to_set().contains(p) == (0 <= p < players) by {
        if 0 <= p < players {
            if p == own {
                assert(all[0] == p);
            } else if connection.is_free(p) {
                assert(free.contains(p as usize));
                let i = choose|i: int| 0 <= i < free.len() && free[i] == p as usize;
                assert(all[i + 1] == p);
            } else {
                let i = choose|i: int| 0 <= i < links.len() && (#[trigger] links[i]).player == p;
                assert(all[1 + n + i] == p);
            }
            assert(all.contains(p));
        } else if all.contains(p) {
            let i = choose|i: int| 0 <= i < all.len() && all[i] == p;
            assert(1 <= i <= n ==> connection.is_free(all[i]));
        }
    }
    all.unique_seq_to_set();
    vstd::set_lib::lemma_int_range(0, players);
    assert(all.to_set() =~= vstd::set_lib::set_int_range(0, players));
}

/// An error of a machine that could not be saved.
pub open spec fn unsaved<M: Machine>(machine: M, e: ConnectionError) -> bool {
    e matches ConnectionError::Machine(cause) && save_fails(machine, cause)
}

/// The inputs known of port `p` after a report: those known before, and the
/// report's for frames that are not confirmed yet.
pub open spec fn known_after(
    known: Map<u64, Input>,
    entries: Seq<(usize, u64, Input)>,
    p: int,
    confirmed: u64,
) -> Map<u64, Input>
    decreases entries.len(),
{
    if entries.len() == 0 {
        known
    } else {
        let rest = known_after(known, entries.drop_last(), p, confirmed);
        let e = entries.last();
        if e.0 == p && e.1 >= confirmed && !rest.contains_key(e.1) {
            rest.insert(e.1, e.2)
        } else {
            rest
        }
    }
}

proof fn lemma_known_after(
    known: Map<u64, Input>,
    entries: Seq<(usize, u64, Input)>,
    p: int,
    confirmed: u64,
    f: u64,
)
    requires
        forall|i: int|
            0 <= i < entries.len() ==> !((#[trigger] entries[i]).0 == p && entries[i].1 == f),
    ensures
        known_after(known, entries, p, confirmed).contains_key(f) == known.contains_key(f),
        known.contains_key(f) ==> known_after(known, entries, p, confirmed)[f] == known[f],
    decreases entries.len(),
{
    if entries.len() > 0 {
        let rest = entries.drop_last();
        assert forall|i: int| 0 <= i < rest.len() implies !((#[trigger] rest[i]).0 == p && rest[i].1
            == f) by {
            assert(entries[i] == rest[i]);
        }
        lemma_known_after(known, rest, p, confirmed, f);
        assert(entries.last() == entries[entries.len() - 1]);
    }
}

/// What a peer's report says about its own digests.
pub open spec fn hashes_with(
    known: Map<u64, [Option<[u8; 32]>; MAX_PLAYERS]>,
    frame: u64,
    player: int,
    hash: [u8; 32],
    after: Map<u64, [Option<[u8; 32]>; MAX_PLAYERS]>,
) -> bool {
    &&& forall|f: u64| #[trigger] after.contains_key(f) <==> known.contains_key(f) || f == frame
    &&& forall|f: u64| #[trigger] after.contains_key(f) && f != frame ==> after[f] == known[f]
    &&& forall|p: int|
        0 <= p < MAX_PLAYERS ==> #[trigger] after[frame][p] == (if p == player {
            Some(hash)
        } else if known.contains_key(frame) {
            known[frame][p]
        } else {
            None
        })
}

impl<T: Transport> Connection<T> {
    /// The connection is sound while packets are being read: inputs may have
    /// arrived that call for a replay.
    pub open spec fn live(self) -> bool {
        &&& self.links_ok()
        &&& self.rollback.wf()
        &&& self.rollback.within_window()
        &&& !self.connected ==> self.rollback.current == 0
        &&& self.feed_ok()
        &&& inputs_valid(self.rollback)
    }

    /// Why one of a report's inputs is refused.
    pub open spec fn entry_refusal(self, player: usize, entry: (usize, u64, Input)) -> Option<
        ConnectionError,
    > {
        if self.settings.player == 0 && entry.0 != player {
            Some(ConnectionError::ForeignInput { player, port: entry.0 })
        } else if self.settings.player != 0 && entry.0 == self.settings.player {
            Some(ConnectionError::Echo)
        } else if entry.1 > self.rollback.horizon() {
            Some(ConnectionError::Rollback(RollbackError::TooFarAhead))
        } else {
            let known = self.rollback.remote@[entry.0 as int]@;
            if known.contains_key(entry.1) && known[entry.1] != entry.2 {
                Some(
                    ConnectionError::Rollback(RollbackError::ChangedInput { frame: entry.1 }),
                )
            } else {
                None
            }
        }
    }

    /// Why the first refused input of a report is refused.
    pub open spec fn entries_refusal(
        self,
        player: usize,
        entries: Seq<(usize, u64, Input)>,
    ) -> Option<ConnectionError>
        decreases entries.len(),
    {
        if entries.len() == 0 {
            None
        } else {
            match self.entries_refusal(player, entries.drop_last()) {
                Some(e) => Some(e),
                None => self.entry_refusal(player, entries.last()),
            }
        }
    }

    /// Why a report on a link is refused.
    pub open spec fn report_refusal(self, index: int, report: Report) -> Option<ConnectionError> {
        let player = self.links@[index].player;
        if report.player != player {
            Some(ConnectionError::ForeignPort { claimed: report.player, player })
        } else if report.players != self.settings.players || report.delay
            != self.settings.input_delay || report.window != self.settings.rollback_frames {
            Some(ConnectionError::SettingsDiffer)
        } else if report.identity@ != self.identity@ {
            Some(ConnectionError::MachineMismatch)
        } else if !self.rollback.was_sent(
            report.acks[self.settings.player as int],
            player as int,
        ) {
            Some(ConnectionError::Rollback(RollbackError::UnsubmittedAcknowledgement))
        } else if self.entries_refusal(player, report.inputs@) is Some {
            self.entries_refusal(player, report.inputs@)
        } else if report.checksum matches Some(c) && c.0 > self.rollback.current
            + self.settings.input_delay + 1 {
            Some(ConnectionError::ChecksumTooFarAhead)
        } else {
            None
        }
    }

    /// The timeline of `after` is this one with a report's acknowledgement
    /// and some inputs.
    pub open spec fn timeline_takes(
        self,
        index: int,
        report: Report,
        inputs: Seq<(usize, u64, Input)>,
        after: Rollback,
    ) -> bool {
        let player = self.links@[index].player as int;
        let next = report.acks[self.settings.player as int];
        let before = self.rollback;
        &&& after.acknowledged@ == before.acknowledged@.update(
            player,
            if next >= before.acknowledged[player] {
                next
            } else {
                before.acknowledged[player]
            },
        )
        &&& after.same_but_received(Rollback { acknowledged: after.acknowledged, ..before })
        &&& after.submitted@[before.player as int] == before.submitted@[before.player as int]
        &&& forall|p: int|
            #![trigger after.remote@[p]]
            before.is_peer(p) ==> after.remote@[p]@ == known_after(
                before.remote@[p]@,
                inputs,
                p,
                before.confirmed,
            )
    }

    /// The link a report came in on, once it has been noted.
    pub open spec fn noted(self, index: int, report: Report, now: u64) -> Link<T> {
        Link {
            seen: true,
            ready: report.ready,
            acks: report.acks,
            last_received: now,
            ..self.links@[index]
        }
    }

    /// What a refused report leaves behind: nothing where it is of another port,
    /// other settings or another machine. Any other has been noted on its link,
    /// and its inputs have been taken up to the one that is refused.
    pub open spec fn refuses_report(
        self,
        index: int,
        report: Report,
        now: u64,
        after: Self,
    ) -> bool {
        let player = self.links@[index].player;
        if report.player != player || report.players != self.settings.players || report.delay
            != self.settings.input_delay || report.window != self.settings.rollback_frames
            || report.identity@ != self.identity@ {
            after == self
        } else {
            &&& after.links@ == self.links@.update(index, self.noted(index, report, now))
            &&& after == Connection { links: after.links, rollback: after.rollback, ..self }
            &&& if self.rollback.was_sent(
                report.acks[self.settings.player as int],
                player as int,
            ) {
                exists|n: int|
                    {
                        &&& 0 <= n <= report.inputs@.len()
                        &&& self.entries_refusal(player, report.inputs@.take(n)) is None
                        &&& n < report.inputs@.len() ==> self.entry_refusal(
                            player,
                            report.inputs@[n],
                        ) is Some
                        &&& self.timeline_takes(
                            index,
                            report,
                            #[trigger] report.inputs@.take(n),
                            after.rollback,
                        )
                    }
            } else {
                after.rollback == self.rollback
            }
        }
    }

    /// This peer has every link it is waiting for and has heard from each.
    pub open spec fn complete(self) -> bool {
        &&& self.links@.len() == self.settings.spec_expected_links()
        &&& forall|i: int| 0 <= i < self.links@.len() ==> (#[trigger] self.links@[i]).seen
    }

    fn locally_ready(&self) -> (r: bool)
        requires
            self.settings.players >= 1,
        ensures
            r == self.complete(),
    {
        if self.links.len() != self.settings.expected_links() {
            return false;
        }
        let mut i: usize = 0;
        while i < self.links.len()
            invariant
                i <= self.links@.len(),
                forall|j: int| 0 <= j < i ==> (#[trigger] self.links@[j]).seen,
            decreases self.links@.len() - i,
        {
            if !self.links[i].seen {
                assert(!self.links@[i as int].seen);
                return false;
            }
            i += 1;
        }
        true
    }

    /// What an accepted report changes.
    pub open spec fn takes_report(
        self,
        index: int,
        report: Report,
        now: u64,
        after: Self,
    ) -> bool {
        &&& after.links@.len() == self.links@.len()
        &&& forall|i: int|
            0 <= i < self.links@.len() && i != index ==> #[trigger] after.links@[i]
                == self.links@[i]
        &&& after.links@[index] == self.noted(index, report, now)
        &&& self.timeline_takes(index, report, report.inputs@, after.rollback)
        &&& match report.checksum {
            Some(c) if c.0 > self.last_checked => hashes_with(
                self.peer_hashes@,
                c.0,
                self.links@[index].player as int,
                c.1,
                after.peer_hashes@,
            ),
            _ => after.peer_hashes == self.peer_hashes,
        }
        &&& after.connected == (self.connected || (if self.settings.player == 0 {
            after.complete()
        } else {
            report.ready
        }))
        &&& after == Connection {
            links: after.links,
            rollback: after.rollback,
            connected: after.connected,
            peer_hashes: after.peer_hashes,
            ..self
        }
    }

    /// Take a peer's report: its acknowledgement, the inputs it carries and
    /// the digest it took.
    pub fn accept(&mut self, index: usize, report: Report, now: u64) -> (r: Result<
        (),
        ConnectionError,
    >)
        requires
            old(self).live(),
            index < old(self).links@.len(),
            report.acceptable(),
        ensures
            r is Ok <==> old(self).report_refusal(index as int, report) is None,
            r matches Err(e) ==> {
                &&& old(self).report_refusal(index as int, report) == Some(e)
                &&& old(self).refuses_report(index as int, report, now, *final(self))
            },
            r is Ok ==> final(self).live() && old(self).takes_report(
                index as int,
                report,
                now,
                *final(self),
            ),
            final(self).same_session(*old(self)),
            final(self).failure == old(self).failure,
            final(self).links_ok(),
    {
        let ghost before = *self;
        let player: usize = self.links[index].player;
        if report.player != player {
            return Err(ConnectionError::ForeignPort { claimed: report.player, player });
        }
        if report.players != self.settings.players || report.delay != self.settings.input_delay
            || report.window != self.settings.rollback_frames {
            return Err(ConnectionError::SettingsDiffer);
        }
        if !same_bytes(&report.identity, &self.identity) {
            return Err(ConnectionError::MachineMismatch);
        }
        self.links[index].seen = true;
        self.links[index].ready = report.ready;
        self.links[index].acks = report.acks;
        self.links[index].last_received = now;
        let acked = self.rollback.acknowledge(player, report.acks[self.settings.player]);
        assert(before.rollback.is_peer(player as int));
        assert(self.links@ =~= before.links@.update(
            index as int,
            before.noted(index as int, report, now),
        ));
        match acked {
            Ok(_) => {},
            Err(e) => return Err(ConnectionError::Rollback(e)),
        }
        let ghost acked = self.rollback;
        let hosting = self.settings.hosting();
        let mut i: usize = 0;
        assert(report.inputs@.take(0) =~= Seq::<(usize, u64, Input)>::empty());
        while i < report.inputs.len()
            invariant
                before == *old(self),
                before.live(),
                report.acceptable(),
                report.players == before.settings.players,
                index < before.links@.len(),
                player == before.links@[index as int].player,
                hosting == (before.settings.player == 0),
                i <= report.inputs@.len(),
                *self == (Connection { links: self.links, rollback: self.rollback, ..before }),
                self.links_ok(),
                self.links@ == before.links@.update(
                    index as int,
                    before.noted(index as int, report, now),
                ),
                acked == (Rollback { acknowledged: acked.acknowledged, ..before.rollback }),
                before.timeline_takes(
                    index as int,
                    report,
                    report.inputs@.take(i as int),
                    self.rollback,
                ),
                report.player == player,
                report.delay == before.settings.input_delay,
                report.window == before.settings.rollback_frames,
                report.identity@ == before.identity@,
                before.rollback.was_sent(
                    report.acks[before.settings.player as int],
                    player as int,
                ),
                self.rollback.wf(),
                self.rollback.same_but_received(acked),
                self.rollback.submitted@[before.rollback.player as int]
                    == before.rollback.submitted@[before.rollback.player as int],
                forall|p: int|
                    #![trigger self.rollback.remote@[p]]
                    before.rollback.is_peer(p) ==> self.rollback.remote@[p]@ == known_after(
                        before.rollback.remote@[p]@,
                        report.inputs@.take(i as int),
                        p,
                        before.rollback.confirmed,
                    ),
                before.entries_refusal(player, report.inputs@.take(i as int)) is None,
                before.report_refusal(index as int, report) == (if before.entries_refusal(
                    player,
                    report.inputs@,
                ) is Some {
                    before.entries_refusal(player, report.inputs@)
                } else if report.checksum matches Some(c) && c.0 > before.rollback.current
                    + before.settings.input_delay + 1 {
                    Some(ConnectionError::ChecksumTooFarAhead)
                } else {
                    None
                }),
            decreases report.inputs@.len() - i,
        {
            let entry = report.inputs[i];
            let ghost done = report.inputs@.take(i as int + 1);
            let ghost prior = self.rollback;
            proof {
                assert(done.drop_last() =~= report.inputs@.take(i as int));
                assert(done.last() == entry);
                assert(crate::netplay::report::entry_acceptable(
                    report.inputs@[i as int],
                    report.players,
                ));
                if before.entries_refusal(player, done) is Some {
                    lemma_first_entry_refusal(before, player, report.inputs@, i as int + 1);
                }
            }
            // A guest reports only its own port; the host relays every other
            // port to it and never echoes back what it just sent.
            if hosting {
                if entry.0 != player {
                    return Err(ConnectionError::ForeignInput { player, port: entry.0 });
                }
            } else if entry.0 == self.settings.player {
                return Err(ConnectionError::Echo);
            }
            proof {
                assert(before.rollback.is_peer(entry.0 as int));
                assert(prior.remote@[entry.0 as int]@ == known_after(
                    before.rollback.remote@[entry.0 as int]@,
                    report.inputs@.take(i as int),
                    entry.0 as int,
                    before.rollback.confirmed,
                ));
                assert forall|k: int| 0 <= k < i implies !((#[trigger] report.inputs@.take(
                    i as int,
                )[k]).0 == entry.0 && report.inputs@.take(i as int)[k].1 == entry.1) by {
                    assert(precedes(report.inputs@[k], report.inputs@[i as int]));
                }
                lemma_known_after(
                    before.rollback.remote@[entry.0 as int]@,
                    report.inputs@.take(i as int),
                    entry.0 as int,
                    before.rollback.confirmed,
                    entry.1,
                );
            }
            match self.rollback.receive(entry.0, entry.1, entry.2) {
                Ok(_) => {},
                Err(e) => return Err(ConnectionError::Rollback(e)),
            }
            proof {
                assert forall|p: int| #![trigger self.rollback.remote@[p]]
                    before.rollback.is_peer(p) implies self.rollback.remote@[p]@ == known_after(
                    before.rollback.remote@[p]@,
                    done,
                    p,
                    before.rollback.confirmed,
                ) by {
                    assert(prior.remote@[p]@ == known_after(
                        before.rollback.remote@[p]@,
                        report.inputs@.take(i as int),
                        p,
                        before.rollback.confirmed,
                    ));
                    if p != entry.0 {
                        assert(self.rollback.remote@[p] == prior.remote@[p]);
                    }
                }
            }
            i += 1;
        }
        assert(before.entries_refusal(player, report.inputs@.take(i as int)) is None);
        assert(report.inputs@.take(i as int) =~= report.inputs@);
        match report.checksum {
            Some(c) => {
                if c.0 > self.rollback.current + self.settings.input_delay as u64 + 1 {
                    return Err(ConnectionError::ChecksumTooFarAhead);
                }
                if c.0 > self.last_checked {
                    let mut known: [Option<[u8; 32]>; MAX_PLAYERS] = match self.peer_hashes.get(
                        c.0,
                    ) {
                        Some(known) => known,
                        None => [None; MAX_PLAYERS],
                    };
                    known[player] = Some(c.1);
                    self.peer_hashes.insert(c.0, known);
                }
            },
            None => {},
        }
        // The host starts once every guest is present; a guest starts when
        // the host says so, which is the same instant for all of them.
        let connected = if hosting {
            self.locally_ready()
        } else {
            report.ready
        };
        if connected {
            self.connected = true;
        }
        proof {
            assert forall|p: int, f: u64| #![trigger self.rollback.held(p).contains_key(f)]
                0 <= p < self.rollback.players && self.rollback.held(p).contains_key(
                f,
            ) implies input_valid(self.rollback.held(p)[f]) by {
                if p == self.rollback.player {
                    assert(before.rollback.held(p).contains_key(f));
                } else {
                    assert(before.rollback.is_peer(p));
                    assert(self.rollback.remote@[p]@ == known_after(
                        before.rollback.remote@[p]@,
                        report.inputs@,
                        p,
                        before.rollback.confirmed,
                    ));
                    assert forall|g: u64| #[trigger]
                        before.rollback.remote@[p]@.contains_key(g) implies input_valid(
                        before.rollback.remote@[p]@[g],
                    ) by {
                        assert(before.rollback.held(p).contains_key(g));
                    }
                    assert forall|i: int| 0 <= i < report.inputs@.len() implies input_valid(
                        (#[trigger] report.inputs@[i]).2,
                    ) by {
                        assert(crate::netplay::report::entry_acceptable(
                            report.inputs@[i],
                            report.players,
                        ));
                    }
                    lemma_known_valid(
                        before.rollback.remote@[p]@,
                        report.inputs@,
                        p,
                        before.rollback.confirmed,
                        f,
                    );
                }
            }
        }
        Ok(())
    }
}

proof fn lemma_known_valid(
    known: Map<u64, Input>,
    entries: Seq<(usize, u64, Input)>,
    p: int,
    confirmed: u64,
    f: u64,
)
    requires
        forall|g: u64| #[trigger] known.contains_key(g) ==> input_valid(known[g]),
        forall|i: int| 0 <= i < entries.len() ==> input_valid((#[trigger] entries[i]).2),
        known_after(known, entries, p, confirmed).contains_key(f),
    ensures
        input_valid(known_after(known, entries, p, confirmed)[f]),
    decreases entries.len(),
{
    if entries.len() > 0 {
        let rest = entries.drop_last();
        assert forall|i: int| 0 <= i < rest.len() implies input_valid((#[trigger] rest[i]).2) by {
            assert(rest[i] == entries[i]);
        }
        assert(entries.last() == entries[entries.len() - 1]);
        if known_after(known, rest, p, confirmed).contains_key(f) {
            lemma_known_valid(known, rest, p, confirmed, f);
        }
    }
}

proof fn lemma_same_inputs_valid(a: Rollback, b: Rollback)
    requires
        inputs_valid(a),
        a.player == b.player,
        a.players == b.players,
        a.local == b.local,
        a.remote == b.remote,
    ensures
        inputs_valid(b),
{
    assert forall|p: int, f: u64| #![trigger b.held(p).contains_key(f)]
        0 <= p < b.players && b.held(p).contains_key(f) implies input_valid(b.held(p)[f]) by {
        assert(a.held(p).contains_key(f));
    }
}

proof fn lemma_released_valid(a: Rollback, b: Rollback, end: u64)
    requires
        inputs_valid(a),
        a.players <= MAX_PLAYERS,
        a.player == b.player,
        a.players == b.players,
        b.released(a, end),
    ensures
        inputs_valid(b),
{
    assert forall|p: int, f: u64| #![trigger b.held(p).contains_key(f)]
        0 <= p < b.players && b.held(p).contains_key(f) implies input_valid(b.held(p)[f]) by {
        if p != b.player {
            assert(b.remote@[p].wf());
        }
        assert(a.held(p).contains_key(f));
    }
}

proof fn lemma_submitted_valid(a: Rollback, b: Rollback, input: Input)
    requires
        a.wf(),
        inputs_valid(a),
        input_valid(input),
        a.submits_to(b, input),
    ensures
        inputs_valid(b),
{
    assert forall|p: int, f: u64| #![trigger b.held(p).contains_key(f)]
        0 <= p < b.players && b.held(p).contains_key(f) implies input_valid(b.held(p)[f]) by {
        if p != b.player || f != a.current + a.delay || a.held(p).contains_key(f) {
            assert(a.held(p).contains_key(f));
        }
    }
}

proof fn lemma_first_entry_refusal<T: Transport>(
    c: Connection<T>,
    player: usize,
    entries: Seq<(usize, u64, Input)>,
    n: int,
)
    requires
        0 <= n <= entries.len(),
        c.entries_refusal(player, entries.take(n)) is Some,
    ensures
        c.entries_refusal(player, entries) == c.entries_refusal(player, entries.take(n)),
    decreases entries.len() - n,
{
    if n == entries.len() {
        assert(entries.take(n) =~= entries);
    } else {
        assert(entries.take(n + 1).drop_last() =~= entries.take(n));
        lemma_first_entry_refusal(c, player, entries, n + 1);
    }
}

/// Packet `c` of a long list of records.
pub open spec fn chunk(records: Seq<(usize, u64, Input)>, c: int) -> Seq<(usize, u64, Input)> {
    let from = c * MAX_INPUTS;
    let to = if from + MAX_INPUTS <= records.len() {
        from + MAX_INPUTS
    } else {
        records.len() as int
    };
    records.subrange(from, to)
}

/// How many packets a list of records takes; an empty list still takes one.
pub open spec fn chunks(n: int) -> int {
    if n == 0 {
        1
    } else {
        (n + MAX_INPUTS - 1) / MAX_INPUTS as int
    }
}

impl<T: Transport> Connection<T> {
    /// Whether a link is owed the inputs of a port: a guest reports its own
    /// port, a host relays every port but the link's own.
    pub open spec fn owes(self, index: int, source: int) -> bool {
        &&& 0 <= source < self.settings.players
        &&& source != self.links@[index].player
        &&& self.settings.player == 0 || source == self.settings.player
    }

    /// `records` are exactly the inputs a link still needs, in order of port
    /// and then frame.
    pub open spec fn is_owed(self, index: int, records: Seq<(usize, u64, Input)>) -> bool {
        &&& in_record_order(records)
        &&& forall|i: int|
            #![trigger records[i]]
            0 <= i < records.len() ==> {
                let e = records[i];
                &&& self.owes(index, e.0 as int)
                &&& e.1 >= self.links@[index].acks[e.0 as int]
                &&& self.rollback.held(e.0 as int).contains_key(e.1)
                &&& self.rollback.held(e.0 as int)[e.1] == e.2
            }
        &&& forall|source: int, f: u64|
            #![trigger self.rollback.held(source).contains_key(f)]
            self.owes(index, source) && f >= self.links@[index].acks[source]
                && self.rollback.held(source).contains_key(f) ==> lists(records, source, f)
    }

    /// The inputs a link still needs. Records stay ordered by port and then
    /// frame, which is how the datagrams require them, and how chunking
    /// preserves them.
    fn records_for(&self, index: usize) -> (r: Vec<(usize, u64, Input)>)
        requires
            self.live(),
            index < self.links@.len(),
        ensures
            self.is_owed(index as int, r@),
    {
        let player: usize = self.links[index].player;
        let hosting = self.settings.hosting();
        let mut records: Vec<(usize, u64, Input)> = Vec::new();
        let mut source: usize = 0;
        while source < self.settings.players
            invariant
                self.live(),
                index < self.links@.len(),
                player == self.links@[index as int].player,
                hosting == (self.settings.player == 0),
                source <= self.settings.players,
                in_record_order(records@),
                forall|i: int|
                    #![trigger records@[i]]
                    0 <= i < records@.len() ==> {
                        let e = records@[i];
                        &&& e.0 < source
                        &&& self.owes(index as int, e.0 as int)
                        &&& e.1 >= self.links@[index as int].acks[e.0 as int]
                        &&& self.rollback.held(e.0 as int).contains_key(e.1)
                        &&& self.rollback.held(e.0 as int)[e.1] == e.2
                    },
                forall|s: int, f: u64|
                    #![trigger self.rollback.held(s).contains_key(f)]
                    s < source && self.owes(index as int, s) && f
                        >= self.links@[index as int].acks[s] && self.rollback.held(
                        s,
                    ).contains_key(f) ==> lists(records@, s, f),
            decreases self.settings.players - source,
        {
            if source != player && (hosting || source == self.settings.player) {
                let from: u64 = self.links[index].acks[source];
                let pending = self.rollback.pending(source, from);
                let ghost start = records@;
                let mut k: usize = 0;
                assert(start + tagged(source, pending@.take(0)) =~= start);
                while k < pending.len()
                    invariant
                        k <= pending@.len(),
                        records@ == start + tagged(source, pending@.take(k as int)),
                    decreases pending@.len() - k,
                {
                    records.push((source, pending[k].0, pending[k].1));
                    k += 1;
                    assert(tagged(source, pending@.take(k as int)) =~= tagged(
                        source,
                        pending@.take(k - 1),
                    ).push((source, pending@[k - 1].0, pending@[k - 1].1)));
                    assert(records@ =~= start + tagged(source, pending@.take(k as int)));
                }
                assert(pending@.take(k as int) =~= pending@);
                proof {
                    let n = start.len() as int;
                    let own = tagged(source, pending@);
                    assert forall|i: int, j: int| 0 <= i < j
                        < records@.len() implies #[trigger] precedes(records@[i], records@[j]) by {
                        if j < n {
                            assert(precedes(start[i], start[j]));
                        } else if i < n {
                            assert(records@[i] == start[i]);
                            assert(records@[j] == own[j - n]);
                        } else {
                            assert(records@[i] == own[i - n]);
                            assert(records@[j] == own[j - n]);
                            assert(pending@[i - n].0 < pending@[j - n].0);
                        }
                    }
                    assert forall|i: int| #![trigger records@[i]]
                        0 <= i < records@.len() implies {
                        let e = records@[i];
                        &&& e.0 < source + 1
                        &&& self.owes(index as int, e.0 as int)
                        &&& e.1 >= self.links@[index as int].acks[e.0 as int]
                        &&& self.rollback.held(e.0 as int).contains_key(e.1)
                        &&& self.rollback.held(e.0 as int)[e.1] == e.2
                    } by {
                        if i < n {
                            assert(records@[i] == start[i]);
                        } else {
                            assert(records@[i] == own[i - n]);
                            assert(pending@[i - n].0 >= from);
                        }
                    }
                    assert forall|s: int, f: u64|
                        #![trigger self.rollback.held(s).contains_key(f)]
                        s < source + 1 && self.owes(index as int, s) && f
                            >= self.links@[index as int].acks[s] && self.rollback.held(
                            s,
                        ).contains_key(f) implies lists(records@, s, f) by {
                        if s < source {
                            assert(lists(start, s, f));
                            let i = choose|i: int|
                                0 <= i < start.len() && (#[trigger] start[i]).0 == s && start[i].1
                                    == f;
                            assert(records@[i] == start[i]);
                        } else {
                            assert(has_frame(pending@, f));
                            let i = choose|i: int|
                                0 <= i < pending@.len() && #[trigger] pending@[i].0 == f;
                            assert(records@[n + i] == own[i]);
                        }
                    }
                }
            }
            source += 1;
        }
        records
    }

    /// What this peer still needs from each port: nothing of its own, and
    /// nothing of ports outside the session.
    pub open spec fn acks_sent(self) -> Seq<u64> {
        Seq::new(
            MAX_PLAYERS as nat,
            |p: int|
                if self.rollback.is_peer(p) {
                    self.rollback.received[p]
                } else {
                    0u64
                },
        )
    }

    /// The newest digest this peer took.
    pub open spec fn newest_digest(self) -> Option<(u64, [u8; 32])> {
        newest_until(self.rollback.hashes@, u64::MAX)
    }

    /// The packet that carries some records.
    pub open spec fn packet(self, inputs: Seq<(usize, u64, Input)>) -> Seq<u8> {
        report_image(
            self.settings.session@,
            self.identity@,
            self.settings.player,
            self.settings.players,
            self.complete(),
            self.settings.input_delay,
            self.settings.rollback_frames,
            self.acks_sent(),
            self.newest_digest(),
            inputs,
        )
    }

    /// The first `k` packets of a list of records.
    pub open spec fn packets(self, records: Seq<(usize, u64, Input)>, k: int) -> Seq<Seq<u8>> {
        Seq::new(k as nat, |c: int| self.packet(chunk(records, c)))
    }

    /// What offering a link its packets comes to: the first `k` are taken, and
    /// where that is neither all of them nor the most a link is sent at once,
    /// the next is not.
    pub open spec fn offers(self, records: Seq<(usize, u64, Input)>, k: int) -> Seq<LinkEvent> {
        let taken = self.packets(records, k).map_values(|p: Seq<u8>| LinkEvent::Sent(p));
        if k < MAX_SEND_PACKETS && k < chunks(records.len() as int) {
            taken.push(LinkEvent::Refused(self.packet(chunk(records, k))))
        } else {
            taken
        }
    }

    /// The report that carries some inputs.
    fn report(&self, inputs: Vec<(usize, u64, Input)>) -> (r: Report)
        requires
            self.live(),
        ensures
            r.image() == self.packet(inputs@),
            r.inputs == inputs,
    {
        let mut acks: [u64; MAX_PLAYERS] = [0u64; MAX_PLAYERS];
        let mut p: usize = 0;
        while p < self.settings.players
            invariant
                self.live(),
                p <= self.settings.players <= MAX_PLAYERS,
                forall|q: int|
                    #![trigger acks[q]]
                    0 <= q < MAX_PLAYERS ==> acks[q] == (if q < p && self.rollback.is_peer(q) {
                        self.rollback.received[q]
                    } else {
                        0u64
                    }),
            decreases self.settings.players - p,
        {
            if p != self.settings.player {
                acks[p] = self.rollback.received[p];
            }
            p += 1;
        }
        assert(acks@ =~= self.acks_sent());
        let checksum = self.rollback.hashes.last();
        proof {
            match checksum {
                Some(c) => {
                    assert(is_newest_until(self.rollback.hashes@, u64::MAX, c.0));
                    lemma_newest_until(self.rollback.hashes@, u64::MAX, c.0);
                },
                None => {
                    assert(newest_until(self.rollback.hashes@, u64::MAX) is None) by {
                        assert forall|e: u64| !is_newest_until(
                            self.rollback.hashes@,
                            u64::MAX,
                            e,
                        ) by {
                            assert(!self.rollback.hashes@.contains_key(e));
                        }
                    }
                },
            }
        }
        Report {
            session: self.settings.session,
            identity: self.identity,
            player: self.settings.player,
            players: self.settings.players,
            ready: self.locally_ready(),
            delay: self.settings.input_delay,
            window: self.settings.rollback_frames,
            acks,
            inputs,
            checksum,
        }
    }

    /// Only a link's transport and the time of its last packet changed.
    pub open spec fn same_but_sending(self, before: Self) -> bool {
        &&& self.links@.len() == before.links@.len()
        &&& forall|i: int|
            #![trigger self.links@[i]]
            0 <= i < self.links@.len() ==> self.links@[i] == (Link {
                transport: self.links@[i].transport,
                last_sent: self.links@[i].last_sent,
                ..before.links@[i]
            })
        &&& self == Connection { links: self.links, ..before }
    }

    /// What serving a link hands to its transport: the first packets of what
    /// it is owed, as many as the transport takes within the budget.
    pub open spec fn served(self, index: int, after: Link<T>, now: u64) -> bool {
        exists|records: Seq<(usize, u64, Input)>, k: int|
            #![trigger self.offers(records, k)]
            {
                &&& self.is_owed(index, records)
                &&& 0 <= k <= MAX_SEND_PACKETS
                &&& k <= chunks(records.len() as int)
                &&& after.transport.history() == self.links@[index].transport.history()
                    + self.offers(records, k)
                &&& after.last_sent == (if k > 0 {
                    Some(now)
                } else {
                    self.links@[index].last_sent
                })
            }
    }

    /// Serving a link ends in a failure of its transport: some of the first
    /// packets of what it is owed were taken, and the next could not be sent.
    pub open spec fn serve_fails(self, index: int, after: Link<T>, e: TransportError) -> bool {
        exists|records: Seq<(usize, u64, Input)>, k: int|
            #![trigger self.packets(records, k)]
            {
                &&& self.is_owed(index, records)
                &&& 0 <= k < MAX_SEND_PACKETS
                &&& k < chunks(records.len() as int)
                &&& after == Link { transport: after.transport, ..self.links@[index] }
                &&& after.transport.history() == self.links@[index].transport.history()
                    + self.packets(records, k).map_values(|p: Seq<u8>| LinkEvent::Sent(p)).push(
                    LinkEvent::Failed(e),
                )
            }
    }

    /// Send a link what it is owed.
    fn serve(&mut self, index: usize, now: u64) -> (r: Result<(), ConnectionError>)
        requires
            old(self).live(),
            index < old(self).links@.len(),
        ensures
            final(self).live(),
            final(self).same_but_sending(*old(self)),
            forall|i: int|
                0 <= i < old(self).links@.len() && i != index ==> #[trigger] final(self).links@[i]
                    == old(self).links@[i],
            r is Ok ==> old(self).served(index as int, final(self).links@[index as int], now),
            r matches Err(e) ==> (e matches ConnectionError::Sending(cause)
                && old(self).serve_fails(index as int, final(self).links@[index as int], cause)),
    {
        let ghost before = *self;
        let records = self.records_for(index);
        let mut k: usize = 0;
        let mut start: usize = 0;
        let mut more = true;
        let ghost past = before.links@[index as int].transport.history();
        assert(past + before.packets(records@, 0).map_values(|p: Seq<u8>| LinkEvent::Sent(p))
            =~= past);
        let ghost mut refused = false;
        while more && k < MAX_SEND_PACKETS
            invariant
                before == *old(self),
                before.live(),
                self.live(),
                self.same_but_sending(before),
                index < before.links@.len(),
                forall|i: int|
                    0 <= i < before.links@.len() && i != index ==> #[trigger] self.links@[i]
                        == before.links@[i],
                before.is_owed(index as int, records@),
                k <= MAX_SEND_PACKETS,
                k <= chunks(records@.len() as int),
                more ==> k < chunks(records@.len() as int) && start == k * MAX_INPUTS && start
                    <= records@.len(),
                past == before.links@[index as int].transport.history(),
                refused ==> !more && k < MAX_SEND_PACKETS && k < chunks(records@.len() as int),
                !refused && !more ==> k == chunks(records@.len() as int),
                self.links@[index as int].transport.history() == past + (if refused {
                    before.offers(records@, k as int)
                } else {
                    before.packets(records@, k as int).map_values(|p: Seq<u8>| LinkEvent::Sent(p))
                }),
                self.links@[index as int].last_sent == before.links@[index as int].last_sent,
            decreases MAX_SEND_PACKETS - k, if more {
                1int
            } else {
                0int
            },
        {
            let end: usize = if records.len() - start > MAX_INPUTS {
                start + MAX_INPUTS
            } else {
                records.len()
            };
            let mut part: Vec<(usize, u64, Input)> = Vec::new();
            let mut i: usize = start;
            while i < end
                invariant
                    start <= i <= end <= records@.len(),
                    part@ == records@.subrange(start as int, i as int),
                decreases end - i,
            {
                part.push(records[i]);
                i += 1;
                assert(part@ =~= records@.subrange(start as int, i as int));
            }
            assert(part@ =~= chunk(records@, k as int));
            let report = self.report(part);
            let packet = report.encode();
            proof {
                assert(self.complete() == before.complete()) by {
                    assert(forall|i: int|
                        0 <= i < before.links@.len() ==> (#[trigger] self.links@[i]).seen
                            == before.links@[i].seen);
                    if !before.complete() && before.links@.len()
                        == before.settings.spec_expected_links() {
                        let i = choose|i: int|
                            0 <= i < before.links@.len() && !(#[trigger] before.links@[i]).seen;
                        assert(!self.links@[i].seen);
                    }
                }
                assert(self.acks_sent() =~= before.acks_sent());
                assert(packet@ == before.packet(chunk(records@, k as int)));
            }
            match self.links[index].transport.send(packet.as_slice()) {
                Ok(taken) => {
                    if taken {
                        proof {
                            let sent = |p: Seq<u8>| LinkEvent::Sent(p);
                            assert(before.packets(records@, k as int + 1).map_values(sent)
                                =~= before.packets(records@, k as int).map_values(sent).push(
                                LinkEvent::Sent(packet@),
                            ));
                            assert(past + before.packets(records@, k as int + 1).map_values(sent)
                                =~= (past + before.packets(records@, k as int).map_values(
                                sent,
                            )).push(LinkEvent::Sent(packet@)));
                        }
                        k += 1;
                        start = end;
                        more = start < records.len();
                    } else {
                        more = false;
                        proof {
                            refused = true;
                            assert(past + before.offers(records@, k as int) =~= (past
                                + before.packets(records@, k as int).map_values(
                                |p: Seq<u8>| LinkEvent::Sent(p),
                            )).push(LinkEvent::Refused(packet@)));
                        }
                    }
                },
                Err(e) => {
                    proof {
                        let taken = before.packets(records@, k as int).map_values(
                            |p: Seq<u8>| LinkEvent::Sent(p),
                        );
                        assert(past + taken.push(LinkEvent::Failed(e)) =~= (past + taken).push(
                            LinkEvent::Failed(e),
                        ));
                        assert(before.serve_fails(index as int, self.links@[index as int], e));
                    }
                    return Err(ConnectionError::Sending(e));
                },
            }
        }
        if k > 0 {
            self.links[index].last_sent = Some(now);
        }
        assert(self.links@[index as int].transport.history() == past + before.offers(
            records@,
            k as int,
        ));
        Ok(())
    }
}

/// Whether a port's frame is among some records.
pub open spec fn lists(records: Seq<(usize, u64, Input)>, source: int, f: u64) -> bool {
    exists|i: int| 0 <= i < records.len() && (#[trigger] records[i]).0 == source && records[i].1 == f
}

/// Entries of one port as records.
pub open spec fn tagged(source: usize, entries: Seq<(u64, Input)>) -> Seq<(usize, u64, Input)> {
    entries.map_values(|e: (u64, Input)| (source, e.0, e.1))
}

impl<T: Transport> Connection<T> {
    /// Whether a link is due a packet.
    pub open spec fn due(self, index: int, force: bool, now: u64) -> bool {
        force || match self.links@[index].last_sent {
            None => true,
            Some(last) => now - last >= RESEND,
        }
    }

    /// Every link that was due has been sent what it was owed, and nothing else
    /// has changed.
    pub open spec fn sent_from(self, before: Self, force: bool, now: u64) -> bool {
        &&& self.same_but_sending(before)
        &&& forall|i: int|
            #![trigger self.links@[i]]
            0 <= i < before.links@.len() ==> (if before.due(i, force, now) {
                before.served(i, self.links@[i], now)
            } else {
                self.links@[i] == before.links@[i]
            })
    }

    /// The transport of a link that was due failed. The links before it have
    /// been served, and those behind it have not been touched.
    pub open spec fn send_fails(
        self,
        index: int,
        force: bool,
        now: u64,
        after: Self,
        e: TransportError,
    ) -> bool {
        &&& after.same_but_sending(self)
        &&& 0 <= index < self.links@.len()
        &&& self.due(index, force, now)
        &&& self.serve_fails(index, after.links@[index], e)
        &&& forall|i: int|
            #![trigger after.links@[i]]
            0 <= i < index ==> (if self.due(i, force, now) {
                self.served(i, after.links@[i], now)
            } else {
                after.links@[i] == self.links@[i]
            })
        &&& forall|i: int|
            index < i < self.links@.len() ==> #[trigger] after.links@[i] == self.links@[i]
    }

    /// Sending every link that is due what it is owed.
    pub open spec fn sends_to(
        self,
        force: bool,
        now: u64,
        after: Self,
        r: Result<(), ConnectionError>,
    ) -> bool {
        match r {
            Ok(_) => after.sent_from(self, force, now),
            Err(ConnectionError::Sending(e)) => exists|index: int| #[trigger]
                self.send_fails(index, force, now, after, e),
            Err(_) => false,
        }
    }

    /// The last thing a link's transport has done since is to fail.
    pub open spec fn broke(self, before: Self, index: int, e: TransportError) -> bool {
        let past = before.links@[index].transport.history();
        let present = self.links@[index].transport.history();
        &&& 0 <= index < before.links@.len()
        &&& past.len() < present.len()
        &&& present.last() == LinkEvent::Failed(e)
    }

    /// No transport has lost any of its past.
    pub open spec fn went_on(self, before: Self) -> bool {
        forall|i: int|
            0 <= i < before.links@.len() ==> (#[trigger] self.links@[i]).transport.history().len()
                >= before.links@[i].transport.history().len()
    }

    /// Send every link that is due what it is owed.
    fn send_packets(&mut self, force: bool, now: u64) -> (r: Result<(), ConnectionError>)
        requires
            old(self).live(),
        ensures
            final(self).live(),
            final(self).same_but_sending(*old(self)),
            old(self).sends_to(force, now, *final(self), r),
            r is Ok ==> final(self).went_on(*old(self)),
            r matches Err(ConnectionError::Sending(e)) ==> exists|index: int| #[trigger]
                final(self).broke(*old(self), index, e),
    {
        let ghost before = *self;
        let mut index: usize = 0;
        while index < self.links.len()
            invariant
                before == *old(self),
                before.live(),
                self.live(),
                self.same_but_sending(before),
                index <= self.links@.len(),
                forall|i: int|
                    #![trigger self.links@[i]]
                    0 <= i < index ==> (if before.due(i, force, now) {
                        before.served(i, self.links@[i], now)
                    } else {
                        self.links@[i] == before.links@[i]
                    }),
                forall|i: int|
                    index <= i < before.links@.len() ==> #[trigger] self.links@[i]
                        == before.links@[i],
            decreases before.links@.len() - index,
        {
            let due = force || match self.links[index].last_sent {
                None => true,
                Some(last) => now >= last && now - last >= RESEND,
            };
            assert(self.links@[index as int] == before.links@[index as int]);
            assert(due == before.due(index as int, force, now));
            if due {
                let ghost prior = *self;
                let done = self.serve(index, now);
                if let Err(e) = done {
                    proof {
                        if let ConnectionError::Sending(cause) = e {
                            lemma_serve_fails_after_others(
                                before,
                                prior,
                                index as int,
                                *self,
                                cause,
                            );
                            assert forall|i: int| #![trigger self.links@[i]]
                                0 <= i < index implies (if before.due(i, force, now) {
                                before.served(i, self.links@[i], now)
                            } else {
                                self.links@[i] == before.links@[i]
                            }) by {
                                assert(self.links@[i] == prior.links@[i]);
                            }
                            assert forall|i: int|
                                index < i < before.links@.len() implies #[trigger] self.links@[i]
                                == before.links@[i] by {
                                assert(self.links@[i] == prior.links@[i]);
                            }
                            assert(before.send_fails(index as int, force, now, *self, cause));
                            assert(self.broke(before, index as int, cause));
                        }
                    }
                    return Err(e);
                }
                proof {
                    lemma_served_after_others(before, prior, index as int, *self, now);
                    assert forall|i: int| #![trigger self.links@[i]] 0 <= i < index + 1 implies (
                    if before.due(i, force, now) {
                        before.served(i, self.links@[i], now)
                    } else {
                        self.links@[i] == before.links@[i]
                    }) by {
                        if i < index {
                            assert(self.links@[i] == prior.links@[i]);
                        }
                    }
                }
            }
            index += 1;
        }
        assert(self.went_on(before)) by {
            assert forall|i: int| 0 <= i < before.links@.len() implies (
            #[trigger] self.links@[i]).transport.history().len()
                >= before.links@[i].transport.history().len() by {
                if before.due(i, force, now) {
                    assert(before.served(i, self.links@[i], now));
                }
            }
        }
        Ok(())
    }
}

/// What a link is owed, and the packets that carry it, do not depend on what
/// the transports have done.
proof fn lemma_owed_after_others<T: Transport>(
    before: Connection<T>,
    prior: Connection<T>,
    index: int,
    records: Seq<(usize, u64, Input)>,
    k: int,
)
    requires
        before.live(),
        prior.same_but_sending(before),
        0 <= index < before.links@.len(),
        prior.is_owed(index, records),
    ensures
        before.is_owed(index, records),
        before.packets(records, k) == prior.packets(records, k),
        before.offers(records, k) == prior.offers(records, k),
{
    assert(prior.complete() == before.complete()) by {
        assert(forall|i: int|
            0 <= i < before.links@.len() ==> (#[trigger] prior.links@[i]).seen
                == before.links@[i].seen);
        if !before.complete() && before.links@.len() == before.settings.spec_expected_links() {
            let i = choose|i: int|
                0 <= i < before.links@.len() && !(#[trigger] before.links@[i]).seen;
            assert(!prior.links@[i].seen);
        }
    }
    assert(prior.acks_sent() =~= before.acks_sent());
    assert(prior.links@[index].player == before.links@[index].player);
    assert(before.is_owed(index, records)) by {
        assert forall|i: int| #![trigger records[i]] 0 <= i < records.len() implies {
            let e = records[i];
            &&& before.owes(index, e.0 as int)
            &&& e.1 >= before.links@[index].acks[e.0 as int]
            &&& before.rollback.held(e.0 as int).contains_key(e.1)
            &&& before.rollback.held(e.0 as int)[e.1] == e.2
        } by {
            assert(prior.owes(index, records[i].0 as int));
        }
        assert forall|source: int, f: u64|
            #![trigger before.rollback.held(source).contains_key(f)]
            before.owes(index, source) && f >= before.links@[index].acks[source]
                && before.rollback.held(source).contains_key(f) implies lists(
            records,
            source,
            f,
        ) by {
            assert(prior.owes(index, source));
            assert(prior.rollback.held(source).contains_key(f));
        }
    }
    assert(before.packets(records, k) =~= prior.packets(records, k));
    assert(before.offers(records, k) =~= prior.offers(records, k));
}

proof fn lemma_served_after_others<T: Transport>(
    before: Connection<T>,
    prior: Connection<T>,
    index: int,
    after: Connection<T>,
    now: u64,
)
    requires
        before.live(),
        prior.same_but_sending(before),
        0 <= index < before.links@.len(),
        prior.links@[index] == before.links@[index],
        prior.served(index, after.links@[index], now),
    ensures
        before.served(index, after.links@[index], now),
{
    let (records, k) = choose|records: Seq<(usize, u64, Input)>, k: int|
        #![trigger prior.offers(records, k)]
        {
            &&& prior.is_owed(index, records)
            &&& 0 <= k <= MAX_SEND_PACKETS
            &&& k <= chunks(records.len() as int)
            &&& after.links@[index].transport.history() == prior.links@[index].transport.history()
                + prior.offers(records, k)
            &&& after.links@[index].last_sent == (if k > 0 {
                Some(now)
            } else {
                prior.links@[index].last_sent
            })
        };
    lemma_owed_after_others(before, prior, index, records, k);
    assert(before.offers(records, k) =~= prior.offers(records, k));
}

proof fn lemma_serve_fails_after_others<T: Transport>(
    before: Connection<T>,
    prior: Connection<T>,
    index: int,
    after: Connection<T>,
    e: TransportError,
)
    requires
        before.live(),
        prior.same_but_sending(before),
        0 <= index < before.links@.len(),
        prior.links@[index] == before.links@[index],
        prior.serve_fails(index, after.links@[index], e),
    ensures
        before.serve_fails(index, after.links@[index], e),
{
    let (records, k) = choose|records: Seq<(usize, u64, Input)>, k: int|
        #![trigger prior.packets(records, k)]
        {
            let link = after.links@[index];
            &&& prior.is_owed(index, records)
            &&& 0 <= k < MAX_SEND_PACKETS
            &&& k < chunks(records.len() as int)
            &&& link == Link { transport: link.transport, ..prior.links@[index] }
            &&& link.transport.history() == prior.links@[index].transport.history()
                + prior.packets(records, k).map_values(|p: Seq<u8>| LinkEvent::Sent(p)).push(
                LinkEvent::Failed(e),
            )
        };
    lemma_owed_after_others(before, prior, index, records, k);
    assert(before.packets(records, k) =~= prior.packets(records, k));
}

/// The least frame any of these links but the port's own still needs of a
/// port.
pub open spec fn relay_need<T>(links: Seq<Link<T>>, source: int) -> u64
    decreases links.len(),
{
    if links.len() == 0 {
        u64::MAX
    } else {
        let rest = relay_need(links.drop_last(), source);
        if links.last().player == source || rest <= links.last().acks[source] {
            rest
        } else {
            links.last().acks[source]
        }
    }
}

impl<T: Transport> Connection<T> {
    /// How far back a host must keep each port's inputs for its links.
    pub open spec fn relay_floor(self, p: int) -> u64 {
        if p < self.settings.players {
            relay_need(self.links@, p)
        } else {
            u64::MAX
        }
    }

    /// A host keeps each port's inputs until the last link that still needs
    /// them has acknowledged them, since it is the only route between guests.
    fn update_relay_floor(&mut self)
        requires
            old(self).live(),
        ensures
            final(self).live(),
            final(self).rollback.reconciled() == old(self).rollback.reconciled(),
            old(self).settings.player != 0 ==> *final(self) == *old(self),
            old(self).settings.player == 0 ==> {
                &&& forall|p: int|
                    #![trigger final(self).rollback.relay_floor[p]]
                    0 <= p < MAX_PLAYERS ==> final(self).rollback.relay_floor[p]
                        == old(self).relay_floor(p)
                &&& *final(self) == (Connection {
                    rollback: Rollback {
                        relay_floor: final(self).rollback.relay_floor,
                        ..old(self).rollback
                    },
                    ..*old(self)
                })
            },
    {
        if !self.settings.hosting() {
            return ;
        }
        let mut floor: [u64; MAX_PLAYERS] = [u64::MAX; MAX_PLAYERS];
        let mut source: usize = 0;
        while source < self.settings.players
            invariant
                *self == *old(self),
                self.live(),
                source <= self.settings.players,
                forall|p: int|
                    #![trigger floor[p]]
                    0 <= p < MAX_PLAYERS ==> floor[p] == (if p < source {
                        relay_need(self.links@, p)
                    } else {
                        u64::MAX
                    }),
            decreases self.settings.players - source,
        {
            let mut least: u64 = u64::MAX;
            let mut i: usize = 0;
            while i < self.links.len()
                invariant
                    source < MAX_PLAYERS,
                    i <= self.links@.len(),
                    least == relay_need(self.links@.take(i as int), source as int),
                decreases self.links@.len() - i,
            {
                assert(self.links@.take(i as int + 1).drop_last() =~= self.links@.take(i as int));
                if self.links[i].player != source && self.links[i].acks[source] < least {
                    least = self.links[i].acks[source];
                }
                i += 1;
            }
            assert(self.links@.take(i as int) =~= self.links@);
            floor[source] = least;
            source += 1;
        }
        self.rollback.relay_floor = floor;
        proof {
            lemma_same_inputs_valid(old(self).rollback, self.rollback);
            crate::netplay::rollback::lemma_wf_apart_from_relay_and_log(
                old(self).rollback,
                self.rollback,
            );
        }
    }

    /// A peer's digest of a frame this peer digested too, and differently.
    pub open spec fn disagrees(self, frame: u64, player: int) -> bool {
        &&& self.peer_hashes@.contains_key(frame)
        &&& 0 <= player < MAX_PLAYERS
        &&& self.rollback.hashes@.contains_key(frame)
        &&& self.peer_hashes@[frame][player] matches Some(hash) && hash@
            != self.rollback.hashes@[frame]@
    }

    /// A peer's digest of a frame this peer digested too.
    pub open spec fn compared(self, frame: u64) -> bool {
        &&& self.peer_hashes@.contains_key(frame)
        &&& self.rollback.hashes@.contains_key(frame)
    }

    /// The first disagreement there is.
    pub open spec fn desynchronized_at(self, player: usize, frame: u64) -> bool {
        &&& self.disagrees(frame, player as int)
        &&& forall|f: u64, p: int| #[trigger]
            self.disagrees(f, p) ==> frame < f || (frame == f && player <= p)
    }

    /// What comparing digests without a disagreement leaves: the last frame
    /// that was compared, and the digests of later ones.
    pub open spec fn agreed_from(self, before: Self) -> bool {
        &&& forall|f: u64, p: int| !#[trigger] before.disagrees(f, p)
        &&& self.last_checked >= before.last_checked
        &&& forall|f: u64| #[trigger] before.compared(f) ==> f <= self.last_checked
        &&& self.last_checked == before.last_checked || before.compared(self.last_checked)
        &&& self.peer_hashes@ == before.peer_hashes@.remove_keys(
            Set::new(|f: u64| f <= self.last_checked),
        )
        &&& self == Connection {
            peer_hashes: self.peer_hashes,
            last_checked: self.last_checked,
            ..before
        }
    }

    /// Compare the peers' digests with this peer's own, and forget those that
    /// can no longer matter.
    fn compare_hashes(&mut self) -> (r: Result<(), ConnectionError>)
        requires
            old(self).live(),
        ensures
            r is Ok <==> forall|f: u64, p: int| !#[trigger] old(self).disagrees(f, p),
            r matches Err(e) ==> e matches ConnectionError::Desynchronized { player, frame }
                && old(self).desynchronized_at(player, frame) && *final(self) == *old(self),
            r is Ok ==> final(self).live() && final(self).agreed_from(*old(self)),
            *final(self) == (Connection {
                peer_hashes: final(self).peer_hashes,
                last_checked: final(self).last_checked,
                ..*old(self)
            }),
            final(self).links_ok(),
    {
        let ghost before = *self;
        let reported = self.peer_hashes.from_frame(0);
        let mut checked: u64 = self.last_checked;
        let mut i: usize = 0;
        while i < reported.len()
            invariant
                before == *old(self),
                *self == before,
                self.live(),
                crate::netplay::timeline::lists_from(reported@, before.peer_hashes@, 0),
                i <= reported@.len(),
                before.last_checked <= checked,
                checked == before.last_checked || before.compared(checked),
                forall|k: int, p: int|
                    0 <= k < i ==> !#[trigger] before.disagrees(reported@[k].0, p),
                forall|k: int|
                    0 <= k < i && #[trigger] before.compared(reported@[k].0) ==> reported@[k].0
                        <= checked,
            decreases reported@.len() - i,
        {
            let frame: u64 = reported[i].0;
            let hashes = reported[i].1;
            assert(before.peer_hashes@.contains_key(frame) && before.peer_hashes@[frame]
                == hashes);
            if let Some(own) = self.rollback.hashes.get(frame) {
                for p in 0..MAX_PLAYERS
                    invariant
                        before == *old(self),
                        *self == before,
                        self.links_ok(),
                        crate::netplay::timeline::lists_from(reported@, before.peer_hashes@, 0),
                        i < reported@.len(),
                        reported@[i as int].0 == frame,
                        before.peer_hashes@.contains_key(frame),
                        before.peer_hashes@[frame] == hashes,
                        before.rollback.hashes@.contains_key(frame),
                        before.rollback.hashes@[frame] == own,
                        forall|k: int, q: int|
                            0 <= k < i ==> !#[trigger] before.disagrees(reported@[k].0, q),
                        forall|q: int| 0 <= q < p ==> !#[trigger] before.disagrees(frame, q),
                {
                    if let Some(hash) = hashes[p] {
                        if !same_bytes(&hash, &own) {
                            proof {
                                assert(before.disagrees(frame, p as int));
                                assert forall|f: u64, q: int| #[trigger]
                                    before.disagrees(f, q) implies frame < f || (frame == f && p
                                    <= q) by {
                                    let k = choose|k: int|
                                        0 <= k < reported@.len() && #[trigger] reported@[k].0 == f;
                                    assert(has_frame(reported@, f));
                                    assert(reported@[k].0 == f);
                                    if k < i {
                                        assert(!before.disagrees(reported@[k].0, q));
                                    } else if k > i {
                                        assert(reported@[i as int].0 < reported@[k].0);
                                    }
                                }
                            }
                            return Err(ConnectionError::Desynchronized { player: p, frame });
                        }
                    }
                }
                if frame > checked {
                    checked = frame;
                }
                assert(before.compared(frame));
            }
            proof {
                assert forall|k: int, p: int| 0 <= k < i + 1 implies !#[trigger] before.disagrees(
                    reported@[k].0,
                    p,
                ) by {
                    if k == i && before.rollback.hashes@.contains_key(frame) && !(0 <= p
                        < MAX_PLAYERS) {
                        assert(!before.disagrees(frame, p));
                    }
                }
            }
            i += 1;
        }
        proof {
            assert forall|f: u64, p: int| !#[trigger] before.disagrees(f, p) by {
                if before.disagrees(f, p) {
                    assert(has_frame(reported@, f));
                    let k = choose|k: int|
                        0 <= k < reported@.len() && #[trigger] reported@[k].0 == f;
                    assert(!before.disagrees(reported@[k].0, p));
                }
            }
            assert forall|f: u64| #[trigger] before.compared(f) implies f <= checked by {
                assert(has_frame(reported@, f));
                let k = choose|k: int| 0 <= k < reported@.len() && #[trigger] reported@[k].0 == f;
                assert(before.compared(reported@[k].0));
            }
        }
        self.last_checked = checked;
        if checked < u64::MAX {
            self.peer_hashes.retain_from(checked + 1);
            assert(Set::new(|f: u64| f < checked + 1) =~= Set::new(|f: u64| f <= checked));
        } else {
            self.peer_hashes = Timeline::new();
            assert(self.peer_hashes@ =~= before.peer_hashes@.remove_keys(
                Set::new(|f: u64| f <= checked),
            ));
        }
        Ok(())
    }
}

impl<T: Transport> Connection<T> {
    /// Reports may have been read: the links heard from, acknowledgements
    /// and inputs taken, and nothing else.
    pub open spec fn heard(self, before: Self) -> bool {
        &&& self.links@.len() == before.links@.len()
        &&& forall|i: int|
            #![trigger self.links@[i]]
            0 <= i < self.links@.len() ==> {
                &&& self.links@[i].player == before.links@[i].player
                &&& self.links@[i].last_sent == before.links@[i].last_sent
                &&& before.links@[i].seen ==> self.links@[i].seen
            }
        &&& self.rollback.same_but_received(
            Rollback { acknowledged: self.rollback.acknowledged, ..before.rollback },
        )
        &&& self.rollback.submitted@[before.settings.player as int]
            == before.rollback.submitted@[before.settings.player as int]
        &&& before.connected ==> self.connected
        &&& self == Connection {
            links: self.links,
            rollback: self.rollback,
            connected: self.connected,
            peer_hashes: self.peer_hashes,
            ..before
        }
    }

    /// Only a link's transport has changed: it has answered once more.
    pub open spec fn asked_from(self, before: Self, index: int, answer: LinkEvent) -> bool {
        &&& self.links@ == before.links@.update(
            index,
            Link { transport: self.links@[index].transport, ..before.links@[index] },
        )
        &&& self.links@[index].transport.history() == before.links@[index].transport.history().push(
            answer,
        )
        &&& self == Connection { links: self.links, ..before }
    }

    /// What a packet that arrived on a link does. One of another version ends
    /// the session, a report of this session is taken, and anything else is
    /// passed over.
    pub open spec fn handles_packet(
        self,
        index: int,
        bytes: Seq<u8>,
        now: u64,
        after: Self,
        r: Result<(), ConnectionError>,
    ) -> bool {
        if Report::speaks_another_version(bytes, self.settings.session@) {
            r == Err::<(), ConnectionError>(ConnectionError::Version) && after == self
        } else {
            ||| exists|report: Report| #[trigger]
                report.carried_by(bytes) && report.acceptable() && report.session@
                    == self.settings.session@ && match r {
                    Ok(_) => self.report_refusal(index, report) is None && self.takes_report(
                        index,
                        report,
                        now,
                        after,
                    ),
                    Err(e) => {
                        &&& self.report_refusal(index, report) == Some(e)
                        &&& self.refuses_report(index, report, now, after)
                    },
                }
            ||| {
                &&& forall|report: Report| #[trigger]
                    report.carried_by(bytes) && report.acceptable() ==> report.session@
                        != self.settings.session@
                &&& r is Ok
                &&& after == self
            }
        }
    }

    /// What one answer of a link's transport does.
    pub open spec fn handles_answer(
        self,
        index: int,
        answer: LinkEvent,
        now: u64,
        after: Self,
        r: Result<(), ConnectionError>,
    ) -> bool {
        match answer {
            LinkEvent::Packet(bytes) => self.handles_packet(index, bytes, now, after, r),
            LinkEvent::Failed(e) => r == Err::<(), ConnectionError>(ConnectionError::Receiving(e))
                && after == self,
            _ => r is Ok && after == self,
        }
    }

    /// A link's transport has given these answers, and each was handled before
    /// the next was asked for.
    pub open spec fn reads(
        self,
        index: int,
        answers: Seq<LinkEvent>,
        now: u64,
        after: Self,
        r: Result<(), ConnectionError>,
    ) -> bool
        decreases answers.len(),
    {
        if answers.len() == 0 {
            after == self && r is Ok
        } else {
            exists|mid: Self, asked: Self|
                {
                    &&& self.reads(index, answers.drop_last(), now, mid, Ok(()))
                    &&& #[trigger] asked.asked_from(mid, index, answers.last())
                    &&& asked.handles_answer(index, answers.last(), now, after, r)
                }
        }
    }

    /// A link is read until nothing is left, within its budget.
    pub open spec fn reading(answers: Seq<LinkEvent>, done: bool) -> bool {
        &&& answers.len() <= RECEIVE_BUDGET
        &&& forall|i: int| 0 <= i < answers.len() - 1 ==> !(#[trigger] answers[i] is Nothing)
        &&& done ==> answers.len() == RECEIVE_BUDGET || (answers.len() > 0 && answers.last() is Nothing)
    }

    /// The first `n` links have been read, one after the other.
    pub open spec fn hears(
        self,
        n: int,
        now: u64,
        after: Self,
        r: Result<(), ConnectionError>,
    ) -> bool
        decreases n,
    {
        if n <= 0 {
            after == self && r is Ok
        } else {
            exists|mid: Self, answers: Seq<LinkEvent>|
                {
                    &&& self.hears(n - 1, now, mid, Ok(()))
                    &&& #[trigger] mid.reads(n - 1, answers, now, after, r)
                    &&& Self::reading(answers, r is Ok)
                }
        }
    }

    /// One more answer of a link.
    proof fn lemma_reads_on(
        self,
        index: int,
        answers: Seq<LinkEvent>,
        now: u64,
        mid: Self,
        asked: Self,
        after: Self,
        r: Result<(), ConnectionError>,
    )
        requires
            answers.len() > 0,
            self.reads(index, answers.drop_last(), now, mid, Ok(())),
            asked.asked_from(mid, index, answers.last()),
            asked.handles_answer(index, answers.last(), now, after, r),
        ensures
            self.reads(index, answers, now, after, r),
    {
    }

    /// One more link.
    proof fn lemma_hears_on(
        self,
        n: int,
        now: u64,
        mid: Self,
        answers: Seq<LinkEvent>,
        after: Self,
        r: Result<(), ConnectionError>,
    )
        requires
            n > 0,
            self.hears(n - 1, now, mid, Ok(())),
            mid.reads(n - 1, answers, now, after, r),
            Self::reading(answers, r is Ok),
        ensures
            self.hears(n, now, after, r),
    {
    }

    /// Read what has arrived on every link, a bounded amount from each.
    fn receive_packets(&mut self, now: u64) -> (r: Result<(), ConnectionError>)
        requires
            old(self).live(),
        ensures
            final(self).same_session(*old(self)),
            final(self).failure == old(self).failure,
            final(self).links_ok(),
            r is Ok ==> final(self).live() && final(self).heard(*old(self)),
            exists|n: int|
                0 <= n <= old(self).links@.len() && (r is Ok ==> n == old(self).links@.len())
                    && #[trigger] old(self).hears(n, now, *final(self), r),
    {
        let ghost before = *self;
        let mut buffer: Vec<u8> = Vec::new();
        while buffer.len() <= MAX_PACKET
            invariant
                buffer@.len() <= MAX_PACKET + 1,
            decreases MAX_PACKET + 1 - buffer@.len(),
        {
            buffer.push(0);
        }
        let mut index: usize = 0;
        while index < self.links.len()
            invariant
                before == *old(self),
                self.live(),
                self.heard(before),
                index <= self.links@.len(),
                buffer@.len() == MAX_PACKET + 1,
                before.hears(index as int, now, *self, Ok(())),
            decreases before.links@.len() - index,
        {
            let ghost begun = *self;
            let ghost mut answers = Seq::<LinkEvent>::empty();
            let mut asked: usize = 0;
            let mut more = true;
            while more
                invariant
                    before == *old(self),
                    before.hears(index as int, now, begun, Ok(())),
                    begun.links@.len() == before.links@.len(),
                    self.live(),
                    self.heard(before),
                    index < self.links@.len(),
                    buffer@.len() == MAX_PACKET + 1,
                    asked == answers.len(),
                    asked <= RECEIVE_BUDGET,
                    more ==> asked < RECEIVE_BUDGET,
                    begun.reads(index as int, answers, now, *self, Ok(())),
                    Self::reading(answers, !more),
                    more ==> forall|i: int| 0 <= i < answers.len() ==> !(#[trigger] answers[i] is Nothing),
                decreases RECEIVE_BUDGET - asked,
            {
                let ghost prior = *self;
                let ghost earlier = answers;
                let received = self.links[index].transport.receive(buffer.as_mut_slice());
                asked += 1;
                let ghost waiting = *self;
                proof {
                    lemma_transport_changed(prior, *self, index as int);
                    assert(self.heard(before));
                    let answer = self.links@[index as int].transport.history().last();
                    answers = answers.push(answer);
                    assert(answers.drop_last() =~= earlier);
                    assert(waiting.asked_from(prior, index as int, answer));
                }
                match received {
                    Ok(Some(len)) => {
                        if len <= buffer.len() {
                            let bytes = copy_range(buffer.as_slice(), 0, len);
                            assert(bytes@ =~= buffer@.take(len as int));
                            let done = self.handle_packet(index, bytes.as_slice(), now);
                            proof {
                                assert(answers.last() == LinkEvent::Packet(bytes@));
                                begun.lemma_reads_on(
                                    index as int,
                                    answers,
                                    now,
                                    prior,
                                    waiting,
                                    *self,
                                    done,
                                );
                            }
                            if let Err(e) = done {
                                proof {
                                    before.lemma_hears_on(
                                        index + 1,
                                        now,
                                        begun,
                                        answers,
                                        *self,
                                        done,
                                    );
                                }
                                return Err(e);
                            }
                        } else {
                            assert(begun.reads(index as int, answers, now, *self, Ok(())));
                        }
                    },
                    Ok(None) => {
                        more = false;
                        assert(begun.reads(index as int, answers, now, *self, Ok(())));
                    },
                    Err(e) => {
                        let done: Result<(), ConnectionError> = Err(ConnectionError::Receiving(e));
                        proof {
                            begun.lemma_reads_on(
                                index as int,
                                answers,
                                now,
                                prior,
                                waiting,
                                *self,
                                done,
                            );
                            before.lemma_hears_on(index + 1, now, begun, answers, *self, done);
                        }
                        return done;
                    },
                }
                if asked == RECEIVE_BUDGET {
                    more = false;
                }
            }
            proof {
                before.lemma_hears_on(index + 1, now, begun, answers, *self, Ok(()));
            }
            index += 1;
        }
        Ok(())
    }

    /// Handle a packet that arrived on a link.
    pub fn handle_packet(&mut self, index: usize, bytes: &[u8], now: u64) -> (r: Result<
        (),
        ConnectionError,
    >)
        requires
            old(self).live(),
            index < old(self).links@.len(),
        ensures
            final(self).same_session(*old(self)),
            final(self).failure == old(self).failure,
            final(self).links_ok(),
            r is Ok ==> final(self).live() && final(self).heard(*old(self)),
            old(self).handles_packet(index as int, bytes@, now, *final(self), r),
    {
        if !Report::check_version(bytes, &self.settings.session) {
            return Err(ConnectionError::Version);
        }
        match Report::decode(bytes) {
            Some(report) => {
                let ghost carried = report;
                assert(carried.carried_by(bytes@));
                if same_bytes(&report.session, &self.settings.session) {
                    self.accept(index, report, now)?;
                } else {
                    proof {
                        assert forall|other: Report| #[trigger]
                            other.carried_by(bytes@) && other.acceptable() implies other.session@
                            != self.settings.session@ by {
                            crate::netplay::report::law_a_report_says_one_thing(
                                bytes@,
                                carried,
                                other,
                            );
                        }
                    }
                }
            },
            None => {},
        }
        Ok(())
    }
}

proof fn lemma_transport_changed<T: Transport>(
    before: Connection<T>,
    after: Connection<T>,
    index: int,
)
    requires
        before.live(),
        0 <= index < before.links@.len(),
        after == (Connection { links: after.links, ..before }),
        after.links@ == before.links@.update(
            index,
            Link { transport: after.links@[index].transport, ..before.links@[index] },
        ),
    ensures
        after.live(),
{
    assert forall|i: int, j: int| 0 <= i < j < after.links@.len() implies (
    #[trigger] after.links@[i]).player != (#[trigger] after.links@[j]).player by {
        assert(before.links@[i].player != before.links@[j].player);
    }
}

/// The first link that has been silent for too long.
pub open spec fn first_silent<T>(links: Seq<Link<T>>, now: u64) -> Option<usize>
    decreases links.len(),
{
    if links.len() == 0 {
        None
    } else {
        match first_silent(links.drop_last(), now) {
            Some(player) => Some(player),
            None => if now - links.last().last_received >= PEER_TIMEOUT {
                Some(links.last().player)
            } else {
                None
            },
        }
    }
}

proof fn lemma_first_silent<T>(links: Seq<Link<T>>, now: u64, n: int)
    requires
        0 <= n <= links.len(),
        first_silent(links.take(n), now) is Some,
    ensures
        first_silent(links, now) == first_silent(links.take(n), now),
    decreases links.len() - n,
{
    if n < links.len() {
        assert(links.take(n + 1).drop_last() =~= links.take(n));
        lemma_first_silent(links, now, n + 1);
    } else {
        assert(links.take(n) =~= links);
    }
}

impl<T: Transport> Connection<T> {
    /// Why the session cannot go on, before the machine is asked.
    pub open spec fn turn_refusal(self, held: Input, now: u64) -> Option<ConnectionError> {
        if !input_valid(held) {
            Some(ConnectionError::InvalidLocalInput)
        } else if self.connected {
            match first_silent(self.links@, now) {
                Some(player) => Some(ConnectionError::PlayerTimedOut { player }),
                None => None,
            }
        } else if now - self.started >= CONNECT_TIMEOUT {
            Some(ConnectionError::ConnectTimedOut)
        } else {
            None
        }
    }

    fn check_turn(&self, held: &Input, now: u64) -> (r: Result<(), ConnectionError>)
        ensures
            r is Ok <==> self.turn_refusal(*held, now) is None,
            r matches Err(e) ==> self.turn_refusal(*held, now) == Some(e),
    {
        if held.buttons > Input::BUTTONS || held.mouse_buttons > 7 {
            return Err(ConnectionError::InvalidLocalInput);
        }
        if self.connected {
            let mut i: usize = 0;
            while i < self.links.len()
                invariant
                    i <= self.links@.len(),
                    input_valid(*held),
                    self.connected,
                    first_silent(self.links@.take(i as int), now) is None,
                decreases self.links@.len() - i,
            {
                assert(self.links@.take(i + 1).drop_last() =~= self.links@.take(i as int));
                if now.saturating_sub(self.links[i].last_received) >= PEER_TIMEOUT {
                    proof {
                        lemma_first_silent(self.links@, now, i + 1);
                    }
                    return Err(
                        ConnectionError::PlayerTimedOut { player: self.links[i].player },
                    );
                }
                i += 1;
            }
            assert(self.links@.take(i as int) =~= self.links@);
        } else if now.saturating_sub(self.started) >= CONNECT_TIMEOUT {
            return Err(ConnectionError::ConnectTimedOut);
        }
        Ok(())
    }
}

impl<T: Transport> Connection<T> {
    /// Whether the next local frame still waits for its input.
    pub open spec fn wants_input(self) -> bool {
        !self.rollback.local@.contains_key((self.rollback.current + self.rollback.delay) as u64)
    }

    /// What one turn of a connected session does to its timeline, given the
    /// sampled input of this player.
    pub open spec fn turns_to(
        self,
        after: Self,
        sampled: Input,
        advance: bool,
        stepped: bool,
    ) -> bool {
        let frame = (self.rollback.current + self.rollback.delay) as u64;
        let me = self.settings.player as int;
        &&& after.rollback.current == self.rollback.current + (if stepped {
            1int
        } else {
            0
        })
        &&& stepped ==> advance
        &&& advance && !stepped ==> after.rollback.stalled()
        &&& after.rollback.received == self.rollback.received
        &&& after.rollback.acknowledged == self.rollback.acknowledged
        &&& after.rollback.confirmed == after.rollback.confirmable()
        &&& self.rollback.confirmed <= after.rollback.confirmed
        &&& after.rollback.submitted@ == (if advance && self.wants_input() {
            self.rollback.submitted@.update(
                me,
                self.rollback.submitted@[me].insert(frame, sampled),
            )
        } else {
            self.rollback.submitted@
        })
        &&& forall|f: int|
            0 <= f < self.rollback.confirmed ==> #[trigger] after.rollback.trace@[f]
                == self.rollback.trace@[f]
    }

    /// The timeline once a host has noted how far back each port's inputs are
    /// still needed.
    pub open spec fn floors_to(self, after: Rollback) -> bool {
        if self.settings.player == 0 {
            &&& forall|p: int|
                #![trigger after.relay_floor[p]]
                0 <= p < MAX_PLAYERS ==> after.relay_floor[p] == self.relay_floor(p)
            &&& after == Rollback { relay_floor: after.relay_floor, ..self.rollback }
        } else {
            after == self.rollback
        }
    }

    /// A turn at the machine, with what was confirmed moved into the feed.
    pub open spec fn plays_to<M: Machine>(
        self,
        machine: M,
        sampled: Input,
        advance: bool,
        after: Self,
        machine_after: M,
        stepped: bool,
    ) -> bool {
        exists|floored: Rollback, played: Rollback|
            {
                &&& self.floors_to(floored)
                &&& #[trigger] floored.plays_to::<M>(
                    machine,
                    sampled,
                    advance,
                    played,
                    machine_after,
                    stepped,
                )
                &&& (Connection { rollback: played, ..self }).drains_to(after)
            }
    }

    /// A turn at the machine that stops with the error `e`: the timeline could
    /// not go on, or a peer's digest disagrees.
    pub open spec fn turn_fails<M: Machine>(
        self,
        machine: M,
        sampled: Input,
        advance: bool,
        after: Self,
        machine_after: M,
        e: ConnectionError,
    ) -> bool {
        match e {
            ConnectionError::Rollback(cause) => {
                &&& after == Connection { rollback: after.rollback, ..self }
                &&& exists|floored: Rollback| #[trigger]
                    self.floors_to(floored) && floored.play_fails::<M>(
                        machine,
                        sampled,
                        advance,
                        after.rollback,
                        machine_after,
                        cause,
                    )
            },
            ConnectionError::Desynchronized { player, frame } => {
                &&& after.desynchronized_at(player, frame)
                &&& exists|stepped: bool| #[trigger]
                    self.plays_to::<M>(machine, sampled, advance, after, machine_after, stepped)
            },
            _ => false,
        }
    }

    /// What a turn at the machine changes.
    pub open spec fn turned<M: Machine>(
        self,
        machine: M,
        sampled: Input,
        advance: bool,
        after: Self,
        machine_after: M,
        stepped: bool,
    ) -> bool {
        &&& after.links == self.links
        &&& after.same_session(self)
        &&& after.connected == self.connected
        &&& after.started == self.started
        &&& after.failure == self.failure
        &&& self.last_checked <= after.last_checked
        &&& self.turns_to(after, sampled, advance, stepped)
        &&& exists|played: Self|
            {
                &&& #[trigger] self.plays_to::<M>(
                    machine,
                    sampled,
                    advance,
                    played,
                    machine_after,
                    stepped,
                )
                &&& after.agreed_from(played)
            }
        &&& forall|origin: Seq<u8>| #[trigger]
            self.rollback.follows::<M>(machine, origin, self.rollback.current as int)
                ==> after.rollback.follows::<M>(
                machine_after,
                origin,
                after.rollback.current as int,
            )
    }

    /// What a turn of the session does. Where it is connected and may advance,
    /// the sample of its own input is taken and sent at once; then comes the
    /// machine's turn, and then every link that is due is sent what it is owed.
    pub open spec fn takes_turn<M: Machine>(
        self,
        machine: M,
        input: LocalInput,
        advance: bool,
        now: u64,
        after: Self,
        machine_after: M,
        input_after: LocalInput,
        r: Result<bool, ConnectionError>,
    ) -> bool {
        match self.turn_refusal(input.held, now) {
            Some(e) => {
                &&& r == Err::<bool, ConnectionError>(e)
                &&& after == self
                &&& machine_after == machine
                &&& input_after == input
            },
            None => {
                &&& input_after == (if self.connected && advance && self.wants_input() {
                    input.consumed()
                } else {
                    input
                })
                &&& if self.connected {
                    self.takes_connected_turn::<M>(
                        machine,
                        input.sampled(),
                        advance,
                        now,
                        after,
                        machine_after,
                        r,
                    )
                } else {
                    &&& machine_after == machine
                    &&& match r {
                        Ok(stepped) => !stepped && self.sends_to(!advance, now, after, Ok(())),
                        Err(e) => self.sends_to(!advance, now, after, Err(e)),
                    }
                }
            },
        }
    }

    /// The timeline with the sample of the session's own input taken and sent,
    /// where it may advance.
    pub open spec fn offers_sample(
        self,
        sampled: Input,
        advance: bool,
        now: u64,
        after: Self,
        r: Result<(), ConnectionError>,
    ) -> bool {
        exists|taken: Self| #[trigger]
            self.samples_to(taken, sampled, advance) && if advance {
                taken.sends_to(true, now, after, r)
            } else {
                after == taken && r is Ok
            }
    }

    /// A turn of a connected session. It stops at the first error: of a
    /// transport that was to take the sample, of the machine's turn, or of a
    /// transport that was to take what the links are owed after it.
    pub open spec fn takes_connected_turn<M: Machine>(
        self,
        machine: M,
        sampled: Input,
        advance: bool,
        now: u64,
        after: Self,
        machine_after: M,
        r: Result<bool, ConnectionError>,
    ) -> bool {
        match r {
            Ok(stepped) => exists|sent: Self, played: Self|
                {
                    &&& self.offers_sample(sampled, advance, now, sent, Ok(()))
                    &&& #[trigger] sent.turned::<M>(
                        machine,
                        sampled,
                        advance,
                        played,
                        machine_after,
                        stepped,
                    )
                    &&& played.sends_to(!advance, now, after, Ok(()))
                },
            Err(e) => {
                ||| {
                    &&& self.offers_sample(sampled, advance, now, after, Err(e))
                    &&& machine_after == machine
                }
                ||| exists|sent: Self|
                    {
                        &&& self.offers_sample(sampled, advance, now, sent, Ok(()))
                        &&& #[trigger] sent.turn_fails::<M>(
                            machine,
                            sampled,
                            advance,
                            after,
                            machine_after,
                            e,
                        )
                    }
                ||| exists|sent: Self, played: Self, stepped: bool|
                    {
                        &&& self.offers_sample(sampled, advance, now, sent, Ok(()))
                        &&& #[trigger] sent.turned::<M>(
                            machine,
                            sampled,
                            advance,
                            played,
                            machine_after,
                            stepped,
                        )
                        &&& played.sends_to(!advance, now, after, Err(e))
                    }
            },
        }
    }

    /// Taking the sample of the session's own input.
    pub open spec fn samples_to(self, after: Self, sampled: Input, advance: bool) -> bool {
        &&& after == Connection { rollback: after.rollback, ..self }
        &&& if advance {
            self.rollback.submits_to(after.rollback, sampled)
        } else {
            after.rollback == self.rollback
        }
    }

    #[verifier::rlimit(40)]
    fn turn<M: Machine>(
        &mut self,
        machine: &mut M,
        sampled: Input,
        advance: bool,
    ) -> (r: Result<bool, ConnectionError>)
        requires
            old(self).live(),
            old(self).connected,
            old(self).rollback.current < FRAME_LIMIT,
            input_valid(sampled),
            advance ==> !old(self).wants_input(),
        ensures
            final(self).same_session(*old(self)),
            final(self).failure == old(self).failure,
            final(self).links_ok(),
            r matches Ok(stepped) ==> {
                &&& final(self).live()
                &&& final(self).rollback.reconciled()
                &&& old(self).turned::<M>(
                    *old(machine),
                    sampled,
                    advance,
                    *final(self),
                    *final(machine),
                    stepped,
                )
            },
            r matches Err(e) ==> old(self).turn_fails::<M>(
                *old(machine),
                sampled,
                advance,
                *final(self),
                *final(machine),
                e,
            ),
    {
        let ghost before = *self;
        self.update_relay_floor();
        assert(before.floors_to(self.rollback));
        let ghost r0 = self.rollback;
        let ghost m0 = *machine;
        assert forall|origin: Seq<u8>| #[trigger]
            before.rollback.follows::<M>(m0, origin, before.rollback.current as int) implies r0.follows::<M>(
            m0, origin, r0.current as int) by {
            assert(r0.history == before.rollback.history);
        }
        match self.rollback.reconcile(machine) {
            Ok(_) => {},
            Err(e) => return Err(ConnectionError::Rollback(e)),
        }
        let ghost r1 = self.rollback;
        let ghost m1 = *machine;
        proof {
            let mid = choose|mid: Rollback| #[trigger]
                r0.replays_to(mid) && mid.confirms_to::<M>(r1, m1);
            lemma_replays_keep(r0, mid);
            lemma_same_inputs_valid(r0, mid);
            lemma_confirms_keep::<M>(mid, r1, m1);
            assert(r0.reconciles_to::<M>(m0, r1, m1, Ok(())));
        }
        let mut stepped = false;
        if advance {
            match self.rollback.advance(machine, sampled) {
                Ok(b) => {
                    stepped = b;
                },
                Err(e) => return Err(ConnectionError::Rollback(e)),
            }
        }
        let ghost r2 = self.rollback;
        let ghost m2 = *machine;
        proof {
            if stepped {
                let (mid, step) = choose|mid: Rollback, step: Rollback|
                    r1.submits_to(mid, sampled) && !mid.stalled() && #[trigger] mid.steps_to(step)
                        && step.confirms_to::<M>(r2, m2);
                assert(mid == r1);
                lemma_same_inputs_valid(mid, step);
                lemma_confirms_keep::<M>(step, r2, m2);
            }
            assert(r2.confirmed == r2.confirmable());
        }
        assert(self.feed_ok());
        assert(inputs_valid(self.rollback));
        match self.drain_feed() {
            Ok(_) => {},
            Err(e) => return Err(e),
        }
        proof {
            lemma_same_inputs_valid(r2, self.rollback);
        }
        let ghost drained = *self;
        proof {
            assert(r0.plays_to::<M>(m0, sampled, advance, r2, m2, stepped));
            assert(before.plays_to::<M>(m0, sampled, advance, drained, m2, stepped));
        }
        self.compare_hashes()?;
        assert(self.agreed_from(drained));
        Ok(stepped)
    }
}

proof fn lemma_replays_keep(a: Rollback, b: Rollback)
    requires
        a.wf(),
        a.replays_to(b),
    ensures
        b.local == a.local,
        b.remote == a.remote,
        b.log == a.log,
        b.confirmed == a.confirmed,
        b.current == a.current,
        b.confirmable() == a.confirmable(),
        forall|f: int| 0 <= f < a.confirmed ==> #[trigger] b.trace@[f] == a.trace@[f],
{
    assert(b.received == a.received);
}

proof fn lemma_confirms_keep<M: Machine>(a: Rollback, b: Rollback, machine: M)
    requires
        a.wf(),
        a.confirms_to::<M>(b, machine),
    ensures
        a.confirmed <= b.confirmed,
        b.confirmed == b.confirmable(),
        inputs_valid(a) ==> inputs_valid(b),
        b.trace == a.trace,
{
    crate::netplay::rollback::lemma_frontier(a);
    assert(b.received == a.received);
    if inputs_valid(a) {
        lemma_released_valid(a, b, a.confirmable());
    }
}

impl<T: Transport> Connection<T> {
    /// The same peers, in the same session, in the same seats.
    pub open spec fn same_session(self, before: Self) -> bool {
        &&& self.settings == before.settings
        &&& self.identity == before.identity
        &&& self.feed is Some == before.feed is Some
        &&& self.links@.len() == before.links@.len()
        &&& forall|i: int|
            0 <= i < self.links@.len() ==> (#[trigger] self.links@[i]).player
                == before.links@[i].player
    }

    /// One turn on what has been received so far: sample, send, replay what
    /// a late input changed, step, compare digests, and send again.
    pub fn take_turn<M: Machine>(
        &mut self,
        machine: &mut M,
        input: &mut LocalInput,
        advance: bool,
        now: u64,
    ) -> (r: Result<bool, ConnectionError>)
        requires
            old(self).live(),
            old(self).rollback.current < FRAME_LIMIT,
            !old(self).connected ==> old(self).rollback.reconciled(),
        ensures
            final(input).held == old(input).held,
            *final(input) == *old(input) || (advance && final(self).connected && *final(input)
                == old(input).consumed()),
            final(self).links_ok(),
            final(self).same_session(*old(self)),
            final(self).failure == old(self).failure,
            old(self).takes_turn::<M>(
                *old(machine),
                *old(input),
                advance,
                now,
                *final(self),
                *final(machine),
                *final(input),
                r,
            ),
            r matches Err(ConnectionError::Sending(e)) ==> exists|index: int| #[trigger]
                final(self).broke(*old(self), index, e),
            r matches Ok(stepped) ==> {
                &&& final(self).live()
                &&& final(self).rollback.reconciled()
                &&& final(self).connected == old(self).connected
                &&& old(self).last_checked <= final(self).last_checked
                &&& !old(self).connected ==> {
                    &&& !stepped
                    &&& final(self).same_but_sending(*old(self))
                    &&& *final(machine) == *old(machine)
                    &&& *final(input) == *old(input)
                }
                &&& old(self).connected ==> {
                    &&& old(self).turns_to(
                        *final(self),
                        old(input).sampled(),
                        advance,
                        stepped,
                    )
                    &&& *final(input) == (if advance && old(self).wants_input() {
                        old(input).consumed()
                    } else {
                        *old(input)
                    })
                }
                &&& forall|origin: Seq<u8>| #[trigger]
                    old(self).rollback.follows::<M>(
                        *old(machine),
                        origin,
                        old(self).rollback.current as int,
                    ) ==> final(self).rollback.follows::<M>(
                        *final(machine),
                        origin,
                        final(self).rollback.current as int,
                    )
            },
    {
        let ghost before = *self;
        self.check_turn(&input.held, now)?;
        let mut stepped = false;
        let sampled = input.sample();
        let ghost mut taken = before;
        if self.connected && advance {
            let free = self.rollback.submit_local(sampled);
            if free {
                input.consume();
            }
            proof {
                lemma_submitted_valid(before.rollback, self.rollback, sampled);
                assert(self.rollback.spec_received_frontier()
                    == before.rollback.spec_received_frontier());
                assert(self.live());
            }
            let ghost fresh = *self;
            proof {
                taken = fresh;
                assert(before.samples_to(taken, sampled, advance));
            }
            let offered = self.send_packets(true, now);
            if let Err(e) = offered {
                proof {
                    if let ConnectionError::Sending(cause) = e {
                        let index = choose|index: int| #[trigger]
                            self.broke(fresh, index, cause);
                        assert(self.broke(before, index, cause));
                    }
                }
                return Err(e);
            }
            assert(self.went_on(before));
        }
        if self.connected {
            let ghost ready = *self;
            let ghost machine_before = *machine;
            assert forall|origin: Seq<u8>| #[trigger]
                before.rollback.follows::<M>(
                machine_before,
                origin,
                before.rollback.current as int,
            ) implies ready.rollback.follows::<M>(
                machine_before,
                origin,
                ready.rollback.current as int,
            ) by {
                assert(ready.rollback.history == before.rollback.history);
            }
            assert(before.samples_to(taken, sampled, advance));
            assert(before.offers_sample(sampled, advance, now, ready, Ok(())));
            stepped = self.turn(machine, sampled, advance)?;
            assert(ready.turned::<M>(
                machine_before,
                sampled,
                advance,
                *self,
                *machine,
                stepped,
            ));
        }
        let ghost played = *self;
        assert(played.went_on(before));
        let done = self.send_packets(!advance, now);
        if let Err(e) = done {
            proof {
                if let ConnectionError::Sending(cause) = e {
                    let index = choose|index: int| #[trigger] self.broke(played, index, cause);
                    assert(played.links@[index].transport.history().len()
                        >= before.links@[index].transport.history().len());
                    assert(self.broke(before, index, cause));
                }
            }
            return Err(e);
        }
        assert(self.rollback == played.rollback);
        Ok(stepped)
    }
}

impl<T: Transport> Connection<T> {
    /// Transports may have done their own work; nothing else has changed.
    pub open spec fn same_but_transports(self, before: Self) -> bool {
        &&& self.links@.len() == before.links@.len()
        &&& forall|i: int|
            #![trigger self.links@[i]]
            0 <= i < self.links@.len() ==> self.links@[i] == (Link {
                transport: self.links@[i].transport,
                ..before.links@[i]
            })
        &&& self == Connection { links: self.links, ..before }
    }

    /// The transports of the first links have been asked whether they are ready
    /// and gave these answers, the last of which may be a failure.
    pub open spec fn polled_from(self, before: Self, answers: Seq<LinkEvent>) -> bool {
        &&& self.same_but_transports(before)
        &&& answers.len() <= before.links@.len()
        &&& forall|i: int|
            #![trigger self.links@[i]]
            0 <= i < before.links@.len() ==> (if i < answers.len() {
                self.links@[i].transport.history() == before.links@[i].transport.history().push(
                    answers[i],
                )
            } else {
                self.links@[i] == before.links@[i]
            })
        &&& forall|i: int| 0 <= i < answers.len() - 1 ==> #[trigger] answers[i] is Ready
    }

    /// What the answers come to: the session is ready where it has every link
    /// and each is ready.
    pub open spec fn poll_result(self, answers: Seq<LinkEvent>, r: Result<bool, ConnectionError>) -> bool {
        match r {
            Ok(ready) => {
                &&& answers.len() == self.links@.len()
                &&& forall|i: int| 0 <= i < answers.len() ==> #[trigger] answers[i] is Ready
                &&& ready == (self.links@.len() == self.settings.spec_expected_links() && forall|
                    i: int,
                |
                    0 <= i < answers.len() ==> #[trigger] answers[i] == LinkEvent::Ready(true))
            },
            Err(e) => answers.len() > 0 && (answers.last() matches LinkEvent::Failed(failure) && e
                == ConnectionError::Transport(failure)),
        }
    }

    /// Polling the transports.
    pub open spec fn polls_to(self, after: Self, r: Result<bool, ConnectionError>) -> bool {
        exists|answers: Seq<LinkEvent>| #[trigger]
            after.polled_from(self, answers) && self.poll_result(answers, r)
    }

    /// Whether every seat is taken and every transport can carry packets.
    fn poll_ready(&mut self) -> (r: Result<bool, ConnectionError>)
        requires
            old(self).live(),
        ensures
            final(self).live(),
            final(self).same_but_transports(*old(self)),
            old(self).polls_to(*final(self), r),
            r matches Err(e) ==> e is Transport,
    {
        let ghost before = *self;
        let ghost mut answers = Seq::<LinkEvent>::empty();
        let mut ready = self.links.len() == self.settings.expected_links();
        let mut i: usize = 0;
        while i < self.links.len()
            invariant
                before == *old(self),
                self.live(),
                self.polled_from(before, answers),
                i <= self.links@.len(),
                i == answers.len(),
                forall|j: int| 0 <= j < answers.len() ==> #[trigger] answers[j] is Ready,
                ready == (before.links@.len() == before.settings.spec_expected_links() && forall|
                    j: int,
                |
                    0 <= j < answers.len() ==> #[trigger] answers[j] == LinkEvent::Ready(true)),
            decreases before.links@.len() - i,
        {
            let ghost prior = *self;
            let ghost earlier = answers;
            let polled = self.links[i].transport.ready();
            proof {
                lemma_transport_changed(prior, *self, i as int);
                answers = answers.push(self.links@[i as int].transport.history().last());
                assert(prior.links@[i as int] == before.links@[i as int]);
                assert(self.polled_from(before, answers));
                assert forall|j: int| 0 <= j < earlier.len() implies answers[j] == earlier[j] by {}
                assert(answers.last() == answers[i as int]);
            }
            match polled {
                Ok(true) => {},
                Ok(false) => {
                    ready = false;
                },
                Err(e) => return Err(ConnectionError::Transport(e)),
            }
            i += 1;
        }
        Ok(ready)
    }

    /// Nobody has been silent while the session waits for its transports.
    pub open spec fn waiting_from(self, before: Self, now: u64) -> bool {
        &&& self.links@.len() == before.links@.len()
        &&& forall|i: int|
            #![trigger self.links@[i]]
            0 <= i < self.links@.len() ==> self.links@[i] == (Link {
                last_received: now,
                ..before.links@[i]
            })
        &&& self == Connection { links: self.links, started: now, ..before }
    }

    fn restart_clocks(&mut self, now: u64)
        requires
            old(self).live(),
        ensures
            final(self).live(),
            final(self).waiting_from(*old(self), now),
    {
        let ghost before = *self;
        self.started = now;
        let mut i: usize = 0;
        while i < self.links.len()
            invariant
                self.links@.len() == before.links@.len(),
                i <= self.links@.len(),
                *self == (Connection { links: self.links, started: now, ..before }),
                forall|j: int|
                    #![trigger self.links@[j]]
                    0 <= j < self.links@.len() ==> self.links@[j] == (if j < i {
                        Link { last_received: now, ..before.links@[j] }
                    } else {
                        before.links@[j]
                    }),
            decreases self.links@.len() - i,
        {
            self.links[i].last_received = now;
            i += 1;
        }
        assert forall|i: int, j: int| 0 <= i < j < self.links@.len() implies (
        #[trigger] self.links@[i]).player != (#[trigger] self.links@[j]).player by {
            assert(before.links@[i].player != before.links@[j].player);
        }
    }

    /// What a call to the session may do to it, whatever arrived.
    pub open spec fn moves_to<M: Machine>(
        self,
        machine: M,
        input: LocalInput,
        advance: bool,
        after: Self,
        machine_after: M,
        input_after: LocalInput,
        stepped: bool,
    ) -> bool {
        &&& after.rollback.current == self.rollback.current + (if stepped {
            1int
        } else {
            0
        })
        &&& stepped ==> advance && after.connected && input_valid(input.held)
        &&& self.connected ==> after.connected
        &&& self.rollback.confirmed <= after.rollback.confirmed
        &&& self.last_checked <= after.last_checked
        &&& ({
            let me = self.settings.player as int;
            ||| {
                &&& input_after == input
                &&& after.rollback.submitted@[me] == self.rollback.submitted@[me]
            }
            ||| {
                &&& advance
                &&& after.connected
                &&& input_after == input.consumed()
                &&& after.rollback.submitted@[me] == self.rollback.submitted@[me].insert(
                    (self.rollback.current + self.rollback.delay) as u64,
                    input.sampled(),
                )
            }
        })
        &&& forall|f: int|
            0 <= f < self.rollback.confirmed ==> #[trigger] after.rollback.trace@[f]
                == self.rollback.trace@[f]
        &&& forall|origin: Seq<u8>| #[trigger]
            self.rollback.follows::<M>(machine, origin, self.rollback.current as int)
                ==> after.rollback.follows::<M>(
                machine_after,
                origin,
                after.rollback.current as int,
            )
    }

    /// What a call to the session does: its transports are polled; where they
    /// are ready every link is read, and then comes a turn on what was heard.
    /// Until they are, nobody is held to be silent.
    pub open spec fn serves_to<M: Machine>(
        self,
        machine: M,
        input: LocalInput,
        advance: bool,
        now: u64,
        after: Self,
        machine_after: M,
        input_after: LocalInput,
        r: Result<bool, ConnectionError>,
    ) -> bool {
        exists|polled: Self, ready: Result<bool, ConnectionError>|
            #[trigger] self.polls_to(polled, ready) && match ready {
                Err(e) => {
                    &&& r == Err::<bool, ConnectionError>(e)
                    &&& after == polled
                    &&& machine_after == machine
                    &&& input_after == input
                },
                Ok(false) => {
                    &&& r == Ok::<bool, ConnectionError>(false)
                    &&& after.waiting_from(polled, now)
                    &&& machine_after == machine
                    &&& input_after == input
                },
                Ok(true) => polled.goes_on_to::<M>(
                    machine,
                    input,
                    advance,
                    now,
                    after,
                    machine_after,
                    input_after,
                    r,
                ),
            }
    }

    /// Reading every link, and a turn on what was heard.
    pub open spec fn goes_on_to<M: Machine>(
        self,
        machine: M,
        input: LocalInput,
        advance: bool,
        now: u64,
        after: Self,
        machine_after: M,
        input_after: LocalInput,
        r: Result<bool, ConnectionError>,
    ) -> bool {
        exists|n: int, heard: Self, reading: Result<(), ConnectionError>|
            0 <= n <= self.links@.len() && #[trigger] self.hears(n, now, heard, reading)
                && match reading {
                Err(e) => {
                    &&& r == Err::<bool, ConnectionError>(e)
                    &&& after == heard
                    &&& machine_after == machine
                    &&& input_after == input
                },
                Ok(_) => n == self.links@.len() && heard.takes_turn::<M>(
                    machine,
                    input,
                    advance,
                    now,
                    after,
                    machine_after,
                    input_after,
                    r,
                ),
            }
    }

    fn step_inner<M: Machine>(
        &mut self,
        machine: &mut M,
        input: &mut LocalInput,
        advance: bool,
        now: u64,
    ) -> (r: Result<bool, ConnectionError>)
        requires
            old(self).links_ok(),
            old(self).timeline_ok(),
            old(self).rollback.current < FRAME_LIMIT,
        ensures
            final(input).held == old(input).held,
            *final(input) == *old(input) || (advance && final(self).connected && *final(input)
                == old(input).consumed()),
            final(self).links_ok(),
            final(self).same_session(*old(self)),
            final(self).failure == old(self).failure,
            r matches Ok(stepped) ==> {
                &&& final(self).timeline_ok()
                &&& old(self).moves_to(
                    *old(machine),
                    *old(input),
                    advance,
                    *final(self),
                    *final(machine),
                    *final(input),
                    stepped,
                )
            },
            old(self).serves_to::<M>(
                *old(machine),
                *old(input),
                advance,
                now,
                *final(self),
                *final(machine),
                *final(input),
                r,
            ),
    {
        let ghost before = *self;
        let ready = self.poll_ready();
        let ghost polled = *self;
        assert(before.polls_to(polled, ready));
        if !ready? {
            self.restart_clocks(now);
            return Ok(false);
        }
        let reading = self.receive_packets(now);
        let ghost heard = *self;
        let ghost n = choose|n: int|
            0 <= n <= polled.links@.len() && (reading is Ok ==> n == polled.links@.len())
                && #[trigger] polled.hears(n, now, heard, reading);
        if let Err(e) = reading {
            assert(polled.hears(n, now, heard, reading));
            return Err(e);
        }
        let ghost machine_before = *machine;
        proof {
            assert forall|origin: Seq<u8>| #[trigger]
                before.rollback.follows::<M>(
                machine_before,
                origin,
                before.rollback.current as int,
            ) implies heard.rollback.follows::<M>(
                machine_before,
                origin,
                heard.rollback.current as int,
            ) by {
                assert(heard.rollback.history == before.rollback.history);
            }
        }
        let r = self.take_turn(machine, input, advance, now);
        assert(polled.hears(n, now, heard, reading));
        r
    }
}

impl<T: Transport> Connection<T> {
    /// What a step does. A session that failed once stays failed.
    pub open spec fn stepped_to<M: Machine>(
        self,
        machine: M,
        input: LocalInput,
        advance: bool,
        now: u64,
        after: Self,
        machine_after: M,
        input_after: LocalInput,
        r: Result<bool, ConnectionError>,
    ) -> bool {
        &&& after.failure == (match r {
            Ok(_) => None,
            Err(e) => Some(e),
        })
        &&& match self.failure {
            Some(e) => {
                &&& r == Err::<bool, ConnectionError>(e)
                &&& after == self
                &&& machine_after == machine
                &&& input_after == input
            },
            None => exists|left: Self| #[trigger]
                self.serves_to::<M>(
                    machine,
                    input,
                    advance,
                    now,
                    left,
                    machine_after,
                    input_after,
                    r,
                ) && after == (Connection { failure: after.failure, ..left }),
        }
        &&& r matches Ok(stepped) ==> self.moves_to::<M>(
            machine,
            input,
            advance,
            after,
            machine_after,
            input_after,
            stepped,
        )
    }

    /// Serve the session and, where `advance` asks for it, try to run one
    /// frame. Returns whether a frame ran. A session that failed once stays
    /// failed, with the same error.
    pub fn step_local<M: Machine>(
        &mut self,
        machine: &mut M,
        input: &mut LocalInput,
        advance: bool,
        now: u64,
    ) -> (r: Result<bool, ConnectionError>)
        requires
            old(self).wf(),
            old(self).rollback.current < FRAME_LIMIT,
        ensures
            final(input).held == old(input).held,
            *final(input) == *old(input) || (advance && final(self).connected && *final(input)
                == old(input).consumed()),
            final(self).wf(),
            final(self).same_session(*old(self)),
            old(self).stepped_to::<M>(
                *old(machine),
                *old(input),
                advance,
                now,
                *final(self),
                *final(machine),
                *final(input),
                r,
            ),
    {
        if let Some(e) = self.failure {
            return Err(e);
        }
        let result = self.step_inner(machine, input, advance, now);
        let ghost left = *self;
        assert(old(self).serves_to::<M>(
            *old(machine),
            *old(input),
            advance,
            now,
            left,
            *machine,
            *input,
            result,
        ));
        if let Err(e) = result {
            self.failure = Some(e);
        }
        result
    }

    /// One step with one controller sample and no motion left over.
    pub fn step<M: Machine>(
        &mut self,
        machine: &mut M,
        input: Input,
        advance: bool,
        now: u64,
    ) -> (r: Result<bool, ConnectionError>)
        requires
            old(self).wf(),
            old(self).rollback.current < FRAME_LIMIT,
        ensures
            final(self).wf(),
            final(self).same_session(*old(self)),
            exists|rest: LocalInput| #[trigger]
                old(self).stepped_to::<M>(
                    *old(machine),
                    pending(input),
                    advance,
                    now,
                    *final(self),
                    *final(machine),
                    rest,
                    r,
                ),
    {
        let mut local = LocalInput::from(input);
        self.step_local(machine, &mut local, advance, now)
    }
}

proof fn lemma_chunk_is_sendable(records: Seq<(usize, u64, Input)>, c: int)
    requires
        in_record_order(records),
        0 <= c < chunks(records.len() as int),
    ensures
        chunk(records, c).len() <= MAX_INPUTS,
        in_record_order(chunk(records, c)),
        0 <= c * MAX_INPUTS,
        c * MAX_INPUTS + chunk(records, c).len() <= records.len(),
        forall|i: int|
            0 <= i < chunk(records, c).len() ==> #[trigger] chunk(records, c)[i] == records[c
                * MAX_INPUTS + i],
{
    let from = c * MAX_INPUTS;
    assert(0 <= from <= records.len());
    let part = chunk(records, c);
    assert forall|i: int, j: int| 0 <= i < j < part.len() implies precedes(
        #[trigger] part[i],
        #[trigger] part[j],
    ) by {
        assert(records[from + i] == part[i]);
        assert(records[from + j] == part[j]);
    }
}

/// A step shows one frame where it says that one ran, and none where it says
/// that none did, whatever was replayed on the way.
pub proof fn law_a_step_shows_the_frame_it_ran<T: Transport, M: Machine>(
    before: Connection<T>,
    after: Connection<T>,
    machine: M,
    machine_after: M,
    input: LocalInput,
    input_after: LocalInput,
    advance: bool,
    now: u64,
    stepped: bool,
)
    requires
        before.stepped_to::<M>(
            machine,
            input,
            advance,
            now,
            after,
            machine_after,
            input_after,
            Ok(stepped),
        ),
    ensures
        frames_shown(machine_after.history()) == frames_shown(machine.history()) + (if stepped {
            1int
        } else {
            0
        }),
{
    let r: Result<bool, ConnectionError> = Ok(stepped);
    let sampled = input.sampled();
    let left = choose|left: Connection<T>| #[trigger]
        before.serves_to::<M>(machine, input, advance, now, left, machine_after, input_after, r)
            && after == (Connection { failure: after.failure, ..left });
    let (polled, ready) = choose|polled: Connection<T>, ready: Result<bool, ConnectionError>|
        #[trigger] before.polls_to(polled, ready) && match ready {
            Err(e) => {
                &&& r == Err::<bool, ConnectionError>(e)
                &&& left == polled
                &&& machine_after == machine
                &&& input_after == input
            },
            Ok(false) => {
                &&& r == Ok::<bool, ConnectionError>(false)
                &&& left.waiting_from(polled, now)
                &&& machine_after == machine
                &&& input_after == input
            },
            Ok(true) => polled.goes_on_to::<M>(
                machine,
                input,
                advance,
                now,
                left,
                machine_after,
                input_after,
                r,
            ),
        };
    if ready == Ok::<bool, ConnectionError>(true) {
        let (n, heard, reading) = choose|
            n: int,
            heard: Connection<T>,
            reading: Result<(), ConnectionError>,
        |
            0 <= n <= polled.links@.len() && #[trigger] polled.hears(n, now, heard, reading)
                && match reading {
                Err(e) => {
                    &&& r == Err::<bool, ConnectionError>(e)
                    &&& left == heard
                    &&& machine_after == machine
                    &&& input_after == input
                },
                Ok(_) => n == polled.links@.len() && heard.takes_turn::<M>(
                    machine,
                    input,
                    advance,
                    now,
                    left,
                    machine_after,
                    input_after,
                    r,
                ),
            };
        if heard.connected {
            let (sent, turned) = choose|sent: Connection<T>, turned: Connection<T>|
                {
                    &&& heard.offers_sample(sampled, advance, now, sent, Ok(()))
                    &&& #[trigger] sent.turned::<M>(
                        machine,
                        sampled,
                        advance,
                        turned,
                        machine_after,
                        stepped,
                    )
                    &&& turned.sends_to(!advance, now, left, Ok(()))
                };
            let drained = choose|drained: Connection<T>|
                {
                    &&& #[trigger] sent.plays_to::<M>(
                        machine,
                        sampled,
                        advance,
                        drained,
                        machine_after,
                        stepped,
                    )
                    &&& turned.agreed_from(drained)
                };
            let (floored, played) = choose|floored: Rollback, played: Rollback|
                {
                    &&& sent.floors_to(floored)
                    &&& #[trigger] floored.plays_to::<M>(
                        machine,
                        sampled,
                        advance,
                        played,
                        machine_after,
                        stepped,
                    )
                    &&& (Connection { rollback: played, ..sent }).drains_to(drained)
                };
            law_each_frame_is_shown_once::<M>(
                floored,
                played,
                machine,
                machine_after,
                sampled,
                advance,
                stepped,
            );
        }
    }
}

/// Whatever a session sends, its peers accept as a report of this session:
/// a report with the contents of any packet that is owed to a link is one
/// that a receiver takes from that packet's bytes.
pub proof fn law_sent_packets_are_readable<T: Transport>(
    connection: Connection<T>,
    index: int,
    records: Seq<(usize, u64, Input)>,
    c: int,
    report: Report,
)
    requires
        connection.live(),
        0 <= index < connection.links@.len(),
        connection.is_owed(index, records),
        0 <= c < chunks(records.len() as int),
        report.session == connection.settings.session,
        report.identity == connection.identity,
        report.player == connection.settings.player,
        report.players == connection.settings.players,
        report.ready == connection.complete(),
        report.delay == connection.settings.input_delay,
        report.window == connection.settings.rollback_frames,
        report.acks@ == connection.acks_sent(),
        report.checksum == connection.newest_digest(),
        report.inputs@ == chunk(records, c),
    ensures
        report.acceptable(),
        report.image() == connection.packet(chunk(records, c)),
        report.carried_by(connection.packet(chunk(records, c))),
        !Report::speaks_another_version(
            connection.packet(chunk(records, c)),
            connection.settings.session@,
        ),
{
    lemma_chunk_is_sendable(records, c);
    assert forall|i: int| 0 <= i < report.inputs@.len() implies entry_acceptable(
        #[trigger] report.inputs@[i],
        report.players,
    ) by {
        let j = c * MAX_INPUTS + i;
        assert(connection.owes(index, records[j].0 as int));
        assert(connection.rollback.held(records[j].0 as int).contains_key(records[j].1));
    }
    if let Some(d) = report.checksum {
        let hashes = connection.rollback.hashes@;
        let f = choose|f: u64| is_newest_until(hashes, u64::MAX, f);
        assert(hashes.contains_key(d.0));
    }
    lemma_image_carries(report);
    law_reports_pass_the_version_check(report);
}

impl<T: Transport> Connection<T> {
    /// Why a guest cannot take over the machine its host sent.
    pub open spec fn adoption_refusal(
        settings: Settings,
        machine: ColdMachine,
        cfg: Config,
        blocked: bool,
    ) -> Option<ConnectionError> {
        if exists|p: int| crate::netplay::config::socket_without_joystick(
            machine.devices@,
            settings.players as int,
            p,
        ) {
            let p = choose|p: int| crate::netplay::config::socket_without_joystick(
                machine.devices@,
                settings.players as int,
                p,
            );
            Some(ConnectionError::Config(ConfigError::AdapterSocket { player: p as usize }))
        } else if machine.refusal(cfg, blocked) is Some {
            Some(ConnectionError::Config(machine.refusal(cfg, blocked)->0))
        } else {
            None
        }
    }

    /// Take over the host's terms and machine before the first frame. The
    /// timeline starts anew.
    pub(crate) fn adopt(
        &mut self,
        settings: Settings,
        machine: &ColdMachine,
        cfg: &Config,
        blocked: bool,
        build: &[u8],
    ) -> (r: Result<(), ConnectionError>)
        requires
            old(self).wf(),
            old(self).failure is None,
            !old(self).connected,
            old(self).feed is None,
            old(self).links@.len() == 1,
            old(self).links@[0].player == 0,
            settings.valid(),
            settings.player != 0,
            machine.devices@.len() >= MAX_PLAYERS,
        ensures
            final(self).wf(),
            r is Ok <==> Self::adoption_refusal(settings, *machine, *cfg, blocked) is None,
            r matches Err(e) ==> Self::adoption_refusal(settings, *machine, *cfg, blocked) == Some(
                e,
            ) && *final(self) == *old(self),
            r is Ok ==> {
                &&& final(self).identity@ == sha256(build@ + machine.snapshot@)
                &&& final(self).rollback.is_fresh(
                    settings.player,
                    settings.players,
                    settings.input_delay,
                    settings.rollback_frames,
                )
                &&& final(self).rollback.log is None
                &&& *final(self) == (Connection {
                    settings,
                    identity: final(self).identity,
                    rollback: final(self).rollback,
                    ..*old(self)
                })
            },
    {
        match validate_player_ports(machine.devices.as_slice(), settings.players) {
            Ok(_) => {},
            Err(e) => {
                proof {
                    if let ConfigError::AdapterSocket { player } = e {
                        lemma_one_socket(machine.devices@, settings.players as int, player as int);
                    }
                }
                return Err(ConnectionError::Config(e));
            },
        }
        match machine_identity(machine, cfg, blocked, build) {
            Ok(identity) => {
                self.identity = identity;
            },
            Err(e) => {
                return Err(ConnectionError::Config(e));
            },
        }
        self.settings = settings;
        self.rollback = Rollback::new(
            settings.player,
            settings.players,
            settings.input_delay,
            settings.rollback_frames,
        );
        assert(inputs_valid(self.rollback));
        Ok(())
    }
}

proof fn lemma_one_socket(
    devices: Seq<crate::netplay::config::PortDevice>,
    players: int,
    player: int,
)
    requires
        crate::netplay::config::socket_without_joystick(devices, players, player),
    ensures
        (choose|p: int| crate::netplay::config::socket_without_joystick(devices, players, p))
            == player,
{
    let p = choose|p: int| crate::netplay::config::socket_without_joystick(devices, players, p);
    if p < player {
        assert(devices[p] == crate::netplay::config::PortDevice::Joystick);
    } else if player < p {
        assert(devices[player] == crate::netplay::config::PortDevice::Joystick);
    }
}

} // verus!
