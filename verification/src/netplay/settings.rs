//! Who takes part in a session, where from, and on which terms.
use vstd::prelude::*;
use crate::netplay::input::MAX_PLAYERS;
use crate::text::{chars_of, has_prefix, hex_digit, hex_value, starts_with, trim, trimmed};

verus! {

/// Default seed for a fitted clock in deterministic netplay sessions.
pub const RTC_SEED: u64 = 946684800;

/// Spectators a host can serve.
pub const MAX_SPECTATORS: usize = 8;

/// Whether a pasted code is an Internet spectator invitation.
pub fn is_spectator_code(code: &str) -> (r: bool)
    ensures
        r == has_prefix(trimmed(code@), "CLNS1."@),
{
    let chars = chars_of(code);
    let code = trim(chars.as_slice());
    starts_with(code.as_slice(), "CLNS1.")
}

/// A session code is not exactly thirty-two hexadecimal digits.
#[derive(Clone, Copy, Debug, PartialEq, Eq, Structural)]
pub struct InvalidSessionCode;

/// Thirty-two hexadecimal digits.
pub open spec fn is_session_code(code: Seq<char>) -> bool {
    &&& code.len() == 32
    &&& forall|i: int| 0 <= i < 32 ==> hex_value(#[trigger] code[i]) is Some
}

/// Decode the shared game identifier used by both CLI and GUI setup.
pub fn parse_session_id(code: &str) -> (r: Result<[u8; 16], InvalidSessionCode>)
    ensures
        r is Ok <==> is_session_code(code@),
        r matches Ok(id) ==> forall|i: int|
            0 <= i < 16 ==> #[trigger] id[i] == 16 * hex_value(code@[2 * i])->0 + hex_value(
                code@[2 * i + 1],
            )->0,
{
    let chars = chars_of(code);
    if chars.len() != 32 {
        return Err(InvalidSessionCode);
    }
    let mut id: [u8; 16] = [0u8; 16];
    for i in 0..16usize
        invariant
            chars@ == code@,
            chars@.len() == 32,
            forall|j: int| 0 <= j < 2 * i ==> hex_value(#[trigger] code@[j]) is Some,
            forall|j: int|
                0 <= j < i ==> #[trigger] id[j] == 16 * hex_value(code@[2 * j])->0 + hex_value(
                    code@[2 * j + 1],
                )->0,
    {
        let high = hex_digit(chars[2 * i]);
        let low = hex_digit(chars[2 * i + 1]);
        match (high, low) {
            (Some(h), Some(l)) => {
                id[i] = 16 * h + l;
            },
            _ => {
                return Err(InvalidSessionCode);
            },
        }
    }
    Ok(id)
}

/// What a participant contributes to the session. Players own a controller
/// port; the host also serves any spectators, who own nothing.
#[derive(Clone, Copy, Debug, PartialEq, Eq, Structural)]
pub enum Role {
    Host,
    Guest,
    Spectator,
}

/// Why a session's terms are refused.
#[derive(Clone, Copy, Debug, PartialEq, Eq, Structural)]
pub enum SettingsError {
    /// A session has two to four players.
    Players,
    /// The player's port is not one of the session's.
    Player { players: usize },
    /// The input delay is at most six frames.
    InputDelay,
    /// The rollback window is one to twelve frames.
    RollbackWindow,
    /// Spectators are served by player 1, and only so many.
    Spectators,
    /// A host lists at most one peer address per guest.
    TooManyPeers,
    /// A guest needs the host's address, and no other.
    HostAddress,
    /// Both ends of a link use the same IP family.
    AddressFamily,
    /// A peer is a unicast address with a nonzero port.
    PeerAddress,
}

/// Negotiated timeline settings, shared by every transport.
#[derive(Clone, Copy, Debug, PartialEq, Eq)]
pub struct Settings {
    /// Zero-based controller port owned by this peer. Player 1 (index 0)
    /// hosts; ports 3 and 4 are the four-player adapter's sockets.
    pub player: usize,
    /// Controller ports the session drives, 2..=[`MAX_PLAYERS`].
    pub players: usize,
    pub session: [u8; 16],
    pub input_delay: u8,
    pub rollback_frames: u8,
}

impl Settings {
    /// The terms every session keeps to.
    pub open spec fn valid(self) -> bool {
        &&& 2 <= self.players <= MAX_PLAYERS
        &&& self.player < self.players
        &&& self.input_delay <= 6
        &&& 1 <= self.rollback_frames <= 12
    }

    /// The first term that is broken.
    pub open spec fn refusal(self) -> Option<SettingsError> {
        if !(2 <= self.players <= MAX_PLAYERS) {
            Some(SettingsError::Players)
        } else if self.player >= self.players {
            Some(SettingsError::Player { players: self.players })
        } else if self.input_delay > 6 {
            Some(SettingsError::InputDelay)
        } else if !(1 <= self.rollback_frames <= 12) {
            Some(SettingsError::RollbackWindow)
        } else {
            None
        }
    }

    pub fn validate(&self) -> (r: Result<(), SettingsError>)
        ensures
            r is Ok <==> self.valid(),
            r is Ok <==> self.refusal() is None,
            r matches Err(e) ==> self.refusal() == Some(e),
    {
        if self.players < 2 || self.players > MAX_PLAYERS {
            return Err(SettingsError::Players);
        }
        if self.player >= self.players {
            return Err(SettingsError::Player { players: self.players });
        }
        if self.input_delay > 6 {
            return Err(SettingsError::InputDelay);
        }
        if self.rollback_frames < 1 || self.rollback_frames > 12 {
            return Err(SettingsError::RollbackWindow);
        }
        Ok(())
    }

    /// The host owns port 1 and relays for everybody else.
    pub fn hosting(&self) -> (r: bool)
        ensures
            r == (self.player == 0),
    {
        self.player == 0
    }

    /// Links a peer with these settings holds in a complete session.
    pub open spec fn spec_expected_links(self) -> int {
        if self.player == 0 {
            self.players - 1
        } else {
            1
        }
    }

    /// Links this peer holds once the session is complete: a guest talks
    /// only to the host, and the host to every guest.
    pub fn expected_links(&self) -> (r: usize)
        requires
            self.player == 0 ==> self.players >= 1,
        ensures
            r == self.spec_expected_links(),
    {
        if self.hosting() {
            self.players - 1
        } else {
            1
        }
    }
}

/// An IP address.
#[derive(Clone, Copy, Debug, PartialEq, Eq)]
pub enum IpAddress {
    V4([u8; 4]),
    V6([u8; 16]),
}

/// Nothing but zeros.
pub open spec fn all_zeros(s: Seq<u8>) -> bool {
    forall|i: int| 0 <= i < s.len() ==> #[trigger] s[i] == 0
}

fn zeros(bytes: &[u8]) -> (r: bool)
    ensures
        r == all_zeros(bytes@),
{
    let mut i: usize = 0;
    while i < bytes.len()
        invariant
            i <= bytes@.len(),
            forall|j: int| 0 <= j < i ==> #[trigger] bytes@[j] == 0,
        decreases bytes@.len() - i,
    {
        if bytes[i] != 0 {
            assert(bytes@[i as int] != 0);
            return false;
        }
        i += 1;
    }
    true
}

/// A UDP endpoint.
#[derive(Clone, Copy, Debug, PartialEq, Eq)]
pub struct Endpoint {
    pub ip: IpAddress,
    pub port: u16,
}

impl IpAddress {
    pub open spec fn v4(self) -> bool {
        self is V4
    }

    /// The all-zeros address.
    pub open spec fn unspecified(self) -> bool {
        match self {
            IpAddress::V4(a) => all_zeros(a@),
            IpAddress::V6(a) => all_zeros(a@),
        }
    }

    /// 224.0.0.0/4 and ff00::/8.
    pub open spec fn multicast(self) -> bool {
        match self {
            IpAddress::V4(a) => 224 <= a[0] <= 239,
            IpAddress::V6(a) => a[0] == 255,
        }
    }

    pub fn is_ipv4(&self) -> (r: bool)
        ensures
            r == self.v4(),
    {
        match self {
            IpAddress::V4(_) => true,
            IpAddress::V6(_) => false,
        }
    }

    pub fn is_unspecified(&self) -> (r: bool)
        ensures
            r == self.unspecified(),
    {
        match self {
            IpAddress::V4(a) => zeros(a),
            IpAddress::V6(a) => zeros(a),
        }
    }

    pub fn is_multicast(&self) -> (r: bool)
        ensures
            r == self.multicast(),
    {
        match self {
            IpAddress::V4(a) => a[0] >= 224 && a[0] <= 239,
            IpAddress::V6(a) => a[0] == 255,
        }
    }
}

/// Why a peer cannot be reached from an endpoint.
pub open spec fn peer_refusal(bind: Endpoint, peer: Endpoint) -> Option<SettingsError> {
    if bind.ip.v4() != peer.ip.v4() {
        Some(SettingsError::AddressFamily)
    } else if peer.port == 0 || peer.ip.unspecified() || peer.ip.multicast() {
        Some(SettingsError::PeerAddress)
    } else {
        None
    }
}

fn validate_peer(bind: &Endpoint, peer: &Endpoint) -> (r: Result<(), SettingsError>)
    ensures
        r is Ok <==> peer_refusal(*bind, *peer) is None,
        r matches Err(e) ==> peer_refusal(*bind, *peer) == Some(e),
{
    if bind.ip.is_ipv4() != peer.ip.is_ipv4() {
        return Err(SettingsError::AddressFamily);
    }
    if peer.port == 0 || peer.ip.is_unspecified() || peer.ip.is_multicast() {
        return Err(SettingsError::PeerAddress);
    }
    Ok(())
}

/// Direct UDP endpoints. A guest names the host; a host may name the guests
/// it will accept, or leave the list empty to admit any source presenting
/// the session ID, as it already does for spectators.
#[derive(Clone, Debug)]
pub struct Options {
    pub bind: Endpoint,
    pub peers: Vec<Endpoint>,
    /// Zero-based controller port owned by this peer.
    pub player: usize,
    /// Controller ports the session drives, 2..=[`MAX_PLAYERS`].
    pub players: usize,
    pub session: [u8; 16],
    pub input_delay: u8,
    pub rollback_frames: u8,
    /// Spectators the host admits on the same socket (0 = none).
    pub spectators: u8,
}

/// A spectator of a direct UDP session addresses the host directly.
#[derive(Clone, Copy, Debug, PartialEq, Eq)]
pub struct WatchOptions {
    pub bind: Endpoint,
    pub host: Endpoint,
    pub session: [u8; 16],
}

impl WatchOptions {
    pub fn validate(&self) -> (r: Result<(), SettingsError>)
        ensures
            r is Ok <==> peer_refusal(self.bind, self.host) is None,
            r matches Err(e) ==> peer_refusal(self.bind, self.host) == Some(e),
    {
        validate_peer(&self.bind, &self.host)
    }
}

/// The first listed peer that cannot be reached, and why.
pub open spec fn peers_refusal(bind: Endpoint, peers: Seq<Endpoint>) -> Option<SettingsError>
    decreases peers.len(),
{
    if peers.len() == 0 {
        None
    } else {
        match peers_refusal(bind, peers.drop_last()) {
            Some(e) => Some(e),
            None => peer_refusal(bind, peers.last()),
        }
    }
}

impl Options {
    pub open spec fn spec_settings(self) -> Settings {
        Settings {
            player: self.player,
            players: self.players,
            session: self.session,
            input_delay: self.input_delay,
            rollback_frames: self.rollback_frames,
        }
    }

    /// The first term these options break.
    pub open spec fn refusal(self) -> Option<SettingsError> {
        let settings = self.spec_settings();
        if !settings.valid() {
            settings.refusal()
        } else if self.spectators > MAX_SPECTATORS || (self.spectators != 0 && self.player != 0) {
            Some(SettingsError::Spectators)
        } else if self.player == 0 && self.peers@.len() > settings.spec_expected_links() {
            Some(SettingsError::TooManyPeers)
        } else if self.player != 0 && self.peers@.len() != 1 {
            Some(SettingsError::HostAddress)
        } else {
            peers_refusal(self.bind, self.peers@)
        }
    }

    pub fn settings(&self) -> (r: Settings)
        ensures
            r == self.spec_settings(),
    {
        Settings {
            player: self.player,
            players: self.players,
            session: self.session,
            input_delay: self.input_delay,
            rollback_frames: self.rollback_frames,
        }
    }

    pub fn role(&self) -> (r: Role)
        ensures
            r == (if self.player == 0 {
                Role::Host
            } else {
                Role::Guest
            }),
    {
        if self.player == 0 {
            Role::Host
        } else {
            Role::Guest
        }
    }

    /// The one endpoint a guest sends to.
    pub fn host_address(&self) -> (r: Option<Endpoint>)
        requires
            self.player != 0 ==> self.peers@.len() > 0,
        ensures
            r == (if self.player == 0 {
                None
            } else {
                Some(self.peers@[0])
            }),
    {
        if self.player == 0 {
            None
        } else {
            Some(self.peers[0])
        }
    }

    pub fn validate(&self) -> (r: Result<(), SettingsError>)
        ensures
            r is Ok <==> self.refusal() is None,
            r matches Err(e) ==> self.refusal() == Some(e),
    {
        let settings = self.settings();
        match settings.validate() {
            Ok(_) => {},
            Err(e) => return Err(e),
        }
        if self.spectators as usize > MAX_SPECTATORS || (self.spectators != 0
            && !settings.hosting()) {
            return Err(SettingsError::Spectators);
        }
        if settings.hosting() {
            if self.peers.len() > settings.expected_links() {
                return Err(SettingsError::TooManyPeers);
            }
        } else if self.peers.len() != 1 {
            return Err(SettingsError::HostAddress);
        }
        let mut i: usize = 0;
        while i < self.peers.len()
            invariant
                i <= self.peers@.len(),
                peers_refusal(self.bind, self.peers@.take(i as int)) is None,
                self.refusal() == peers_refusal(self.bind, self.peers@),
            decreases self.peers@.len() - i,
        {
            let checked = validate_peer(&self.bind, &self.peers[i]);
            proof {
                let done = self.peers@.take(i as int + 1);
                assert(done.drop_last() =~= self.peers@.take(i as int));
                if checked is Err {
                    lemma_first_refusal(self.bind, self.peers@, i as int + 1);
                }
            }
            match checked {
                Ok(_) => {},
                Err(e) => return Err(e),
            }
            i += 1;
        }
        assert(self.peers@.take(i as int) =~= self.peers@);
        Ok(())
    }
}

proof fn lemma_first_refusal(bind: Endpoint, peers: Seq<Endpoint>, n: int)
    requires
        0 <= n <= peers.len(),
        peers_refusal(bind, peers.take(n)) is Some,
    ensures
        peers_refusal(bind, peers) == peers_refusal(bind, peers.take(n)),
    decreases peers.len() - n,
{
    if n == peers.len() {
        assert(peers.take(n) =~= peers);
    } else {
        assert(peers.take(n + 1).drop_last() =~= peers.take(n));
        lemma_first_refusal(bind, peers, n + 1);
    }
}

/// How a participant reaches its session.
#[derive(Clone, Debug)]
pub enum ConnectionOptions {
    Direct(Options),
    Watch(WatchOptions),
}

impl ConnectionOptions {
    /// Timeline settings of a player; spectators negotiate none.
    pub fn settings(&self) -> (r: Option<Settings>)
        ensures
            r == (match *self {
                ConnectionOptions::Direct(options) => Some(options.spec_settings()),
                ConnectionOptions::Watch(_) => None,
            }),
    {
        match self {
            ConnectionOptions::Direct(options) => Some(options.settings()),
            ConnectionOptions::Watch(_) => None,
        }
    }

    /// Whether this peer was configured for a particular controller port.
    pub fn names_player(&self) -> (r: bool)
        ensures
            r == (self is Direct),
    {
        match self {
            ConnectionOptions::Direct(_) => true,
            ConnectionOptions::Watch(_) => false,
        }
    }

    pub open spec fn spec_role(self) -> Role {
        match self {
            ConnectionOptions::Direct(options) => if options.player == 0 {
                Role::Host
            } else {
                Role::Guest
            },
            ConnectionOptions::Watch(_) => Role::Spectator,
        }
    }

    pub fn role(&self) -> (r: Role)
        ensures
            r == self.spec_role(),
    {
        match self {
            ConnectionOptions::Direct(options) => options.role(),
            ConnectionOptions::Watch(_) => Role::Spectator,
        }
    }

    /// Whether these options host an Internet session, the only kind that
    /// writes a spectator invitation file: direct options never do.
    pub fn hosts_internet(&self) -> (r: bool)
        ensures
            !r,
    {
        false
    }

    /// Spectators a hosting player admits.
    pub fn spectators(&self) -> (r: usize)
        ensures
            r == (match *self {
                ConnectionOptions::Direct(options) => if options.player == 0 {
                    options.spectators as int
                } else {
                    0
                },
                ConnectionOptions::Watch(_) => 0,
            }),
    {
        match self {
            ConnectionOptions::Direct(options) => if options.player == 0 {
                options.spectators as usize
            } else {
                0
            },
            ConnectionOptions::Watch(_) => 0,
        }
    }

    /// The first term these options break.
    pub open spec fn refusal(self) -> Option<SettingsError> {
        match self {
            ConnectionOptions::Direct(options) => options.refusal(),
            ConnectionOptions::Watch(watch) => peer_refusal(watch.bind, watch.host),
        }
    }

    pub fn validate(&self) -> (r: Result<(), SettingsError>)
        ensures
            r is Ok <==> self.refusal() is None,
            r matches Err(e) ==> self.refusal() == Some(e),
    {
        match self {
            ConnectionOptions::Direct(options) => options.validate(),
            ConnectionOptions::Watch(options) => options.validate(),
        }
    }
}

impl From<Options> for ConnectionOptions {
    fn from(options: Options) -> (r: Self) {
        ConnectionOptions::Direct(options)
    }
}

impl vstd::std_specs::convert::FromSpecImpl<Options> for ConnectionOptions {
    open spec fn obeys_from_spec() -> bool {
        true
    }

    open spec fn from_spec(options: Options) -> ConnectionOptions {
        ConnectionOptions::Direct(options)
    }
}

impl From<WatchOptions> for ConnectionOptions {
    fn from(options: WatchOptions) -> (r: Self) {
        ConnectionOptions::Watch(options)
    }
}

impl vstd::std_specs::convert::FromSpecImpl<WatchOptions> for ConnectionOptions {
    open spec fn obeys_from_spec() -> bool {
        true
    }

    open spec fn from_spec(options: WatchOptions) -> ConnectionOptions {
        ConnectionOptions::Watch(options)
    }
}

/// How far a participant's timeline has come.
#[derive(Clone, Copy, Debug, PartialEq, Eq, Structural)]
pub struct Status {
    pub connected: bool,
    pub frame: u64,
    pub confirmed_frame: u64,
    /// All local inputs below this frame have reached every peer.
    pub acknowledged_frame: u64,
    pub rollbacks: u64,
    pub replayed_frames: u64,
    pub checked_frame: u64,
    /// Confirmed host frames a spectator has yet to execute.
    pub behind: u64,
}

impl Status {
    pub open spec fn settled(self) -> bool {
        self.connected && self.frame == self.confirmed_frame && self.frame
            <= self.acknowledged_frame
    }

    /// A capture may end this process, so every peer needs its frame's inputs.
    pub fn ready_to_capture(&self) -> (r: bool)
        ensures
            r == self.settled(),
    {
        self.connected && self.frame == self.confirmed_frame && self.frame
            <= self.acknowledged_frame
    }
}

} // verus!
