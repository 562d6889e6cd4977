//! Setup messages between the participants of a session, the work they ask
//! the surrounding program to do, and the progress they report.
use vstd::prelude::*;
use crate::bytes::{copy_range, push_all};
use crate::netplay::connection::ConnectionError;
use crate::netplay::swap::SwapMessage;
use crate::text::{chars_of, push_decimal, push_text, text_of};

verus! {

/// Kinds of control messages, given by their first byte: setup in JSON, the
/// machine bundle, the bytes of a replacement disk, and spectator feed.
pub const KIND_JSON: u8 = 1;

pub const KIND_BUNDLE: u8 = 2;

pub const KIND_DISK: u8 = 3;

pub const KIND_FEED: u8 = 4;

/// Bytes a setup message may have, its kind included.
pub const MAX_JSON: usize = 2048;

/// Milliseconds setup may take.
pub const SETUP_TIMEOUT: u64 = 900_000;

/// Milliseconds of silence after which a spectator or its host is given up.
pub const SPECTATOR_TIMEOUT: u64 = 10_000;

/// Milliseconds after which an idle spectator link is kept alive.
pub const KEEPALIVE: u64 = 1_000;

/// Milliseconds between two reports on a transfer.
pub const PROGRESS_INTERVAL: u64 = 1_000;

/// What the participants say to each other during setup and disk changes.
pub enum Message {
    /// A guest announces itself, naming the port it was configured for; one
    /// that names none takes whatever the host has free.
    Hello { build: String, player: Option<usize> },
    /// The host's timeline settings and the port it seated this guest on.
    Offer { delay: u8, window: u8, players: usize, player: usize },
    Verified { identity: [u8; 32] },
    Start,
    Swap { id: u64, event: SwapMessage },
    /// A spectator announces itself; the host answers with its bundle.
    Watch { build: String },
    /// The host declines a spectator or a guest.
    Refused { reason: String },
}

/// Work for the program around a session.
pub enum Action {
    /// Send a setup message on a player's link.
    Send { to: usize, message: Message },
    /// Send the retained machine bundle on a player's link.
    SendBundle { to: usize },
    /// Send these framed bytes on a player's link.
    SendBytes { to: usize, bytes: Vec<u8> },
    /// Insert these bytes into a drive, or eject where there are none, and
    /// report back.
    ChangeFloppy { drive: usize, bytes: Vec<u8>, writable: bool },
}

/// Why a session stopped, or a request was refused.
#[derive(Clone, Debug, PartialEq, Eq)]
pub enum SessionError {
    Connection(ConnectionError),
    SetupTimedOut,
    /// A first byte that is not that of a setup message, or too many bytes.
    InvalidSetupMessage,
    UnexpectedMessage,
    /// A spectator was sent what it has no use for.
    UnexpectedWatchMessage,
    /// A spectator sent its host what a spectator does not send, as setup, on the
    /// stream, or of another kind altogether.
    UnexpectedSpectatorSetup,
    UnexpectedSpectatorFeed,
    UnexpectedSpectatorMessage,
    ExpectedBundle,
    /// The peer plays already: it knows no setup transfer.
    PeerWithoutSetup,
    /// The host declined this player, and said why.
    Declined { reason: String },
    /// The host declined this spectator, and said why.
    SpectatorDeclined { reason: String },
    /// A guest was offered the host's port.
    HostOwnsPort,
    DifferentMachine,
    /// A spectator built another machine than its host's.
    SpectatorMachine,
    UnknownGuest,
    DifferentBuild,
    /// A spectator's build is not its host's.
    SpectatorBuild,
    MustIntroduce,
    PortTaken { player: usize },
    SessionFull,
    /// No connected, idle session of a host.
    NotIdle,
    DriveNotConnected,
    InvalidDisk,
    UndecodableDisk,
    SwapIdentifier,
    SwapIdentifierExhausted,
    UnexpectedSwap,
    InvalidSwap,
    NoSwap,
    SwapPhase,
    PeerFrame,
    SwapTarget,
    NotAtBoundary,
    DiskNotVerified,
    DiskNotRetained,
    DigestMissing,
    DifferBefore,
    DifferAfter,
    SwapTimedOut,
    UnexpectedDisk,
    InvalidTransfer,
    /// The drive did not take the replacement disk.
    FloppyFailed,
    /// The history is too large to replay.
    HistoryTooLarge,
    NoBundle,
    SpectatorSetupTimedOut,
    SpectatorTimedOut,
    HostTimedOut,
    NotSettled,
    Failed,
}

impl SessionError {
    /// The same error, word for word.
    pub open spec fn same(self, other: SessionError) -> bool {
        match (self, other) {
            (
                SessionError::Declined { reason: a },
                SessionError::Declined { reason: b },
            ) => a@ == b@,
            (
                SessionError::SpectatorDeclined { reason: a },
                SessionError::SpectatorDeclined { reason: b },
            ) => a@ == b@,
            _ => self == other,
        }
    }

    /// The error once more.
    pub fn copied(&self) -> (r: SessionError)
        ensures
            r.same(*self),
    {
        match self {
            SessionError::Connection(e) => SessionError::Connection(*e),
            SessionError::SetupTimedOut => SessionError::SetupTimedOut,
            SessionError::InvalidSetupMessage => SessionError::InvalidSetupMessage,
            SessionError::UnexpectedMessage => SessionError::UnexpectedMessage,
            SessionError::UnexpectedWatchMessage => SessionError::UnexpectedWatchMessage,
            SessionError::UnexpectedSpectatorSetup => SessionError::UnexpectedSpectatorSetup,
            SessionError::UnexpectedSpectatorFeed => SessionError::UnexpectedSpectatorFeed,
            SessionError::UnexpectedSpectatorMessage => SessionError::UnexpectedSpectatorMessage,
            SessionError::ExpectedBundle => SessionError::ExpectedBundle,
            SessionError::PeerWithoutSetup => SessionError::PeerWithoutSetup,
            SessionError::Declined { reason } => SessionError::Declined {
                reason: text_of(chars_of(reason.as_str()).as_slice()),
            },
            SessionError::SpectatorDeclined { reason } => SessionError::SpectatorDeclined {
                reason: text_of(chars_of(reason.as_str()).as_slice()),
            },
            SessionError::HostOwnsPort => SessionError::HostOwnsPort,
            SessionError::DifferentMachine => SessionError::DifferentMachine,
            SessionError::SpectatorMachine => SessionError::SpectatorMachine,
            SessionError::UnknownGuest => SessionError::UnknownGuest,
            SessionError::DifferentBuild => SessionError::DifferentBuild,
            SessionError::SpectatorBuild => SessionError::SpectatorBuild,
            SessionError::MustIntroduce => SessionError::MustIntroduce,
            SessionError::PortTaken { player } => SessionError::PortTaken { player: *player },
            SessionError::SessionFull => SessionError::SessionFull,
            SessionError::NotIdle => SessionError::NotIdle,
            SessionError::DriveNotConnected => SessionError::DriveNotConnected,
            SessionError::InvalidDisk => SessionError::InvalidDisk,
            SessionError::UndecodableDisk => SessionError::UndecodableDisk,
            SessionError::SwapIdentifier => SessionError::SwapIdentifier,
            SessionError::SwapIdentifierExhausted => SessionError::SwapIdentifierExhausted,
            SessionError::UnexpectedSwap => SessionError::UnexpectedSwap,
            SessionError::InvalidSwap => SessionError::InvalidSwap,
            SessionError::NoSwap => SessionError::NoSwap,
            SessionError::SwapPhase => SessionError::SwapPhase,
            SessionError::PeerFrame => SessionError::PeerFrame,
            SessionError::SwapTarget => SessionError::SwapTarget,
            SessionError::NotAtBoundary => SessionError::NotAtBoundary,
            SessionError::DiskNotVerified => SessionError::DiskNotVerified,
            SessionError::DiskNotRetained => SessionError::DiskNotRetained,
            SessionError::DigestMissing => SessionError::DigestMissing,
            SessionError::DifferBefore => SessionError::DifferBefore,
            SessionError::DifferAfter => SessionError::DifferAfter,
            SessionError::SwapTimedOut => SessionError::SwapTimedOut,
            SessionError::UnexpectedDisk => SessionError::UnexpectedDisk,
            SessionError::InvalidTransfer => SessionError::InvalidTransfer,
            SessionError::FloppyFailed => SessionError::FloppyFailed,
            SessionError::HistoryTooLarge => SessionError::HistoryTooLarge,
            SessionError::NoBundle => SessionError::NoBundle,
            SessionError::SpectatorSetupTimedOut => SessionError::SpectatorSetupTimedOut,
            SessionError::SpectatorTimedOut => SessionError::SpectatorTimedOut,
            SessionError::HostTimedOut => SessionError::HostTimedOut,
            SessionError::NotSettled => SessionError::NotSettled,
            SessionError::Failed => SessionError::Failed,
        }
    }
}

/// What a session tells its user.
#[derive(Clone, Copy, Debug)]
pub enum Progress {
    WaitingForPlayers,
    ConnectingToHost,
    SendingSetup { player: usize },
    Joining { player: usize },
    ReceivingFiles { kib: u64 },
    SetupVerified,
    WatchVerified,
    AllReady { players: usize },
    Pausing { drive: usize },
    HostChanging { drive: usize },
    /// Every player took or ejected the disk.
    Changed { drive: usize, ejected: bool },
    /// A spectator followed the host's change.
    Followed { drive: usize, ejected: bool },
    Spectating { route: &'static str },
    Watching { spectators: usize },
}

impl Progress {
    /// The words for it.
    pub open spec fn words(self) -> Seq<char> {
        match self {
            Progress::WaitingForPlayers => "Waiting for the other players..."@,
            Progress::ConnectingToHost => "Connecting to the host..."@,
            Progress::SendingSetup { player } =>
                "Sending machine configuration and game files to player "@ + crate::text::decimal(
                (player + 1) as nat,
            ) + "..."@,
            Progress::Joining { player } => "Joining as player "@ + crate::text::decimal(
                (player + 1) as nat,
            ) + "; receiving machine configuration and game files..."@,
            Progress::ReceivingFiles { kib } => "Receiving game files: "@ + crate::text::decimal(
                kib as nat,
            ) + " KiB"@,
            Progress::SetupVerified => "Host setup verified; waiting to start..."@,
            Progress::WatchVerified => "Host setup verified; waiting for the game..."@,
            Progress::AllReady { players } => "All "@ + crate::text::decimal(players as nat)
                + " players are ready"@,
            Progress::Pausing { drive } => "Pausing every player for DF"@ + crate::text::decimal(
                drive as nat,
            ) + "..."@,
            Progress::HostChanging { drive } => "Host is changing DF"@ + crate::text::decimal(
                drive as nat,
            ) + "..."@,
            Progress::Changed { drive, ejected } => "DF"@ + crate::text::decimal(drive as nat) + (
            if ejected {
                " ejected"@
            } else {
                " inserted"@
            }) + " on every player"@,
            Progress::Followed { drive, ejected } => "DF"@ + crate::text::decimal(drive as nat) + (
            if ejected {
                " ejected"@
            } else {
                " changed"@
            }) + " by the host"@,
            Progress::Spectating { route } => "Spectating ("@ + route@ + "); F11 leaves"@,
            Progress::Watching { spectators } => if spectators == 0 {
                "No spectators watching"@
            } else if spectators == 1 {
                "1 spectator watching"@
            } else {
                crate::text::decimal(spectators as nat) + " spectators watching"@
            },
        }
    }

    /// The text shown for it.
    pub fn text(&self) -> (r: String)
        requires
            self matches Progress::SendingSetup { player } ==> player < usize::MAX,
            self matches Progress::Joining { player } ==> player < usize::MAX,
        ensures
            r@ == self.words(),
    {
        let mut out: Vec<char> = Vec::new();
        match self {
            Progress::WaitingForPlayers => push_text(&mut out, "Waiting for the other players..."),
            Progress::ConnectingToHost => push_text(&mut out, "Connecting to the host..."),
            Progress::SendingSetup { player } => {
                push_text(
                    &mut out,
                    "Sending machine configuration and game files to player ",
                );
                push_decimal(&mut out, *player as u64 + 1);
                push_text(&mut out, "...");
            },
            Progress::Joining { player } => {
                push_text(&mut out, "Joining as player ");
                push_decimal(&mut out, *player as u64 + 1);
                push_text(
                    &mut out,
                    "; receiving machine configuration and game files...",
                );
            },
            Progress::ReceivingFiles { kib } => {
                push_text(&mut out, "Receiving game files: ");
                push_decimal(&mut out, *kib);
                push_text(&mut out, " KiB");
            },
            Progress::SetupVerified => push_text(
                &mut out,
                "Host setup verified; waiting to start...",
            ),
            Progress::WatchVerified => push_text(
                &mut out,
                "Host setup verified; waiting for the game...",
            ),
            Progress::AllReady { players } => {
                push_text(&mut out, "All ");
                push_decimal(&mut out, *players as u64);
                push_text(&mut out, " players are ready");
            },
            Progress::Pausing { drive } => {
                push_text(&mut out, "Pausing every player for DF");
                push_decimal(&mut out, *drive as u64);
                push_text(&mut out, "...");
            },
            Progress::HostChanging { drive } => {
                push_text(&mut out, "Host is changing DF");
                push_decimal(&mut out, *drive as u64);
                push_text(&mut out, "...");
            },
            Progress::Changed { drive, ejected } => {
                push_text(&mut out, "DF");
                push_decimal(&mut out, *drive as u64);
                push_text(
                    &mut out,
                    if *ejected {
                        " ejected"
                    } else {
                        " inserted"
                    },
                );
                push_text(&mut out, " on every player");
            },
            Progress::Followed { drive, ejected } => {
                push_text(&mut out, "DF");
                push_decimal(&mut out, *drive as u64);
                push_text(
                    &mut out,
                    if *ejected {
                        " ejected"
                    } else {
                        " changed"
                    },
                );
                push_text(&mut out, " by the host");
            },
            Progress::Spectating { route } => {
                push_text(&mut out, "Spectating (");
                push_text(&mut out, route);
                push_text(&mut out, "); F11 leaves");
            },
            Progress::Watching { spectators } => {
                if *spectators == 0 {
                    push_text(&mut out, "No spectators watching");
                } else if *spectators == 1 {
                    push_text(&mut out, "1 spectator watching");
                } else {
                    push_decimal(&mut out, *spectators as u64);
                    push_text(&mut out, " spectators watching");
                }
            },
        }
        assert(out@ =~= self.words());
        text_of(out.as_slice())
    }
}

/// The kind of a message, if it has a first byte.
pub open spec fn kind_of(bytes: Seq<u8>) -> Option<u8> {
    if bytes.len() == 0 {
        None
    } else {
        Some(bytes[0])
    }
}

/// The kind of a message.
pub fn kind(bytes: &[u8]) -> (r: Option<u8>)
    ensures
        r == kind_of(bytes@),
{
    if bytes.len() == 0 {
        None
    } else {
        Some(bytes[0])
    }
}

/// A message's bytes behind its kind.
pub fn framed(kind: u8, payload: &[u8]) -> (r: Vec<u8>)
    ensures
        r@ == seq![kind] + payload@,
{
    let mut r: Vec<u8> = Vec::new();
    r.push(kind);
    push_all(&mut r, payload);
    assert(r@ =~= seq![kind] + payload@);
    r
}

/// A message's bytes without its kind.
pub fn payload(bytes: &[u8]) -> (r: Vec<u8>)
    requires
        bytes@.len() > 0,
    ensures
        r@ == bytes@.skip(1),
{
    let r = copy_range(bytes, 1, bytes.len());
    assert(r@ =~= bytes@.skip(1));
    r
}

/// The JSON of a setup message. Anything else, or too long a message, is
/// refused.
pub fn json_payload(bytes: &[u8]) -> (r: Result<Vec<u8>, SessionError>)
    ensures
        r is Ok <==> kind_of(bytes@) == Some(1u8) && bytes@.len() <= 2048,
        r matches Ok(json) ==> json@ == bytes@.skip(1),
        r matches Err(e) ==> e == SessionError::InvalidSetupMessage,
{
    if bytes.len() == 0 || bytes[0] != KIND_JSON || bytes.len() > MAX_JSON {
        return Err(SessionError::InvalidSetupMessage);
    }
    Ok(payload(bytes))
}

/// What is framed comes back out of the frame, and its kind with it.
pub proof fn law_framing_is_transparent(kind: u8, body: Seq<u8>)
    ensures
        kind_of(seq![kind] + body) == Some(kind),
        (seq![kind] + body).skip(1) == body,
{
    assert((seq![kind] + body).skip(1) =~= body);
}

} // verus!
