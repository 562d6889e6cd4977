//! What errors of a session say to the user.
use vstd::prelude::*;
use crate::netplay::config::ConfigError;
use crate::netplay::connection::ConnectionError;
use crate::netplay::feed::FeedError;
use crate::netplay::machine::MachineError;
use crate::netplay::message::SessionError;
use crate::netplay::rollback::RollbackError;
use crate::netplay::settings::SettingsError;
use crate::netplay::transport::TransportError;
use crate::text::{decimal, push_decimal, push_text, text_of};

verus! {

/// The number of a port or player that is counted from zero. The last has none
/// of its own.
pub open spec fn number_of(port: usize) -> nat {
    if port == usize::MAX {
        port as nat
    } else {
        (port + 1) as nat
    }
}

fn push_number(out: &mut Vec<char>, port: usize)
    ensures
        final(out)@ == old(out)@ + decimal(number_of(port)),
{
    push_decimal(out, port.saturating_add(1) as u64);
}

impl MachineError {
    pub open spec fn words(self) -> Seq<char> {
        "the machine could not be saved, restored or run"@
    }

    fn push_words(&self, out: &mut Vec<char>)
        ensures
            final(out)@ == old(out)@ + self.words(),
    {
        push_text(out, "the machine could not be saved, restored or run");
    }
}

impl TransportError {
    /// The words for an error.
    pub open spec fn words(self) -> Seq<char> {
        match self {
            TransportError::PacketTooLarge => "netplay packet is too large"@,
            TransportError::BufferTooSmall => "netplay receive buffer is too small"@,
            TransportError::Io => "the host's network failed"@,
        }
    }

    fn push_words(&self, out: &mut Vec<char>)
        ensures
            final(out)@ == old(out)@ + self.words(),
    {
        match self {
            TransportError::PacketTooLarge => push_text(out, "netplay packet is too large"),
            TransportError::BufferTooSmall => push_text(out, "netplay receive buffer is too small"),
            TransportError::Io => push_text(out, "the host's network failed"),
        }
    }

    /// The text shown for an error.
    pub fn text(&self) -> (r: String)
        ensures
            r@ == self.words(),
    {
        let mut out: Vec<char> = Vec::new();
        self.push_words(&mut out);
        assert(out@ =~= self.words());
        text_of(out.as_slice())
    }
}

impl FeedError {
    /// The words for an error.
    pub open spec fn words(self) -> Seq<char> {
        match self {
            FeedError::FrameOutOfOrder => "spectator history frames are out of order"@,
            FeedError::NotReached => "spectator history has not come to that frame"@,
        }
    }

    fn push_words(&self, out: &mut Vec<char>)
        ensures
            final(out)@ == old(out)@ + self.words(),
    {
        match self {
            FeedError::FrameOutOfOrder => push_text(out, "spectator history frames are out of order"),
            FeedError::NotReached => push_text(out, "spectator history has not come to that frame"),
        }
    }
}

impl RollbackError {
    /// The words for an error.
    pub open spec fn words(self) -> Seq<char> {
        match self {
            RollbackError::ForeignPort => "netplay input names another player's port"@,
            RollbackError::TooFarAhead => "netplay input is too far in the future"@,
            RollbackError::ChangedInput { frame } => "peer changed previously submitted input at frame "@ + decimal(frame as nat),
            RollbackError::ForeignAcknowledgement => "netplay acknowledgement names another player's port"@,
            RollbackError::UnsubmittedAcknowledgement => "peer acknowledged input that was never submitted"@,
            RollbackError::SnapshotBudget => "netplay snapshots exceed the 256 MiB memory budget; use less RAM or a smaller rollback window"@,
            RollbackError::Machine(e) => e.words(),
        }
    }

    fn push_words(&self, out: &mut Vec<char>)
        ensures
            final(out)@ == old(out)@ + self.words(),
    {
        let ghost before = out@;
        match self {
            RollbackError::ForeignPort => push_text(out, "netplay input names another player's port"),
            RollbackError::TooFarAhead => push_text(out, "netplay input is too far in the future"),
            RollbackError::ChangedInput { frame } => {
                push_text(out, "peer changed previously submitted input at frame ");
                push_decimal(out, *frame as u64);
                assert(out@ =~= before + self.words());
            },
            RollbackError::ForeignAcknowledgement => push_text(out, "netplay acknowledgement names another player's port"),
            RollbackError::UnsubmittedAcknowledgement => push_text(out, "peer acknowledged input that was never submitted"),
            RollbackError::SnapshotBudget => push_text(out, "netplay snapshots exceed the 256 MiB memory budget; use less RAM or a smaller rollback window"),
            RollbackError::Machine(e) => e.push_words(out),
        }
    }
}

impl SettingsError {
    /// The words for an error.
    pub open spec fn words(self) -> Seq<char> {
        match self {
            SettingsError::Players => "netplay needs 2 to 4 players"@,
            SettingsError::Player { players } => "netplay player must be 1.."@ + decimal(players as nat),
            SettingsError::InputDelay => "netplay input delay must be 0..6 frames"@,
            SettingsError::RollbackWindow => "netplay rollback window must be 1..12 frames"@,
            SettingsError::Spectators => "netplay spectators are served by player 1, up to 8"@,
            SettingsError::TooManyPeers => "a netplay host lists at most one peer address per guest"@,
            SettingsError::HostAddress => "a netplay guest needs the host's peer address"@,
            SettingsError::AddressFamily => "netplay addresses must use the same IP family"@,
            SettingsError::PeerAddress => "netplay peer must be a unicast address with a nonzero port"@,
        }
    }

    fn push_words(&self, out: &mut Vec<char>)
        ensures
            final(out)@ == old(out)@ + self.words(),
    {
        let ghost before = out@;
        match self {
            SettingsError::Players => push_text(out, "netplay needs 2 to 4 players"),
            SettingsError::Player { players } => {
                push_text(out, "netplay player must be 1..");
                push_decimal(out, *players as u64);
                assert(out@ =~= before + self.words());
            },
            SettingsError::InputDelay => push_text(out, "netplay input delay must be 0..6 frames"),
            SettingsError::RollbackWindow => push_text(out, "netplay rollback window must be 1..12 frames"),
            SettingsError::Spectators => push_text(out, "netplay spectators are served by player 1, up to 8"),
            SettingsError::TooManyPeers => push_text(out, "a netplay host lists at most one peer address per guest"),
            SettingsError::HostAddress => push_text(out, "a netplay guest needs the host's peer address"),
            SettingsError::AddressFamily => push_text(out, "netplay addresses must use the same IP family"),
            SettingsError::PeerAddress => push_text(out, "netplay peer must be a unicast address with a nonzero port"),
        }
    }

    /// The text shown for an error.
    pub fn text(&self) -> (r: String)
        ensures
            r@ == self.words(),
    {
        let mut out: Vec<char> = Vec::new();
        self.push_words(&mut out);
        assert(out@ =~= self.words());
        text_of(out.as_slice())
    }
}

impl ConfigError {
    /// The words for an error.
    pub open spec fn words(self) -> Seq<char> {
        match self {
            ConfigError::HostDependency => "netplay cannot use what depends on the host"@,
            ConfigError::HostFiles => "netplay cannot use host file commands"@,
            ConfigError::CdImage => "netplay cannot use CD images"@,
            ConfigError::CdDrive => "netplay cannot use ATAPI or SCSI CD images"@,
            ConfigError::ParallelDevice => "netplay requires the parallel port device to be none or the four-player adapter"@,
            ConfigError::Toccata => "netplay cannot use the Toccata sound board"@,
            ConfigError::Sf2000Sd => "netplay cannot use the SF2000 SD card controller"@,
            ConfigError::Execution => "netplay requires power on, interpreter execution, rewind off and run-ahead off"@,
            ConfigError::WarpBoot => "netplay cannot use warp boot"@,
            ConfigError::Serial => "netplay requires --serial off"@,
            ConfigError::PhysicalFloppy => "netplay cannot use physical floppy drives"@,
            ConfigError::AlreadyRunning => "netplay must start before the machine runs"@,
            ConfigError::ReverseHistory => "netplay cannot record reverse history"@,
            ConfigError::GamePort => "netplay requires mouse, joystick or CD32 controllers on both game ports"@,
            ConfigError::AdapterSocket { player } => "netplay player "@ + decimal(number_of(player)) + " needs a joystick in the four-player adapter's socket; set port"@ + decimal(number_of(player)) + " = joystick"@,
        }
    }

    fn push_words(&self, out: &mut Vec<char>)
        ensures
            final(out)@ == old(out)@ + self.words(),
    {
        let ghost before = out@;
        match self {
            ConfigError::HostDependency => push_text(out, "netplay cannot use what depends on the host"),
            ConfigError::HostFiles => push_text(out, "netplay cannot use host file commands"),
            ConfigError::CdImage => push_text(out, "netplay cannot use CD images"),
            ConfigError::CdDrive => push_text(out, "netplay cannot use ATAPI or SCSI CD images"),
            ConfigError::ParallelDevice => push_text(out, "netplay requires the parallel port device to be none or the four-player adapter"),
            ConfigError::Toccata => push_text(out, "netplay cannot use the Toccata sound board"),
            ConfigError::Sf2000Sd => push_text(out, "netplay cannot use the SF2000 SD card controller"),
            ConfigError::Execution => push_text(out, "netplay requires power on, interpreter execution, rewind off and run-ahead off"),
            ConfigError::WarpBoot => push_text(out, "netplay cannot use warp boot"),
            ConfigError::Serial => push_text(out, "netplay requires --serial off"),
            ConfigError::PhysicalFloppy => push_text(out, "netplay cannot use physical floppy drives"),
            ConfigError::AlreadyRunning => push_text(out, "netplay must start before the machine runs"),
            ConfigError::ReverseHistory => push_text(out, "netplay cannot record reverse history"),
            ConfigError::GamePort => push_text(out, "netplay requires mouse, joystick or CD32 controllers on both game ports"),
            ConfigError::AdapterSocket { player } => {
                push_text(out, "netplay player ");
                push_number(out, *player);
                push_text(out, " needs a joystick in the four-player adapter's socket; set port");
                push_number(out, *player);
                push_text(out, " = joystick");
                assert(out@ =~= before + self.words());
            },
        }
    }

    /// The text shown for an error.
    pub fn text(&self) -> (r: String)
        ensures
            r@ == self.words(),
    {
        let mut out: Vec<char> = Vec::new();
        self.push_words(&mut out);
        assert(out@ =~= self.words());
        text_of(out.as_slice())
    }
}

impl ConnectionError {
    /// The words for an error.
    pub open spec fn words(self) -> Seq<char> {
        match self {
            ConnectionError::Settings(e) => e.words(),
            ConnectionError::Config(e) => e.words(),
            ConnectionError::Transport(e) => e.words(),
            ConnectionError::Receiving(e) => "receiving netplay input: "@ + e.words(),
            ConnectionError::Sending(e) => "sending netplay input: "@ + e.words(),
            ConnectionError::Rollback(e) => e.words(),
            ConnectionError::Feed(e) => e.words(),
            ConnectionError::Machine(e) => e.words(),
            ConnectionError::OneLinkPerGuest => "a host with more than two players holds one link per guest"@,
            ConnectionError::GameStarted => "netplay players must all join before the game starts"@,
            ConnectionError::NotInSession { player } => "netplay player "@ + decimal(number_of(player)) + " is not part of this session"@,
            ConnectionError::PortTaken { player } => "netplay port "@ + decimal(number_of(player)) + " already has a player"@,
            ConnectionError::SessionFull => "netplay session is full"@,
            ConnectionError::Version => "netplay peer uses another protocol version"@,
            ConnectionError::ForeignPort { claimed, player } => "netplay packet claims port "@ + decimal(number_of(claimed)) + " on player "@ + decimal(number_of(player)) + "'s link"@,
            ConnectionError::SettingsDiffer => "netplay settings differ: use the same number of players and identical delay/rollback values"@,
            ConnectionError::MachineMismatch => "netplay initial machine mismatch: use the same build, ROM, disks, floppy sounds and deterministic machine settings"@,
            ConnectionError::ForeignInput { player, port } => "netplay player "@ + decimal(number_of(player)) + " submitted input for port "@ + decimal(number_of(port)),
            ConnectionError::Echo => "netplay host echoed this player's own input"@,
            ConnectionError::ChecksumTooFarAhead => "netplay checksum is too far in the future"@,
            ConnectionError::InvalidLocalInput => "invalid local netplay controller input"@,
            ConnectionError::PlayerTimedOut { player } => "netplay player "@ + decimal(number_of(player)) + " timed out"@,
            ConnectionError::ConnectTimedOut => "netplay peer timed out"@,
            ConnectionError::Desynchronized { player, frame } => "netplay desynchronized with player "@ + decimal(number_of(player)) + " at confirmed frame "@ + decimal(frame as nat),
            ConnectionError::LateFeed => "spectator history must start at frame zero"@,
            ConnectionError::Failed => "netplay session has failed"@,
            ConnectionError::NotConfirmed => "netplay frame is not confirmed"@,
        }
    }

    fn push_words(&self, out: &mut Vec<char>)
        ensures
            final(out)@ == old(out)@ + self.words(),
    {
        let ghost before = out@;
        match self {
            ConnectionError::Settings(e) => e.push_words(out),
            ConnectionError::Config(e) => e.push_words(out),
            ConnectionError::Transport(e) => e.push_words(out),
            ConnectionError::Receiving(e) => {
                push_text(out, "receiving netplay input: ");
                e.push_words(out);
                assert(out@ =~= before + self.words());
            },
            ConnectionError::Sending(e) => {
                push_text(out, "sending netplay input: ");
                e.push_words(out);
                assert(out@ =~= before + self.words());
            },
            ConnectionError::Rollback(e) => e.push_words(out),
            ConnectionError::Feed(e) => e.push_words(out),
            ConnectionError::Machine(e) => e.push_words(out),
            ConnectionError::OneLinkPerGuest => push_text(out, "a host with more than two players holds one link per guest"),
            ConnectionError::GameStarted => push_text(out, "netplay players must all join before the game starts"),
            ConnectionError::NotInSession { player } => {
                push_text(out, "netplay player ");
                push_number(out, *player);
                push_text(out, " is not part of this session");
                assert(out@ =~= before + self.words());
            },
            ConnectionError::PortTaken { player } => {
                push_text(out, "netplay port ");
                push_number(out, *player);
                push_text(out, " already has a player");
                assert(out@ =~= before + self.words());
            },
            ConnectionError::SessionFull => push_text(out, "netplay session is full"),
            ConnectionError::Version => push_text(out, "netplay peer uses another protocol version"),
            ConnectionError::ForeignPort { claimed, player } => {
                push_text(out, "netplay packet claims port ");
                push_number(out, *claimed);
                push_text(out, " on player ");
                push_number(out, *player);
                push_text(out, "'s link");
                assert(out@ =~= before + self.words());
            },
            ConnectionError::SettingsDiffer => push_text(out, "netplay settings differ: use the same number of players and identical delay/rollback values"),
            ConnectionError::MachineMismatch => push_text(out, "netplay initial machine mismatch: use the same build, ROM, disks, floppy sounds and deterministic machine settings"),
            ConnectionError::ForeignInput { player, port } => {
                push_text(out, "netplay player ");
                push_number(out, *player);
                push_text(out, " submitted input for port ");
                push_number(out, *port);
                assert(out@ =~= before + self.words());
            },
            ConnectionError::Echo => push_text(out, "netplay host echoed this player's own input"),
            ConnectionError::ChecksumTooFarAhead => push_text(out, "netplay checksum is too far in the future"),
            ConnectionError::InvalidLocalInput => push_text(out, "invalid local netplay controller input"),
            ConnectionError::PlayerTimedOut { player } => {
                push_text(out, "netplay player ");
                push_number(out, *player);
                push_text(out, " timed out");
                assert(out@ =~= before + self.words());
            },
            ConnectionError::ConnectTimedOut => push_text(out, "netplay peer timed out"),
            ConnectionError::Desynchronized { player, frame } => {
                push_text(out, "netplay desynchronized with player ");
                push_number(out, *player);
                push_text(out, " at confirmed frame ");
                push_decimal(out, *frame as u64);
                assert(out@ =~= before + self.words());
            },
            ConnectionError::LateFeed => push_text(out, "spectator history must start at frame zero"),
            ConnectionError::Failed => push_text(out, "netplay session has failed"),
            ConnectionError::NotConfirmed => push_text(out, "netplay frame is not confirmed"),
        }
    }

    /// The text shown for an error.
    pub fn text(&self) -> (r: String)
        ensures
            r@ == self.words(),
    {
        let mut out: Vec<char> = Vec::new();
        self.push_words(&mut out);
        assert(out@ =~= self.words());
        text_of(out.as_slice())
    }
}

impl SessionError {
    /// The words for an error.
    pub open spec fn words(self) -> Seq<char> {
        match self {
            SessionError::Connection(e) => e.words(),
            SessionError::SetupTimedOut => "netplay setup timed out"@,
            SessionError::InvalidSetupMessage => "invalid netplay setup message"@,
            SessionError::UnexpectedMessage => "unexpected netplay setup message"@,
            SessionError::UnexpectedWatchMessage => "unexpected netplay message for a spectator"@,
            SessionError::UnexpectedSpectatorSetup => "unexpected spectator setup message"@,
            SessionError::UnexpectedSpectatorFeed => "unexpected spectator feed message"@,
            SessionError::UnexpectedSpectatorMessage => "unexpected spectator message"@,
            SessionError::ExpectedBundle => "expected host setup bundle"@,
            SessionError::PeerWithoutSetup => "peer does not support desktop setup transfer; use the same Copperline build"@,
            SessionError::Declined { reason } => "the host declined this player: "@ + reason@,
            SessionError::SpectatorDeclined { reason } => "the host declined the spectator: "@ + reason@,
            SessionError::HostOwnsPort => "the host owns controller port 1"@,
            SessionError::DifferentMachine => "received setup produced a different machine"@,
            SessionError::SpectatorMachine => "spectator built a different machine"@,
            SessionError::UnknownGuest => "unknown netplay guest"@,
            SessionError::DifferentBuild => "netplay requires the same Copperline build on every peer"@,
            SessionError::SpectatorBuild => "spectator uses a different Copperline build"@,
            SessionError::MustIntroduce => "a netplay guest must introduce itself first"@,
            SessionError::PortTaken { player } => "netplay port "@ + decimal(number_of(player)) + " is taken; choose another player number"@,
            SessionError::SessionFull => "netplay session is full"@,
            SessionError::NotIdle => "wait for the host's connected, idle netplay session"@,
            SessionError::DriveNotConnected => "floppy drive is not connected"@,
            SessionError::InvalidDisk => "invalid replacement disk size or write protection"@,
            SessionError::UndecodableDisk => "replacement disk cannot be read"@,
            SessionError::SwapIdentifier => "unexpected disk change identifier"@,
            SessionError::SwapIdentifierExhausted => "disk change identifier exhausted"@,
            SessionError::UnexpectedSwap => "unexpected disk change request"@,
            SessionError::InvalidSwap => "invalid disk change description"@,
            SessionError::NoSwap => "no disk change in progress"@,
            SessionError::SwapPhase => "unexpected disk change phase"@,
            SessionError::PeerFrame => "invalid peer disk change frame"@,
            SessionError::SwapTarget => "invalid disk change target"@,
            SessionError::NotAtBoundary => "disk change is not at a confirmed boundary"@,
            SessionError::DiskNotVerified => "replacement disk is not verified"@,
            SessionError::DiskNotRetained => "replacement disk was not retained"@,
            SessionError::DigestMissing => "disk change digest was not captured"@,
            SessionError::DifferBefore => "players differ before the disk change"@,
            SessionError::DifferAfter => "players differ after the disk change"@,
            SessionError::SwapTimedOut => "disk change timed out"@,
            SessionError::UnexpectedDisk => "unexpected replacement disk"@,
            SessionError::InvalidTransfer => "invalid replacement disk transfer"@,
            SessionError::FloppyFailed => "the drive did not take the replacement disk"@,
            SessionError::HistoryTooLarge => "spectator refused: the retained history is too large"@,
            SessionError::NoBundle => "no setup bundle retained for spectators"@,
            SessionError::SpectatorSetupTimedOut => "spectator setup timed out"@,
            SessionError::SpectatorTimedOut => "spectator timed out"@,
            SessionError::HostTimedOut => "netplay host timed out"@,
            SessionError::NotSettled => "spectator frame is not settled"@,
            SessionError::Failed => "netplay session has failed"@,
        }
    }

    fn push_words(&self, out: &mut Vec<char>)
        ensures
            final(out)@ == old(out)@ + self.words(),
    {
        let ghost before = out@;
        match self {
            SessionError::Connection(e) => e.push_words(out),
            SessionError::SetupTimedOut => push_text(out, "netplay setup timed out"),
            SessionError::InvalidSetupMessage => push_text(out, "invalid netplay setup message"),
            SessionError::UnexpectedMessage => push_text(out, "unexpected netplay setup message"),
            SessionError::UnexpectedWatchMessage => push_text(out, "unexpected netplay message for a spectator"),
            SessionError::UnexpectedSpectatorSetup => push_text(out, "unexpected spectator setup message"),
            SessionError::UnexpectedSpectatorFeed => push_text(out, "unexpected spectator feed message"),
            SessionError::UnexpectedSpectatorMessage => push_text(out, "unexpected spectator message"),
            SessionError::ExpectedBundle => push_text(out, "expected host setup bundle"),
            SessionError::PeerWithoutSetup => push_text(out, "peer does not support desktop setup transfer; use the same Copperline build"),
            SessionError::Declined { reason } => {
                push_text(out, "the host declined this player: ");
                push_text(out, reason.as_str());
                assert(out@ =~= before + self.words());
            },
            SessionError::SpectatorDeclined { reason } => {
                push_text(out, "the host declined the spectator: ");
                push_text(out, reason.as_str());
                assert(out@ =~= before + self.words());
            },
            SessionError::HostOwnsPort => push_text(out, "the host owns controller port 1"),
            SessionError::DifferentMachine => push_text(out, "received setup produced a different machine"),
            SessionError::SpectatorMachine => push_text(out, "spectator built a different machine"),
            SessionError::UnknownGuest => push_text(out, "unknown netplay guest"),
            SessionError::DifferentBuild => push_text(out, "netplay requires the same Copperline build on every peer"),
            SessionError::SpectatorBuild => push_text(out, "spectator uses a different Copperline build"),
            SessionError::MustIntroduce => push_text(out, "a netplay guest must introduce itself first"),
            SessionError::PortTaken { player } => {
                push_text(out, "netplay port ");
                push_number(out, *player);
                push_text(out, " is taken; choose another player number");
                assert(out@ =~= before + self.words());
            },
            SessionError::SessionFull => push_text(out, "netplay session is full"),
            SessionError::NotIdle => push_text(out, "wait for the host's connected, idle netplay session"),
            SessionError::DriveNotConnected => push_text(out, "floppy drive is not connected"),
            SessionError::InvalidDisk => push_text(out, "invalid replacement disk size or write protection"),
            SessionError::UndecodableDisk => push_text(out, "replacement disk cannot be read"),
            SessionError::SwapIdentifier => push_text(out, "unexpected disk change identifier"),
            SessionError::SwapIdentifierExhausted => push_text(out, "disk change identifier exhausted"),
            SessionError::UnexpectedSwap => push_text(out, "unexpected disk change request"),
            SessionError::InvalidSwap => push_text(out, "invalid disk change description"),
            SessionError::NoSwap => push_text(out, "no disk change in progress"),
            SessionError::SwapPhase => push_text(out, "unexpected disk change phase"),
            SessionError::PeerFrame => push_text(out, "invalid peer disk change frame"),
            SessionError::SwapTarget => push_text(out, "invalid disk change target"),
            SessionError::NotAtBoundary => push_text(out, "disk change is not at a confirmed boundary"),
            SessionError::DiskNotVerified => push_text(out, "replacement disk is not verified"),
            SessionError::DiskNotRetained => push_text(out, "replacement disk was not retained"),
            SessionError::DigestMissing => push_text(out, "disk change digest was not captured"),
            SessionError::DifferBefore => push_text(out, "players differ before the disk change"),
            SessionError::DifferAfter => push_text(out, "players differ after the disk change"),
            SessionError::SwapTimedOut => push_text(out, "disk change timed out"),
            SessionError::UnexpectedDisk => push_text(out, "unexpected replacement disk"),
            SessionError::InvalidTransfer => push_text(out, "invalid replacement disk transfer"),
            SessionError::FloppyFailed => push_text(out, "the drive did not take the replacement disk"),
            SessionError::HistoryTooLarge => push_text(out, "spectator refused: the retained history is too large"),
            SessionError::NoBundle => push_text(out, "no setup bundle retained for spectators"),
            SessionError::SpectatorSetupTimedOut => push_text(out, "spectator setup timed out"),
            SessionError::SpectatorTimedOut => push_text(out, "spectator timed out"),
            SessionError::HostTimedOut => push_text(out, "netplay host timed out"),
            SessionError::NotSettled => push_text(out, "spectator frame is not settled"),
            SessionError::Failed => push_text(out, "netplay session has failed"),
        }
    }

    /// The text shown for an error.
    pub fn text(&self) -> (r: String)
        ensures
            r@ == self.words(),
    {
        let mut out: Vec<char> = Vec::new();
        self.push_words(&mut out);
        assert(out@ =~= self.words());
        text_of(out.as_slice())
    }
}

} // verus!
