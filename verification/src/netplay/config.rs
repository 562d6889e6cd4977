//! Which machine configurations a session can run.
use vstd::prelude::*;
use crate::netplay::digest::{digest, sha256};
use crate::netplay::settings::RTC_SEED;
use crate::bytes::push_all;

verus! {

/// The first controller port that is a socket of the four-player adapter.
pub const PARALLEL_PORT_FIRST: usize = 2;

/// A drive's image.
#[derive(Clone, Debug)]
pub struct Drive {
    pub path: String,
    /// The path names a CD image.
    pub cd_image: bool,
}

/// What hangs off the parallel port.
#[derive(Clone, Copy, Debug, PartialEq, Eq, Structural)]
pub enum ParallelDevice {
    Unplugged,
    JoystickAdapter,
    Printer,
    Sampler,
}

/// What the serial port is wired to.
#[derive(Clone, Copy, Debug, PartialEq, Eq, Structural)]
pub enum SerialMode {
    Off,
    Wired,
}

/// What is plugged into a controller port.
#[derive(Clone, Copy, Debug, PartialEq, Eq, Structural)]
pub enum PortDevice {
    Empty,
    Mouse,
    Joystick,
    Cd32Pad,
    Other,
}

/// What a session needs to know of a machine configuration.
pub struct Config {
    /// Hard drives are carried by the session itself.
    pub netplay_storage: bool,
    pub ide_master: Option<Drive>,
    pub ide_slave: Option<Drive>,
    pub scsi_units: Vec<Option<Drive>>,
    pub lide_drives: Vec<Option<Drive>>,
    pub run_program_dir: Option<String>,
    pub uaelib_files: bool,
    pub cd_image_path: Option<String>,
    pub parallel_device: ParallelDevice,
    pub toccata: bool,
    pub sf2000sd: bool,
    pub cpu_jit: bool,
    pub power_on: bool,
    pub rewind: bool,
    pub run_ahead_frames: u32,
    pub warp_boot: bool,
    pub warp_until: Option<u64>,
    pub serial_mode: SerialMode,
    /// One entry per floppy drive: whether it is a physical drive.
    pub floppy_bridges: Vec<bool>,
    pub rtc_present: bool,
    pub rtc_seed_unix: Option<u64>,
}

/// Why a session cannot run a machine.
#[derive(Clone, Copy, Debug, PartialEq, Eq, Structural)]
pub enum ConfigError {
    /// The machine depends on the host in a way that cannot be rewound.
    HostDependency,
    HostFiles,
    CdImage,
    CdDrive,
    ParallelDevice,
    Toccata,
    Sf2000Sd,
    Execution,
    WarpBoot,
    Serial,
    PhysicalFloppy,
    /// The machine has already run.
    AlreadyRunning,
    /// Reverse history is being recorded.
    ReverseHistory,
    /// A game port has no mouse, joystick or CD32 controller.
    GamePort,
    /// The player's adapter socket has no joystick.
    AdapterSocket { player: usize },
}

/// Whether a drive is present and is a CD image.
pub open spec fn is_cd(drive: Option<Drive>) -> bool {
    drive matches Some(d) && d.cd_image
}

/// Whether any drive of a list is a CD image.
pub open spec fn any_cd(drives: Seq<Option<Drive>>) -> bool {
    exists|i: int| 0 <= i < drives.len() && is_cd(#[trigger] drives[i])
}

fn cd(drive: &Option<Drive>) -> (r: bool)
    ensures
        r == is_cd(*drive),
{
    match drive {
        Some(d) => d.cd_image,
        None => false,
    }
}

fn some_cd(drives: &Vec<Option<Drive>>) -> (r: bool)
    ensures
        r == any_cd(drives@),
{
    let mut i: usize = 0;
    while i < drives.len()
        invariant
            i <= drives@.len(),
            forall|j: int| 0 <= j < i ==> !is_cd(#[trigger] drives@[j]),
        decreases drives@.len() - i,
    {
        if cd(&drives[i]) {
            assert(is_cd(drives@[i as int]));
            return true;
        }
        i += 1;
    }
    false
}

fn some_true(flags: &Vec<bool>) -> (r: bool)
    ensures
        r == flags@.contains(true),
{
    let mut i: usize = 0;
    while i < flags.len()
        invariant
            i <= flags@.len(),
            forall|j: int| 0 <= j < i ==> !(#[trigger] flags@[j]),
        decreases flags@.len() - i,
    {
        if flags[i] {
            assert(flags@[i as int]);
            return true;
        }
        i += 1;
    }
    false
}

impl Config {
    /// The first reason a session cannot run this machine. `blocked` says
    /// whether the machine, hard drives the session carries left out, depends
    /// on the host.
    pub open spec fn refusal(self, blocked: bool) -> Option<ConfigError> {
        if blocked {
            Some(ConfigError::HostDependency)
        } else if self.run_program_dir is Some || self.uaelib_files {
            Some(ConfigError::HostFiles)
        } else if self.cd_image_path is Some {
            Some(ConfigError::CdImage)
        } else if is_cd(self.ide_master) || is_cd(self.ide_slave) || any_cd(self.scsi_units@)
            || any_cd(self.lide_drives@) {
            Some(ConfigError::CdDrive)
        } else if !(self.parallel_device is Unplugged || self.parallel_device is JoystickAdapter) {
            Some(ConfigError::ParallelDevice)
        } else if self.toccata {
            Some(ConfigError::Toccata)
        } else if self.sf2000sd {
            Some(ConfigError::Sf2000Sd)
        } else if self.cpu_jit || !self.power_on || self.rewind || self.run_ahead_frames != 0 {
            Some(ConfigError::Execution)
        } else if self.warp_boot || self.warp_until is Some {
            Some(ConfigError::WarpBoot)
        } else if !(self.serial_mode is Off) {
            Some(ConfigError::Serial)
        } else if self.floppy_bridges@.contains(true) {
            Some(ConfigError::PhysicalFloppy)
        } else {
            None
        }
    }
}

/// Empty drive bays.
pub open spec fn emptied(before: Seq<Option<Drive>>, after: Seq<Option<Drive>>) -> bool {
    &&& after.len() == before.len()
    &&& forall|i: int| 0 <= i < after.len() ==> (#[trigger] after[i]) is None
}

fn empty_bays(n: usize) -> (r: Vec<Option<Drive>>)
    ensures
        r@.len() == n,
        forall|i: int| 0 <= i < n ==> (#[trigger] r@[i]) is None,
{
    let mut r: Vec<Option<Drive>> = Vec::new();
    while r.len() < n
        invariant
            r@.len() <= n,
            forall|i: int| 0 <= i < r@.len() ==> (#[trigger] r@[i]) is None,
        decreases n - r@.len(),
    {
        r.push(None);
    }
    r
}

/// The configuration whose host dependencies a session is checked for: hard
/// drives the session itself carries are none.
pub fn dependencies(cfg: Config) -> (r: Config)
    ensures
        !cfg.netplay_storage ==> r == cfg,
        cfg.netplay_storage ==> {
            &&& emptied(cfg.scsi_units@, r.scsi_units@)
            &&& emptied(cfg.lide_drives@, r.lide_drives@)
            &&& r == (Config {
                ide_master: None,
                ide_slave: None,
                scsi_units: r.scsi_units,
                lide_drives: r.lide_drives,
                ..cfg
            })
        },
{
    if cfg.netplay_storage {
        let scsi_units = empty_bays(cfg.scsi_units.len());
        let lide_drives = empty_bays(cfg.lide_drives.len());
        Config { ide_master: None, ide_slave: None, scsi_units, lide_drives, ..cfg }
    } else {
        cfg
    }
}

/// Validate static host dependencies before building or connecting a machine.
pub fn validate_config(cfg: &Config, blocked: bool) -> (r: Result<(), ConfigError>)
    ensures
        r is Ok <==> cfg.refusal(blocked) is None,
        r matches Err(e) ==> cfg.refusal(blocked) == Some(e),
{
    if blocked {
        return Err(ConfigError::HostDependency);
    }
    if cfg.run_program_dir.is_some() || cfg.uaelib_files {
        return Err(ConfigError::HostFiles);
    }
    if cfg.cd_image_path.is_some() {
        return Err(ConfigError::CdImage);
    }
    if cd(&cfg.ide_master) || cd(&cfg.ide_slave) || some_cd(&cfg.scsi_units) || some_cd(
        &cfg.lide_drives,
    ) {
        return Err(ConfigError::CdDrive);
    }
    // The sampler attaches in the frontend after session construction; it is
    // rejected here, before any parallel host device is opened. The
    // four-player adapter is passive wiring with no host peripheral behind
    // it, so it stays.
    if cfg.parallel_device != ParallelDevice::Unplugged && cfg.parallel_device
        != ParallelDevice::JoystickAdapter {
        return Err(ConfigError::ParallelDevice);
    }
    if cfg.toccata {
        return Err(ConfigError::Toccata);
    }
    if cfg.sf2000sd {
        return Err(ConfigError::Sf2000Sd);
    }
    if cfg.cpu_jit || !cfg.power_on || cfg.rewind || cfg.run_ahead_frames != 0 {
        return Err(ConfigError::Execution);
    }
    if cfg.warp_boot || cfg.warp_until.is_some() {
        return Err(ConfigError::WarpBoot);
    }
    if cfg.serial_mode != SerialMode::Off {
        return Err(ConfigError::Serial);
    }
    if some_true(&cfg.floppy_bridges) {
        return Err(ConfigError::PhysicalFloppy);
    }
    Ok(())
}

/// Apply the deterministic clock default before constructing a netplay
/// machine.
pub fn prepare_config(cfg: &mut Config, blocked: bool) -> (r: Result<(), ConfigError>)
    ensures
        r is Ok <==> old(cfg).refusal(blocked) is None,
        r matches Err(e) ==> old(cfg).refusal(blocked) == Some(e),
        r is Err ==> *final(cfg) == *old(cfg),
        r is Ok ==> *final(cfg) == (Config {
            rtc_seed_unix: if old(cfg).rtc_present && old(cfg).rtc_seed_unix is None {
                Some(946_684_800u64)
            } else {
                old(cfg).rtc_seed_unix
            },
            ..*old(cfg)
        }),
{
    match validate_config(cfg, blocked) {
        Ok(_) => {},
        Err(e) => return Err(e),
    }
    if cfg.rtc_present && cfg.rtc_seed_unix.is_none() {
        cfg.rtc_seed_unix = Some(RTC_SEED);
    }
    Ok(())
}

/// The first player, from port 3 on, without a joystick in its socket.
pub open spec fn socket_without_joystick(devices: Seq<PortDevice>, players: int, p: int) -> bool {
    &&& PARALLEL_PORT_FIRST <= p < players
    &&& devices[p] != PortDevice::Joystick
    &&& forall|q: int| PARALLEL_PORT_FIRST <= q < p ==> #[trigger] devices[q] == PortDevice::Joystick
}

/// Every player needs a controller its inputs can reach. Ports 3 and 4 are
/// sockets on the passive four-player adapter, so the adapter must be plugged
/// in with a joystick in each socket the session uses.
pub fn validate_player_ports(devices: &[PortDevice], players: usize) -> (r: Result<
    (),
    ConfigError,
>)
    requires
        players <= devices@.len(),
    ensures
        r is Ok <==> forall|p: int|
            2 <= p < players ==> #[trigger] devices@[p] == PortDevice::Joystick,
        r matches Err(e) ==> e matches ConfigError::AdapterSocket { player }
            && socket_without_joystick(devices@, players as int, player as int),
{
    let mut player: usize = PARALLEL_PORT_FIRST;
    while player < players
        invariant
            PARALLEL_PORT_FIRST <= player,
            players <= devices@.len(),
            forall|p: int|
                PARALLEL_PORT_FIRST <= p < player && p < players ==> #[trigger] devices@[p]
                    == PortDevice::Joystick,
        decreases players - player,
    {
        if devices[player] != PortDevice::Joystick {
            return Err(ConfigError::AdapterSocket { player });
        }
        player += 1;
    }
    Ok(())
}

/// What a cold machine says of itself before a session adopts it.
pub struct ColdMachine {
    /// Colour clocks executed so far.
    pub emulated_cck: u64,
    /// The host or the debugger holds state that cannot be rewound.
    pub blocked: bool,
    pub time_travel: bool,
    /// What is plugged into the game ports.
    pub game_ports: Vec<PortDevice>,
    /// What is plugged into every controller port, the adapter's sockets
    /// included.
    pub devices: Vec<PortDevice>,
    /// The complete normalized snapshot.
    pub snapshot: Vec<u8>,
}

/// A controller a session's inputs can drive.
pub open spec fn drivable(device: PortDevice) -> bool {
    device is Mouse || device is Joystick || device is Cd32Pad
}

impl ColdMachine {
    /// The first reason a session cannot start from this machine.
    pub open spec fn refusal(self, cfg: Config, blocked: bool) -> Option<ConfigError> {
        if cfg.refusal(blocked) is Some {
            cfg.refusal(blocked)
        } else if self.emulated_cck != 0 {
            Some(ConfigError::AlreadyRunning)
        } else if self.blocked {
            Some(ConfigError::HostDependency)
        } else if self.time_travel {
            Some(ConfigError::ReverseHistory)
        } else if exists|p: int|
            0 <= p < self.game_ports@.len() && !drivable(#[trigger] self.game_ports@[p]) {
            Some(ConfigError::GamePort)
        } else {
            None
        }
    }
}

/// Fingerprint a cold machine every participant must reproduce exactly: the
/// build plus the complete normalized initial snapshot.
pub fn machine_identity(
    machine: &ColdMachine,
    cfg: &Config,
    blocked: bool,
    build: &[u8],
) -> (r: Result<[u8; 32], ConfigError>)
    ensures
        r is Ok <==> machine.refusal(*cfg, blocked) is None,
        r matches Err(e) ==> machine.refusal(*cfg, blocked) == Some(e),
        r matches Ok(identity) ==> identity@ == sha256(build@ + machine.snapshot@),
{
    match validate_config(cfg, blocked) {
        Ok(_) => {},
        Err(e) => return Err(e),
    }
    if machine.emulated_cck != 0 {
        return Err(ConfigError::AlreadyRunning);
    }
    if machine.blocked {
        return Err(ConfigError::HostDependency);
    }
    if machine.time_travel {
        return Err(ConfigError::ReverseHistory);
    }
    let mut p: usize = 0;
    while p < machine.game_ports.len()
        invariant
            p <= machine.game_ports@.len(),
            forall|q: int| 0 <= q < p ==> drivable(#[trigger] machine.game_ports@[q]),
            cfg.refusal(blocked) is None,
            machine.emulated_cck == 0,
            !machine.blocked,
            !machine.time_travel,
        decreases machine.game_ports@.len() - p,
    {
        let device = machine.game_ports[p];
        if device != PortDevice::Mouse && device != PortDevice::Joystick && device
            != PortDevice::Cd32Pad {
            assert(!drivable(machine.game_ports@[p as int]));
            return Err(ConfigError::GamePort);
        }
        p += 1;
    }
    let mut bytes: Vec<u8> = Vec::new();
    push_all(&mut bytes, build);
    push_all(&mut bytes, machine.snapshot.as_slice());
    assert(bytes@ =~= build@ + machine.snapshot@);
    Ok(digest(bytes.as_slice()))
}

} // verus!
