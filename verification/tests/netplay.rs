//! Rollback, its wire formats and whole sessions over packet queues.
use std::collections::VecDeque;

use sha2::Digest;

use copperline::netplay::config::{
    machine_identity, prepare_config, validate_config, validate_player_ports, ColdMachine, Config,
    ConfigError, Drive, ParallelDevice, PortDevice, SerialMode,
};
use copperline::netplay::connection::{Connection, ConnectionError};
use copperline::netplay::feed::{Feed, FeedError, SwapRecord};
use copperline::netplay::hardware::{hardware_events, HardwareEvent};
use copperline::netplay::input::{Input, LocalInput, MAX_PLAYERS};
use copperline::netplay::machine::{Machine, MachineError};
use copperline::netplay::message::{
    framed, kind, payload, Action, Message, SessionError, KIND_DISK, KIND_JSON,
};
use copperline::netplay::player::{Arrival, Phase, Player};
use copperline::netplay::report;
use copperline::netplay::report::Report;
use copperline::netplay::rollback::{Rollback, RollbackError, MEMORY_LIMIT};
use copperline::netplay::session::{starting_role, Session, Stepped, Track};
use copperline::netplay::settings::{
    is_spectator_code, parse_session_id, ConnectionOptions, Endpoint, IpAddress, Options, Role,
    Settings, SettingsError, WatchOptions, RTC_SEED,
};
use copperline::netplay::spectators::{Audience, SpectatorLink, SpectatorReply, WatchPhase};
use copperline::netplay::swap::{SwapMessage, SwapPhase};
use copperline::netplay::transport::{
    PacketQueue, SlotKind, SlotTable, Transport, TransportError, QUEUE_LIMIT,
};
use copperline::netplay::watcher::{Replay, WatchTurn, Watcher};
use copperline::netplay::wire;

type Result<T> = std::result::Result<T, RollbackError>;

fn digest(bytes: &[u8]) -> [u8; 32] {
    sha2::Sha256::digest(bytes).into()
}

#[derive(Default)]
struct ToyMachine {
    state: u64,
    disks: u64,
    audible: usize,
}

impl Machine for ToyMachine {
    fn save(&self) -> std::result::Result<Vec<u8>, MachineError> {
        let mut bytes = self.state.to_le_bytes().to_vec();
        bytes.extend_from_slice(&self.disks.to_le_bytes());
        Ok(bytes)
    }

    fn load(&mut self, bytes: &[u8]) -> std::result::Result<(), MachineError> {
        self.state = u64::from_le_bytes(bytes[..8].try_into().unwrap());
        self.disks = u64::from_le_bytes(bytes[8..].try_into().unwrap());
        Ok(())
    }

    fn frame(
        &mut self,
        input: &[Input],
        previous: [u8; 16],
        replay: bool,
    ) -> std::result::Result<(), MachineError> {
        self.state = self.state.wrapping_mul(6364136223846793005);
        let mut weight = 1;
        for i in input {
            self.state = self.state.wrapping_add(weight * u64::from(i.buttons));
            weight *= 100;
        }
        for (i, key) in Input::merged_keys(input).iter().enumerate() {
            self.state = self.state.wrapping_add(u64::from(key ^ previous[i]));
        }
        if !replay {
            self.audible += 1;
        }
        Ok(())
    }
}

fn input(frame: u64, player: u64) -> Input {
    let mut i = Input {
        buttons: ((frame * (player + 3) / 7) % 2048) as u16,
        ..Default::default()
    };
    i.set_key(0x40, (frame + player) % 11 < 3);
    i
}

#[test]
fn late_reordered_and_duplicate_input_replays_to_the_baseline() -> Result<()> {
    for delay in [0u8, 2, 6] {
        let mut baseline = ToyMachine::default();
        let mut predicted = ToyMachine::default();
        let mut rb = Rollback::new(0, 2, delay, 8);
        let mut previous = [0; 16];
        for f in 0..240 {
            if f >= 5 && f % 6 == 5 {
                for remote in (f - 5..=f).rev() {
                    let value = if remote < u64::from(delay) {
                        Input::default()
                    } else {
                        input(remote - u64::from(delay), 1)
                    };
                    rb.receive(1, remote, value)?;
                    rb.receive(1, remote, value)?;
                }
            }
            rb.acknowledged[1] = f + u64::from(delay);
            rb.reconcile(&mut predicted)?;
            assert!(rb.advance(&mut predicted, input(f, 0))?);
            let pair = if f < u64::from(delay) {
                [Input::default(); 2]
            } else {
                [
                    input(f - u64::from(delay), 0),
                    input(f - u64::from(delay), 1),
                ]
            };
            baseline.frame(&pair, previous, false).unwrap();
            previous = Input::merged_keys(&pair);
        }
        for f in 235..240 {
            rb.receive(1, f, input(f - u64::from(delay), 1))?;
        }
        rb.reconcile(&mut predicted)?;
        assert_eq!(predicted.state, baseline.state, "delay {delay}");
        assert_eq!(
            predicted.audible, 240,
            "replay must not emit duplicate audio"
        );
        assert!(rb.rollbacks > 0);
        assert_eq!(rb.confirmed, 240);
        assert_eq!(rb.hashes.get(240), Some(digest(&baseline.save().unwrap())));
    }
    Ok(())
}

#[test]
fn prediction_window_stalls_then_recovers_without_resampling_input() -> Result<()> {
    let mut rb = Rollback::new(0, 2, 0, 3);
    let mut machine = ToyMachine::default();
    for f in 0..3 {
        assert!(rb.advance(&mut machine, input(f, 0))?);
    }
    let original = input(3, 0);
    assert!(!rb.advance(&mut machine, original)?);
    assert!(!rb.advance(&mut machine, input(99, 0))?);
    for f in 0..4 {
        rb.receive(1, f, input(f, 1))?;
    }
    rb.acknowledge(1, 4)?;
    rb.reconcile(&mut machine)?;
    assert_eq!(rb.local.get(3), Some(original));
    assert!(rb.advance(&mut machine, input(99, 0))?);
    Ok(())
}

#[test]
fn delayed_input_from_a_faster_peer_stays_within_the_receive_horizon() -> Result<()> {
    for delay in [0u8, 2, 6] {
        for window in [1u8, 8, 12] {
            let mut slow = Rollback::new(0, 2, delay, window);
            let mut fast = Rollback::new(1, 2, delay, window);
            let mut machine = ToyMachine::default();
            slow.submit_local(input(0, 0));
            fast.receive(0, u64::from(delay), input(0, 0))?;
            loop {
                let sampled = input(fast.current, 1);
                let advanced = fast.advance(&mut machine, sampled)?;
                for (frame, value) in fast.local.from_frame(0) {
                    slow.receive(1, frame, value)?;
                }
                fast.acknowledge(0, slow.received[1])?;
                if !advanced {
                    break;
                }
            }
            assert_eq!(fast.current, u64::from(delay + window) + 1);
            let last = fast.current + u64::from(delay);
            assert_eq!(slow.received[1], last + 1);
            assert!(slow.receive(1, last + 1, Input::default()).is_err());
        }
    }
    Ok(())
}

#[test]
fn invalid_input_and_ack_are_rejected() -> Result<()> {
    let mut rb = Rollback::new(0, 2, 0, 8);
    rb.receive(1, 0, input(0, 1))?;
    assert!(rb.receive(1, 0, input(999, 1)).is_err());
    assert!(rb.receive(1, u64::MAX, Input::default()).is_err());
    assert!(rb.acknowledge(1, 100).is_err());
    assert_eq!(
        rb.receive(1, 0, input(999, 1)),
        Err(RollbackError::ChangedInput { frame: 0 })
    );
    assert_eq!(
        rb.receive(1, u64::MAX, Input::default()),
        Err(RollbackError::TooFarAhead)
    );
    assert_eq!(rb.receive(0, 0, Input::default()), Err(RollbackError::ForeignPort));
    assert_eq!(rb.acknowledge(1, 100), Err(RollbackError::UnsubmittedAcknowledgement));
    assert_eq!(rb.acknowledge(0, 0), Err(RollbackError::ForeignAcknowledgement));
    Ok(())
}

#[test]
fn wire_round_trip_and_bounded_rejection() {
    let packet = wire::Packet {
        session: [1; 16],
        identity: [2; 32],
        player: 1,
        ready: true,
        delay: 2,
        window: 8,
        ack: 3,
        inputs: vec![(3, input(3, 1)), (4, input(4, 1))],
        checksum: Some((60, [3; 32])),
    };
    let bytes = packet.encode();
    assert_eq!(wire::Packet::decode(&bytes), Some(packet));
    for end in 0..bytes.len() {
        assert!(wire::Packet::decode(&bytes[..end]).is_none());
    }
    let mut oversized = bytes.clone();
    oversized.push(0);
    assert!(wire::Packet::decode(&oversized).is_none());
    for length in [0, 1, 117, 1200, 65535] {
        assert!(wire::Packet::decode(&vec![0xff; length]).is_none());
    }
}

#[test]
fn reports_round_trip_and_other_versions_are_noticed() {
    let report = Report {
        session: [1; 16],
        identity: [2; 32],
        player: 2,
        players: 4,
        ready: true,
        delay: 2,
        window: 8,
        acks: [3, 4, 5, 6],
        inputs: vec![
            (2, 3, input(3, 1)),
            (2, 4, Input { mouse_dx: -100, mouse_dy: 7, mouse_buttons: 5, ..input(4, 1) }),
        ],
        checksum: Some((60, [3; 32])),
    };
    let bytes = report.encode();
    assert_eq!(Report::decode(&bytes), Some(report));
    assert!(Report::check_version(&bytes, &[1; 16]));
    assert!(Report::decode(&bytes[..bytes.len() - 1]).is_none());
    let mut other = bytes.clone();
    other[4] ^= 0xff;
    assert!(!Report::check_version(&other, &[1; 16]));
    assert!(Report::decode(&other).is_none());
}

fn safe_config() -> Config {
    Config {
        netplay_storage: false,
        ide_master: None,
        ide_slave: None,
        scsi_units: Vec::new(),
        lide_drives: Vec::new(),
        run_program_dir: None,
        uaelib_files: false,
        cd_image_path: None,
        parallel_device: ParallelDevice::Unplugged,
        toccata: false,
        sf2000sd: false,
        cpu_jit: false,
        power_on: true,
        rewind: false,
        run_ahead_frames: 0,
        warp_boot: false,
        warp_until: None,
        serial_mode: SerialMode::Off,
        floppy_bridges: vec![false; 4],
        rtc_present: true,
        rtc_seed_unix: None,
    }
}

fn cold() -> ColdMachine {
    ColdMachine {
        emulated_cck: 0,
        blocked: false,
        time_travel: false,
        game_ports: vec![PortDevice::Joystick; 2],
        devices: vec![PortDevice::Joystick; MAX_PLAYERS],
        snapshot: ToyMachine::default().save().unwrap(),
    }
}

const BUILD: &[u8] = b"build";
const VERSION: &str = "1.0";

fn settings(player: usize, players: usize, delay: u8, window: u8) -> Settings {
    Settings {
        player,
        players,
        session: [42; 16],
        input_delay: delay,
        rollback_frames: window,
    }
}

fn connection(player: usize, delay: u8, window: u8) -> Connection<PacketQueue> {
    match Connection::with_transport(
        settings(player, 2, delay, window),
        PacketQueue::default(),
        &cold(),
        &safe_config(),
        false,
        BUILD,
        0,
    ) {
        Ok(c) => c,
        Err(e) => panic!("{e:?}"),
    }
}

#[test]
fn udp_peers_recover_loss_reordering_and_duplicates_and_confirm_checksums() {
    for (delay, window) in [(0, 8), (2, 8), (6, 1)] {
        pair_with_delay(delay, window);
    }
}

fn pair_with_delay(delay: u8, window: u8) {
    let mut machines = [ToyMachine::default(), ToyMachine::default()];
    let mut sessions = [connection(0, delay, window), connection(1, delay, window)];
    let mut queued = Vec::<(u64, usize, Vec<u8>)>::new();
    let mut packets = 0u64;
    for tick in 0..1500u64 {
        for player in 0..2 {
            let frame = sessions[player].status().frame;
            sessions[player].links[0].last_sent = None;
            let advance = frame < 120 && (player != 0 || !(30..42).contains(&(tick % 90)));
            sessions[player]
                .step(&mut machines[player], input(frame, player as u64), advance, tick)
                .unwrap_or_else(|e| panic!("delay {delay}, window {window}: {e:?}"));
            while let Some(bytes) = sessions[player].transport_mut().pop() {
                packets += 1;
                if packets % 7 == 0 {
                    continue;
                }
                let later = packets % 5;
                queued.push((tick + later, 1 - player, bytes.clone()));
                if packets % 11 == 0 {
                    queued.push((tick + later + 2, 1 - player, bytes));
                }
            }
        }
        let (due, rest): (Vec<_>, Vec<_>) = queued.into_iter().partition(|(d, _, _)| *d <= tick);
        queued = rest;
        for (_, player, bytes) in due {
            sessions[player].transport_mut().push(&bytes).unwrap();
        }
        if sessions
            .iter()
            .all(|s| s.status().checked_frame == 120 && s.status().confirmed_frame == 120)
        {
            break;
        }
    }
    for session in &sessions {
        assert_eq!(session.status().confirmed_frame, 120);
        assert_eq!(session.status().checked_frame, 120);
        if delay == 0 {
            assert!(session.status().rollbacks > 0);
        }
        assert!(session.rollback.local.len() < 32);
        assert!(session.rollback.current - session.rollback.confirmed <= u64::from(window));
    }
    assert_eq!(
        digest(&machines[0].save().unwrap()),
        digest(&machines[1].save().unwrap())
    );
}

fn peer_report(identity: [u8; 32], checksum: Option<(u64, [u8; 32])>) -> Vec<u8> {
    Report {
        session: [42; 16],
        identity,
        player: 1,
        players: 2,
        ready: true,
        delay: 0,
        window: 8,
        acks: [0; MAX_PLAYERS],
        inputs: vec![],
        checksum,
    }
    .encode()
}

#[test]
fn mismatch_desync_and_disconnect_stop_the_session() {
    let mut emu = ToyMachine::default();
    let mut session = connection(0, 0, 8);
    session.transport_mut().push(&peer_report([0; 32], None)).unwrap();
    assert_eq!(
        session.step(&mut emu, Input::default(), false, 1),
        Err(ConnectionError::MachineMismatch)
    );
    assert!(
        session.step(&mut emu, Input::default(), true, 2).is_err(),
        "failure stays latched"
    );

    let mut session = connection(0, 0, 8);
    session.connected = true;
    session.rollback.current = 60;
    session.rollback.confirmed = 60;
    session.rollback.received = [60; MAX_PLAYERS];
    session.rollback.hashes.insert(60, [1; 32]);
    let report = peer_report(session.identity(), Some((60, [2; 32])));
    session.transport_mut().push(&report).unwrap();
    assert_eq!(
        session.step(&mut emu, Input::default(), false, 1),
        Err(ConnectionError::Desynchronized { player: 1, frame: 60 })
    );

    let mut session = connection(0, 0, 8);
    session.connected = true;
    session.links[0].last_received = 0;
    assert_eq!(
        session.step(&mut emu, Input::default(), false, 11_000),
        Err(ConnectionError::PlayerTimedOut { player: 1 })
    );
}

#[test]
fn a_session_needs_a_machine_that_both_sides_can_have() {
    let refused = |cfg: &Config| {
        Connection::with_transport(
            settings(0, 2, 0, 8),
            PacketQueue::default(),
            &cold(),
            cfg,
            false,
            BUILD,
            0,
        )
        .err()
        .unwrap()
    };
    let modem = Config { serial_mode: SerialMode::Wired, ..safe_config() };
    assert_eq!(refused(&modem), ConnectionError::Config(ConfigError::Serial));
    assert_eq!(validate_config(&modem, false), Err(ConfigError::Serial));
    let mut seeded = safe_config();
    assert_eq!(prepare_config(&mut seeded, false), Ok(()));
    assert_eq!(seeded.rtc_seed_unix, Some(RTC_SEED));
    let identity = connection(0, 0, 8).identity();
    let mut image = BUILD.to_vec();
    image.extend(cold().snapshot);
    assert_eq!(identity, digest(&image));
    let three = Connection::with_transport(
        settings(0, 3, 0, 8),
        PacketQueue::default(),
        &cold(),
        &safe_config(),
        false,
        BUILD,
        0,
    );
    assert_eq!(three.err().unwrap(), ConnectionError::OneLinkPerGuest);
    assert_eq!(settings(0, 5, 0, 8).validate(), Err(SettingsError::Players));
    assert_eq!(settings(2, 2, 0, 8).validate(), Err(SettingsError::Player { players: 2 }));
    assert_eq!(settings(0, 2, 200, 8).validate(), Err(SettingsError::InputDelay));
    assert_eq!(settings(0, 2, 0, 200).validate(), Err(SettingsError::RollbackWindow));
}

/// Players whose messages and packets are carried by hand.
struct Party {
    players: Vec<Player<PacketQueue>>,
    machines: Vec<ToyMachine>,
    inputs: Vec<LocalInput>,
    now: u64,
}

const DRIVES: [bool; 4] = [true; 4];
const FLOPPY_LIMIT: usize = 1_000_000;

impl Party {
    fn gather(players: usize) -> Party {
        let host = Player::host(
            settings(0, players, 2, 8),
            0,
            0,
            FLOPPY_LIMIT,
            &cold(),
            &safe_config(),
            false,
            BUILD,
            0,
        );
        let mut party = Party {
            players: vec![host.ok().unwrap()],
            machines: vec![ToyMachine::default()],
            inputs: vec![LocalInput::default()],
            now: 0,
        };
        for player in 1..players {
            let mut out = Vec::new();
            let guest = Player::guest(
                settings(player, players, 2, 8),
                true,
                FLOPPY_LIMIT,
                PacketQueue::default(),
                &cold(),
                &safe_config(),
                false,
                BUILD,
                VERSION,
                0,
                &mut out,
            );
            party.players.push(guest.ok().unwrap());
            party.machines.push(ToyMachine::default());
            party.inputs.push(LocalInput::default());
            party.perform(player, out);
        }
        party
    }

    /// Carry out what a player asked for, and what follows from it.
    fn perform(&mut self, from: usize, actions: Vec<Action>) {
        let mut queue: VecDeque<(usize, Action)> =
            actions.into_iter().map(|a| (from, a)).collect();
        while let Some((from, action)) = queue.pop_front() {
            let mut out = Vec::new();
            let who = match action {
                Action::Send { to, message } => {
                    if matches!(message, Message::Hello { .. }) {
                        let seat = self.players[0].seat_guest(
                            &message,
                            PacketQueue::default(),
                            VERSION,
                            self.now,
                            &mut out,
                        );
                        assert_eq!(seat, Ok(from));
                    } else {
                        let done = self.players[to].receive_message(
                            &self.machines[to],
                            from,
                            &message,
                            &DRIVES,
                            self.now,
                            &mut out,
                        );
                        assert_eq!(done, Ok(()));
                    }
                    to
                }
                Action::SendBundle { to } => {
                    let done = self.players[to].adopt_bundle(
                        &cold(),
                        &safe_config(),
                        false,
                        BUILD,
                        &mut self.inputs[to],
                        &mut out,
                    );
                    assert_eq!(done, Ok(()));
                    to
                }
                Action::SendBytes { to, bytes } => {
                    let disk = match self.players[to].sort_message(&bytes) {
                        Ok(Arrival::Disk(disk)) => disk,
                        _ => panic!("a disk"),
                    };
                    let done = self.players[to].receive_disk(disk, true, true, &mut out);
                    assert_eq!(done, Ok(()));
                    to
                }
                Action::ChangeFloppy { drive, bytes, .. } => {
                    let machine = &mut self.machines[from];
                    let bit = 1 << drive;
                    if bytes.is_empty() {
                        machine.disks &= !bit;
                    } else {
                        machine.disks |= bit;
                    }
                    let done = self.players[from].disk_changed(
                        &self.machines[from],
                        true,
                        &mut out,
                    );
                    assert_eq!(done, Ok(()));
                    from
                }
            };
            queue.extend(out.into_iter().map(|a| (who, a)));
        }
    }

    /// One turn of every player, and then of the packets.
    fn turn(&mut self, target: u64) {
        self.now += 10;
        for n in 0..self.players.len() {
            let advance = self.players[n].connection.status().frame < target;
            let mut out = Vec::new();
            let stepped = self.players[n].step(
                &mut self.machines[n],
                &mut self.inputs[n],
                advance,
                0,
                self.now,
                &mut out,
            );
            assert!(stepped.is_ok(), "player {n}: {:?}", stepped.err());
            self.perform(n, out);
        }
        for guest in 1..self.players.len() {
            while let Some(p) = self.players[guest].connection.transport_mut().pop() {
                self.players[0].connection.link_mut(guest).unwrap().push(&p).unwrap();
            }
            while let Some(p) = self.players[0].connection.link_mut(guest).unwrap().pop() {
                self.players[guest].connection.transport_mut().push(&p).unwrap();
            }
        }
    }

    fn run_until(&mut self, target: u64) {
        for _ in 0..5000 {
            self.turn(target);
            if self.players.iter().all(|p| {
                let s = p.connection.status();
                s.connected && s.frame == target && p.ready_to_capture(false)
            }) {
                return;
            }
        }
        panic!("the players did not reach frame {target}");
    }

    fn change_disk(&mut self, drive: usize, bytes: Vec<u8>, writable: bool) {
        let mut out = Vec::new();
        let asked = self.players[0].change_disk(
            drive, bytes, writable, true, true, false, self.now, &mut out,
        );
        assert_eq!(asked, Ok(()));
        self.perform(0, out);
        let mut turns = 0;
        while self.players.iter().any(|p| p.swap.is_some())
            || !self.players[0].can_change_disk(false)
        {
            self.turn(u64::MAX);
            turns += 1;
            assert!(turns < 5000, "the disk change did not finish");
        }
        let settled =
            self.players.iter().map(|p| p.connection.status().frame).max().unwrap() + 2;
        self.run_until(settled);
    }

    fn agree(&self) {
        let state = self.machines[0].save().unwrap();
        for machine in &self.machines {
            assert_eq!(machine.save().unwrap(), state);
        }
    }
}

#[test]
fn guest_adopts_host_setup_and_both_peers_commit_insert_and_eject() {
    let mut party = Party::gather(2);
    party.run_until(1);
    assert_eq!(party.players[0].guests.len(), 1);
    assert_eq!(party.players[1].connection.player(), 1);
    party.agree();
    assert!(!party.players[1].can_change_disk(false));
    let mut out = Vec::new();
    let refused = party.players[0].change_disk(
        0, vec![1, 2, 3], true, true, false, false, party.now, &mut out,
    );
    assert_eq!(refused, Err(SessionError::UndecodableDisk));
    for (drive, bytes) in (0..4).flat_map(|drive| [(drive, vec![0; 901_120]), (drive, Vec::new())])
    {
        let inserted = !bytes.is_empty();
        party.change_disk(drive, bytes, inserted);
        for machine in &party.machines {
            assert_eq!(machine.disks & (1 << drive) != 0, inserted);
        }
        party.agree();
    }
}

#[test]
fn four_players_share_one_machine_through_the_host() {
    let mut party = Party::gather(4);
    assert_eq!(party.players[0].role, Role::Host);
    assert!(party.players[1..].iter().all(|p| p.role == Role::Guest));
    assert!(party.players.iter().all(|p| p.phase == Phase::Running));
    for (player, input) in party.inputs.iter_mut().enumerate() {
        input.held.buttons = 1 << player;
    }
    party.run_until(90);
    assert_eq!(party.players[0].guests.len(), 3);
    for (player, peer) in party.players.iter().enumerate() {
        assert_eq!(peer.connection.player(), player);
        assert_eq!(peer.connection.players(), 4);
    }
    party.agree();
    // Every machine has seen every player's switch: this is what a machine
    // that holds all four from the first input on comes to.
    let mut alone = ToyMachine::default();
    let held: Vec<Input> = (0..4)
        .map(|p| Input { buttons: 1 << p, ..Default::default() })
        .collect();
    for f in 0..90 {
        let inputs = if f < 2 { vec![Input::default(); 4] } else { held.clone() };
        alone.frame(&inputs, [0; 16], false).unwrap();
    }
    assert_eq!(party.machines[3].state, alone.state);
    assert!(party.players.iter().all(|p| p.connection.status().checked_frame == 60));
    assert!(party.players[0].can_change_disk(false));
    assert!(party.players[1..].iter().all(|p| !p.can_change_disk(false)));
    party.change_disk(1, vec![7; 901_120], false);
    for machine in &party.machines {
        assert_eq!(machine.disks, 2);
    }
    party.agree();
}

#[test]
fn guests_are_turned_away_for_a_reason() {
    let mut party = Party::gather(2);
    let mut out = Vec::new();
    let hello = |build: &str, player: Option<usize>| Message::Hello {
        build: build.to_string(),
        player,
    };
    let mut seat = |message: Message| {
        party.players[0].seat_guest(&message, PacketQueue::default(), VERSION, 0, &mut out)
    };
    assert_eq!(seat(hello("0.9", None)), Err(SessionError::DifferentBuild));
    assert_eq!(seat(Message::Start), Err(SessionError::MustIntroduce));
    assert_eq!(seat(hello(VERSION, Some(1))), Err(SessionError::PortTaken { player: 1 }));
    assert_eq!(seat(hello(VERSION, None)), Err(SessionError::SessionFull));
    assert!(out.is_empty());
}

#[test]
fn frames_of_messages_are_transparent() {
    let bytes = framed(KIND_DISK, &[1, 2, 3]);
    assert_eq!(kind(&bytes), Some(KIND_DISK));
    assert_eq!(payload(&bytes), vec![1, 2, 3]);
    assert_eq!(kind(&[]), None);
}

#[test]
fn motion_is_sampled_in_pieces_and_none_is_lost() {
    let mut local = LocalInput::default();
    local.add_mouse_delta(250, -130);
    let mut total = (0, 0);
    for _ in 0..5 {
        let i = local.sample();
        assert!(i.mouse_dx.abs() <= 100 && i.mouse_dy.abs() <= 100);
        total = (total.0 + i32::from(i.mouse_dx), total.1 + i32::from(i.mouse_dy));
        local.consume();
    }
    assert_eq!(total, (250, -130));
    assert_eq!(local.mouse_pending, (0, 0));
}

#[test]
fn inputs_become_events_of_the_hardware() {
    let mut one = Input::default();
    one.set_joystick([true, false, false, true, true, false]);
    one.set_key(3, true);
    let two = Input { mouse_dx: 4, mouse_dy: -5, ..Default::default() };
    let events = hardware_events(&[one, two], &[false, true], [0; 16]);
    assert!(events.contains(&HardwareEvent::MouseMotion { port: 1, dx: 4, dy: -5 }));
    assert!(events.contains(&HardwareEvent::Key { key: 3, pressed: true }));
    assert!(events.iter().any(|e| matches!(
        e,
        HardwareEvent::Joystick { port: 0, up: true, down: false, fire: true, .. }
    )));
    let released = hardware_events(&[Input::default(); 2], &[false, true], one.keys);
    assert!(released.contains(&HardwareEvent::Key { key: 3, pressed: false }));
}

#[test]
fn session_codes_are_sixteen_bytes_in_hex() {
    let code = "000102030405060708090a0b0c0d0e0f";
    let id: [u8; 16] = std::array::from_fn(|i| i as u8);
    assert_eq!(parse_session_id(code).ok(), Some(id));
    assert!(parse_session_id(&code[1..]).is_err());
    assert!(parse_session_id("000102030405060708090a0b0c0d0e0g").is_err());
    assert!(!is_spectator_code(code));
}

fn end(port: u16) -> Endpoint {
    Endpoint { ip: IpAddress::V4([127, 0, 0, 1]), port }
}

#[test]
fn slots_keep_their_senders_apart() {
    let mut table = SlotTable::new(vec![end(1), end(2)], 2, 1);
    table.accept(SlotKind::Player, end(1), b"a");
    table.accept(SlotKind::Player, end(2), b"b");
    assert!(table.deliver(end(1), b"c"));
    assert_eq!(table.take_packet(end(1)), Some(b"a".to_vec()));
    assert_eq!(table.take_packet(end(2)), Some(b"b".to_vec()));
    assert_eq!(table.take_packet(end(1)), Some(b"c".to_vec()));
    assert_eq!(table.take_packet(end(1)), None);
    assert_eq!(table.take_pending(SlotKind::Player).len(), 2);
    table.accept(SlotKind::Player, end(9), b"x");
    assert_eq!(table.count(SlotKind::Player), 2, "an address that is not listed");
    table.release(end(1));
    assert_eq!(table.count(SlotKind::Player), 1);
}

#[test]
fn a_full_queue_refuses_packets() {
    let mut queue = PacketQueue::default();
    assert!(!queue.has_incoming());
    for i in 0..QUEUE_LIMIT + 3 {
        queue.push(&[i as u8]).unwrap();
    }
    assert!(queue.has_incoming());
    assert!(queue.push(&vec![0; 5000]).is_err());
    assert_eq!(queue.pop(), None);
}

#[test]
fn spectators_are_let_in_by_steps_and_counted_once_they_watch() {
    let mut audience = Audience::new(1);
    assert_eq!(audience.welcome(3, 0), 1);
    let link: &mut SpectatorLink = &mut audience.links[0];
    let watch = Message::Watch { build: VERSION.to_string() };
    assert_eq!(
        link.receive_message(&watch, VERSION, &[1; 32], false, true, 5),
        Ok(SpectatorReply::Bundle)
    );
    let verified = Message::Verified { identity: [1; 32] };
    assert_eq!(
        link.receive_message(&verified, VERSION, &[1; 32], false, true, 6),
        Ok(SpectatorReply::Start)
    );
    assert_eq!(link.phase, WatchPhase::Streaming);
    assert_eq!(audience.count(), 1);
    assert_eq!(audience.links[0].serve(60_000, false), Err(SessionError::SpectatorTimedOut));
    let other = Message::Verified { identity: [2; 32] };
    let mut wrong = SpectatorLink::new(0);
    wrong.phase = WatchPhase::Verified;
    assert_eq!(
        wrong.receive_message(&other, VERSION, &[1; 32], false, true, 6),
        Err(SessionError::SpectatorMachine)
    );
}

#[test]
fn a_watcher_takes_the_bundle_and_then_follows() {
    let mut watcher = Watcher::new(0);
    let identity = watcher.adopt_bundle(&cold(), &safe_config(), false, BUILD).ok().unwrap();
    assert_eq!(identity, connection(0, 0, 8).identity());
    assert!(watcher.receive_message(&Message::Start, "direct", 10).is_ok());
    watcher.note_replay(Replay {
        players: Some(2),
        executed: 70,
        checked: 60,
        behind: 5,
        swap_due: false,
    });
    let status = watcher.status();
    assert_eq!((status.frame, status.checked_frame, status.behind), (70, 60, 5));
    assert!(matches!(watcher.turn(0, true, 20), Ok(WatchTurn::Follow { .. })));
    assert_eq!(watcher.turn(0, true, 60_000).err(), Some(SessionError::HostTimedOut));
}

#[test]
fn a_session_latches_its_first_failure() {
    let options = ConnectionOptions::Watch(WatchOptions {
        bind: end(1),
        host: end(2),
        session: [42; 16],
    });
    assert!(matches!(starting_role(&options, &safe_config(), false, 0), Ok(Role::Spectator)));
    let mut session: Session<PacketQueue> =
        Session::new(options, Track::Watch(Watcher::new(0)), 0);
    assert_eq!(session.role(), Role::Spectator);
    assert_eq!(session.port(), None);
    let mut machine = ToyMachine::default();
    let mut input = LocalInput::default();
    let mut out = Vec::new();
    assert!(matches!(
        session.step_local(&mut machine, &mut input, true, 0, true, 1, &mut out),
        Ok(Stepped::Watched(WatchTurn::Wait))
    ));
    assert_eq!(
        session.step_local(&mut machine, &mut input, true, 0, true, 900_000, &mut out).err(),
        Some(SessionError::SetupTimedOut)
    );
    assert_eq!(
        session.step_local(&mut machine, &mut input, true, 0, true, 900_001, &mut out).err(),
        Some(SessionError::SetupTimedOut)
    );
}

#[test]
fn options_name_their_peers() {
    let host = Options {
        bind: end(1),
        peers: vec![end(2)],
        player: 0,
        players: 2,
        session: [42; 16],
        input_delay: 2,
        rollback_frames: 8,
        spectators: 0,
    };
    assert_eq!(host.validate(), Ok(()));
    assert_eq!(host.role(), Role::Host);
    let crowd = Options { peers: vec![end(2), end(3)], ..host.clone() };
    assert_eq!(crowd.validate(), Err(SettingsError::TooManyPeers));
    let watched = Options { spectators: 99, ..host.clone() };
    assert_eq!(watched.validate(), Err(SettingsError::Spectators));
    let other = Options {
        peers: vec![Endpoint { ip: IpAddress::V6([1; 16]), port: 2 }],
        ..host.clone()
    };
    assert_eq!(other.validate(), Err(SettingsError::AddressFamily));
    let nowhere = Options { peers: vec![end(0)], ..host.clone() };
    assert_eq!(nowhere.validate(), Err(SettingsError::PeerAddress));
    let lost = Options { player: 1, peers: vec![], ..host.clone() };
    assert_eq!(lost.validate(), Err(SettingsError::HostAddress));
}

#[test]
fn configurations_are_refused_for_a_reason() {
    let drive = |cd_image: bool| Some(Drive { path: "image".to_string(), cd_image });
    let refused = |cfg: Config| validate_config(&cfg, false).err();
    let safe = safe_config;
    assert_eq!(validate_config(&safe(), true), Err(ConfigError::HostDependency));
    assert_eq!(refused(Config { uaelib_files: true, ..safe() }), Some(ConfigError::HostFiles));
    assert_eq!(
        refused(Config { run_program_dir: Some("/".to_string()), ..safe() }),
        Some(ConfigError::HostFiles)
    );
    assert_eq!(
        refused(Config { cd_image_path: Some("a.cue".to_string()), ..safe() }),
        Some(ConfigError::CdImage)
    );
    assert_eq!(
        refused(Config { scsi_units: vec![None, drive(true)], ..safe() }),
        Some(ConfigError::CdDrive)
    );
    assert_eq!(refused(Config { ide_slave: drive(false), ..safe() }), None);
    assert_eq!(
        refused(Config { parallel_device: ParallelDevice::Printer, ..safe() }),
        Some(ConfigError::ParallelDevice)
    );
    assert_eq!(refused(Config { toccata: true, ..safe() }), Some(ConfigError::Toccata));
    assert_eq!(refused(Config { sf2000sd: true, ..safe() }), Some(ConfigError::Sf2000Sd));
    assert_eq!(refused(Config { rewind: true, ..safe() }), Some(ConfigError::Execution));
    assert_eq!(refused(Config { power_on: false, ..safe() }), Some(ConfigError::Execution));
    assert_eq!(refused(Config { warp_until: Some(1), ..safe() }), Some(ConfigError::WarpBoot));
    assert_eq!(
        refused(Config { floppy_bridges: vec![false, true], ..safe() }),
        Some(ConfigError::PhysicalFloppy)
    );

    let identity = |machine: ColdMachine| machine_identity(&machine, &safe(), false, BUILD).err();
    assert_eq!(identity(cold()), None);
    assert_eq!(
        identity(ColdMachine { emulated_cck: 1, ..cold() }),
        Some(ConfigError::AlreadyRunning)
    );
    assert_eq!(
        identity(ColdMachine { time_travel: true, ..cold() }),
        Some(ConfigError::ReverseHistory)
    );
    assert_eq!(
        identity(ColdMachine { blocked: true, ..cold() }),
        Some(ConfigError::HostDependency)
    );
    assert_eq!(
        identity(ColdMachine { game_ports: vec![PortDevice::Other; 2], ..cold() }),
        Some(ConfigError::GamePort)
    );
    let mut devices = vec![PortDevice::Joystick; 4];
    devices[3] = PortDevice::Mouse;
    assert_eq!(validate_player_ports(&devices, 3), Ok(()));
    assert_eq!(
        validate_player_ports(&devices, 4),
        Err(ConfigError::AdapterSocket { player: 3 })
    );
}

/// A link whose calls all fail.
struct Broken;

impl Transport for Broken {
    fn route(&self) -> &'static str {
        "nowhere"
    }

    fn ready(&mut self) -> std::result::Result<bool, TransportError> {
        Ok(true)
    }

    fn receive(
        &mut self,
        _buffer: &mut [u8],
    ) -> std::result::Result<Option<usize>, TransportError> {
        Err(TransportError::Io)
    }

    fn send(&mut self, _packet: &[u8]) -> std::result::Result<bool, TransportError> {
        Ok(true)
    }
}

#[test]
fn reports_are_refused_for_a_reason() {
    let report = |change: fn(&mut Report)| {
        let mut report = Report {
            session: [42; 16],
            identity: connection(0, 0, 8).identity(),
            player: 1,
            players: 2,
            ready: true,
            delay: 0,
            window: 8,
            acks: [0; MAX_PLAYERS],
            inputs: vec![],
            checksum: None,
        };
        change(&mut report);
        report
    };
    let stepped = |bytes: &[u8]| {
        let mut session = connection(0, 0, 8);
        session.transport_mut().push(bytes).unwrap();
        session.step(&mut ToyMachine::default(), Input::default(), false, 1)
    };
    assert_eq!(stepped(&report(|_| ()).encode()), Ok(false));
    let mut other = report(|_| ()).encode();
    other[4] ^= 1;
    assert_eq!(stepped(&other), Err(ConnectionError::Version));
    other.truncate(20);
    assert_eq!(stepped(&other), Ok(false));
    let players = |r: &mut Report| {
        r.player = 0;
    };
    assert_eq!(
        stepped(&report(players).encode()),
        Err(ConnectionError::ForeignPort { claimed: 0, player: 1 })
    );
    assert_eq!(stepped(&report(|r| r.window = 7).encode()), Err(ConnectionError::SettingsDiffer));
    assert_eq!(
        stepped(&report(|r| r.inputs = vec![(0, 0, Input::default())]).encode()),
        Err(ConnectionError::ForeignInput { player: 1, port: 0 })
    );
    assert_eq!(
        stepped(&report(|r| r.acks[0] = 5).encode()),
        Err(ConnectionError::Rollback(RollbackError::UnsubmittedAcknowledgement))
    );
    assert_eq!(
        stepped(&report(|r| r.checksum = Some((60, [1; 32]))).encode()),
        Err(ConnectionError::ChecksumTooFarAhead)
    );

    let mut guest = connection(1, 0, 8);
    let echo = Report {
        player: 0,
        inputs: vec![(1, 0, Input::default())],
        ..report(|_| ())
    };
    assert_eq!(guest.handle_packet(0, &echo.encode(), 1), Err(ConnectionError::Echo));
}

#[test]
fn connections_fail_for_a_reason() {
    let mut machine = ToyMachine::default();
    let mut session = connection(0, 0, 8);
    let pressed = Input { buttons: 0x800, ..Default::default() };
    assert_eq!(
        session.step(&mut machine, pressed, false, 1),
        Err(ConnectionError::InvalidLocalInput)
    );
    assert_eq!(
        session.confirmed_state_digest(&machine),
        Err(ConnectionError::Failed)
    );
    let mut session = connection(0, 0, 8);
    assert_eq!(
        session.confirmed_state_digest(&machine),
        Err(ConnectionError::NotConfirmed)
    );
    assert_eq!(
        session.step(&mut machine, Input::default(), false, 60_000),
        Err(ConnectionError::ConnectTimedOut)
    );

    let refused = Connection::with_transport(
        settings(0, 2, 200, 8),
        PacketQueue::default(),
        &cold(),
        &safe_config(),
        false,
        BUILD,
        0,
    );
    assert_eq!(
        refused.err(),
        Some(ConnectionError::Settings(SettingsError::InputDelay))
    );
    let mut broken = Connection::with_transport(
        settings(0, 2, 0, 8),
        Broken,
        &cold(),
        &safe_config(),
        false,
        BUILD,
        0,
    )
    .ok()
    .unwrap();
    assert_eq!(
        broken.step(&mut machine, Input::default(), false, 1),
        Err(ConnectionError::Receiving(TransportError::Io))
    );

    let mut host: Connection<PacketQueue> = Connection::without_links(
        settings(0, 3, 0, 8),
        &cold(),
        &safe_config(),
        false,
        BUILD,
        0,
    )
    .ok()
    .unwrap();
    assert_eq!(host.free_players(), vec![1, 2]);
    assert_eq!(host.add_link(1, PacketQueue::default(), 0), Ok(()));
    assert_eq!(
        host.add_link(1, PacketQueue::default(), 0),
        Err(ConnectionError::PortTaken { player: 1 })
    );
    assert_eq!(
        host.add_link(3, PacketQueue::default(), 0),
        Err(ConnectionError::NotInSession { player: 3 })
    );
    assert_eq!(host.enable_feed(10), Ok(()));
    host.rollback.current = 1;
    assert_eq!(
        host.add_link(2, PacketQueue::default(), 0),
        Err(ConnectionError::GameStarted)
    );
    let mut guest = connection(1, 0, 8);
    guest.settings.players = 3;
    assert_eq!(
        guest.add_link(2, PacketQueue::default(), 0),
        Err(ConnectionError::SessionFull)
    );
    guest.rollback.current = 1;
    assert_eq!(guest.enable_feed(10), Err(ConnectionError::LateFeed));
}

/// A machine that cannot be saved, or only in more than there is room for.
struct Heavy {
    bytes: Option<usize>,
}

impl Machine for Heavy {
    fn save(&self) -> std::result::Result<Vec<u8>, MachineError> {
        match self.bytes {
            Some(bytes) => Ok(vec![0; bytes]),
            None => Err(MachineError),
        }
    }

    fn load(&mut self, _state: &[u8]) -> std::result::Result<(), MachineError> {
        Err(MachineError)
    }

    fn frame(
        &mut self,
        _inputs: &[Input],
        _previous_keys: [u8; 16],
        _replay: bool,
    ) -> std::result::Result<(), MachineError> {
        Ok(())
    }
}

#[test]
fn snapshots_have_to_fit() {
    let mut timeline = Rollback::new(0, 2, 0, 8);
    let mut huge = Heavy { bytes: Some(MEMORY_LIMIT + 1) };
    assert_eq!(
        timeline.advance(&mut huge, Input::default()),
        Err(RollbackError::SnapshotBudget)
    );
    let mut timeline = Rollback::new(0, 2, 0, 8);
    let mut lost = Heavy { bytes: None };
    assert_eq!(
        timeline.advance(&mut lost, Input::default()),
        Err(RollbackError::Machine(MachineError))
    );
    let mut party = Party::gather(2);
    party.run_until(3);
    assert_eq!(
        party.players[0].connection.confirmed_state_digest(&lost),
        Err(ConnectionError::Machine(MachineError))
    );
}

#[test]
fn setup_messages_come_in_their_turn() {
    let mut party = Party::gather(2);
    let mut out = Vec::new();
    let json = framed(KIND_JSON, &[b'x'; 2048]);
    assert_eq!(
        party.players[0].sort_message(&json).err(),
        Some(SessionError::InvalidSetupMessage)
    );
    assert!(party.players[0].seat_for(&Message::Start, VERSION).is_err());
    let mut hear = |player: usize, message: Message| {
        let machine = ToyMachine::default();
        party.players[player].receive_message(&machine, 0, &message, &DRIVES, 0, &mut out)
    };
    assert_eq!(hear(1, Message::Start), Err(SessionError::UnexpectedMessage));
    assert_eq!(
        hear(1, Message::Refused { reason: "full".to_string() }),
        Err(SessionError::Declined { reason: "full".to_string() })
    );
    assert_eq!(
        hear(0, Message::Verified { identity: [9; 32] }),
        Err(SessionError::DifferentMachine)
    );
    let identity = connection(0, 2, 8).identity();
    assert_eq!(hear(0, Message::Verified { identity }), Err(SessionError::UnknownGuest));
    assert!(out.is_empty());

    let mut greeting = Vec::new();
    let mut guest = Player::guest(
        settings(1, 2, 2, 8),
        false,
        FLOPPY_LIMIT,
        PacketQueue::default(),
        &cold(),
        &safe_config(),
        false,
        BUILD,
        VERSION,
        0,
        &mut greeting,
    )
    .ok()
    .unwrap();
    assert!(matches!(
        &greeting[0],
        Action::Send { to: 0, message: Message::Hello { player: None, .. } }
    ));
    assert_eq!(guest.check_host(true), Err(SessionError::PeerWithoutSetup));
    assert_eq!(guest.check_host(false), Ok(()));
    let machine = ToyMachine::default();
    let mut offer = |player: usize, delay: u8| {
        let offer = Message::Offer { delay, window: 8, players: 2, player };
        guest.receive_message(&machine, 0, &offer, &DRIVES, 0, &mut greeting)
    };
    assert_eq!(offer(0, 2), Err(SessionError::HostOwnsPort));
    assert_eq!(
        offer(1, 200),
        Err(SessionError::Connection(ConnectionError::Settings(SettingsError::InputDelay)))
    );
    assert_eq!(offer(1, 2), Ok(()));
    assert_eq!(
        guest.sort_message(&framed(KIND_JSON, b"{}")).err(),
        Some(SessionError::ExpectedBundle)
    );
}

#[test]
fn disk_changes_are_refused_for_a_reason() {
    let mut party = Party::gather(2);
    let mut out = Vec::new();
    let disk = vec![1, 2, 3];
    let mut ask = |party: &mut Party, bytes: &[u8], writable, connected| {
        party.players[0].change_disk(
            0, bytes.to_vec(), writable, connected, true, false, party.now, &mut out,
        )
    };
    assert_eq!(ask(&mut party, &disk, true, true), Err(SessionError::NotIdle));
    party.run_until(1);
    assert_eq!(ask(&mut party, &disk, true, false), Err(SessionError::DriveNotConnected));
    assert_eq!(ask(&mut party, &[], true, true), Err(SessionError::InvalidDisk));
    party.players[0].swap_id = u64::MAX;
    assert_eq!(
        ask(&mut party, &disk, true, true),
        Err(SessionError::SwapIdentifierExhausted)
    );
    party.players[0].swap_id = 0;
    assert_eq!(ask(&mut party, &disk, true, true), Ok(()));
    assert_eq!(ask(&mut party, &disk, true, true), Err(SessionError::NotIdle));

    let now = party.now;
    let mut tell = |party: &mut Party, player: usize, id: u64, event: SwapMessage| {
        let machine = ToyMachine::default();
        party.players[player].swap_message(
            &machine,
            1 - player,
            id,
            event,
            &DRIVES,
            now,
            &mut Vec::new(),
        )
    };
    let begin = |size: usize| SwapMessage::Begin {
        drive: 0,
        size,
        hash: [0; 32],
        writable: true,
    };
    assert_eq!(tell(&mut party, 1, 7, begin(3)), Err(SessionError::UnexpectedSwap));
    assert_eq!(tell(&mut party, 1, 1, begin(0)), Err(SessionError::InvalidSwap));
    assert_eq!(
        tell(&mut party, 1, 9, SwapMessage::Resume),
        Err(SessionError::SwapIdentifier)
    );
    assert_eq!(tell(&mut party, 1, 0, SwapMessage::Resume), Err(SessionError::NoSwap));
    assert_eq!(tell(&mut party, 0, 1, SwapMessage::Resume), Err(SessionError::SwapPhase));
    assert_eq!(
        tell(&mut party, 0, 1, SwapMessage::Held { frame: 500 }),
        Err(SessionError::PeerFrame)
    );
    assert_eq!(tell(&mut party, 1, 1, begin(3)), Ok(()));
    assert_eq!(
        tell(&mut party, 1, 1, SwapMessage::Target { frame: 500 }),
        Err(SessionError::SwapTarget)
    );

    let own = digest(&ToyMachine::default().save().unwrap());
    let mut sent = Vec::new();
    assert_eq!(
        party.players[1].receive_disk(disk.clone(), true, true, &mut sent),
        Err(SessionError::InvalidTransfer)
    );
    let guest = party.players[1].swap.as_mut().unwrap();
    guest.phase = SwapPhase::GuestApply;
    assert_eq!(
        tell(&mut party, 1, 1, SwapMessage::Apply),
        Err(SessionError::DiskNotVerified)
    );
    party.players[1].swap.as_mut().unwrap().stop = 90;
    assert_eq!(tell(&mut party, 1, 1, SwapMessage::Apply), Err(SessionError::NotAtBoundary));
    let late = now + 180_000;
    assert_eq!(
        party.players[1].service_swap(&ToyMachine::default(), late, &mut sent),
        Err(SessionError::SwapTimedOut)
    );
    party.players[1].changing = true;
    let machine = ToyMachine::default();
    assert_eq!(
        party.players[1].disk_changed(&machine, false, &mut sent),
        Err(SessionError::FloppyFailed)
    );
    party.players[1].swap = None;
    assert_eq!(
        party.players[1].receive_disk(disk, true, true, &mut sent),
        Err(SessionError::UnexpectedDisk)
    );
    assert_eq!(
        party.players[1].disk_changed(&machine, true, &mut sent),
        Err(SessionError::NoSwap)
    );

    let host = party.players[0].swap.as_mut().unwrap();
    host.phase = SwapPhase::HostReady;
    host.ready[1] = Some([5; 32]);
    assert_eq!(
        party.players[0].reach_boundary(own, &mut sent),
        Err(SessionError::DifferBefore)
    );
    let host = party.players[0].swap.as_mut().unwrap();
    host.phase = SwapPhase::HostApplied;
    assert_eq!(
        party.players[0].settle_swap(own, &mut sent),
        Err(SessionError::DigestMissing)
    );
    party.players[0].swap.as_mut().unwrap().applied[1] = Some([5; 32]);
    assert_eq!(
        party.players[0].settle_swap(own, &mut sent),
        Err(SessionError::DifferAfter)
    );
    assert!(sent.is_empty());
}

#[test]
fn a_disk_change_stands_in_the_feed() {
    let mut party = Party::gather(2);
    party.players[0].connection.enable_feed(1_000).unwrap();
    party.run_until(20);
    party.change_disk(2, vec![9; 100], false);
    let feed = party.players[0].connection.feed().unwrap();
    assert_eq!(feed.swaps.len(), 1);
    let record = &feed.swaps[0];
    assert_eq!((record.drive, record.writable), (2, false));
    assert_eq!(record.bytes, vec![9; 100]);
    assert!(record.before != record.after);
    assert!(record.frame <= feed.frames());
}

#[test]
fn a_feed_has_no_gaps() {
    let inputs = [Input::default(); MAX_PLAYERS];
    let mut feed = Feed::new(2, 2);
    assert_eq!(feed.record_frame(1, inputs), Err(FeedError::FrameOutOfOrder));
    assert_eq!(feed.record_frame(0, inputs), Ok(()));
    assert_eq!(feed.record_checkpoint(2, [0; 32]), Err(FeedError::NotReached));
    assert_eq!(feed.record_checkpoint(1, [0; 32]), Ok(()));
    assert_eq!(feed.record_frame(1, inputs), Ok(()));
    assert!(!feed.full());
    assert_eq!(feed.record_frame(2, inputs), Ok(()));
    assert!(feed.full());
    assert_eq!(feed.frames(), 2);
    let mut behind = connection(0, 0, 8);
    behind.enable_feed(10).unwrap();
    let swap = SwapRecord {
        frame: 5,
        drive: 0,
        writable: false,
        before: [0; 32],
        after: [1; 32],
        bytes: vec![],
    };
    assert_eq!(
        behind.feed_swap(swap),
        Err(ConnectionError::Feed(FeedError::NotReached))
    );
}

#[test]
fn packets_have_to_fit() {
    let mut queue = PacketQueue::default();
    let long = vec![0; report::MAX_PACKET + 1];
    assert_eq!(queue.push(&long), Err(TransportError::PacketTooLarge));
    assert_eq!(queue.send(&long), Err(TransportError::PacketTooLarge));
    assert_eq!(queue.push(&[1, 2, 3]), Ok(()));
    assert_eq!(queue.receive(&mut [0; 2]), Err(TransportError::BufferTooSmall));
    assert_eq!(queue.receive(&mut [0; 2]), Ok(None));
}

#[test]
fn spectators_are_refused_for_a_reason() {
    let watch = Message::Watch { build: VERSION.to_string() };
    let ask = |full: bool, bundle: bool| {
        SpectatorLink::new(0).receive_message(&watch, VERSION, &[1; 32], full, bundle, 0)
    };
    assert_eq!(ask(true, true), Err(SessionError::HistoryTooLarge));
    assert_eq!(ask(false, false), Err(SessionError::NoBundle));
    assert_eq!(ask(false, true), Ok(SpectatorReply::Bundle));
    let mut watcher = Watcher::new(0);
    let refusal = Message::Refused { reason: "full".to_string() };
    assert_eq!(
        watcher.receive_message(&refusal, "direct", 0).err(),
        Some(SessionError::SpectatorDeclined { reason: "full".to_string() })
    );
    let options = ConnectionOptions::Watch(WatchOptions {
        bind: end(1),
        host: end(2),
        session: [42; 16],
    });
    let mut session: Session<PacketQueue> = Session::new(options, Track::Watch(watcher), 0);
    let machine = ToyMachine::default();
    assert_eq!(
        session.confirmed_state_digest(&machine, false),
        Err(SessionError::NotSettled)
    );
    session.failure = Some(SessionError::HostTimedOut);
    assert_eq!(session.confirmed_state_digest(&machine, false), Err(SessionError::Failed));
}

#[test]
fn switches_are_set_one_by_one() {
    let mut pad = Input::default();
    pad.set_joystick([true, false, false, false, true, false]);
    pad.set_cd32_buttons([false, true, false, false, true]);
    assert_eq!(pad.buttons, 0b100_1001_0001);
    pad.set_cd32_buttons([false; 5]);
    assert_eq!(pad.buttons, 0b01_0001);
    pad.set_mouse_button(2, true);
    pad.set_mouse_button(0, true);
    pad.set_mouse_button(3, true);
    assert_eq!(pad.mouse_buttons, 0b101);
    pad.set_mouse_button(2, false);
    assert_eq!(pad.mouse_buttons, 0b001);
    pad.set_key(200, true);
    assert_eq!(pad.keys, [0; 16]);
    pad.set_key(0x41, true);
    assert_eq!(pad.keys[8], 2);
}

#[test]
fn a_session_tells_how_it_stands() {
    let options = Options {
        bind: end(1),
        peers: vec![end(2)],
        player: 1,
        players: 2,
        session: [42; 16],
        input_delay: 2,
        rollback_frames: 8,
        spectators: 0,
    };
    assert_eq!(options.host_address(), Some(end(2)));
    let direct = ConnectionOptions::from(options);
    assert!(!direct.hosts_internet());
    let mut party = Party::gather(2);
    party.run_until(3);
    let host = party.players.remove(0);
    let mut session = Session::new(direct, Track::Play(host), 4);
    assert_eq!(session.guest_count(), 1);
    assert_eq!(session.spectator_count(), 0);
    assert_eq!(session.audience.welcome(9, 0), 4);
    assert_eq!(session.spectator_count(), 4);
    let told = session.take_progress().map(|p| p.text());
    assert_eq!(told.as_deref(), Some("All 2 players are ready"));
    assert!(session.take_progress().is_none());
    session.set_catching_up(true);
    assert!(!session.catching_up());
    assert_eq!(session.route(None), "direct");
    assert_eq!(session.route(Some("UDP")), "UDP");
    let mut out = Vec::new();
    let held = Input { buttons: 1, ..Default::default() };
    assert_eq!(
        session.step(&mut party.machines[0], held, true, 0, true, party.now, &mut out),
        Ok(Stepped::Played(true))
    );
    assert_eq!(session.status().frame, 4);
    let mut watching: Session<PacketQueue> = Session::new(
        ConnectionOptions::Watch(WatchOptions { bind: end(1), host: end(2), session: [0; 16] }),
        Track::Watch(Watcher::new(0)),
        0,
    );
    watching.set_catching_up(true);
    assert!(watching.catching_up());
    assert_eq!(watching.guest_count(), 0);
}

/// What a machine was told to do.
#[derive(Clone, Debug, PartialEq)]
enum Told {
    Load(u64),
    Run { inputs: Vec<Input>, replay: bool },
}

/// A machine that counts its frames and keeps what it was told.
#[derive(Default)]
struct Recorder {
    frames: u64,
    told: Vec<Told>,
    /// How large a snapshot is once a state has been put back.
    swollen: usize,
    loaded: bool,
}

impl Machine for Recorder {
    fn save(&self) -> std::result::Result<Vec<u8>, MachineError> {
        let mut bytes = self.frames.to_le_bytes().to_vec();
        if self.loaded {
            bytes.resize(8 + self.swollen, 0);
        }
        Ok(bytes)
    }

    fn load(&mut self, bytes: &[u8]) -> std::result::Result<(), MachineError> {
        self.frames = u64::from_le_bytes(bytes[..8].try_into().unwrap());
        self.loaded = true;
        self.told.push(Told::Load(self.frames));
        Ok(())
    }

    fn frame(
        &mut self,
        inputs: &[Input],
        _previous_keys: [u8; 16],
        replay: bool,
    ) -> std::result::Result<(), MachineError> {
        self.frames += 1;
        self.told.push(Told::Run { inputs: inputs.to_vec(), replay });
        Ok(())
    }
}

fn pressed(buttons: u16) -> Input {
    Input { buttons, ..Default::default() }
}

/// Three frames played, and then an input for the second that was not
/// predicted.
fn surprised(machine: &mut Recorder) -> Rollback {
    let mut timeline = Rollback::new(0, 2, 0, 8);
    for f in 0..3 {
        assert_eq!(timeline.advance(machine, pressed(f)), Ok(true));
    }
    timeline.receive(1, 0, Input::default()).unwrap();
    timeline.receive(1, 1, pressed(5)).unwrap();
    timeline
}

#[test]
fn only_new_frames_are_heard_and_only_replays_repeat_them() {
    let mut machine = Recorder::default();
    let mut timeline = surprised(&mut machine);
    let run = |own: u16, other: u16, replay: bool| Told::Run {
        inputs: vec![pressed(own), pressed(other)],
        replay,
    };
    let played = vec![run(0, 0, false), run(1, 0, false), run(2, 0, false)];
    assert_eq!(machine.told, played);
    assert_eq!(timeline.reconcile(&mut machine), Ok(()));
    assert_eq!(machine.told[3..], [Told::Load(1), run(1, 5, true), run(2, 5, true)]);
    assert_eq!(timeline.reconcile(&mut machine), Ok(()), "nothing is left to replay");
    assert_eq!(machine.told.len(), 6);
    assert_eq!(machine.frames, 3);
}

#[test]
fn a_replay_stops_where_it_cannot_go_on() {
    let mut swelling = Recorder { swollen: MEMORY_LIMIT, ..Default::default() };
    let mut timeline = surprised(&mut swelling);
    assert_eq!(timeline.reconcile(&mut swelling), Err(RollbackError::SnapshotBudget));
    assert_eq!(swelling.told[3..], [Told::Load(1)], "no frame was run");
    let mut forgetful = Heavy { bytes: Some(8) };
    let mut timeline = Rollback::new(0, 2, 0, 8);
    assert_eq!(timeline.advance(&mut forgetful, Input::default()), Ok(true));
    timeline.receive(1, 0, pressed(5)).unwrap();
    assert_eq!(
        timeline.reconcile(&mut forgetful),
        Err(RollbackError::Machine(MachineError))
    );
}

/// A link that can be cut.
#[derive(Default)]
struct Cut {
    queue: PacketQueue,
    cut: bool,
}

impl Transport for Cut {
    fn route(&self) -> &'static str {
        "cut"
    }

    fn ready(&mut self) -> std::result::Result<bool, TransportError> {
        self.queue.ready()
    }

    fn receive(
        &mut self,
        buffer: &mut [u8],
    ) -> std::result::Result<Option<usize>, TransportError> {
        self.queue.receive(buffer)
    }

    fn send(&mut self, packet: &[u8]) -> std::result::Result<bool, TransportError> {
        if self.cut {
            return Err(TransportError::Io);
        }
        self.queue.send(packet)
    }
}

#[test]
fn a_turn_that_fails_takes_no_more_motion_than_its_sample() {
    let playing = |cut: bool| {
        let mut session = Connection::with_transport(
            settings(0, 2, 0, 8),
            Cut { cut, ..Default::default() },
            &cold(),
            &safe_config(),
            false,
            BUILD,
            0,
        )
        .ok()
        .unwrap();
        session.connected = true;
        session
    };
    let moved = || {
        let mut input = LocalInput::from(pressed(3));
        input.add_mouse_delta(150, -30);
        input
    };
    let failed = Err(ConnectionError::Sending(TransportError::Io));
    let mut machine = Recorder::default();
    let mut input = moved();
    assert_eq!(playing(true).take_turn(&mut machine, &mut input, true, 1), failed);
    assert_eq!(input.held, pressed(3));
    assert_eq!(input.mouse_pending, (50, 0), "the sample was taken before it was sent");
    assert!(machine.told.is_empty());
    let mut input = moved();
    assert_eq!(playing(true).take_turn(&mut machine, &mut input, false, 1), failed);
    assert_eq!(input.mouse_pending, (150, -30), "no sample was asked for");
    let mut input = moved();
    let mut session = playing(false);
    assert_eq!(session.take_turn(&mut machine, &mut input, true, 1), Ok(true));
    assert_eq!(input.mouse_pending, (50, 0));
    assert_eq!(machine.told.len(), 1);
    session.links[0].transport.cut = true;
    assert_eq!(session.step_local(&mut machine, &mut input, true, 2), failed);
    assert_eq!(input.mouse_pending, (0, 0));
    assert_eq!(session.step_local(&mut machine, &mut input, true, 3), failed);
    assert_eq!(machine.told.len(), 1);
}

#[test]
fn every_port_is_free_or_linked() {
    let mut host: Connection<PacketQueue> = Connection::without_links(
        settings(0, 4, 0, 8),
        &cold(),
        &safe_config(),
        false,
        BUILD,
        0,
    )
    .ok()
    .unwrap();
    for (taken, player) in [2usize, 3, 1].into_iter().enumerate() {
        let free = host.free_players();
        assert_eq!(free.len() + taken, 3);
        assert!(free.contains(&player));
        assert_eq!(host.add_link(player, PacketQueue::default(), 0), Ok(()));
        assert!(host.add_link(player, PacketQueue::default(), 0).is_err());
    }
    assert!(host.free_players().is_empty());
    assert_eq!(settings(0, 4, 0, 8).expected_links(), 3);
    assert_eq!(settings(3, 4, 0, 8).expected_links(), 1);
    assert_eq!(settings(3, 0, 0, 8).expected_links(), 1);
}

#[test]
fn packets_to_send_come_out_once_and_in_order() {
    let mut queue = PacketQueue::default();
    for i in 0..QUEUE_LIMIT as u8 {
        assert_eq!(queue.send(&[i]), Ok(true));
        queue.push(&[100 + i]).unwrap();
    }
    assert_eq!(queue.send(&[200]), Ok(false), "as many wait as can");
    assert_eq!(queue.pop(), Some(vec![0]));
    assert_eq!(queue.send(&[201]), Ok(true));
    assert!(queue.send(&vec![0; 5000]).is_err());
    for i in 1..QUEUE_LIMIT as u8 {
        assert_eq!(queue.pop(), Some(vec![i]));
    }
    assert_eq!(queue.pop(), Some(vec![201]));
    assert_eq!(queue.pop(), None);
    assert!(queue.has_incoming());
}

#[test]
fn a_report_that_is_refused_leaves_what_came_before() {
    let mut session = connection(0, 0, 8);
    let report = |inputs: Vec<(usize, u64, Input)>, checksum| Report {
        session: [42; 16],
        identity: connection(0, 0, 8).identity(),
        player: 1,
        players: 2,
        ready: true,
        delay: 0,
        window: 8,
        acks: [0; MAX_PLAYERS],
        inputs,
        checksum,
    };
    let late = report(vec![(1, 0, pressed(1)), (1, 50, pressed(2))], None);
    assert_eq!(
        session.accept(0, late, 7),
        Err(ConnectionError::Rollback(RollbackError::TooFarAhead))
    );
    assert_eq!(session.rollback.remote[1].get(0), Some(pressed(1)));
    assert_eq!(session.links[0].last_received, 7);
    assert!(!session.connected);
    let other = Report { players: 3, ..report(vec![(1, 1, pressed(1))], None) };
    assert_eq!(session.accept(0, other, 9), Err(ConnectionError::SettingsDiffer));
    assert_eq!(session.rollback.remote[1].get(1), None);
    assert_eq!(session.links[0].last_received, 7);
}

#[test]
fn a_full_feed_keeps_the_first_frames() {
    let mut session = connection(0, 0, 8);
    session.enable_feed(2).unwrap();
    let mut machine = Recorder::default();
    for f in 0..4u16 {
        session.rollback.receive(1, u64::from(f), pressed(10 + f)).unwrap();
        session.rollback.acknowledged[1] = u64::from(f) + 1;
        session.rollback.reconcile(&mut machine).unwrap();
        assert_eq!(session.rollback.advance(&mut machine, pressed(f)), Ok(true));
    }
    session.connected = true;
    let mut input = LocalInput::default();
    assert_eq!(session.take_turn(&mut machine, &mut input, false, 1), Ok(false));
    let feed = session.feed().unwrap();
    assert!(feed.full());
    let kept: Vec<(u64, u16, u16)> =
        feed.frames.iter().map(|(f, i)| (*f, i[0].buttons, i[1].buttons)).collect();
    assert_eq!(kept, vec![(0, 0, 10), (1, 1, 11)]);
}

#[test]
fn errors_have_words() {
    let said = |e: ConnectionError| SessionError::Connection(e).text();
    assert_eq!(
        said(ConnectionError::Desynchronized { player: 1, frame: 60 }),
        "netplay desynchronized with player 2 at confirmed frame 60"
    );
    assert_eq!(
        said(ConnectionError::ForeignPort { claimed: 2, player: 1 }),
        "netplay packet claims port 3 on player 2's link"
    );
    assert_eq!(
        said(ConnectionError::Sending(TransportError::PacketTooLarge)),
        "sending netplay input: netplay packet is too large"
    );
    assert_eq!(
        said(ConnectionError::Receiving(TransportError::BufferTooSmall)),
        "receiving netplay input: netplay receive buffer is too small"
    );
    assert_eq!(
        said(ConnectionError::Rollback(RollbackError::ChangedInput { frame: 7 })),
        "peer changed previously submitted input at frame 7"
    );
    assert_eq!(
        said(ConnectionError::Settings(SettingsError::Player { players: 3 })),
        "netplay player must be 1..3"
    );
    assert_eq!(
        said(ConnectionError::Config(ConfigError::AdapterSocket { player: 2 })),
        "netplay player 3 needs a joystick in the four-player adapter's socket; set port3 = joystick"
    );
    assert_eq!(
        SessionError::PortTaken { player: 1 }.text(),
        "netplay port 2 is taken; choose another player number"
    );
    assert_eq!(
        SessionError::Declined { reason: "full".to_string() }.text(),
        "the host declined this player: full"
    );
    assert_eq!(
        SessionError::SpectatorDeclined { reason: "full".to_string() }.text(),
        "the host declined the spectator: full"
    );
    assert_eq!(SessionError::SpectatorBuild.text(), "spectator uses a different Copperline build");
    assert_eq!(TransportError::PacketTooLarge.text(), "netplay packet is too large");
}

#[test]
fn a_spectator_is_told_apart_from_a_player() {
    let mut link = SpectatorLink::new(0);
    assert_eq!(link.sort_message(&[9]).err(), Some(SessionError::UnexpectedSpectatorMessage));
    assert_eq!(link.receive_report(true, 1), Err(SessionError::UnexpectedSpectatorMessage));
    link.phase = WatchPhase::Streaming;
    assert_eq!(link.receive_report(false, 1), Err(SessionError::UnexpectedSpectatorFeed));
    assert_eq!(
        link.receive_message(&Message::Start, VERSION, &[1; 32], false, true, 1),
        Err(SessionError::UnexpectedSpectatorSetup)
    );
    let other = Message::Watch { build: "0.9".to_string() };
    assert_eq!(
        SpectatorLink::new(0).receive_message(&other, VERSION, &[1; 32], false, true, 1),
        Err(SessionError::SpectatorBuild)
    );
    assert_eq!(
        SpectatorLink::new(0).serve(900_000, true),
        Err(SessionError::SpectatorSetupTimedOut)
    );
    assert_eq!(
        Watcher::new(0).sort_message(&[9]).err(),
        Some(SessionError::UnexpectedWatchMessage)
    );
}
