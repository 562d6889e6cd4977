//! Network backends and the host bridge.
use std::cell::RefCell;
use std::collections::VecDeque;
use std::rc::Rc;

use copperline::net::backend::{
    make_backend, net_config_name, parse_net_config, Available, LoopbackBackend, NatBackend,
    NetBackend, NetConfig, NetError, TO_ENGINE_CAPACITY, TO_GUEST_CAPACITY,
};
use copperline::net::bridge::{
    accept_frame, helper_request, helper_socket_path, initial_filter, list_interfaces, mac_filter,
    parse_helper_request, receive_filter, systemd_listener_available, AdapterIo, BridgeBackend,
    HelperError, HostInterface, Instruction, Worker, HELPER_MAGIC, JUMP_BITS, JUMP_EQUAL,
    LOAD_BYTE, LOAD_HALF, LOAD_WORD, RETURN, WHOLE,
};

const NEITHER: Available = Available { gateway: false, bridge: false };

#[test]
fn loopback_returns_sent_frames_in_order() {
    let mut b = LoopbackBackend::default();
    assert!(b.poll().is_none());
    b.send(&[1, 2, 3]);
    b.send(&[4, 5]);
    assert_eq!(b.poll(), Some(vec![1, 2, 3]));
    assert_eq!(b.poll(), Some(vec![4, 5]));
    assert!(b.poll().is_none());
}

#[test]
fn config_parses_known_backends() {
    assert_eq!(parse_net_config("loopback", None).unwrap(), NetConfig::Loopback);
    assert_eq!(parse_net_config("None", None).unwrap(), NetConfig::Isolated);
    assert_eq!(parse_net_config("", None).unwrap(), NetConfig::Isolated);
    assert_eq!(parse_net_config("nat", None).unwrap(), NetConfig::Nat);
    assert_eq!(
        parse_net_config("bridge", Some("en0")).unwrap(),
        NetConfig::Bridge { interface: "en0".into() }
    );
    assert!(parse_net_config("bridge", None).is_err());
    assert!(parse_net_config("tap0", None).is_err());
    assert_eq!(parse_net_config("bridge", None), Err(NetError::NeedsInterface));
    assert_eq!(parse_net_config("tap0", None), Err(NetError::UnknownBackend));
    assert_eq!(NetConfig::default(), NetConfig::Isolated);
}

#[test]
fn names_of_backends_read_back() {
    for cfg in [
        NetConfig::Isolated,
        NetConfig::Loopback,
        NetConfig::Nat,
        NetConfig::Bridge { interface: "en0".into() },
    ] {
        assert_eq!(parse_net_config(net_config_name(&cfg), Some("en0")), Ok(cfg));
    }
}

#[test]
fn make_backend_brings_up_named_backend() {
    assert!(make_backend(&NetConfig::Isolated, None, NEITHER)
        .ok()
        .unwrap()
        .is_none());
    let mut b = make_backend(&NetConfig::Loopback, None, NEITHER)
        .ok()
        .unwrap()
        .expect("loopback backend");
    b.send(&[9]);
    assert_eq!(b.poll(), Some(vec![9]));
    let bridge = NetConfig::Bridge { interface: "en0".into() };
    assert!(matches!(make_backend(&bridge, None, NEITHER), Err(NetError::NoBridge)));
}

#[test]
fn backend_starts_and_shuts_down() {
    let mut b = NatBackend::new(true);
    b.transmit(&[0u8; 60]);
    assert!(b.receive().is_none() || b.receive().is_none());
    assert_eq!(b.take_outbound(), Some(vec![0u8; 60]));
    drop(b);
}

#[test]
fn full_queues_lose_frames_and_a_stopped_gateway_takes_none() {
    let mut b = NatBackend::new(true);
    for i in 0..TO_ENGINE_CAPACITY + 5 {
        b.transmit(&[i as u8]);
    }
    assert_eq!(b.to_engine.len(), TO_ENGINE_CAPACITY);
    for _ in 0..TO_GUEST_CAPACITY {
        assert!(b.deliver(&[7]));
    }
    assert!(!b.deliver(&[8]));
    assert_eq!(b.receive(), Some(vec![7]));
    let mut stopped = NatBackend::new(false);
    stopped.transmit(&[1]);
    assert!(stopped.take_outbound().is_none());
}

const MAC: [u8; 6] = [0x02, 0, 0x10, 0, 0, 1];

fn frame(dst: [u8; 6], src: [u8; 6]) -> Vec<u8> {
    let mut frame = vec![0; 60];
    frame[..6].copy_from_slice(&dst);
    frame[6..12].copy_from_slice(&src);
    frame
}

#[derive(Default)]
struct FakeAdapterState {
    sent: Vec<Vec<u8>>,
    received: VecDeque<Vec<u8>>,
    guest_macs: Vec<[u8; 6]>,
    broken: bool,
    /// How many more times it takes what it is told.
    patience: Option<usize>,
}

impl FakeAdapterState {
    fn bears_it(&mut self) -> bool {
        match &mut self.patience {
            None => true,
            Some(0) => false,
            Some(left) => {
                *left -= 1;
                true
            }
        }
    }
}

struct FakeAdapter {
    state: Rc<RefCell<FakeAdapterState>>,
}

impl AdapterIo for FakeAdapter {
    fn send(&mut self, frame: &[u8]) -> bool {
        let mut state = self.state.borrow_mut();
        state.sent.push(frame.to_vec());
        state.bears_it()
    }

    fn receive(&mut self) -> Result<Option<Vec<u8>>, ()> {
        if self.state.borrow().broken {
            return Err(());
        }
        Ok(self.state.borrow_mut().received.pop_front())
    }

    fn set_guest_mac(&mut self, mac: [u8; 6]) -> bool {
        let mut state = self.state.borrow_mut();
        state.guest_macs.push(mac);
        state.bears_it()
    }
}

#[test]
fn worker_exchanges_frames_with_a_synthetic_adapter() {
    let state = Rc::new(RefCell::new(FakeAdapterState::default()));
    let mut adapter = FakeAdapter { state: Rc::clone(&state) };
    assert!(adapter.set_guest_mac(MAC));
    let mut backend = BridgeBackend::new(Some(MAC));
    let mut worker = Worker { guest_mac: Some(MAC) };
    assert_eq!(state.borrow().guest_macs, vec![MAC]);

    let outbound = frame([0xff; 6], MAC);
    backend.transmit(&outbound);
    assert!(worker.service(&mut backend, &mut adapter));
    assert_eq!(state.borrow().sent, vec![outbound]);

    let captured_echo = frame([0xff; 6], MAC);
    let inbound = frame(MAC, [0x02, 0, 0, 0, 0, 2]);
    state.borrow_mut().received.push_back(captured_echo);
    state.borrow_mut().received.push_back(inbound.clone());
    assert!(worker.service(&mut backend, &mut adapter));
    assert_eq!(backend.receive(), Some(inbound));
    assert!(backend.receive().is_none(), "capture echo must be suppressed");

    let replacement = [0x02, 0, 0x20, 0, 0, 1];
    backend.announce_mac(replacement);
    assert!(worker.service(&mut backend, &mut adapter));
    assert!(state.borrow().guest_macs.contains(&replacement));
    assert_eq!(worker.guest_mac, Some(replacement));

    state.borrow_mut().broken = true;
    assert!(!worker.service(&mut backend, &mut adapter));
}

#[test]
fn software_filter_accepts_guest_and_group_destinations() {
    assert!(accept_frame(&frame(MAC, [1; 6]), Some(MAC)));
    assert!(accept_frame(&frame([0xff; 6], [1; 6]), Some(MAC)));
    assert!(accept_frame(
        &frame([0x01, 0, 0x5e, 0, 0, 1], [1; 6]),
        Some(MAC)
    ));
    assert!(!accept_frame(
        &frame([0x02, 3, 4, 5, 6, 7], [1; 6]),
        Some(MAC)
    ));
}

#[test]
fn software_filter_suppresses_guest_capture_echo_and_junk() {
    assert!(!accept_frame(&frame([0xff; 6], MAC), Some(MAC)));
    assert!(!accept_frame(&[0; 13], Some(MAC)));
    assert!(accept_frame(&frame([0xff; 6], [1; 6]), None));
}

#[test]
fn pcap_filter_contains_both_mac_directions() {
    let filter = mac_filter(MAC);
    assert!(filter.contains("ether dst 02:00:10:00:00:01"));
    assert!(filter.contains("not ether src 02:00:10:00:00:01"));
}

/// Run a kernel filter over a frame.
fn run(program: &[Instruction], frame: &[u8]) -> u32 {
    let mut pc = 0usize;
    let mut acc = 0u32;
    loop {
        let i = program[pc];
        let at = i.k as usize;
        pc += 1;
        if i.code == LOAD_WORD {
            acc = u32::from_be_bytes([frame[at], frame[at + 1], frame[at + 2], frame[at + 3]]);
        } else if i.code == LOAD_HALF {
            acc = u32::from(u16::from_be_bytes([frame[at], frame[at + 1]]));
        } else if i.code == LOAD_BYTE {
            acc = u32::from(frame[at]);
        } else if i.code == JUMP_EQUAL {
            pc += usize::from(if acc == i.k { i.jt } else { i.jf });
        } else if i.code == JUMP_BITS {
            pc += usize::from(if acc & i.k != 0 { i.jt } else { i.jf });
        } else {
            assert_eq!(i.code, RETURN);
            return i.k;
        }
    }
}

#[test]
fn the_kernel_filter_takes_frames_for_the_guest_and_for_groups() {
    let program = receive_filter(Some(MAC));
    assert_eq!(run(&program, &frame(MAC, [1; 6])), WHOLE);
    assert_eq!(run(&program, &frame([0xff; 6], [1; 6])), WHOLE);
    assert_eq!(run(&program, &frame([1, 0, 0x5e, 0, 0, 1], [1; 6])), WHOLE);
    assert_eq!(run(&program, &frame([2, 3, 4, 5, 6, 7], [1; 6])), 0);
    assert_eq!(run(&receive_filter(None), &frame([2, 3, 4, 5, 6, 7], [1; 6])), 0);
    assert_eq!(run(&receive_filter(None), &frame([3, 3, 4, 5, 6, 7], [1; 6])), WHOLE);
}

fn interface(name: &str, up: bool, loopback: bool) -> HostInterface {
    HostInterface {
        name: name.to_string(),
        description: None,
        up,
        running: up,
        loopback,
        wireless: false,
    }
}

#[test]
fn interfaces_are_listed_with_the_useful_ones_first() {
    let list = list_interfaces(vec![
        interface("lo", true, true),
        interface("eth1", false, false),
        interface("wlan0", true, false),
        interface("eth0", true, false),
    ]);
    let names: Vec<&str> = list.iter().map(|i| i.name.as_str()).collect();
    assert_eq!(names, ["eth0", "wlan0", "lo", "eth1"]);
    assert_eq!(list[0].label(), "eth0");
    let described = HostInterface {
        description: Some("Ethernet".to_string()),
        ..interface("eth0", true, false)
    };
    assert_eq!(described.label(), "Ethernet [eth0]");
}

#[test]
fn helper_requests_read_back() {
    for mac in [None, Some(MAC)] {
        let request = helper_request(b"eth0", mac).unwrap();
        assert_eq!(request[..8], HELPER_MAGIC);
        let read = parse_helper_request(&request).ok().unwrap();
        assert_eq!(read.interface, b"eth0");
        assert_eq!(read.guest_mac, mac);
    }
    assert!(helper_request(b"0123456789abcdef", None).is_none());
}

#[test]
fn bad_helper_requests_are_told_apart() {
    let good = helper_request(b"eth0", Some(MAC)).unwrap();
    let error = |bytes: &[u8]| parse_helper_request(bytes).err().unwrap();
    let mut other = good.clone();
    other[0] = b'X';
    assert_eq!(error(&other), HelperError::UnsupportedProtocol);
    let mut long = good.clone();
    long[9] = 16;
    assert_eq!(error(&long), HelperError::NameLength);
    assert_eq!(error(&helper_request(b"", None).unwrap()), HelperError::NameLength);
    assert_eq!(error(&good[..good.len() - 1]), HelperError::CutShort);
    let mut text = good.clone();
    let at = text.windows(4).position(|w| w == b"eth0").unwrap();
    text[at] = 0xff;
    assert_eq!(error(&text), HelperError::NotText);
}

#[test]
fn the_helper_is_found_where_the_session_keeps_its_sockets() {
    assert_eq!(
        helper_socket_path(Some("/run/user/7"), 7).text(),
        "/run/user/7/copperline-net-helper/control.sock"
    );
    assert_eq!(
        helper_socket_path(None, 1000).text(),
        "/run/user/1000/copperline-net-helper/control.sock"
    );
    assert_eq!(initial_filter(None), [0; 6]);
    assert_eq!(initial_filter(Some(MAC)), MAC);
    assert!(systemd_listener_available(Some("12"), Some("1"), 12));
    assert!(!systemd_listener_available(Some("13"), Some("1"), 12));
    assert!(!systemd_listener_available(None, Some("1"), 12));
    assert!(!systemd_listener_available(Some("12"), Some("0"), 12));
}

#[test]
fn a_worker_stops_at_the_command_that_finds_the_adapter_gone() {
    for patience in 0..3 {
        let state = Rc::new(RefCell::new(FakeAdapterState {
            patience: Some(patience),
            ..Default::default()
        }));
        let mut adapter = FakeAdapter { state: Rc::clone(&state) };
        let mut backend = BridgeBackend::new(Some(MAC));
        let mut worker = Worker { guest_mac: Some(MAC) };
        let replacement = [0x02, 0, 0x20, 0, 0, 1];
        backend.transmit(&frame([0xff; 6], MAC));
        backend.announce_mac(replacement);
        backend.transmit(&frame([0xff; 6], replacement));
        backend.transmit(&frame([0xff; 6], replacement));
        state.borrow_mut().received.push_back(frame(MAC, [0x02, 0, 0, 0, 0, 2]));
        assert!(!worker.service(&mut backend, &mut adapter));
        assert_eq!(backend.to_adapter.len(), 3 - patience, "the rest still wait");
        assert_eq!(state.borrow().sent.len() + state.borrow().guest_macs.len(), patience + 1);
        assert!(backend.receive().is_none(), "nothing was read from it");
    }
    let state = Rc::new(RefCell::new(FakeAdapterState { patience: Some(4), ..Default::default() }));
    let mut adapter = FakeAdapter { state };
    let mut backend = BridgeBackend::new(Some(MAC));
    let mut worker = Worker { guest_mac: Some(MAC) };
    for _ in 0..4 {
        backend.transmit(&frame([0xff; 6], MAC));
    }
    assert!(worker.service(&mut backend, &mut adapter));
    assert!(backend.to_adapter.is_empty());
}
