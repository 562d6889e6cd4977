//! The virtual gateway: DHCP, DNS, UDP, ICMP and the TCP splice.
use std::collections::VecDeque;

use smoltcp::iface::{Config, Interface, SocketHandle, SocketSet};
use smoltcp::phy::{ChecksumCapabilities, Device, DeviceCapabilities, Medium, RxToken, TxToken};
use smoltcp::socket::tcp as tsock;
use smoltcp::time::Instant;
use smoltcp::wire::{
    ArpOperation, ArpPacket, ArpRepr, EthernetAddress, EthernetFrame, EthernetProtocol,
    HardwareAddress, Icmpv4Packet, Icmpv4Repr, IpAddress, IpCidr, IpListenEndpoint, IpProtocol,
    Ipv4Address, Ipv4Packet, Ipv4Repr, UdpPacket,
};

use copperline::net::gateway::dhcp::{
    find_option, handle_frame, BOOTP_HDR, CLIENT_PORT, OPTION_MAGIC, SERVER_PORT,
};
use copperline::net::gateway::dns::{
    encode_name, is_host_name, DnsResolver, Query, MAX_OUTSTANDING, PORT, QTYPE_A, QTYPE_AAAA,
    QTYPE_PTR, RCODE_NXDOMAIN, RCODE_OK, RCODE_SERVFAIL,
};
use copperline::net::gateway::engine::{Engine, FrameAction, MAX_OUT_QUEUED, MAX_UDP_PAYLOAD};
use copperline::net::gateway::frames::{
    build_udp, icmp_echo_reply, is_overlong_ping, map_host_ip, BROADCAST_IP, BROADCAST_MAC,
    DNS_IP, GATEWAY_IP, GATEWAY_MAC, GUEST_IP, LOOPBACK_IP, PREFIX_LEN, SEGMENT_BROADCAST,
};
use copperline::net::gateway::tcp::{
    HostState, Pump, PumpAction, ReadOutcome, Seen, SocketState, TcpNat, WriteOutcome,
    CONNECT_REAP, SOCKET_BUF,
};
use copperline::net::gateway::udp::{DatagramAction, FlowKey, UdpNat, IDLE_TIMEOUT, MAX_FLOWS};

const NOWHERE: [u8; 4] = [0; 4];
const GUEST_MAC: [u8; 6] = [0x02, 0x00, 0x10, 0x00, 0x00, 0x01];

fn ip(a: [u8; 4]) -> Ipv4Address {
    Ipv4Address::new(a[0], a[1], a[2], a[3])
}

fn request(msg_type: Option<u8>, flags: u16) -> Vec<u8> {
    let mut p = vec![0u8; BOOTP_HDR];
    p[0] = 1;
    p[1] = 1;
    p[2] = 6;
    p[4..8].copy_from_slice(&[0xDE, 0xAD, 0xBE, 0xEF]);
    p[10..12].copy_from_slice(&flags.to_be_bytes());
    p[28..34].copy_from_slice(&[2, 0, 0x10, 0, 0, 1]);
    if let Some(t) = msg_type {
        p.extend_from_slice(&OPTION_MAGIC);
        p.extend_from_slice(&[53, 1, t, 255]);
    }
    build_udp(BROADCAST_MAC, NOWHERE, CLIENT_PORT, BROADCAST_IP, SERVER_PORT, &p)
}

fn reply_payload(frame: &[u8]) -> Vec<u8> {
    let eth = EthernetFrame::new_checked(frame).unwrap();
    let ip = Ipv4Packet::new_checked(eth.payload()).unwrap();
    let udp = UdpPacket::new_checked(ip.payload()).unwrap();
    udp.payload().to_vec()
}

#[test]
fn discover_gets_offer_with_the_fixed_lease() {
    let reply = handle_frame(&request(Some(1), 0)).expect("offer");
    let p = reply_payload(&reply);
    assert_eq!(p[0], 2, "BOOTREPLY");
    assert_eq!(&p[4..8], &[0xDE, 0xAD, 0xBE, 0xEF], "xid echoed");
    assert_eq!(&p[16..20], &GUEST_IP, "yiaddr");
    let opts = &p[BOOTP_HDR + 4..];
    assert_eq!(find_option(opts, 53).as_deref(), Some(&[2u8][..]), "OFFER");
    assert_eq!(find_option(opts, 3).as_deref(), Some(&GATEWAY_IP[..]));
    assert_eq!(find_option(opts, 6).as_deref(), Some(&DNS_IP[..]));
    assert_eq!(find_option(opts, 1).as_deref(), Some(&[255, 255, 255, 0][..]));
}

#[test]
fn request_gets_ack_and_bootp_gets_plain_reply() {
    let ack = reply_payload(&handle_frame(&request(Some(3), 0)).unwrap());
    assert_eq!(
        find_option(&ack[BOOTP_HDR + 4..], 53).as_deref(),
        Some(&[5u8][..]),
        "ACK"
    );
    let bootp = reply_payload(&handle_frame(&request(None, 0)).unwrap());
    assert_eq!(find_option(&bootp[BOOTP_HDR + 4..], 53), None);
    assert_eq!(&bootp[16..20], &GUEST_IP);
}

#[test]
fn broadcast_flag_addresses_the_reply_to_broadcast() {
    let reply = handle_frame(&request(Some(1), 0x8000)).unwrap();
    let eth = EthernetFrame::new_checked(&reply[..]).unwrap();
    assert_eq!(eth.dst_addr(), EthernetAddress::BROADCAST);
    let ip = Ipv4Packet::new_checked(eth.payload()).unwrap();
    assert_eq!(ip.dst_addr(), Ipv4Address::BROADCAST);
}

#[test]
fn what_is_no_request_gets_no_lease() {
    assert!(handle_frame(&[0u8; 60]).is_none());
    assert!(handle_frame(&request(Some(7), 0)).is_none());
    let mut answer = request(Some(1), 0);
    answer[42] = 2;
    assert!(handle_frame(&answer).is_none());
    assert_eq!(find_option(&[0, 0, 53, 1, 9, 255], 53), Some(vec![9]));
    assert_eq!(find_option(&[53, 4, 9], 53), None);
    assert_eq!(find_option(&[255, 53, 1, 9], 53), None);
}

fn build_query(id: u16, name: &str, qtype: u16) -> Vec<u8> {
    let mut q = Vec::new();
    q.extend_from_slice(&id.to_be_bytes());
    q.extend_from_slice(&0x0100u16.to_be_bytes());
    q.extend_from_slice(&1u16.to_be_bytes());
    q.extend_from_slice(&[0, 0, 0, 0, 0, 0]);
    for label in name.split('.') {
        q.push(label.len() as u8);
        q.extend_from_slice(label.as_bytes());
    }
    q.push(0);
    q.extend_from_slice(&qtype.to_be_bytes());
    q.extend_from_slice(&1u16.to_be_bytes());
    q
}

/// Hand a query over, look its name up in a table of one host, and take the
/// answer.
fn wait_result(r: &mut DnsResolver, guest_port: u16, payload: &[u8]) -> (u16, Vec<u8>) {
    if let Some(lookup) = r.handle_query(guest_port, payload) {
        let found = lookup.query.name == b"localhost" && is_host_name(&lookup.query.name);
        r.resolved(&lookup, if found { Some([127, 0, 0, 1]) } else { None });
    }
    r.poll_results().pop().expect("a DNS result")
}

#[test]
fn a_query_for_localhost_resolves_offline() {
    let mut r = DnsResolver::new();
    let (port, resp) = wait_result(&mut r, 4242, &build_query(7, "localhost", QTYPE_A));
    assert_eq!(port, 4242);
    assert_eq!(u16::from_be_bytes([resp[0], resp[1]]), 7, "id echoed");
    assert_eq!(resp[3] & 0x0F, RCODE_OK);
    let ancount = u16::from_be_bytes([resp[6], resp[7]]);
    assert_eq!(ancount, 1);
    assert_eq!(&resp[resp.len() - 4..], &[127, 0, 0, 1], "A 127.0.0.1");
}

#[test]
fn aaaa_and_unknown_types_are_answered_nodata() {
    let mut r = DnsResolver::new();
    let (_, resp) = wait_result(&mut r, 1, &build_query(8, "localhost", QTYPE_AAAA));
    assert_eq!(resp[3] & 0x0F, RCODE_OK);
    assert_eq!(u16::from_be_bytes([resp[6], resp[7]]), 0, "no answers");

    let (_, resp) = wait_result(&mut r, 2, &build_query(9, "localhost", 15));
    assert_eq!(resp[3] & 0x0F, RCODE_OK);
    assert_eq!(u16::from_be_bytes([resp[6], resp[7]]), 0, "no answers");
}

#[test]
fn ptr_for_segment_addresses_answers_and_others_nxdomain() {
    let mut r = DnsResolver::new();
    let (_, resp) = wait_result(&mut r, 3, &build_query(10, "15.2.0.10.in-addr.arpa", QTYPE_PTR));
    assert_eq!(resp[3] & 0x0F, RCODE_OK);
    assert_eq!(u16::from_be_bytes([resp[6], resp[7]]), 1);
    let tail = &resp[resp.len() - encode_name(b"amiga.local").len()..];
    assert_eq!(tail, &encode_name(b"amiga.local")[..]);

    let (_, resp) = wait_result(
        &mut r,
        4,
        &build_query(11, "255.255.255.255.in-addr.arpa", QTYPE_PTR),
    );
    assert_eq!(resp[3] & 0x0F, RCODE_NXDOMAIN);
    assert_eq!(u16::from_be_bytes([resp[6], resp[7]]), 0);
}

#[test]
fn lookups_are_limited_and_failures_are_told_apart() {
    let mut r = DnsResolver::new();
    let query = build_query(1, "example.org", QTYPE_A);
    let mut lookups = Vec::new();
    for _ in 0..MAX_OUTSTANDING {
        lookups.extend(r.handle_query(9, &query));
    }
    assert_eq!(lookups.len(), MAX_OUTSTANDING);
    assert!(r.handle_query(9, &query).is_none());
    let full = r.poll_results();
    assert_eq!(full.len(), 1);
    assert_eq!(full[0].1[3] & 0x0f, RCODE_SERVFAIL);
    r.resolved(&lookups[0], None);
    r.abandoned(&lookups[1]);
    let answers = r.poll_results();
    assert_eq!(answers[0].1[3] & 0x0f, RCODE_NXDOMAIN);
    assert_eq!(answers[1].1[3] & 0x0f, RCODE_SERVFAIL);
    assert_eq!(r.outstanding, MAX_OUTSTANDING - 2);
    // What cannot be read gets no answer at all.
    assert!(r.handle_query(9, &query[..11]).is_none());
    let mut response = query.clone();
    response[2] |= 0x80;
    assert!(r.handle_query(9, &response).is_none());
    let mut wild = query.clone();
    wild[13] = 0xff;
    assert!(Query::parse(&wild).is_none());
    assert!(r.poll_results().is_empty());
    assert!(is_host_name(b"a-b_c.9") && !is_host_name(b"") && !is_host_name(b"a b"));
    assert_eq!(Query::parse(&query).unwrap().name, b"example.org");
}

/// A pipe between the classifier and a TCP stack.
#[derive(Default)]
struct PipeDevice {
    rx: VecDeque<Vec<u8>>,
    tx: VecDeque<Vec<u8>>,
}

struct PipeRxToken(Vec<u8>);

impl RxToken for PipeRxToken {
    fn consume<R, F>(self, f: F) -> R
    where
        F: FnOnce(&[u8]) -> R,
    {
        f(&self.0)
    }
}

struct PipeTxToken<'a>(&'a mut VecDeque<Vec<u8>>);

impl TxToken for PipeTxToken<'_> {
    fn consume<R, F>(self, len: usize, f: F) -> R
    where
        F: FnOnce(&mut [u8]) -> R,
    {
        let mut buf = vec![0u8; len];
        let r = f(&mut buf);
        self.0.push_back(buf);
        r
    }
}

impl Device for PipeDevice {
    type RxToken<'a> = PipeRxToken;
    type TxToken<'a> = PipeTxToken<'a>;

    fn receive(&mut self, _now: Instant) -> Option<(Self::RxToken<'_>, Self::TxToken<'_>)> {
        let frame = self.rx.pop_front()?;
        Some((PipeRxToken(frame), PipeTxToken(&mut self.tx)))
    }

    fn transmit(&mut self, _now: Instant) -> Option<Self::TxToken<'_>> {
        Some(PipeTxToken(&mut self.tx))
    }

    fn capabilities(&self) -> DeviceCapabilities {
        let mut caps = DeviceCapabilities::default();
        caps.medium = Medium::Ethernet;
        caps.max_transmission_unit = 1514;
        caps
    }
}

/// A host connection: bytes to read, and bytes that were written.
#[derive(Default)]
struct HostStream {
    incoming: VecDeque<u8>,
    ended: bool,
    written: Vec<u8>,
    shut: bool,
}

/// The engine with its TCP stack, and host connections held in memory.
struct Gateway {
    engine: Engine,
    device: PipeDevice,
    iface: Interface,
    sockets: SocketSet<'static>,
    handles: Vec<(u64, SocketHandle, HostStream)>,
    dialed: Vec<[u8; 4]>,
    millis: i64,
}

impl Gateway {
    fn new() -> Self {
        let mut device = PipeDevice::default();
        let mut config = Config::new(HardwareAddress::Ethernet(EthernetAddress(GATEWAY_MAC)));
        config.random_seed = 0x0a00_0202;
        let mut iface = Interface::new(config, &mut device, Instant::ZERO);
        iface.update_ip_addrs(|addrs| {
            let _ = addrs.push(IpCidr::new(IpAddress::Ipv4(ip(GATEWAY_IP)), PREFIX_LEN));
            let _ = addrs.push(IpCidr::new(IpAddress::Ipv4(ip(DNS_IP)), 32));
        });
        iface.set_any_ip(true);
        iface.routes_mut().add_default_ipv4_route(ip(GATEWAY_IP)).unwrap();
        Gateway {
            engine: Engine::new(),
            device,
            iface,
            sockets: SocketSet::new(vec![]),
            handles: Vec::new(),
            dialed: Vec::new(),
            millis: 0,
        }
    }

    fn handle_guest_frame(&mut self, frame: &[u8]) {
        match self.engine.handle_guest_frame(frame, self.millis as u64) {
            FrameAction::Nothing | FrameAction::Datagram { .. } => {}
            FrameAction::Stack => self.device.rx.push_back(frame.to_vec()),
            FrameAction::Open { key } => {
                let mut sock = tsock::Socket::new(
                    tsock::SocketBuffer::new(vec![0u8; SOCKET_BUF]),
                    tsock::SocketBuffer::new(vec![0u8; SOCKET_BUF]),
                );
                sock.listen(IpListenEndpoint {
                    addr: Some(IpAddress::Ipv4(ip(key.remote_ip))),
                    port: key.remote_port,
                })
                .unwrap();
                let handle = self.sockets.add(sock);
                let id = self.engine.tcp.take_id();
                self.engine.tcp.dialing(id, key, self.millis as u64);
                self.dialed.push(map_host_ip(key.remote_ip));
                self.handles.push((id, handle, HostStream::default()));
                assert_eq!(self.engine.tcp.dialed(id, true), PumpAction::Rest);
                self.device.rx.push_back(frame.to_vec());
            }
            FrameAction::Resolve { lookup } => {
                self.engine.dns.resolved(&lookup, Some([127, 0, 0, 1]));
            }
        }
    }

    fn pump(&mut self) {
        for index in 0..self.engine.tcp.flows.len() {
            let (_, handle, stream) = &mut self.handles[index];
            let sock = self.sockets.get_mut::<tsock::Socket>(*handle);
            let look = |sock: &tsock::Socket| Seen {
                handshaking: matches!(
                    sock.state(),
                    tsock::State::Listen | tsock::State::SynReceived
                ),
                can_recv: sock.can_recv(),
                may_recv: sock.may_recv(),
                can_send: sock.can_send(),
                room: sock.send_capacity() - sock.send_queue(),
            };
            let Some(mut pump) = Pump::begin(self.engine.tcp.flows[index].host, &look(sock))
            else {
                continue;
            };
            loop {
                match pump.next(&look(sock)) {
                    PumpAction::WriteToHost => {
                        let n = sock
                            .recv(|data| {
                                stream.written.extend_from_slice(data);
                                (data.len(), data.len())
                            })
                            .unwrap();
                        pump.wrote(WriteOutcome::Moved { n });
                    }
                    PumpAction::ShutdownHost => stream.shut = true,
                    PumpAction::ReadFromHost { want } => {
                        let n = want.min(stream.incoming.len());
                        let data: Vec<u8> = stream.incoming.drain(..n).collect();
                        let outcome = if n > 0 {
                            sock.send_slice(&data).unwrap();
                            ReadOutcome::Data
                        } else if stream.ended {
                            ReadOutcome::EndOfStream
                        } else {
                            ReadOutcome::WouldBlock
                        };
                        if pump.read(outcome) == PumpAction::CloseGuest {
                            sock.close();
                        }
                    }
                    _ => break,
                }
            }
            self.engine.tcp.leave(index, pump.host_state());
        }
        let states: Vec<SocketState> = self
            .handles
            .iter()
            .map(|(_, h, _)| match self.sockets.get::<tsock::Socket>(*h).state() {
                tsock::State::Closed => SocketState::Closed,
                tsock::State::Listen | tsock::State::SynReceived => SocketState::Handshaking,
                _ => SocketState::Open,
            })
            .collect();
        self.engine.tcp.reap(&states, self.millis as u64);
    }

    fn step(&mut self) {
        self.millis += 1;
        let now = Instant::from_millis(self.millis);
        self.iface.poll(now, &mut self.device, &mut self.sockets);
        self.pump();
        self.iface.poll(now, &mut self.device, &mut self.sockets);
        self.engine.flush_answers();
        while let Some(frame) = self.device.tx.pop_front() {
            self.engine.push_out(frame);
        }
    }

    fn pop_output(&mut self) -> Option<Vec<u8>> {
        self.engine.pop_output()
    }
}

fn arp_request(target: [u8; 4]) -> Vec<u8> {
    let repr = ArpRepr::EthernetIpv4 {
        operation: ArpOperation::Request,
        source_hardware_addr: EthernetAddress(GUEST_MAC),
        source_protocol_addr: ip(GUEST_IP),
        target_hardware_addr: EthernetAddress([0; 6]),
        target_protocol_addr: ip(target),
    };
    let mut buf = vec![0u8; 14 + repr.buffer_len()];
    let mut eth = EthernetFrame::new_unchecked(&mut buf[..]);
    eth.set_src_addr(EthernetAddress(GUEST_MAC));
    eth.set_dst_addr(EthernetAddress::BROADCAST);
    eth.set_ethertype(EthernetProtocol::Arp);
    repr.emit(&mut ArpPacket::new_unchecked(eth.payload_mut()));
    buf
}

#[test]
fn arp_for_the_gateway_is_answered() {
    let mut e = Gateway::new();
    e.handle_guest_frame(&arp_request(GATEWAY_IP));
    e.step();
    let reply = e.pop_output().expect("ARP reply");
    assert_eq!(reply.len(), 60, "padded to the minimum");
    let eth = EthernetFrame::new_checked(&reply[..]).unwrap();
    assert_eq!(eth.ethertype(), EthernetProtocol::Arp);
    let arp = ArpPacket::new_checked(eth.payload()).unwrap();
    match ArpRepr::parse(&arp).unwrap() {
        ArpRepr::EthernetIpv4 {
            operation: ArpOperation::Reply,
            source_hardware_addr,
            source_protocol_addr,
            ..
        } => {
            assert_eq!(source_hardware_addr, EthernetAddress(GATEWAY_MAC));
            assert_eq!(source_protocol_addr, ip(GATEWAY_IP));
        }
        other => panic!("unexpected ARP: {other:?}"),
    }
}

#[test]
fn arp_probe_for_the_guests_own_address_is_not_answered() {
    let mut e = Gateway::new();
    e.handle_guest_frame(&arp_request(GUEST_IP));
    e.step();
    assert!(e.pop_output().is_none(), "probe must go unanswered");
}

fn ping(target: [u8; 4]) -> Vec<u8> {
    let checksum = ChecksumCapabilities::default();
    let echo = Icmpv4Repr::EchoRequest {
        ident: 7,
        seq_no: 3,
        data: b"ping",
    };
    let mut buf = vec![0u8; 14 + 20 + echo.buffer_len()];
    let mut eth = EthernetFrame::new_unchecked(&mut buf[..]);
    eth.set_src_addr(EthernetAddress(GUEST_MAC));
    eth.set_dst_addr(EthernetAddress(GATEWAY_MAC));
    eth.set_ethertype(EthernetProtocol::Ipv4);
    let ip_repr = Ipv4Repr {
        src_addr: ip(GUEST_IP),
        dst_addr: ip(target),
        next_header: IpProtocol::Icmp,
        payload_len: echo.buffer_len(),
        hop_limit: 64,
    };
    let mut packet = Ipv4Packet::new_unchecked(eth.payload_mut());
    ip_repr.emit(&mut packet, &checksum);
    echo.emit(
        &mut Icmpv4Packet::new_unchecked(packet.payload_mut()),
        &checksum,
    );
    buf
}

#[test]
fn icmp_echo_to_an_external_address_is_answered_locally() {
    let checksum = ChecksumCapabilities::default();
    let external = [93, 184, 216, 34];
    let mut e = Gateway::new();
    e.handle_guest_frame(&ping(external));
    e.step();
    let reply = e.pop_output().expect("echo reply");
    let eth = EthernetFrame::new_checked(&reply[..]).unwrap();
    let packet = Ipv4Packet::new_checked(eth.payload()).unwrap();
    assert!(packet.verify_checksum());
    assert_eq!(packet.src_addr(), ip(external), "answered as the target");
    assert_eq!(packet.dst_addr(), ip(GUEST_IP));
    let icmp = Icmpv4Packet::new_checked(packet.payload()).unwrap();
    match Icmpv4Repr::parse(&icmp, &checksum).unwrap() {
        Icmpv4Repr::EchoReply {
            ident,
            seq_no,
            data,
        } => {
            assert_eq!((ident, seq_no), (7, 3));
            assert_eq!(data, b"ping");
        }
        other => panic!("unexpected ICMP: {other:?}"),
    }
    assert!(icmp_echo_reply(&[0; 60]).is_none());
    let mut damaged = ping(external);
    damaged[34 + 8] ^= 1;
    assert!(icmp_echo_reply(&damaged).is_none(), "the checksum is wrong");
}

#[test]
fn dns_query_through_the_engine_returns_an_a_record() {
    let query = build_query(0x77, "localhost", 1);
    let frame = build_udp(GATEWAY_MAC, GUEST_IP, 3333, DNS_IP, PORT, &query);
    let mut e = Gateway::new();
    e.handle_guest_frame(&frame);
    e.step();
    let reply = e.pop_output().expect("a DNS reply");
    let eth = EthernetFrame::new_checked(&reply[..]).unwrap();
    let packet = Ipv4Packet::new_checked(eth.payload()).unwrap();
    assert_eq!(packet.src_addr(), ip(DNS_IP));
    let udp = UdpPacket::new_checked(packet.payload()).unwrap();
    assert!(udp.verify_checksum(
        &IpAddress::Ipv4(packet.src_addr()),
        &IpAddress::Ipv4(packet.dst_addr())
    ));
    assert_eq!(udp.src_port(), PORT);
    assert_eq!(udp.dst_port(), 3333);
    let p = udp.payload();
    assert_eq!(&p[p.len() - 4..], &[127, 0, 0, 1]);
}

#[test]
fn dhcp_discover_through_the_engine_is_offered() {
    let mut p = vec![0u8; 236];
    p[0] = 1;
    p[1] = 1;
    p[2] = 6;
    p[28..34].copy_from_slice(&GUEST_MAC);
    p.extend_from_slice(&[0x63, 0x82, 0x53, 0x63, 53, 1, 1, 255]);
    let frame = build_udp(BROADCAST_MAC, NOWHERE, 68, BROADCAST_IP, SERVER_PORT, &p);
    let mut e = Gateway::new();
    e.handle_guest_frame(&frame);
    e.step();
    let reply = e.pop_output().expect("DHCP offer");
    let eth = EthernetFrame::new_checked(&reply[..]).unwrap();
    let packet = Ipv4Packet::new_checked(eth.payload()).unwrap();
    let udp = UdpPacket::new_checked(packet.payload()).unwrap();
    assert_eq!(udp.dst_port(), 68);
    assert_eq!(&udp.payload()[16..20], &GUEST_IP);
}

/// A second stack that stands for the guest machine, so that the splice has a
/// real TCP state machine on both ends.
struct GuestStack {
    device: PipeDevice,
    iface: Interface,
    sockets: SocketSet<'static>,
    handle: SocketHandle,
}

impl GuestStack {
    fn new() -> Self {
        let mut device = PipeDevice::default();
        let mut config = Config::new(HardwareAddress::Ethernet(EthernetAddress(GUEST_MAC)));
        config.random_seed = 42;
        let mut iface = Interface::new(config, &mut device, Instant::ZERO);
        iface.update_ip_addrs(|addrs| {
            let _ = addrs.push(IpCidr::new(IpAddress::Ipv4(ip(GUEST_IP)), PREFIX_LEN));
        });
        iface.routes_mut().add_default_ipv4_route(ip(GATEWAY_IP)).unwrap();
        let mut sockets = SocketSet::new(vec![]);
        let handle = sockets.add(tsock::Socket::new(
            tsock::SocketBuffer::new(vec![0u8; 16384]),
            tsock::SocketBuffer::new(vec![0u8; 16384]),
        ));
        GuestStack { device, iface, sockets, handle }
    }

    fn sock(&mut self) -> &mut tsock::Socket<'static> {
        self.sockets.get_mut::<tsock::Socket>(self.handle)
    }

    fn exchange(&mut self, gateway: &mut Gateway) {
        let now = Instant::from_millis(gateway.millis);
        self.iface.poll(now, &mut self.device, &mut self.sockets);
        while let Some(f) = self.device.tx.pop_front() {
            gateway.handle_guest_frame(&f);
        }
        gateway.step();
        while let Some(f) = gateway.pop_output() {
            self.device.rx.push_back(f);
        }
        self.iface.poll(now, &mut self.device, &mut self.sockets);
    }
}

#[test]
fn tcp_flow_splices_to_a_localhost_server() {
    let port = 2323;
    let mut gateway = Gateway::new();
    let mut guest = GuestStack::new();
    {
        let GuestStack { iface, sockets, handle, .. } = &mut guest;
        let cx = iface.context();
        sockets
            .get_mut::<tsock::Socket>(*handle)
            .connect(cx, (IpAddress::Ipv4(ip(GATEWAY_IP)), port), 49152)
            .unwrap();
    }

    let mut received = Vec::new();
    let mut sent_reply = false;
    let mut greeted = false;
    let mut turns = 0;
    loop {
        guest.exchange(&mut gateway);
        if !greeted && !gateway.handles.is_empty() {
            gateway.handles[0].2.incoming.extend(b"hello from host");
            greeted = true;
        }
        let sock = guest.sock();
        if sock.can_recv() {
            sock.recv(|d| {
                received.extend_from_slice(d);
                (d.len(), ())
            })
            .unwrap();
        }
        if !sent_reply && received == b"hello from host" && sock.can_send() {
            sock.send_slice(b"hi").unwrap();
            sent_reply = true;
        }
        if sent_reply && sock.send_queue() == 0 {
            break;
        }
        turns += 1;
        assert!(turns < 10_000, "splice stalled: received {received:?}");
    }
    guest.sock().close();
    for _ in 0..20 {
        guest.exchange(&mut gateway);
    }
    let stream = &gateway.handles[0].2;
    assert_eq!(stream.written, b"hi");
    assert!(stream.shut, "the guest's end of stream reached the host");
    assert_eq!(received, b"hello from host");
    assert_eq!(gateway.dialed, vec![LOOPBACK_IP]);
}

#[test]
fn a_host_that_fails_resets_the_guest_and_stale_flows_are_reaped() {
    let seen = Seen { handshaking: true, can_recv: false, may_recv: false, can_send: true, room: 9 };
    assert!(Pump::begin(HostState::Connecting, &seen).is_none());
    let up = HostState::Up { established: false, read_eof: false, wrote_shutdown: false };
    let mut pump = Pump::begin(up, &seen).unwrap();
    // No end of stream is passed on in the middle of the handshake.
    assert_eq!(pump.next(&seen), PumpAction::ReadFromHost { want: 9 });
    assert_eq!(pump.read(ReadOutcome::Failed), PumpAction::AbortGuest);
    assert_eq!(pump.host_state(), HostState::Gone);
    assert_eq!(pump.next(&seen), PumpAction::Rest);

    let open = Seen { handshaking: false, can_recv: true, may_recv: true, ..seen };
    let mut pump = Pump::begin(up, &open).unwrap();
    assert_eq!(pump.next(&open), PumpAction::WriteToHost);
    assert_eq!(pump.wrote(WriteOutcome::Failed), PumpAction::AbortGuest);

    let mut nat = TcpNat::new();
    let key = FlowKey { guest_port: 1, remote_ip: [1, 2, 3, 4], remote_port: 80 };
    assert!(nat.wants_flow(&key, true, false));
    assert!(!nat.wants_flow(&key, true, true));
    let id = nat.take_id();
    nat.dialing(id, key, 0);
    assert!(!nat.wants_flow(&key, true, false), "a repeated first segment");
    assert_eq!(nat.dialed(id, false), PumpAction::AbortGuest);
    assert_eq!(nat.dialed(99, true), PumpAction::Rest);
    nat.reap(&[SocketState::Handshaking], CONNECT_REAP);
    assert_eq!(nat.flows.len(), 1);
    nat.reap(&[SocketState::Handshaking], CONNECT_REAP + 1);
    assert!(nat.flows.is_empty());
}

#[test]
fn datagrams_find_their_flows() {
    let mut nat = UdpNat::new();
    assert_eq!(nat.handle_datagram(5, [8, 8, 8, 8], 53, 0), DatagramAction::Open);
    let key = FlowKey { guest_port: 5, remote_ip: [8, 8, 8, 8], remote_port: 53 };
    let id = nat.opened(key, 0);
    assert_eq!(nat.handle_datagram(5, [8, 8, 8, 8], 53, 10), DatagramAction::Send { id });
    assert_eq!(nat.handle_datagram(5, BROADCAST_IP, 53, 10), DatagramAction::Lose);
    assert_eq!(nat.handle_datagram(5, SEGMENT_BROADCAST, 53, 10), DatagramAction::Lose);
    assert_eq!(nat.handle_datagram(5, [224, 0, 0, 1], 53, 10), DatagramAction::Lose);
    assert_eq!(nat.replied(0, 20).remote_port, 53);
    nat.expire(20 + IDLE_TIMEOUT - 1);
    assert_eq!(nat.flows.len(), 1);
    nat.expire(20 + IDLE_TIMEOUT + 1);
    assert!(nat.flows.is_empty());
    for i in 0..MAX_FLOWS as u16 {
        nat.opened(FlowKey { guest_port: i, ..key }, 0);
    }
    assert_eq!(nat.handle_datagram(999, [8, 8, 8, 8], 53, 0), DatagramAction::Lose);
}

#[test]
fn datagrams_go_out_and_their_replies_come_back() {
    let mut e = Engine::new();
    let frame = build_udp(GATEWAY_MAC, GUEST_IP, 4000, [9, 9, 9, 9], 123, b"time?");
    // An address that is only learned from traffic.
    let mut frame = frame;
    frame[6..12].copy_from_slice(&GUEST_MAC);
    match e.handle_guest_frame(&frame, 0) {
        FrameAction::Datagram { action: DatagramAction::Open, key, payload } => {
            assert_eq!(payload, b"time?");
            assert_eq!((key.guest_port, key.remote_ip, key.remote_port), (4000, [9, 9, 9, 9], 123));
            e.deliver_reply(&key, b"noon");
            e.deliver_reply(&key, &vec![0; MAX_UDP_PAYLOAD + 1]);
        }
        _ => panic!("a datagram"),
    }
    let reply = e.pop_output().unwrap();
    assert!(e.pop_output().is_none(), "an oversized reply is dropped whole");
    assert_eq!(reply[..6], GUEST_MAC);
    assert_eq!(reply_payload(&reply), b"noon");
    for _ in 0..MAX_OUT_QUEUED + 1 {
        e.push_out(vec![1]);
    }
    assert_eq!(e.out.len(), MAX_OUT_QUEUED);
    assert!(matches!(e.handle_guest_frame(&[0; 10], 0), FrameAction::Nothing));
    assert_eq!(map_host_ip(GATEWAY_IP), LOOPBACK_IP);
    assert_eq!(map_host_ip([1, 2, 3, 4]), [1, 2, 3, 4]);
}

#[test]
fn only_a_ping_with_too_short_a_header_is_too_long() {
    let mut frame = ping([1, 2, 3, 4]);
    assert!(!is_overlong_ping(&frame));
    assert!(!is_overlong_ping(&[0; 13]));
    frame.resize(14 + 65_535, 0);
    frame[16..18].copy_from_slice(&[0xFF, 0xFF]);
    assert!(!is_overlong_ping(&frame), "a header of twenty bytes leaves room for an answer");
    assert_eq!(icmp_echo_reply(&frame).unwrap().len(), frame.len());
    frame[14] = 0x44;
    assert!(is_overlong_ping(&frame));
    frame[14 + 9] = 99;
    assert!(!is_overlong_ping(&frame));
    let mut e = Engine::new();
    assert!(matches!(e.handle_guest_frame(&frame, 0), FrameAction::Nothing));
}

#[test]
fn a_datagram_uses_up_no_flow_by_itself() {
    let mut e = Engine::new();
    for port in 4000..4010 {
        let frame = build_udp(GATEWAY_MAC, GUEST_IP, port, [9, 9, 9, 9], 123, b"time?");
        match e.handle_guest_frame(&frame, 0) {
            FrameAction::Datagram { action: DatagramAction::Open, .. } => {}
            _ => panic!("a datagram"),
        }
        assert_eq!(e.udp.next_id, 0);
    }
    let key = FlowKey { guest_port: 4000, remote_ip: [9, 9, 9, 9], remote_port: 123 };
    assert_eq!(e.udp.opened(key, 0), 0);
    let frame = build_udp(GATEWAY_MAC, GUEST_IP, 4000, [9, 9, 9, 9], 123, b"time?");
    match e.handle_guest_frame(&frame, 1) {
        FrameAction::Datagram { action, .. } => {
            assert_eq!(action, DatagramAction::Send { id: 0 });
        }
        _ => panic!("a datagram"),
    }
    assert_eq!(e.udp.next_id, 1);
}
