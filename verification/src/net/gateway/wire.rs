//! Packet headers, as the `smoltcp` crate reads and writes them.
use vstd::prelude::*;
use crate::bits::bit8;
use crate::bytes::{be, be_value};
use smoltcp::phy::ChecksumCapabilities;
use smoltcp::wire::{
    ArpPacket, ArpRepr, EthernetAddress, EthernetFrame, EthernetProtocol, Icmpv4Packet, Icmpv4Repr,
    IpProtocol, Ipv4Address, Ipv4Packet, Ipv4Repr, TcpPacket, UdpPacket, UdpRepr,
};

verus! {

/// Bytes of an Ethernet header.
pub const ETH_HDR: usize = 14;

/// Bytes of an IPv4 header without options.
pub const IPV4_HDR: usize = 20;

/// Bytes of a UDP header.
pub const UDP_HDR: usize = 8;

/// Bytes of an ICMP echo header.
pub const ECHO_HDR: usize = 8;

/// Ethernet types.
pub const TYPE_IPV4: u16 = 0x0800;

pub const TYPE_ARP: u16 = 0x0806;

/// IP protocol numbers.
pub const PROTO_ICMP: u8 = 1;

pub const PROTO_TCP: u8 = 6;

pub const PROTO_UDP: u8 = 17;

/// ARP operations.
pub const ARP_REQUEST: u16 = 1;

/// An Ethernet frame taken apart.
pub struct Ethernet {
    pub dst: [u8; 6],
    pub src: [u8; 6],
    pub ethertype: u16,
    pub payload: Vec<u8>,
}

/// An IPv4 packet taken apart.
pub struct Ipv4 {
    pub src: [u8; 4],
    pub dst: [u8; 4],
    pub protocol: u8,
    pub payload: Vec<u8>,
}

/// A UDP datagram taken apart.
pub struct Udp {
    pub src_port: u16,
    pub dst_port: u16,
    pub payload: Vec<u8>,
}

/// What the flow table reads of a TCP segment.
pub struct Tcp {
    pub src_port: u16,
    pub dst_port: u16,
    pub syn: bool,
    pub ack: bool,
}

/// What the classifier reads of an ARP packet for IPv4 over Ethernet.
pub struct Arp {
    pub operation: u16,
    pub target: [u8; 4],
}

/// An ICMP echo message.
pub struct Echo {
    pub ident: u16,
    pub seq_no: u16,
    pub data: Vec<u8>,
}

/// A sixteen-bit field in network order.
pub open spec fn field16(s: Seq<u8>, at: int) -> nat {
    be_value(s.subrange(at, at + 2))
}

/// A sixteen-bit number in network order.
pub open spec fn be16(v: u16) -> Seq<u8> {
    be(v as nat, 2)
}

/// The bytes hold an Ethernet header.
pub open spec fn is_ethernet(s: Seq<u8>) -> bool {
    s.len() >= ETH_HDR
}

/// The header length an IPv4 packet claims.
pub open spec fn ipv4_header_len(s: Seq<u8>) -> int {
    4 * (s[0] % 16) as int
}

/// The bytes hold an IPv4 packet of consistent lengths.
pub open spec fn is_ipv4(s: Seq<u8>) -> bool {
    &&& s.len() >= IPV4_HDR
    &&& ipv4_header_len(s) <= s.len()
    &&& ipv4_header_len(s) <= field16(s, 2) <= s.len()
}

/// What an IPv4 packet carries.
pub open spec fn ipv4_payload(s: Seq<u8>) -> Seq<u8> {
    s.subrange(ipv4_header_len(s), field16(s, 2) as int)
}

/// The bytes hold a UDP datagram of consistent lengths.
pub open spec fn is_udp(s: Seq<u8>) -> bool {
    s.len() >= UDP_HDR && UDP_HDR <= field16(s, 4) <= s.len()
}

/// What a UDP datagram carries.
pub open spec fn udp_payload(s: Seq<u8>) -> Seq<u8> {
    s.subrange(UDP_HDR as int, field16(s, 4) as int)
}

/// The bytes hold a TCP segment with a whole header.
pub open spec fn is_tcp(s: Seq<u8>) -> bool {
    s.len() >= 20 && 20 <= 4 * (s[12] / 16) <= s.len()
}

/// The bytes hold an ARP packet for IPv4 over Ethernet.
pub open spec fn is_arp(s: Seq<u8>) -> bool {
    s.len() >= 28 && field16(s, 0) == 1 && field16(s, 2) == TYPE_IPV4 && s[4] == 6 && s[5] == 4
}

/// `smoltcp::wire::EthernetFrame::new_checked` and the frame's accessors.
/// Claimed of them: a frame is one that holds the fourteen bytes of the
/// header, and its parts are the header's fields and the rest.
#[verifier::external_body]
pub(crate) fn parse_ethernet(frame: &[u8]) -> (r: Option<Ethernet>)
    ensures
        r is Some <==> is_ethernet(frame@),
        r matches Some(eth) ==> {
            &&& eth.dst@ == frame@.subrange(0, 6)
            &&& eth.src@ == frame@.subrange(6, 12)
            &&& eth.ethertype == field16(frame@, 12)
            &&& eth.payload@ == frame@.skip(14)
        },
{
    let eth = EthernetFrame::new_checked(frame).ok()?;
    Some(
        Ethernet {
            dst: eth.dst_addr().0,
            src: eth.src_addr().0,
            ethertype: eth.ethertype().into(),
            payload: eth.payload().to_vec(),
        },
    )
}

/// `smoltcp::wire::Ipv4Packet::new_checked` and the packet's accessors.
/// Claimed of them: a packet is one whose header and total lengths fit each
/// other and the bytes, and its parts are the header's fields and what lies
/// between the two lengths. Neither the version nor the checksum is looked
/// at.
#[verifier::external_body]
pub(crate) fn parse_ipv4(packet: &[u8]) -> (r: Option<Ipv4>)
    ensures
        r is Some <==> is_ipv4(packet@),
        r matches Some(ip) ==> {
            &&& ip.src@ == packet@.subrange(12, 16)
            &&& ip.dst@ == packet@.subrange(16, 20)
            &&& ip.protocol == packet@[9]
            &&& ip.payload@ == ipv4_payload(packet@)
        },
{
    let ip = Ipv4Packet::new_checked(packet).ok()?;
    Some(
        Ipv4 {
            src: ip.src_addr().octets(),
            dst: ip.dst_addr().octets(),
            protocol: ip.next_header().into(),
            payload: ip.payload().to_vec(),
        },
    )
}

/// `smoltcp::wire::UdpPacket::new_checked` and the datagram's accessors.
/// Claimed of them: a datagram is one whose length field fits the bytes, and
/// its parts are the header's fields and what follows them up to that
/// length. The checksum is not looked at.
#[verifier::external_body]
pub(crate) fn parse_udp(datagram: &[u8]) -> (r: Option<Udp>)
    ensures
        r is Some <==> is_udp(datagram@),
        r matches Some(udp) ==> {
            &&& udp.src_port == field16(datagram@, 0)
            &&& udp.dst_port == field16(datagram@, 2)
            &&& udp.payload@ == udp_payload(datagram@)
        },
{
    let udp = UdpPacket::new_checked(datagram).ok()?;
    Some(
        Udp {
            src_port: udp.src_port(),
            dst_port: udp.dst_port(),
            payload: udp.payload().to_vec(),
        },
    )
}

/// `smoltcp::wire::TcpPacket::new_checked` and the segment's accessors.
/// Claimed of them: a segment is one whose header length fits the bytes, and
/// its ports and flags are the header's fields.
#[verifier::external_body]
pub(crate) fn parse_tcp(segment: &[u8]) -> (r: Option<Tcp>)
    ensures
        r is Some <==> is_tcp(segment@),
        r matches Some(tcp) ==> {
            &&& tcp.src_port == field16(segment@, 0)
            &&& tcp.dst_port == field16(segment@, 2)
            &&& tcp.syn == bit8(segment@[13], 1)
            &&& tcp.ack == bit8(segment@[13], 4)
        },
{
    let tcp = TcpPacket::new_checked(segment).ok()?;
    Some(
        Tcp {
            src_port: tcp.src_port(),
            dst_port: tcp.dst_port(),
            syn: tcp.syn(),
            ack: tcp.ack(),
        },
    )
}

/// `smoltcp::wire::ArpPacket::new_checked` and `ArpRepr::parse`. Claimed of
/// them: only packets for IPv4 over Ethernet are taken, and their operation
/// and target address are the packet's fields.
#[verifier::external_body]
pub(crate) fn parse_arp(packet: &[u8]) -> (r: Option<Arp>)
    ensures
        r is Some <==> is_arp(packet@),
        r matches Some(arp) ==> {
            &&& arp.operation == field16(packet@, 6)
            &&& arp.target@ == packet@.subrange(24, 28)
        },
{
    let arp = ArpPacket::new_checked(packet).ok()?;
    match ArpRepr::parse(&arp).ok()? {
        ArpRepr::EthernetIpv4 { operation, target_protocol_addr, .. } => Some(
            Arp { operation: operation.into(), target: target_protocol_addr.octets() },
        ),
        _ => None,
    }
}

/// The echo request that `smoltcp` reads out of an ICMP message, if it is one
/// and its checksum holds.
pub uninterp spec fn echo_request(message: Seq<u8>) -> Option<(u16, u16, Seq<u8>)>;

/// `smoltcp::wire::Icmpv4Packet::new_checked` and `Icmpv4Repr::parse`, with
/// checksums verified. Claimed of them: whether a message is an echo request
/// depends on its bytes alone; a request has its type and code, and its parts
/// are the message's fields and the rest. Which checksums hold is not said.
#[verifier::external_body]
pub(crate) fn parse_echo_request(message: &[u8]) -> (r: Option<Echo>)
    ensures
        echo_request(message@) == (match r {
            Some(echo) => Some((echo.ident, echo.seq_no, echo.data@)),
            None => None,
        }),
        r matches Some(echo) ==> {
            &&& message@.len() >= ECHO_HDR
            &&& message@[0] == 8
            &&& message@[1] == 0
            &&& echo.ident == field16(message@, 4)
            &&& echo.seq_no == field16(message@, 6)
            &&& echo.data@ == message@.skip(8)
        },
{
    let icmp = Icmpv4Packet::new_checked(message).ok()?;
    match Icmpv4Repr::parse(&icmp, &ChecksumCapabilities::default()).ok()? {
        Icmpv4Repr::EchoRequest { ident, seq_no, data } => Some(
            Echo { ident, seq_no, data: data.to_vec() },
        ),
        _ => None,
    }
}

/// `smoltcp::wire::EthernetFrame::set_dst_addr`, `set_src_addr` and
/// `set_ethertype`. Claimed of them: together they write the whole header.
#[verifier::external_body]
pub(crate) fn emit_ethernet(dst: [u8; 6], src: [u8; 6], ethertype: u16) -> (r: Vec<u8>)
    ensures
        r@ == dst@ + src@ + be16(ethertype),
{
    let mut buf = vec![0u8; ETH_HDR];
    let mut eth = EthernetFrame::new_unchecked(&mut buf[..]);
    eth.set_src_addr(EthernetAddress(src));
    eth.set_dst_addr(EthernetAddress(dst));
    eth.set_ethertype(EthernetProtocol::from(ethertype));
    buf
}

/// The IPv4 header that `smoltcp` writes.
pub uninterp spec fn ipv4_header(
    src: Seq<u8>,
    dst: Seq<u8>,
    protocol: u8,
    payload_len: nat,
    hop_limit: u8,
) -> Seq<u8>;

/// `smoltcp::wire::Ipv4Repr::emit`, with checksums filled in. Claimed of it:
/// the header depends on the arguments alone; it has no options, is not a
/// fragment and may not become one, and holds the lengths, the protocol and
/// the addresses. The value of the checksum is not said.
#[verifier::external_body]
pub(crate) fn emit_ipv4(
    src: [u8; 4],
    dst: [u8; 4],
    protocol: u8,
    payload_len: usize,
    hop_limit: u8,
) -> (r: Vec<u8>)
    requires
        payload_len <= 65_515,
    ensures
        r@ == ipv4_header(src@, dst@, protocol, payload_len as nat, hop_limit),
        r@.len() == IPV4_HDR,
        r@.subrange(0, 10) == seq![0x45u8, 0] + be((IPV4_HDR + payload_len) as nat, 2) + seq![
            0u8,
            0,
            0x40,
            0,
            hop_limit,
            protocol,
        ],
        r@.subrange(12, 16) == src@,
        r@.subrange(16, 20) == dst@,
{
    let mut buf = vec![0u8; IPV4_HDR];
    let repr = Ipv4Repr {
        src_addr: Ipv4Address::from(src),
        dst_addr: Ipv4Address::from(dst),
        next_header: IpProtocol::from(protocol),
        payload_len,
        hop_limit,
    };
    repr.emit(&mut Ipv4Packet::new_unchecked(&mut buf[..]), &ChecksumCapabilities::default());
    buf
}

/// The UDP datagram that `smoltcp` writes.
pub uninterp spec fn udp_datagram(
    src: Seq<u8>,
    src_port: u16,
    dst: Seq<u8>,
    dst_port: u16,
    payload: Seq<u8>,
) -> Seq<u8>;

/// `smoltcp::wire::UdpRepr::emit`, with checksums filled in. Claimed of it:
/// the datagram depends on the arguments alone, and holds the ports, its
/// length and the payload. The value of the checksum is not said.
#[verifier::external_body]
pub(crate) fn emit_udp(
    src: [u8; 4],
    src_port: u16,
    dst: [u8; 4],
    dst_port: u16,
    payload: &[u8],
) -> (r: Vec<u8>)
    requires
        payload@.len() <= 65_507,
    ensures
        r@ == udp_datagram(src@, src_port, dst@, dst_port, payload@),
        r@.len() == UDP_HDR + payload@.len(),
        r@.subrange(0, 6) == be16(src_port) + be16(dst_port) + be(
            (UDP_HDR + payload@.len()) as nat,
            2,
        ),
        r@.skip(8) == payload@,
{
    let mut buf = vec![0u8; UDP_HDR];
    buf.extend_from_slice(payload);
    UdpRepr { src_port, dst_port }.emit(
        &mut UdpPacket::new_unchecked(&mut buf[..]),
        &Ipv4Address::from(src).into(),
        &Ipv4Address::from(dst).into(),
        payload.len(),
        |_| (),
        &ChecksumCapabilities::default(),
    );
    buf
}

/// The ICMP echo reply that `smoltcp` writes.
pub uninterp spec fn echo_reply(ident: u16, seq_no: u16, data: Seq<u8>) -> Seq<u8>;

/// `smoltcp::wire::Icmpv4Repr::emit` of an echo reply, with its checksum
/// filled in. Claimed of it: the message depends on the arguments alone, and
/// holds type and code zero, the two numbers and the data. The value of the
/// checksum is not said.
#[verifier::external_body]
pub(crate) fn emit_echo_reply(ident: u16, seq_no: u16, data: &[u8]) -> (r: Vec<u8>)
    requires
        data@.len() <= 65_527,
    ensures
        r@ == echo_reply(ident, seq_no, data@),
        r@.len() == ECHO_HDR + data@.len(),
        r@.subrange(0, 2) == seq![0u8, 0],
        r@.subrange(4, 8) == be16(ident) + be16(seq_no),
        r@.skip(8) == data@,
{
    let reply = Icmpv4Repr::EchoReply { ident, seq_no, data };
    let mut buf = vec![0u8; reply.buffer_len()];
    reply.emit(
        &mut Icmpv4Packet::new_unchecked(&mut buf[..]),
        &ChecksumCapabilities::default(),
    );
    buf
}

} // verus!
