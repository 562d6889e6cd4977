//! Whole Ethernet frames for the protocols the gateway answers itself.
use vstd::prelude::*;
use crate::bytes::{be, be_value, lemma_be_reads_back, lemma_byte_range, push_all};
use crate::net::gateway::wire::{
    be16, echo_reply, echo_request, emit_echo_reply, emit_ethernet, emit_ipv4, emit_udp, field16,
    ipv4_header, ipv4_header_len, ipv4_payload, is_ethernet, is_ipv4, is_udp, parse_echo_request,
    parse_ethernet, parse_ipv4, udp_datagram, udp_payload, ECHO_HDR, ETH_HDR, IPV4_HDR, PROTO_ICMP,
    PROTO_UDP, TYPE_IPV4, UDP_HDR,
};

verus! {

/// The guest's address on the virtual segment.
pub const GUEST_IP: [u8; 4] = [10, 0, 2, 15];

/// The virtual gateway and router.
pub const GATEWAY_IP: [u8; 4] = [10, 0, 2, 2];

/// The virtual DNS forwarder.
pub const DNS_IP: [u8; 4] = [10, 0, 2, 3];

/// The segment's directed broadcast.
pub const SEGMENT_BROADCAST: [u8; 4] = [10, 0, 2, 255];

/// The host's own loopback.
pub const LOOPBACK_IP: [u8; 4] = [127, 0, 0, 1];

/// The limited broadcast address.
pub const BROADCAST_IP: [u8; 4] = [255, 255, 255, 255];

/// The Ethernet broadcast address.
pub const BROADCAST_MAC: [u8; 6] = [255, 255, 255, 255, 255, 255];

/// The gateway's MAC: 52:55, then the gateway's address.
pub const GATEWAY_MAC: [u8; 6] = [0x52, 0x55, 0x0A, 0x00, 0x02, 0x02];

/// Prefix length of the virtual segment.
pub const PREFIX_LEN: u8 = 24;

/// The hop limit of what the gateway sends.
pub const HOP_LIMIT: u8 = 64;

/// The largest UDP payload that an IPv4 packet can carry.
pub const MAX_DATAGRAM: usize = 65_507;

/// The longest message that an IPv4 packet with a plain header can carry.
pub const MAX_MESSAGE: usize = 65_515;

/// A frame from the gateway with this payload.
pub open spec fn gateway_frame(dst_mac: Seq<u8>, packet: Seq<u8>) -> Seq<u8> {
    dst_mac + GATEWAY_MAC@ + be16(TYPE_IPV4) + packet
}

/// A frame from the gateway that carries a UDP datagram.
pub open spec fn udp_frame(
    dst_mac: Seq<u8>,
    src_ip: Seq<u8>,
    src_port: u16,
    dst_ip: Seq<u8>,
    dst_port: u16,
    payload: Seq<u8>,
) -> Seq<u8> {
    gateway_frame(
        dst_mac,
        ipv4_header(src_ip, dst_ip, PROTO_UDP, (UDP_HDR + payload.len()) as nat, HOP_LIMIT)
            + udp_datagram(src_ip, src_port, dst_ip, dst_port, payload),
    )
}

/// What a receiver reads out of a frame: from the gateway, to this address,
/// an IPv4 packet of this protocol.
pub open spec fn carries_ipv4(
    frame: Seq<u8>,
    dst_mac: Seq<u8>,
    src_ip: Seq<u8>,
    dst_ip: Seq<u8>,
    protocol: u8,
    payload: Seq<u8>,
) -> bool {
    &&& is_ethernet(frame)
    &&& frame.subrange(0, 6) == dst_mac
    &&& frame.subrange(6, 12) == GATEWAY_MAC@
    &&& field16(frame, 12) == TYPE_IPV4
    &&& is_ipv4(frame.skip(14))
    &&& frame.skip(14)[9] == protocol
    &&& frame.skip(14).subrange(12, 16) == src_ip
    &&& frame.skip(14).subrange(16, 20) == dst_ip
    &&& ipv4_payload(frame.skip(14)) == payload
}

/// What a receiver reads out of a frame with a UDP datagram.
pub open spec fn carries_udp(
    frame: Seq<u8>,
    dst_mac: Seq<u8>,
    src_ip: Seq<u8>,
    src_port: u16,
    dst_ip: Seq<u8>,
    dst_port: u16,
    payload: Seq<u8>,
) -> bool {
    exists|datagram: Seq<u8>|
        {
            &&& #[trigger] carries_ipv4(frame, dst_mac, src_ip, dst_ip, PROTO_UDP, datagram)
            &&& is_udp(datagram)
            &&& field16(datagram, 0) == src_port
            &&& field16(datagram, 2) == dst_port
            &&& udp_payload(datagram) == payload
        }
}

proof fn lemma_be16(v: u16)
    ensures
        be16(v).len() == 2,
        be_value(be16(v)) == v,
{
    lemma_byte_range();
    lemma_be_reads_back(v as nat, 2);
}

proof fn lemma_gateway_frame(
    frame: Seq<u8>,
    dst_mac: Seq<u8>,
    header: Seq<u8>,
    payload: Seq<u8>,
    src_ip: Seq<u8>,
    dst_ip: Seq<u8>,
    protocol: u8,
)
    requires
        dst_mac.len() == 6,
        header.len() == IPV4_HDR,
        payload.len() <= 65_515,
        header.subrange(0, 10) == seq![0x45u8, 0] + be((IPV4_HDR + payload.len()) as nat, 2)
            + seq![0u8, 0, 0x40, 0, HOP_LIMIT, protocol],
        header.subrange(12, 16) == src_ip,
        header.subrange(16, 20) == dst_ip,
        frame == gateway_frame(dst_mac, header + payload),
    ensures
        carries_ipv4(frame, dst_mac, src_ip, dst_ip, protocol, payload),
{
    lemma_be16(TYPE_IPV4);
    lemma_byte_range();
    let total = (IPV4_HDR + payload.len()) as nat;
    lemma_be_reads_back(total, 2);
    let ip = header + payload;
    assert(GATEWAY_MAC@.len() == 6);
    assert(frame.skip(14) =~= ip);
    assert(frame.subrange(0, 6) =~= dst_mac);
    assert(frame.subrange(6, 12) =~= GATEWAY_MAC@);
    assert(frame.subrange(12, 14) =~= be16(TYPE_IPV4));
    let start = seq![0x45u8, 0] + be(total, 2) + seq![0u8, 0, 0x40, 0, HOP_LIMIT, protocol];
    assert(header[0] == header.subrange(0, 10)[0]);
    assert(header[9] == header.subrange(0, 10)[9]);
    assert(start[9] == protocol);
    assert(ip.subrange(2, 4) =~= header.subrange(0, 10).subrange(2, 4));
    assert(start.subrange(2, 4) =~= be(total, 2));
    assert(ipv4_header_len(ip) == 20);
    assert(ip.subrange(12, 16) =~= header.subrange(12, 16));
    assert(ip.subrange(16, 20) =~= header.subrange(16, 20));
    assert(ip.subrange(20, total as int) =~= payload);
}

/// A complete Ethernet, IPv4 and UDP frame carrying `payload`.
pub fn build_udp(
    dst_mac: [u8; 6],
    src_ip: [u8; 4],
    src_port: u16,
    dst_ip: [u8; 4],
    dst_port: u16,
    payload: &[u8],
) -> (r: Vec<u8>)
    requires
        payload@.len() <= MAX_DATAGRAM,
    ensures
        r@ == udp_frame(dst_mac@, src_ip@, src_port, dst_ip@, dst_port, payload@),
        carries_udp(r@, dst_mac@, src_ip@, src_port, dst_ip@, dst_port, payload@),
        r@.len() == ETH_HDR + IPV4_HDR + UDP_HDR + payload@.len(),
{
    let mut buf = emit_ethernet(dst_mac, GATEWAY_MAC, TYPE_IPV4);
    let ip = emit_ipv4(src_ip, dst_ip, PROTO_UDP, UDP_HDR + payload.len(), HOP_LIMIT);
    let udp = emit_udp(src_ip, src_port, dst_ip, dst_port, payload);
    push_all(&mut buf, ip.as_slice());
    push_all(&mut buf, udp.as_slice());
    proof {
        lemma_be16(TYPE_IPV4);
        let frame = gateway_frame(dst_mac@, ip@ + udp@);
        assert(buf@ =~= frame);
        lemma_gateway_frame(frame, dst_mac@, ip@, udp@, src_ip@, dst_ip@, PROTO_UDP);
        lemma_be16(src_port);
        lemma_be16(dst_port);
        lemma_byte_range();
        let length = (UDP_HDR + payload@.len()) as nat;
        lemma_be_reads_back(length, 2);
        let head = be16(src_port) + be16(dst_port) + be(length, 2);
        assert(udp@.subrange(0, 2) =~= udp@.subrange(0, 6).subrange(0, 2));
        assert(udp@.subrange(2, 4) =~= udp@.subrange(0, 6).subrange(2, 4));
        assert(udp@.subrange(4, 6) =~= udp@.subrange(0, 6).subrange(4, 6));
        assert(head.subrange(0, 2) =~= be16(src_port));
        assert(head.subrange(2, 4) =~= be16(dst_port));
        assert(head.subrange(4, 6) =~= be(length, 2));
        assert(udp_payload(udp@) =~= udp@.skip(8));
    }
    buf
}

/// The echo request a frame carries: where from, the two addresses, and the
/// message.
pub open spec fn ping_of(frame: Seq<u8>) -> Option<(u16, u16, Seq<u8>)> {
    if is_ethernet(frame) && is_ipv4(frame.skip(14)) {
        echo_request(ipv4_payload(frame.skip(14)))
    } else {
        None
    }
}

/// A frame that carries more than an answer can: its IPv4 header claims to be
/// shorter than a header is, and the rest of the packet is as long as one can
/// be.
pub open spec fn overlong(frame: Seq<u8>) -> bool {
    is_ethernet(frame) && is_ipv4(frame.skip(14)) && ipv4_payload(frame.skip(14)).len()
        > MAX_MESSAGE
}

/// A frame of ICMP that carries more than an answer can.
pub open spec fn overlong_ping(frame: Seq<u8>) -> bool {
    overlong(frame) && field16(frame, 12) == TYPE_IPV4 && frame.skip(14)[9] == PROTO_ICMP
}

/// Whether a frame is one of ICMP that carries more than an answer can.
pub fn is_overlong_ping(frame: &[u8]) -> (r: bool)
    ensures
        r == overlong_ping(frame@),
{
    let eth = match parse_ethernet(frame) {
        Some(eth) => eth,
        None => {
            return false;
        },
    };
    if eth.ethertype != TYPE_IPV4 {
        return false;
    }
    match parse_ipv4(eth.payload.as_slice()) {
        Some(ip) => ip.protocol == PROTO_ICMP && ip.payload.len() > MAX_MESSAGE,
        None => false,
    }
}

/// The message that answers a frame's echo request.
pub open spec fn answer_to(frame: Seq<u8>) -> Seq<u8> {
    match ping_of(frame) {
        Some((ident, seq_no, data)) => echo_reply(ident, seq_no, data),
        None => Seq::empty(),
    }
}

/// The answer to an echo request: back to its sender, as its target.
pub open spec fn pong(frame: Seq<u8>) -> Seq<u8> {
    let ip = frame.skip(14);
    gateway_frame(
        frame.subrange(6, 12),
        ipv4_header(
            ip.subrange(16, 20),
            ip.subrange(12, 16),
            PROTO_ICMP,
            ipv4_payload(ip).len(),
            HOP_LIMIT,
        ) + answer_to(frame),
    )
}

/// Answer an ICMP echo request, whatever its destination, as the destination
/// itself. The gateway has no way to really ping for the guest: a reply only
/// proves that it is alive.
pub fn icmp_echo_reply(guest_frame: &[u8]) -> (r: Option<Vec<u8>>)
    requires
        !overlong(guest_frame@),
    ensures
        r is Some <==> ping_of(guest_frame@) is Some,
        r matches Some(reply) ==> reply@ == pong(guest_frame@) && carries_ipv4(
            reply@,
            guest_frame@.subrange(6, 12),
            guest_frame@.skip(14).subrange(16, 20),
            guest_frame@.skip(14).subrange(12, 16),
            PROTO_ICMP,
            answer_to(guest_frame@),
        ),
{
    let eth = match parse_ethernet(guest_frame) {
        Some(eth) => eth,
        None => {
            return None;
        },
    };
    let ip = match parse_ipv4(eth.payload.as_slice()) {
        Some(ip) => ip,
        None => {
            return None;
        },
    };
    assert(ip.payload@.len() <= MAX_MESSAGE);
    let echo = match parse_echo_request(ip.payload.as_slice()) {
        Some(echo) => echo,
        None => {
            return None;
        },
    };
    let mut buf = emit_ethernet(eth.src, GATEWAY_MAC, TYPE_IPV4);
    let header = emit_ipv4(ip.dst, ip.src, PROTO_ICMP, ECHO_HDR + echo.data.len(), HOP_LIMIT);
    let reply = emit_echo_reply(echo.ident, echo.seq_no, echo.data.as_slice());
    push_all(&mut buf, header.as_slice());
    push_all(&mut buf, reply.as_slice());
    proof {
        lemma_be16(TYPE_IPV4);
        let frame = gateway_frame(eth.src@, header@ + reply@);
        assert(buf@ =~= frame);
        lemma_gateway_frame(frame, eth.src@, header@, reply@, ip.dst@, ip.src@, PROTO_ICMP);
    }
    Some(buf)
}

/// The host address the gateway dials for a virtual destination: the gateway
/// itself stands in for the host's loopback.
pub open spec fn host_ip(dst: Seq<u8>) -> Seq<u8> {
    if dst == GATEWAY_IP@ {
        LOOPBACK_IP@
    } else {
        dst
    }
}

pub fn map_host_ip(dst: [u8; 4]) -> (r: [u8; 4])
    ensures
        r@ == host_ip(dst@),
{
    if crate::bytes::same_bytes(&dst, &GATEWAY_IP) {
        LOOPBACK_IP
    } else {
        dst
    }
}

} // verus!
