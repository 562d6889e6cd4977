//! What the gateway does with the bytes of a frame, said byte by byte.
use vstd::prelude::*;
use crate::net::gateway::dhcp::{
    is_request, law_the_lease_is_fixed, option_of, reply_body, reply_header, reply_options,
    reply_type, request_of, wants_broadcast,
};
use crate::net::gateway::dns::{
    encoded_name, first_dot, host_byte, host_shaped, joined, lower_bytes, name_at, own_answer,
    query_of, response_to, reverse_name, QueryView,
};
use crate::net::gateway::engine::{
    is_class, learned, padded, staged, staging, Class, Engine, FrameAction,
};
use crate::net::gateway::frames::{
    carries_udp, host_ip, overlong_ping, pong, udp_frame, BROADCAST_IP, BROADCAST_MAC, DNS_IP, GATEWAY_IP,
    GATEWAY_MAC, GUEST_IP, LOOPBACK_IP, SEGMENT_BROADCAST,
};
use crate::net::gateway::tcp::{
    reaped, surviving, Pump, PumpAction, PumpPhase, Seen, SocketState, TcpFlow, TcpNat,
};
use crate::net::gateway::udp::{fresh, DatagramAction, FlowKey, UdpFlow};
use crate::net::gateway::wire::{
    echo_reply, echo_request, field16, ipv4_header, ipv4_header_len, ipv4_payload, is_arp, is_ipv4, is_udp, udp_payload,
};
use crate::text::ascii_bytes;

verus! {

/// A number of two bytes of a frame, the high one first.
pub open spec fn number(frame: Seq<u8>, at: int) -> int {
    frame[at] * 256 + frame[at + 1]
}

proof fn lemma_field16(s: Seq<u8>, at: int)
    requires
        0 <= at,
        at + 2 <= s.len(),
    ensures
        field16(s, at) == number(s, at),
{
    crate::bytes::law_two_bytes(s.subrange(at, at + 2), 0);
}

/// An ARP request is handed to the stack exactly when it asks for 10.0.2.2 or
/// 10.0.2.3; any other ARP for IPv4 over Ethernet is handed to it whatever it
/// asks for, and what is no such ARP is dropped. The engine stays as it is.
pub proof fn law_arp_is_answered_for_the_gateway_alone(
    frame: Seq<u8>,
    class: Class,
    engine: Engine,
    now: u64,
    after: Engine,
    action: FrameAction,
)
    requires
        frame.len() >= 42,
        frame[12] == 0x08 && frame[13] == 0x06,
        is_class(frame, class),
        engine.handles(frame, class, now, after, action),
    ensures
        after == engine,
        action is Stack || action is Nothing,
        frame.subrange(14, 20) == seq![0u8, 1, 8, 0, 6, 4] && frame.subrange(20, 22) == seq![0u8, 1]
            ==> (action is Stack <==> frame.subrange(38, 42) == seq![10u8, 0, 2, 2]
            || frame.subrange(38, 42) == seq![10u8, 0, 2, 3]),
        frame.subrange(14, 20) == seq![0u8, 1, 8, 0, 6, 4] && frame.subrange(20, 22) != seq![0u8, 1]
            ==> action is Stack,
        frame.subrange(14, 20) != seq![0u8, 1, 8, 0, 6, 4] ==> action is Nothing,
{
    let arp = frame.skip(14);
    lemma_field16(frame, 12);
    lemma_field16(arp, 0);
    lemma_field16(arp, 2);
    lemma_field16(arp, 6);
    assert(arp.subrange(24, 28) =~= frame.subrange(38, 42));
    assert(GATEWAY_IP@ =~= seq![10u8, 0, 2, 2]);
    assert(DNS_IP@ =~= seq![10u8, 0, 2, 3]);
    let head = frame.subrange(14, 20);
    assert(head[0] == arp[0] && head[1] == arp[1] && head[2] == arp[2] && head[3] == arp[3]
        && head[4] == arp[4] && head[5] == arp[5]);
    let op = frame.subrange(20, 22);
    assert(op[0] == arp[6] && op[1] == arp[7]);
    if is_arp(arp) {
        assert(head =~= seq![0u8, 1, 8, 0, 6, 4]);
    }
    if field16(arp, 6) == 1 {
        assert(op =~= seq![0u8, 1]);
    }
}

/// The guest can resolve whatever its lease names: an ARP request for the
/// router or the DNS server of any lease is handed to the stack.
pub proof fn law_leased_servers_answer_arp(
    p: Seq<u8>,
    code: u8,
    server: Seq<u8>,
    frame: Seq<u8>,
    class: Class,
    engine: Engine,
    now: u64,
    after: Engine,
    action: FrameAction,
)
    requires
        is_request(p),
        reply_type(p) is Some,
        code == 3 || code == 6,
        option_of(reply_body(p).skip(240), code) == Some(server),
        frame.len() >= 42,
        frame.subrange(12, 22) == seq![8u8, 6, 0, 1, 8, 0, 6, 4, 0, 1],
        frame.subrange(38, 42) == server,
        is_class(frame, class),
        engine.handles(frame, class, now, after, action),
    ensures
        action is Stack,
{
    law_the_lease_is_fixed(p);
    let head = frame.subrange(12, 22);
    assert(frame[12] == head[0] && frame[13] == head[1]);
    assert(frame.subrange(14, 20) =~= head.subrange(2, 8));
    assert(head.subrange(2, 8) =~= seq![0u8, 1, 8, 0, 6, 4]);
    assert(frame.subrange(20, 22) =~= head.subrange(8, 10));
    assert(head.subrange(8, 10) =~= seq![0u8, 1]);
    assert(GATEWAY_IP@ =~= seq![10u8, 0, 2, 2]);
    assert(DNS_IP@ =~= seq![10u8, 0, 2, 3]);
    law_arp_is_answered_for_the_gateway_alone(frame, class, engine, now, after, action);
}

/// Frames that are too short for a header, and frames that carry neither ARP
/// nor IPv4, are dropped.
pub proof fn law_foreign_frames_are_dropped(
    frame: Seq<u8>,
    class: Class,
    engine: Engine,
    now: u64,
    after: Engine,
    action: FrameAction,
)
    requires
        frame.len() < 14 || frame[12] != 0x08 || (frame[13] != 0x06 && frame[13] != 0x00),
        is_class(frame, class),
        engine.handles(frame, class, now, after, action),
    ensures
        action is Nothing,
        after == engine,
{
    if frame.len() >= 14 {
        lemma_field16(frame, 12);
    }
}

/// Where the body of a frame's IPv4 packet starts.
pub open spec fn body_start(frame: Seq<u8>) -> int {
    14 + 4 * (frame[14] % 16)
}

/// Where the frame's IPv4 packet ends.
pub open spec fn body_end(frame: Seq<u8>) -> int {
    14 + number(frame, 16)
}

/// The frame holds an IPv4 packet whose lengths fit.
pub open spec fn holds_ipv4(frame: Seq<u8>) -> bool {
    &&& frame.len() >= 34
    &&& frame[12] == 0x08 && frame[13] == 0x00
    &&& body_start(frame) <= body_end(frame) <= frame.len()
}

proof fn lemma_ipv4(frame: Seq<u8>)
    requires
        frame.len() >= 34,
    ensures
        field16(frame, 12) == number(frame, 12),
        ipv4_header_len(frame.skip(14)) == 4 * (frame[14] % 16),
        field16(frame.skip(14), 2) == number(frame, 16),
        is_ipv4(frame.skip(14)) <==> body_start(frame) <= body_end(frame) <= frame.len(),
        frame.skip(14)[9] == frame[23],
        frame.skip(14).subrange(16, 20) == frame.subrange(30, 34),
        is_ipv4(frame.skip(14)) ==> ipv4_payload(frame.skip(14)) == frame.subrange(
            body_start(frame),
            body_end(frame),
        ),
{
    let ip = frame.skip(14);
    lemma_field16(frame, 12);
    lemma_field16(ip, 2);
    assert(ip.subrange(16, 20) =~= frame.subrange(30, 34));
    if is_ipv4(ip) {
        assert(ipv4_payload(ip) =~= frame.subrange(body_start(frame), body_end(frame)));
    }
}

/// An IPv4 packet goes by its protocol: UDP by its port, ICMP to the
/// answering of pings, TCP to the flows, and all else is dropped, as is a
/// packet whose lengths do not fit.
pub proof fn law_packets_go_by_their_protocol(frame: Seq<u8>, class: Class)
    requires
        frame.len() >= 34,
        frame[12] == 0x08 && frame[13] == 0x00,
        is_class(frame, class),
    ensures
        !holds_ipv4(frame) ==> class is Other,
        holds_ipv4(frame) && frame[23] == 1 ==> class is Ping,
        holds_ipv4(frame) && frame[23] == 17 ==> class is Dhcp || class is Dns || class is Udp
            || class is Other,
        holds_ipv4(frame) && frame[23] == 6 ==> class is Tcp || class is BadTcp,
        holds_ipv4(frame) && frame[23] != 1 && frame[23] != 6 && frame[23] != 17 ==> class is Other,
{
    lemma_ipv4(frame);
}

/// A UDP datagram to port 67 is a lease request, wherever it goes; one to
/// port 53 of 10.0.2.3 is a DNS query, and any other belongs to the flow
/// between its ports and its destination. What is handed on is what lies
/// between its header and the end that its length says.
pub proof fn law_datagrams_go_by_their_port(frame: Seq<u8>, class: Class)
    requires
        holds_ipv4(frame),
        frame[23] == 17,
        body_end(frame) - body_start(frame) >= 8,
        is_class(frame, class),
    ensures
        ({
            let at = body_start(frame);
            let len = number(frame, at + 4);
            let to = number(frame, at + 2);
            let data = frame.subrange(at + 8, at + len);
            if !(8 <= len <= body_end(frame) - at) {
                class is Other
            } else if to == 67 {
                class is Dhcp
            } else if to == 53 && frame.subrange(30, 34) == seq![10u8, 0, 2, 3] {
                class matches Class::Dns { port, payload } && port == number(frame, at)
                    && payload@ == data
            } else {
                class matches Class::Udp { key, payload } && key.guest_port == number(frame, at)
                    && key.remote_ip@ == frame.subrange(30, 34) && key.remote_port == to
                    && payload@ == data
            }
        }),
{
    lemma_ipv4(frame);
    let at = body_start(frame);
    let body = frame.subrange(at, body_end(frame));
    lemma_field16(body, 0);
    lemma_field16(body, 2);
    lemma_field16(body, 4);
    assert(DNS_IP@ =~= seq![10u8, 0, 2, 3]);
    if is_udp(body) {
        assert(udp_payload(body) =~= frame.subrange(at + 8, at + number(frame, at + 4)));
    }
}

/// A TCP segment belongs to the flow between its ports and its destination;
/// its flags are bits one and four of the fourteenth byte. One without a whole
/// header is for the stack to refuse.
pub proof fn law_segments_name_their_flow(frame: Seq<u8>, class: Class)
    requires
        holds_ipv4(frame),
        frame[23] == 6,
        body_end(frame) - body_start(frame) >= 20,
        is_class(frame, class),
    ensures
        ({
            let at = body_start(frame);
            let header = 4 * (frame[at + 12] / 16);
            if 20 <= header <= body_end(frame) - at {
                class matches Class::Tcp { key, syn, ack } && key.guest_port == number(frame, at)
                    && key.remote_ip@ == frame.subrange(30, 34) && key.remote_port == number(
                    frame,
                    at + 2,
                ) && syn == (frame[at + 13] / 2 % 2 == 1) && ack == (frame[at + 13] / 16 % 2 == 1)
            } else {
                class is BadTcp
            }
        }),
{
    lemma_ipv4(frame);
    let at = body_start(frame);
    let body = frame.subrange(at, body_end(frame));
    lemma_field16(body, 0);
    lemma_field16(body, 2);
    crate::bits::law_bits_of_a_byte(body[13]);
    assert(body[12] == frame[at + 12] && body[13] == frame[at + 13]);
}

/// A first segment opens a flow where its ends have none and fewer than 128
/// are open; every other segment is for the stack.
pub proof fn law_only_first_segments_open_flows(
    frame: Seq<u8>,
    key: FlowKey,
    syn: bool,
    ack: bool,
    engine: Engine,
    now: u64,
    after: Engine,
    action: FrameAction,
)
    requires
        engine.handles(frame, (Class::Tcp { key, syn, ack }), now, after, action),
    ensures
        after == engine,
        action is Stack || action is Open,
        action is Open <==> {
            &&& syn && !ack
            &&& engine.tcp.flows@.len() < 128
            &&& forall|i: int|
                #![trigger engine.tcp.flows@[i]]
                0 <= i < engine.tcp.flows@.len() ==> {
                    ||| engine.tcp.flows@[i].key.guest_port != key.guest_port
                    ||| engine.tcp.flows@[i].key.remote_ip@ != key.remote_ip@
                    ||| engine.tcp.flows@[i].key.remote_port != key.remote_port
                }
        },
        action matches FrameAction::Open { key: to } ==> to == key,
{
}

/// A datagram is lost where it goes to everybody: to 255.255.255.255, to
/// 224.0.0.0 up to 239.255.255.255, or to 10.0.2.255. Any other goes out on
/// the flow between its ends, which is then used at this moment. Where there
/// is none, flows of a minute's silence end, and a socket is opened while
/// fewer than 64 are left.
pub proof fn law_datagrams_leave_on_their_flow(
    frame: Seq<u8>,
    key: FlowKey,
    payload: Vec<u8>,
    engine: Engine,
    now: u64,
    after: Engine,
    action: FrameAction,
)
    requires
        engine.wf(),
        engine.handles(frame, (Class::Udp { key, payload }), now, after, action),
    ensures
        action matches FrameAction::Datagram { action: todo, key: to, payload: body } && {
            let dst = key.remote_ip@;
            let flows = engine.udp.flows@;
            let everybody = dst == seq![255u8, 255, 255, 255] || 224 <= dst[0] <= 239 || dst
                == seq![10u8, 0, 2, 255];
            let mine = |f: UdpFlow|
                f.key.guest_port == key.guest_port && f.key.remote_ip@ == dst && f.key.remote_port
                    == key.remote_port;
            &&& to == key && body@ == payload@
            &&& everybody ==> todo == DatagramAction::Lose && after == engine
            &&& forall|i: int|
                #![trigger flows[i]]
                !everybody && 0 <= i < flows.len() && mine(flows[i]) ==> {
                    &&& todo == DatagramAction::Send { id: flows[i].id }
                    &&& after.udp.flows@.len() == flows.len()
                    &&& after.udp.flows@[i] == UdpFlow { last_used: now, ..flows[i] }
                    &&& forall|j: int|
                        0 <= j < flows.len() && j != i ==> after.udp.flows@[j] == #[trigger] flows[j]
                }
            &&& !everybody && (forall|i: int|
                #![trigger flows[i]]
                0 <= i < flows.len() ==> !mine(flows[i])) ==> {
                &&& after.udp.flows@ == fresh(flows, now)
                &&& after.udp.flows@.len() < 64 ==> todo == DatagramAction::Open
                &&& after.udp.flows@.len() >= 64 ==> todo == DatagramAction::Lose
            }
        },
{
    assert(BROADCAST_IP@ =~= seq![255u8, 255, 255, 255]);
    assert(SEGMENT_BROADCAST@ =~= seq![10u8, 0, 2, 255]);
    let flows = engine.udp.flows@;
    let at = engine.udp.flow_index(key);
    assert forall|i: int| #![trigger flows[i]] 0 <= i < flows.len() && flows[i].key.guest_port
        == key.guest_port && flows[i].key.remote_ip@ == key.remote_ip@ && flows[i].key.remote_port
        == key.remote_port implies at == i by {
        assert(crate::net::gateway::udp::same_ends(flows[i].key, key));
        assert(0 <= at < flows.len() && crate::net::gateway::udp::same_ends(flows[at].key, key));
        if at < i {
            assert(!crate::net::gateway::udp::same_ends(flows[at].key, flows[i].key));
        }
        if i < at {
            assert(!crate::net::gateway::udp::same_ends(flows[i].key, flows[at].key));
        }
    }
}

/// A flow ends once it has been silent for a minute, and not before; the
/// others stay in their order.
pub proof fn law_silent_flows_end(flows: Seq<UdpFlow>, now: u64, f: UdpFlow)
    ensures
        fresh(flows, now).contains(f) <==> flows.contains(f) && now - f.last_used < 60_000,
        fresh(flows.push(f), now) == (if now - f.last_used < 60_000 {
            fresh(flows, now).push(f)
        } else {
            fresh(flows, now)
        }),
    decreases flows.len(),
{
    assert(flows.push(f).drop_last() =~= flows);
    if flows.len() > 0 {
        let early = flows.drop_last();
        law_silent_flows_end(early, now, f);
        let rest = fresh(early, now);
        let kept = fresh(flows, now);
        let last = flows.last();
        if flows.contains(f) && f != last {
            let i = choose|i: int| 0 <= i < flows.len() && flows[i] == f;
            assert(early[i] == f);
        }
        if early.contains(f) {
            let i = choose|i: int| 0 <= i < early.len() && early[i] == f;
            assert(flows[i] == f);
        }
        if f == last {
            assert(flows[flows.len() - 1] == f);
        }
        if now - last.last_used < 60_000 {
            assert(kept =~= rest.push(last));
            assert(kept[kept.len() - 1] == last);
            if rest.contains(f) {
                let i = choose|i: int| 0 <= i < rest.len() && rest[i] == f;
                assert(kept[i] == f);
            }
            if kept.contains(f) && f != last {
                let i = choose|i: int| 0 <= i < kept.len() && kept[i] == f;
                assert(rest[i] == f);
            }
        }
    }
}

/// A connection's flow is dropped once its socket has closed, or where the
/// handshake has taken more than half a minute, and not before.
pub proof fn law_finished_flows_are_dropped(flow: TcpFlow, state: SocketState, now: u64)
    ensures
        reaped(flow, state, now) <==> match state {
            SocketState::Closed => true,
            SocketState::Handshaking => now > flow.opened + 30_000,
            SocketState::Open => false,
        },
{
}

/// The flows that go on are those that are not dropped, in their order.
pub proof fn law_other_flows_go_on(
    flows: Seq<TcpFlow>,
    states: Seq<SocketState>,
    now: u64,
    f: TcpFlow,
)
    requires
        states.len() > flows.len(),
    ensures
        surviving(flows.push(f), states, now) == (if reaped(f, states[flows.len() as int], now) {
            surviving(flows, states, now)
        } else {
            surviving(flows, states, now).push(f)
        }),
        surviving(Seq::empty(), states, now) == Seq::<TcpFlow>::empty(),
{
    assert(flows.push(f).drop_last() =~= flows);
}

/// A pass over a flow moves what can be moved: waiting guest bytes go to the
/// host, the guest's end of stream follows once all of them have gone, and
/// the host is read, four kilobytes at most, while the guest has room. A pass
/// rests only where nothing of this is left to do.
pub proof fn law_a_pass_moves_what_it_can(pump: Pump, seen: Seen)
    requires
        !pump.broken,
        pump.phase != PumpPhase::Done,
    ensures
        pump.phase == PumpPhase::ToHost && seen.can_recv ==> pump.decides(seen).0
            == PumpAction::WriteToHost,
        pump.phase != PumpPhase::ToGuest && !seen.can_recv && !seen.may_recv && pump.established
            && !pump.wrote_shutdown ==> pump.decides(seen).0 == PumpAction::ShutdownHost,
        pump.decides(seen).0 == PumpAction::ShutdownHost ==> !seen.can_recv && !seen.may_recv
            && pump.established && !pump.wrote_shutdown,
        pump.decides(seen).0 == PumpAction::WriteToHost ==> seen.can_recv,
        pump.decides(seen).0 matches PumpAction::ReadFromHost { want } ==> seen.can_send
            && !pump.read_eof && want > 0 && want <= seen.room && want <= 4096 && (want == seen.room
            || want == 4096),
        pump.phase == PumpPhase::ToGuest && !pump.read_eof && seen.can_send && seen.room > 0
            ==> pump.decides(seen).0 is ReadFromHost,
        pump.decides(seen).0 == PumpAction::Rest ==> pump.read_eof || !seen.can_send || seen.room
            == 0,
        !(pump.decides(seen).0 is CloseGuest) && !(pump.decides(seen).0 is AbortGuest),
{
}

/// The guest's address is that of the last frame it sent as a single station.
pub proof fn law_the_guest_is_learned(before: Seq<u8>, frame: Seq<u8>)
    ensures
        frame.len() >= 14 && frame[6] % 2 == 0 ==> learned(before, frame) == frame.subrange(6, 12),
        frame.len() < 14 || frame[6] % 2 == 1 ==> learned(before, frame) == before,
{
}

/// A frame for the guest has sixty bytes at least: a shorter one is followed
/// by zeros, and no other is changed. At most 1024 wait, and the oldest is
/// given up for the newest.
pub proof fn law_staged_frames_are_whole(queue: Seq<Seq<u8>>, frame: Seq<u8>, i: int)
    ensures
        padded(frame).len() == (if frame.len() < 60 { 60 } else { frame.len() }),
        0 <= i < frame.len() ==> padded(frame)[i] == frame[i],
        frame.len() <= i < padded(frame).len() ==> padded(frame)[i] == 0,
        staging(queue, frame).last() == padded(frame),
        queue.len() < 1024 ==> staging(queue, frame).drop_last() == queue,
        queue.len() >= 1024 ==> staging(queue, frame).drop_last() == queue.drop_first(),
{
    let after = staging(queue, frame);
    if queue.len() < 1024 {
        assert(after.drop_last() =~= queue);
    } else {
        assert(after.drop_last() =~= queue.drop_first());
    }
}

/// The gateway's own address stands for the host's loopback, and every other
/// for itself.
pub proof fn law_the_gateway_is_the_host(dst: Seq<u8>)
    ensures
        host_ip(dst) == (if dst == seq![10u8, 0, 2, 2] {
            seq![127u8, 0, 0, 1]
        } else {
            dst
        }),
{
    assert(GATEWAY_IP@ =~= seq![10u8, 0, 2, 2]);
    assert(LOOPBACK_IP@ =~= seq![127u8, 0, 0, 1]);
}

/// A datagram's frame reads as it was meant: from the gateway's Ethernet
/// address to this one, an IPv4 packet without options between the two
/// addresses, and in it a datagram between the two ports with this payload to
/// its end.
pub proof fn law_datagram_frames_read_as_they_were_meant(
    frame: Seq<u8>,
    dst_mac: Seq<u8>,
    src_ip: Seq<u8>,
    src_port: u16,
    dst_ip: Seq<u8>,
    dst_port: u16,
    payload: Seq<u8>,
)
    requires
        carries_udp(frame, dst_mac, src_ip, src_port, dst_ip, dst_port, payload),
    ensures
        frame.subrange(0, 6) == dst_mac,
        frame.subrange(6, 12) == seq![0x52u8, 0x55, 10, 0, 2, 2],
        holds_ipv4(frame),
        frame[23] == 17,
        frame.subrange(26, 30) == src_ip,
        frame.subrange(30, 34) == dst_ip,
        number(frame, body_start(frame)) == src_port,
        number(frame, body_start(frame) + 2) == dst_port,
        body_start(frame) + number(frame, body_start(frame) + 4) <= body_end(frame),
        frame.subrange(
            body_start(frame) + 8,
            body_start(frame) + number(frame, body_start(frame) + 4),
        ) == payload,
{
    let datagram = choose|datagram: Seq<u8>|
        {
            &&& #[trigger] crate::net::gateway::frames::carries_ipv4(
                frame,
                dst_mac,
                src_ip,
                dst_ip,
                crate::net::gateway::wire::PROTO_UDP,
                datagram,
            )
            &&& is_udp(datagram)
            &&& field16(datagram, 0) == src_port
            &&& field16(datagram, 2) == dst_port
            &&& udp_payload(datagram) == payload
        };
    lemma_ipv4(frame);
    let at = body_start(frame);
    assert(datagram == frame.subrange(at, body_end(frame)));
    lemma_field16(datagram, 0);
    lemma_field16(datagram, 2);
    lemma_field16(datagram, 4);
    assert(GATEWAY_MAC@ =~= seq![0x52u8, 0x55, 10, 0, 2, 2]);
    assert(frame.skip(14).subrange(12, 16) =~= frame.subrange(26, 30));
    assert(udp_payload(datagram) =~= frame.subrange(at + 8, at + number(frame, at + 4)));
}

/// The options of a message are taken one behind the other: zeros are passed
/// over, the first option with the code is the one, and the end mark or an
/// option that runs past the end ends the search.
pub proof fn law_options_are_taken_in_turn(
    code: u8,
    other: u8,
    value: Seq<u8>,
    rest: Seq<u8>,
    search: u8,
)
    requires
        code != 0 && code != 255,
        value.len() < 256,
        search != 0 && search != 255,
    ensures
        option_of(seq![0u8] + rest, search) == option_of(rest, search),
        option_of(seq![255u8] + rest, search) is None,
        option_of(Seq::empty(), search) is None,
        option_of(seq![code, value.len() as u8] + value + rest, search) == (if code == search {
            Some(value)
        } else {
            option_of(rest, search)
        }),
        value.len() > 0 ==> option_of(
            seq![code, value.len() as u8] + value.drop_last(),
            search,
        ) is None,
        option_of(seq![code], search) is None,
{
    assert((seq![0u8] + rest).skip(1) =~= rest);
    let opts = seq![code, value.len() as u8] + value + rest;
    assert(opts[0] == code && opts[1] == value.len());
    assert(opts.subrange(2, 2 + opts[1]) =~= value);
    assert(opts.skip(2 + opts[1]) =~= rest);
    if value.len() > 0 {
        let cut = seq![code, value.len() as u8] + value.drop_last();
        assert(cut[0] == code && cut[1] == value.len());
    }
}

/// A discovery is answered with an offer, a request and an inquiry with an
/// acknowledgement, a message without a kind with a plain reply, and no other
/// at all. The kind is the first byte of option 53, behind the magic number.
pub proof fn law_leases_are_answered_in_kind(p: Seq<u8>, kind: Seq<u8>)
    requires
        p.len() > 240,
        kind.len() > 0,
        p.subrange(236, 240) == seq![0x63u8, 0x82, 0x53, 0x63],
        option_of(p.skip(240), 53) == Some(kind),
    ensures
        kind[0] == 1 ==> reply_type(p) == Some(Some(2u8)),
        kind[0] == 3 || kind[0] == 8 ==> reply_type(p) == Some(Some(5u8)),
        kind[0] != 1 && kind[0] != 3 && kind[0] != 8 ==> reply_type(p) is None,
{
    assert(crate::net::gateway::dhcp::OPTION_MAGIC@ =~= seq![0x63u8, 0x82, 0x53, 0x63]);
}

/// A message without the magic number, or without a kind behind it, is plain
/// BOOTP.
pub proof fn law_plain_requests_are_answered_plainly(p: Seq<u8>)
    requires
        p.len() <= 240 || p.subrange(236, 240) != seq![0x63u8, 0x82, 0x53, 0x63] || option_of(
            p.skip(240),
            53,
        ) is None,
    ensures
        reply_type(p) == Some(None::<u8>),
{
    assert(crate::net::gateway::dhcp::OPTION_MAGIC@ =~= seq![0x63u8, 0x82, 0x53, 0x63]);
}

/// The fixed part of a lease: a reply for Ethernet to the asked transaction,
/// with its flags, the guest's address 10.0.2.15, the server's 10.0.2.2, and
/// the asker's hardware address; everything else is zero. Behind it stands
/// the magic number.
pub proof fn law_leases_echo_their_request(p: Seq<u8>)
    requires
        is_request(p),
        reply_type(p) is Some,
    ensures
        reply_body(p).subrange(0, 4) == seq![2u8, 1, 6, 0],
        reply_body(p).subrange(4, 8) == p.subrange(4, 8),
        reply_body(p).subrange(8, 10) == seq![0u8, 0],
        reply_body(p).subrange(10, 12) == p.subrange(10, 12),
        reply_body(p).subrange(12, 16) == seq![0u8, 0, 0, 0],
        reply_body(p).subrange(16, 20) == seq![10u8, 0, 2, 15],
        reply_body(p).subrange(20, 24) == seq![10u8, 0, 2, 2],
        reply_body(p).subrange(24, 28) == seq![0u8, 0, 0, 0],
        reply_body(p).subrange(28, 34) == p.subrange(28, 34),
        forall|i: int| 34 <= i < 236 ==> #[trigger] reply_body(p)[i] == 0,
        reply_body(p).subrange(236, 240) == seq![0x63u8, 0x82, 0x53, 0x63],
{
    let b = reply_body(p);
    assert(GUEST_IP@ =~= seq![10u8, 0, 2, 15]);
    assert(GATEWAY_IP@ =~= seq![10u8, 0, 2, 2]);
    assert(crate::net::gateway::dhcp::OPTION_MAGIC@ =~= seq![0x63u8, 0x82, 0x53, 0x63]);
    assert(reply_header(p).len() == 236);
    assert(b.subrange(0, 4) =~= seq![2u8, 1, 6, 0]);
    assert(b.subrange(4, 8) =~= p.subrange(4, 8));
    assert(b.subrange(8, 10) =~= seq![0u8, 0]);
    assert(b.subrange(10, 12) =~= p.subrange(10, 12));
    assert(b.subrange(12, 16) =~= seq![0u8, 0, 0, 0]);
    assert(b.subrange(16, 20) =~= seq![10u8, 0, 2, 15]);
    assert(b.subrange(20, 24) =~= seq![10u8, 0, 2, 2]);
    assert(b.subrange(24, 28) =~= seq![0u8, 0, 0, 0]);
    assert(b.subrange(28, 34) =~= p.subrange(28, 34));
    assert(b.subrange(236, 240) =~= seq![0x63u8, 0x82, 0x53, 0x63]);
}

/// What a lease says in its options: its kind first and then, for a kind, the
/// server and a day's time; the mask, the router and the DNS server of the
/// segment; and nothing behind.
pub proof fn law_leases_say_their_options(p: Seq<u8>)
    requires
        is_request(p),
        reply_type(p) is Some,
    ensures
        reply_type(p)->0 is None ==> reply_body(p).skip(240) == seq![
            1u8, 4, 255, 255, 255, 0, 3, 4, 10, 0, 2, 2, 6, 4, 10, 0, 2, 3, 255,
        ],
        reply_type(p)->0 matches Some(t) ==> reply_body(p).skip(240) == seq![
            53u8, 1, t, 54, 4, 10, 0, 2, 2, 51, 4, 0, 1, 0x51, 0x80, 1, 4, 255, 255, 255, 0, 3, 4, 10, 0,
            2, 2, 6, 4, 10, 0, 2, 3, 255,
        ],
{
    assert(GATEWAY_IP@ =~= seq![10u8, 0, 2, 2]);
    assert(DNS_IP@ =~= seq![10u8, 0, 2, 3]);
    assert(reply_header(p).len() == 236);
    assert(reply_body(p).skip(240) =~= reply_options(reply_type(p)->0));
}

/// A request is one for an Ethernet host, of 236 bytes at least, in a frame
/// whose lengths fit; the highest bit of its flags asks for a broadcast.
pub proof fn law_requests_are_recognised(frame: Seq<u8>)
    requires
        holds_ipv4(frame),
        body_end(frame) - body_start(frame) >= 8,
    ensures
        ({
            let at = body_start(frame);
            let len = number(frame, at + 4);
            let p = frame.subrange(at + 8, at + len);
            let asks = 8 + 236 <= len <= body_end(frame) - at && p[0] == 1 && p[1] == 1 && p[2] == 6;
            &&& request_of(frame) is Some <==> asks && reply_type(p) is Some
            &&& request_of(frame) is Some ==> request_of(frame)->0 == p
            &&& wants_broadcast(p) <==> p[10] >= 0x80
        }),
{
    lemma_ipv4(frame);
    let at = body_start(frame);
    let body = frame.subrange(at, body_end(frame));
    lemma_field16(body, 4);
    if is_udp(body) {
        assert(udp_payload(body) =~= frame.subrange(at + 8, at + number(frame, at + 4)));
    }
}

/// A lease goes from port 67 of 10.0.2.2 to port 68: to everybody where the
/// request asks for a broadcast, else to the asker's hardware address and the
/// address it is offered. One frame is staged, and nothing else changes.
pub proof fn law_leases_go_back(
    frame: Seq<u8>,
    p: Seq<u8>,
    engine: Engine,
    now: u64,
    after: Engine,
    action: FrameAction,
)
    requires
        request_of(frame) == Some(p),
        engine.handles(frame, Class::Dhcp, now, after, action),
    ensures
        action is Nothing,
        p[10] >= 0x80 ==> staged(after.out@) == staging(
            staged(engine.out@),
            udp_frame(
                seq![255u8, 255, 255, 255, 255, 255],
                seq![10u8, 0, 2, 2],
                67,
                seq![255u8, 255, 255, 255],
                68,
                reply_body(p),
            ),
        ),
        p[10] < 0x80 ==> staged(after.out@) == staging(
            staged(engine.out@),
            udp_frame(
                p.subrange(28, 34),
                seq![10u8, 0, 2, 2],
                67,
                seq![10u8, 0, 2, 15],
                68,
                reply_body(p),
            ),
        ),
        after == (Engine { out: after.out, ..engine }),
{
    assert(BROADCAST_MAC@ =~= seq![255u8, 255, 255, 255, 255, 255]);
    assert(BROADCAST_IP@ =~= seq![255u8, 255, 255, 255]);
    assert(GATEWAY_IP@ =~= seq![10u8, 0, 2, 2]);
    assert(GUEST_IP@ =~= seq![10u8, 0, 2, 15]);
}

/// A ping is answered as its target, to its sender: the addresses of the
/// answer are those of the request, exchanged.
pub proof fn law_pings_are_answered_as_their_target(
    frame: Seq<u8>,
    engine: Engine,
    now: u64,
    after: Engine,
    action: FrameAction,
)
    requires
        holds_ipv4(frame),
        engine.handles(frame, Class::Ping, now, after, action),
    ensures
        action is Nothing,
        echo_request(frame.subrange(body_start(frame), body_end(frame))) is None ==> after == engine,
        echo_request(frame.subrange(body_start(frame), body_end(frame))) matches Some(echo)
            ==> staged(after.out@) == staging(
            staged(engine.out@),
            frame.subrange(6, 12) + seq![0x52u8, 0x55, 10, 0, 2, 2, 8, 0] + ipv4_header(
                frame.subrange(30, 34),
                frame.subrange(26, 30),
                1,
                (body_end(frame) - body_start(frame)) as nat,
                64,
            ) + echo_reply(echo.0, echo.1, echo.2),
        ),
{
    lemma_ipv4(frame);
    let body = frame.subrange(body_start(frame), body_end(frame));
    assert(frame.skip(14).subrange(12, 16) =~= frame.subrange(26, 30));
    if let Some(echo) = echo_request(body) {
        crate::bytes::law_two_bytes(seq![0u8, 0], 0x800);
        assert(GATEWAY_MAC@ =~= seq![0x52u8, 0x55, 10, 0, 2, 2]);
        let head = ipv4_header(
            frame.subrange(30, 34),
            frame.subrange(26, 30),
            1,
            (body_end(frame) - body_start(frame)) as nat,
            64,
        );
        assert(pong(frame) =~= frame.subrange(6, 12) + seq![0x52u8, 0x55, 10, 0, 2, 2, 8, 0] + head
            + echo_reply(echo.0, echo.1, echo.2));
    }
}

/// DNS answers come from port 53 of 10.0.2.3, each to the port that asked,
/// in the order in which they were ready.
pub proof fn law_dns_answers_come_from_the_forwarder(
    queue: Seq<Seq<u8>>,
    mac: Seq<u8>,
    results: Seq<(u16, Vec<u8>)>,
    result: (u16, Vec<u8>),
)
    ensures
        Engine::dns_staged(queue, mac, Seq::empty()) == queue,
        Engine::dns_staged(queue, mac, results.push(result)) == staging(
            Engine::dns_staged(queue, mac, results),
            udp_frame(
                mac,
                seq![10u8, 0, 2, 3],
                53,
                seq![10u8, 0, 2, 15],
                result.0,
                result.1@,
            ),
        ),
{
    assert(results.push(result).drop_last() =~= results);
    assert(DNS_IP@ =~= seq![10u8, 0, 2, 3]);
    assert(GUEST_IP@ =~= seq![10u8, 0, 2, 15]);
}

/// A query for an address is looked up while fewer than eight lookups are
/// under way, and fails else, with no records. A reverse query is answered
/// with the name of the segment's own hosts, in a record of its own type, and
/// with no such domain for any other. Any other query is answered with no
/// records.
pub proof fn law_queries_are_answered_by_type(q: QueryView, outstanding: nat)
    ensures
        q.qtype == 1 && outstanding < 8 ==> own_answer(q, outstanding) is None,
        q.qtype == 1 && outstanding >= 8 ==> own_answer(q, outstanding) == Some(
            response_to(q, None, 2),
        ),
        q.qtype == 12 ==> own_answer(q, outstanding) == (match reverse_name(q.name) {
            Some(host) => Some(response_to(q, Some((12u16, encoded_name(host))), 0)),
            None => Some(response_to(q, None, 3)),
        }),
        q.qtype != 1 && q.qtype != 12 ==> own_answer(q, outstanding) == Some(
            response_to(q, None, 0),
        ),
{
}

/// A message without a record: the header says so, and the question ends it.
pub proof fn law_empty_answers_end_with_the_question(q: QueryView, rcode: u8)
    requires
        q.id < 0x1_0000,
        rcode < 16,
    ensures
        ({
            let m = response_to(q, None, rcode);
            &&& m.len() == 12 + q.question.len()
            &&& m[0] * 256 + m[1] == q.id
            &&& m[2] == 0x81 && m[3] == 0x80 + rcode
            &&& m.subrange(4, 12) == seq![0u8, 1, 0, 0, 0, 0, 0, 0]
            &&& m.subrange(12, m.len() as int) == q.question
        }),
{
    let m = response_to(q, None, rcode);
    crate::bytes::law_two_bytes(seq![0u8, 0], q.id);
    crate::bytes::law_two_bytes(seq![0u8, 0], 1);
    crate::bytes::law_two_bytes(seq![0u8, 0], 0);
    assert(m.subrange(4, 12) =~= seq![0u8, 1, 0, 0, 0, 0, 0, 0]);
    assert(m.subrange(12, m.len() as int) =~= q.question);
}

/// The hosts of the segment have their names under their addresses turned
/// round, in any case of letters: 10.0.2.15 is the guest, 10.0.2.2 the
/// gateway and 10.0.2.3 the forwarder. No other name is known.
pub proof fn law_reverse_names_are_the_segments(name: Seq<u8>)
    ensures
        lower_bytes(name) == ascii_bytes("15.2.0.10.in-addr.arpa"@) ==> reverse_name(name) == Some(
            ascii_bytes("amiga.local"@),
        ),
        lower_bytes(name) == ascii_bytes("2.2.0.10.in-addr.arpa"@) ==> reverse_name(name) == Some(
            ascii_bytes("gateway.local"@),
        ),
        lower_bytes(name) == ascii_bytes("3.2.0.10.in-addr.arpa"@) ==> reverse_name(name) == Some(
            ascii_bytes("dns.local"@),
        ),
        lower_bytes(name) != ascii_bytes("15.2.0.10.in-addr.arpa"@) && lower_bytes(name)
            != ascii_bytes("2.2.0.10.in-addr.arpa"@) && lower_bytes(name) != ascii_bytes(
            "3.2.0.10.in-addr.arpa"@,
        ) ==> reverse_name(name) is None,
{
    reveal_strlit("15.2.0.10.in-addr.arpa");
    reveal_strlit("2.2.0.10.in-addr.arpa");
    reveal_strlit("3.2.0.10.in-addr.arpa");
    assert(ascii_bytes("15.2.0.10.in-addr.arpa"@).len() == 22);
    assert(ascii_bytes("2.2.0.10.in-addr.arpa"@)[0] == 0x32);
    assert(ascii_bytes("3.2.0.10.in-addr.arpa"@)[0] == 0x33);
}

/// Lower case changes the capital letters and nothing else.
pub proof fn law_lower_case_changes_letters_alone(s: Seq<u8>, i: int)
    requires
        0 <= i < s.len(),
    ensures
        lower_bytes(s).len() == s.len(),
        0x41 <= s[i] <= 0x5a ==> lower_bytes(s)[i] == s[i] + 0x20,
        s[i] < 0x41 || s[i] > 0x5a ==> lower_bytes(s)[i] == s[i],
{
}

/// Only names made of letters, digits, hyphens, dots and underscores are
/// asked of the host, and not the empty one.
pub proof fn law_only_host_names_are_asked(name: Seq<u8>, i: int)
    requires
        0 <= i < name.len(),
    ensures
        host_shaped(name) ==> ({
            let c = name[i] as char;
            ||| '0' <= c <= '9'
            ||| 'A' <= c <= 'Z'
            ||| 'a' <= c <= 'z'
            ||| c == '-'
            ||| c == '.'
            ||| c == '_'
        }),
        !host_shaped(Seq::empty()),
        host_shaped(name.take(i + 1)) <==> (i == 0 || host_shaped(name.take(i))) && ({
            let c = name[i] as char;
            ||| '0' <= c <= '9'
            ||| 'A' <= c <= 'Z'
            ||| 'a' <= c <= 'z'
            ||| c == '-'
            ||| c == '.'
            ||| c == '_'
        }),
{
    let more = name.take(i + 1);
    assert(host_shaped(name) ==> host_byte(name[i]));
    assert(more[i] == name[i]);
    if host_shaped(more) && i > 0 {
        assert forall|j: int| 0 <= j < i implies host_byte(#[trigger] name.take(i)[j]) by {
            assert(host_byte(more[j]));
        }
    }
    if (i == 0 || host_shaped(name.take(i))) && host_byte(name[i]) {
        assert forall|j: int| 0 <= j < i + 1 implies host_byte(#[trigger] more[j]) by {
            if j < i {
                assert(host_byte(name.take(i)[j]));
            }
        }
    }
}

/// Labels as a query carries them: each behind its length, and a zero.
pub open spec fn labels_on_the_wire(labels: Seq<Seq<u8>>) -> Seq<u8>
    decreases labels.len(),
{
    if labels.len() == 0 {
        seq![0u8]
    } else {
        seq![labels[0].len() as u8] + labels[0] + labels_on_the_wire(labels.drop_first())
    }
}

/// Labels with dots between them.
pub open spec fn dotted(labels: Seq<Seq<u8>>) -> Seq<u8>
    decreases labels.len(),
{
    if labels.len() == 0 {
        Seq::empty()
    } else if labels.len() == 1 {
        labels[0]
    } else {
        labels[0] + seq![0x2eu8] + dotted(labels.drop_first())
    }
}

/// Labels that a name can have: text, with one to 63 bytes in each.
pub open spec fn plain_labels(labels: Seq<Seq<u8>>) -> bool {
    forall|i: int|
        #![trigger labels[i]]
        0 <= i < labels.len() ==> 0 < labels[i].len() < 64 && vstd::utf8::valid_utf8(labels[i])
}

/// What is read of labels behind others.
pub open spec fn read_behind(name: Seq<u8>, labels: Seq<Seq<u8>>) -> Seq<u8> {
    if labels.len() == 0 {
        name
    } else if name.len() == 0 {
        dotted(labels)
    } else {
        name + seq![0x2eu8] + dotted(labels)
    }
}

proof fn lemma_labels_read(head: Seq<u8>, labels: Seq<Seq<u8>>, tail: Seq<u8>, name: Seq<u8>)
    requires
        plain_labels(labels),
        read_behind(name, labels).len() <= 253,
    ensures
        name_at(head + labels_on_the_wire(labels) + tail, head.len() as int, name) == Some(
            (read_behind(name, labels), head.len() + labels_on_the_wire(labels).len() as int),
        ),
    decreases labels.len(),
{
    let p = head + labels_on_the_wire(labels) + tail;
    let at = head.len() as int;
    if labels.len() == 0 {
        assert(p[at] == 0);
    } else {
        let label = labels[0];
        let rest = labels.drop_first();
        let n = label.len() as int;
        let wire = labels_on_the_wire(labels);
        assert(p[at] == wire[0]);
        assert(p[at] == n);
        lemma_wire_is_not_empty(rest);
        assert(p.subrange(at + 1, at + 1 + n) =~= label);
        let longer = joined(name, label);
        assert(longer =~= (if name.len() == 0 {
            label
        } else {
            name + seq![0x2eu8] + label
        }));
        assert(plain_labels(rest)) by {
            assert forall|i: int| #![trigger rest[i]] 0 <= i < rest.len() implies 0 < rest[i].len()
                < 64 && vstd::utf8::valid_utf8(rest[i]) by {
                assert(rest[i] == labels[i + 1]);
            }
        }
        assert(read_behind(longer, rest) =~= read_behind(name, labels)) by {
            if rest.len() == 0 {
                assert(labels.len() == 1);
            } else {
                assert(dotted(labels) =~= label + seq![0x2eu8] + dotted(rest));
            }
        }
        let before = head + seq![n as u8] + label;
        assert(before + labels_on_the_wire(rest) + tail =~= p);
        lemma_labels_read(before, rest, tail, longer);
    }
}

proof fn lemma_wire_is_not_empty(labels: Seq<Seq<u8>>)
    ensures
        labels_on_the_wire(labels).len() > 0,
    decreases labels.len(),
{
    if labels.len() > 0 {
        lemma_wire_is_not_empty(labels.drop_first());
    }
}

/// A query reads as it was written: its number, one question of these
/// labels, and the type asked for. The name is the labels with dots between
/// them, and the question reaches from behind the header to the end of the
/// class.
pub proof fn law_queries_read_as_they_were_written(
    header: Seq<u8>,
    labels: Seq<Seq<u8>>,
    ends: Seq<u8>,
    rest: Seq<u8>,
)
    requires
        header.len() == 12,
        header[2] < 0x80,
        header[4] > 0 || header[5] > 0,
        plain_labels(labels),
        dotted(labels).len() <= 253,
        ends.len() == 4,
    ensures
        query_of(header + labels_on_the_wire(labels) + ends + rest) == Some(
            QueryView {
                id: (header[0] * 256 + header[1]) as nat,
                question: labels_on_the_wire(labels) + ends,
                name: dotted(labels),
                qtype: (ends[0] * 256 + ends[1]) as nat,
            },
        ),
{
    let wire = labels_on_the_wire(labels);
    let p = header + wire + ends + rest;
    assert(p =~= header + wire + (ends + rest));
    assert(read_behind(Seq::empty(), labels) =~= dotted(labels));
    lemma_labels_read(header, labels, ends + rest, Seq::empty());
    let end = 12 + wire.len() as int;
    crate::bytes::law_two_bytes(p.subrange(4, 6), 0);
    crate::bytes::law_two_bytes(p.subrange(0, 2), 0);
    crate::bytes::law_two_bytes(p.subrange(end, end + 2), 0);
    assert(p.subrange(12, end + 4) =~= wire + ends);
}

/// What is no query is dropped: what is too short for a header, what is an
/// answer, what asks nothing, and a name that is compressed or cut off.
pub proof fn law_what_is_no_query_is_dropped(p: Seq<u8>)
    ensures
        p.len() < 12 ==> query_of(p) is None,
        p.len() >= 12 && p[2] >= 0x80 ==> query_of(p) is None,
        p.len() >= 12 && p[4] == 0 && p[5] == 0 ==> query_of(p) is None,
        p.len() == 12 ==> query_of(p) is None,
        p.len() > 12 && p[12] >= 0x40 ==> query_of(p) is None,
        12 < p.len() < 13 + p[12] ==> query_of(p) is None,
        p.len() > 12 && p[12] == 0 && p.len() < 17 ==> query_of(p) is None,
{
    if p.len() >= 12 {
        crate::bytes::law_two_bytes(p.subrange(4, 6), 0);
    }
}

proof fn lemma_first_dot_of(label: Seq<u8>, rest: Seq<u8>)
    requires
        forall|i: int| 0 <= i < label.len() ==> label[i] != 0x2e,
    ensures
        first_dot(label) == label.len(),
        first_dot(label + seq![0x2eu8] + rest) == label.len(),
    decreases label.len(),
{
    let all = label + seq![0x2eu8] + rest;
    if label.len() > 0 {
        let less = label.skip(1);
        assert forall|i: int| 0 <= i < less.len() implies less[i] != 0x2e by {
            assert(less[i] == label[i + 1]);
        }
        lemma_first_dot_of(less, rest);
        assert(all.skip(1) =~= less + seq![0x2eu8] + rest);
        assert(all[0] == label[0]);
    } else {
        assert(all[0] == 0x2e);
    }
}

/// A name is written as its labels: reading what was written gives the labels
/// with dots between them.
pub proof fn law_names_are_written_label_by_label(labels: Seq<Seq<u8>>)
    requires
        labels.len() > 0,
        forall|i: int| #![trigger labels[i]] 0 <= i < labels.len() ==> labels[i].len() < 256,
        forall|i: int, j: int|
            #![trigger labels[i][j]]
            0 <= i < labels.len() && 0 <= j < labels[i].len() ==> labels[i][j] != 0x2e,
    ensures
        encoded_name(dotted(labels)) == labels_on_the_wire(labels),
    decreases labels.len(),
{
    let label = labels[0];
    let rest = labels.drop_first();
    let name = dotted(labels);
    assert forall|j: int| 0 <= j < label.len() implies label[j] != 0x2e by {
        assert(labels[0][j] != 0x2e);
    }
    if labels.len() == 1 {
        lemma_first_dot_of(label, Seq::empty());
        assert(labels_on_the_wire(rest) == seq![0u8]);
        assert(encoded_name(name) =~= labels_on_the_wire(labels));
    } else {
        assert forall|i: int, j: int|
            #![trigger rest[i][j]]
            0 <= i < rest.len() && 0 <= j < rest[i].len() implies rest[i][j] != 0x2e by {
            assert(labels[i + 1][j] != 0x2e);
        }
        assert forall|i: int| #![trigger rest[i]] 0 <= i < rest.len() implies rest[i].len() < 256 by {
            assert(rest[i] == labels[i + 1]);
        }
        law_names_are_written_label_by_label(rest);
        lemma_first_dot_of(label, dotted(rest));
        let k = label.len() as int;
        assert(name == label + seq![0x2eu8] + dotted(rest));
        assert(name.take(k) =~= label);
        assert(name.skip(k + 1) =~= dotted(rest));
        assert(encoded_name(name) =~= labels_on_the_wire(labels));
    }
}

proof fn lemma_long_names_are_dropped(
    head: Seq<u8>,
    labels: Seq<Seq<u8>>,
    tail: Seq<u8>,
    name: Seq<u8>,
)
    requires
        plain_labels(labels),
        name.len() <= 253,
        read_behind(name, labels).len() > 253,
    ensures
        name_at(head + labels_on_the_wire(labels) + tail, head.len() as int, name) is None,
    decreases labels.len(),
{
    let p = head + labels_on_the_wire(labels) + tail;
    let at = head.len() as int;
    if labels.len() > 0 {
        let label = labels[0];
        let rest = labels.drop_first();
        let n = label.len() as int;
        let wire = labels_on_the_wire(labels);
        assert(p[at] == wire[0]);
        assert(p[at] == n);
        assert(p.subrange(at + 1, at + 1 + n) =~= label);
        let longer = joined(name, label);
        assert(longer =~= (if name.len() == 0 {
            label
        } else {
            name + seq![0x2eu8] + label
        }));
        if longer.len() <= 253 {
            assert(plain_labels(rest)) by {
                assert forall|i: int| #![trigger rest[i]] 0 <= i < rest.len() implies 0
                    < rest[i].len() < 64 && vstd::utf8::valid_utf8(rest[i]) by {
                    assert(rest[i] == labels[i + 1]);
                }
            }
            assert(read_behind(longer, rest) =~= read_behind(name, labels)) by {
                if rest.len() == 0 {
                    assert(labels.len() == 1);
                } else {
                    assert(dotted(labels) =~= label + seq![0x2eu8] + dotted(rest));
                }
            }
            let before = head + seq![n as u8] + label;
            assert(before + labels_on_the_wire(rest) + tail =~= p);
            lemma_long_names_are_dropped(before, rest, tail, longer);
        }
    }
}

/// A query for a name of more than 253 bytes, its dots counted, is dropped,
/// and so is one whose first label is no text.
pub proof fn law_long_and_garbled_names_are_dropped(
    header: Seq<u8>,
    labels: Seq<Seq<u8>>,
    garbled: Seq<u8>,
    rest: Seq<u8>,
)
    requires
        header.len() == 12,
        plain_labels(labels),
        dotted(labels).len() > 253,
        0 < garbled.len() < 64,
        !vstd::utf8::valid_utf8(garbled),
    ensures
        query_of(header + labels_on_the_wire(labels) + rest) is None,
        query_of(header + seq![garbled.len() as u8] + garbled + rest) is None,
{
    let none = Seq::<u8>::empty();
    assert(read_behind(none, labels) =~= dotted(labels)) by {
        if labels.len() == 0 {
            assert(dotted(labels).len() == 0);
        }
    }
    lemma_long_names_are_dropped(header, labels, rest, none);
    let p = header + seq![garbled.len() as u8] + garbled + rest;
    assert(p[12] == garbled.len());
    assert(p.subrange(13, 13 + garbled.len() as int) =~= garbled);
    assert(name_at(p, 12, none) is None);
}

/// A query that must be looked up is handed on with the port that asked, and
/// counted until its answer is there; any other has its answer at once, for
/// the port that asked, behind those that are ready.
pub proof fn law_queries_are_looked_up_or_answered(
    frame: Seq<u8>,
    port: u16,
    payload: Vec<u8>,
    engine: Engine,
    now: u64,
    after: Engine,
    action: FrameAction,
    q: QueryView,
)
    requires
        engine.handles(frame, (Class::Dns { port, payload }), now, after, action),
        query_of(payload@) == Some(q),
    ensures
        q.qtype == 1 && engine.dns.outstanding < 8 ==> (action matches FrameAction::Resolve {
            lookup,
        } && lookup.guest_port == port && lookup.query@ == q && after.dns.outstanding
            == engine.dns.outstanding + 1 && after.dns.results == engine.dns.results),
        q.qtype != 1 || engine.dns.outstanding >= 8 ==> action is Nothing && after.dns.outstanding
            == engine.dns.outstanding && after.dns.results@.len() == engine.dns.results@.len() + 1
            && after.dns.results@.last().0 == port && after.dns.results@.drop_last()
            == engine.dns.results@,
        after.udp == engine.udp && after.tcp == engine.tcp && after.out == engine.out,
{
    law_queries_are_answered_by_type(q, engine.dns.outstanding as nat);
}

/// A ping is too long to be answered where it carries more than the 65 515
/// bytes that fit behind a plain header.
pub proof fn law_overlong_pings_do_not_fit(frame: Seq<u8>)
    requires
        frame.len() >= 34,
    ensures
        overlong_ping(frame) <==> holds_ipv4(frame) && frame[23] == 1 && body_end(frame) - body_start(
            frame,
        ) > 65_515,
{
    lemma_ipv4(frame);
}

/// A flow is found by its number, wherever it stands, and is gone where no
/// flow has it.
pub proof fn law_flows_are_found_by_their_number(nat_table: TcpNat, id: u64, i: int)
    requires
        nat_table.wf(),
        0 <= i < nat_table.flows@.len(),
    ensures
        nat_table.flows@[i].id == id ==> nat_table.place(id) == i,
        (forall|j: int| 0 <= j < nat_table.flows@.len() ==> (#[trigger] nat_table.flows@[j]).id != id)
            ==> nat_table.place(id) == nat_table.flows@.len(),
{
    let flows = nat_table.flows@;
    if flows[i].id == id {
        let k = nat_table.place(id);
        assert(0 <= k < flows.len() && flows[k].id == id);
        if k < i {
            assert(flows[k].id != flows[i].id);
        }
        if i < k {
            assert(flows[i].id != flows[k].id);
        }
    }
}

} // verus!
