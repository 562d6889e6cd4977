//! The gateway's engine: sorts guest frames to the responders and the TCP
//! stack, and stages the frames for the guest.
//!
//! The engine has no thread and no socket of its own: it says what is to be
//! done with the stack and the host's sockets, and is told what came of it.
use std::collections::VecDeque;
use vstd::prelude::*;
use crate::bytes::same_bytes;
use crate::net::gateway::dhcp;
use crate::net::gateway::dns::{self, own_answer, query_of, DnsResolver, Lookup};
use crate::net::gateway::frames::{
    self, build_udp, icmp_echo_reply, udp_frame, BROADCAST_MAC, DNS_IP, GATEWAY_IP, GUEST_IP,
};
use crate::net::gateway::tcp::TcpNat;
use crate::net::gateway::udp::{fresh, not_carried, DatagramAction, FlowKey, UdpNat};
use crate::net::gateway::wire::{
    field16, ipv4_payload, is_arp, is_ethernet, is_ipv4, is_tcp, is_udp, parse_arp, parse_ethernet,
    parse_ipv4, parse_tcp, parse_udp, udp_payload, ARP_REQUEST, PROTO_ICMP, PROTO_TCP, PROTO_UDP,
    TYPE_ARP, TYPE_IPV4,
};

verus! {

/// A frame for the guest shorter than this is padded with zeros, as the wire
/// guarantees to a real receiver.
pub const MIN_FRAME: usize = 60;

/// The largest UDP payload that fits one frame on the segment. There is no
/// fragmentation, so a larger reply from the host is dropped whole.
pub const MAX_UDP_PAYLOAD: usize = 1472;

/// Frames staged for the guest. Past it the oldest is dropped, as a network
/// card drops frames when its ring is full.
pub const MAX_OUT_QUEUED: usize = 1024;

/// What kind of traffic a guest frame is.
pub enum Class {
    /// Nothing the gateway deals with.
    Other,
    /// For the stack: ARP for the gateway's own addresses, and ARP replies.
    Arp,
    Dhcp,
    Dns { port: u16, payload: Vec<u8> },
    Udp { key: FlowKey, payload: Vec<u8> },
    Ping,
    Tcp { key: FlowKey, syn: bool, ack: bool },
    /// TCP without a readable header: for the stack all the same.
    BadTcp,
}

/// An address the gateway answers ARP for. Answering for any other would
/// make the guest's own duplicate-address probe look like a clash.
pub open spec fn answers_arp(target: Seq<u8>) -> bool {
    target == GATEWAY_IP@ || target == DNS_IP@
}

/// The frame is ARP that the stack should see.
pub open spec fn is_stack_arp(frame: Seq<u8>) -> bool {
    let arp = frame.skip(14);
    is_arp(arp) && (field16(arp, 6) == ARP_REQUEST ==> answers_arp(arp.subrange(24, 28)))
}

/// These are a flow's ends.
pub open spec fn ends(key: FlowKey, guest_port: nat, remote_ip: Seq<u8>, remote_port: nat) -> bool {
    key.guest_port == guest_port && key.remote_ip@ == remote_ip && key.remote_port == remote_port
}

/// What kind of traffic a frame is.
pub open spec fn is_class(frame: Seq<u8>, class: Class) -> bool {
    let ip = frame.skip(14);
    let body = ipv4_payload(ip);
    let dst = ip.subrange(16, 20);
    if !is_ethernet(frame) {
        class is Other
    } else if field16(frame, 12) == TYPE_ARP {
        if is_stack_arp(frame) {
            class is Arp
        } else {
            class is Other
        }
    } else if field16(frame, 12) != TYPE_IPV4 || !is_ipv4(ip) {
        class is Other
    } else if ip[9] == PROTO_UDP {
        if !is_udp(body) {
            class is Other
        } else if field16(body, 2) == dhcp::SERVER_PORT {
            class is Dhcp
        } else if dst == DNS_IP@ && field16(body, 2) == dns::PORT {
            class matches Class::Dns { port, payload } && port == field16(body, 0) && payload@
                == udp_payload(body)
        } else {
            class matches Class::Udp { key, payload } && ends(
                key,
                field16(body, 0),
                dst,
                field16(body, 2),
            ) && payload@ == udp_payload(body)
        }
    } else if ip[9] == PROTO_ICMP {
        class is Ping
    } else if ip[9] == PROTO_TCP {
        if is_tcp(body) {
            class matches Class::Tcp { key, syn, ack } && ends(
                key,
                field16(body, 0),
                dst,
                field16(body, 2),
            ) && syn == crate::bits::bit8(body[13], 1) && ack == crate::bits::bit8(body[13], 4)
        } else {
            class is BadTcp
        }
    } else {
        class is Other
    }
}

/// Sort one guest frame.
pub fn classify(frame: &[u8]) -> (r: Class)
    ensures
        is_class(frame@, r),
{
    let eth = match parse_ethernet(frame) {
        Some(eth) => eth,
        None => {
            return Class::Other;
        },
    };
    if eth.ethertype == TYPE_ARP {
        return match parse_arp(eth.payload.as_slice()) {
            Some(arp) => {
                if arp.operation != ARP_REQUEST || same_bytes(&arp.target, &GATEWAY_IP)
                    || same_bytes(&arp.target, &DNS_IP) {
                    Class::Arp
                } else {
                    Class::Other
                }
            },
            None => Class::Other,
        };
    }
    if eth.ethertype != TYPE_IPV4 {
        return Class::Other;
    }
    let ip = match parse_ipv4(eth.payload.as_slice()) {
        Some(ip) => ip,
        None => {
            return Class::Other;
        },
    };
    if ip.protocol == PROTO_UDP {
        return match parse_udp(ip.payload.as_slice()) {
            None => Class::Other,
            Some(udp) => {
                if udp.dst_port == dhcp::SERVER_PORT {
                    Class::Dhcp
                } else if same_bytes(&ip.dst, &DNS_IP) && udp.dst_port == dns::PORT {
                    Class::Dns { port: udp.src_port, payload: udp.payload }
                } else {
                    Class::Udp {
                        key: FlowKey {
                            guest_port: udp.src_port,
                            remote_ip: ip.dst,
                            remote_port: udp.dst_port,
                        },
                        payload: udp.payload,
                    }
                }
            },
        };
    }
    if ip.protocol == PROTO_ICMP {
        return Class::Ping;
    }
    if ip.protocol == PROTO_TCP {
        return match parse_tcp(ip.payload.as_slice()) {
            Some(tcp) => Class::Tcp {
                key: FlowKey {
                    guest_port: tcp.src_port,
                    remote_ip: ip.dst,
                    remote_port: tcp.dst_port,
                },
                syn: tcp.syn,
                ack: tcp.ack,
            },
            None => Class::BadTcp,
        };
    }
    Class::Other
}

/// What the program around the engine does with a guest frame.
pub enum FrameAction {
    Nothing,
    /// Hand the frame to the TCP stack.
    Stack,
    /// Listen for this destination and dial it, then hand the frame to the
    /// TCP stack.
    Open { key: FlowKey },
    /// Ask the host's resolver.
    Resolve { lookup: Lookup },
    /// Send the payload from a host socket.
    Datagram { action: DatagramAction, key: FlowKey, payload: Vec<u8> },
}

/// A frame as the wire would carry it: padded to the minimum.
pub open spec fn padded(frame: Seq<u8>) -> Seq<u8> {
    if frame.len() < MIN_FRAME {
        frame + Seq::new((MIN_FRAME - frame.len()) as nat, |i: int| 0u8)
    } else {
        frame
    }
}

/// The frames of a queue.
pub open spec fn staged(queue: Seq<Vec<u8>>) -> Seq<Seq<u8>> {
    queue.map_values(|f: Vec<u8>| f@)
}

/// A queue after one more frame.
pub open spec fn staging(queue: Seq<Seq<u8>>, frame: Seq<u8>) -> Seq<Seq<u8>> {
    if queue.len() >= MAX_OUT_QUEUED {
        queue.drop_first().push(padded(frame))
    } else {
        queue.push(padded(frame))
    }
}

/// The engine.
pub struct Engine {
    pub udp: UdpNat,
    pub dns: DnsResolver,
    pub tcp: TcpNat,
    /// Learned from guest traffic; broadcast until the first frame arrives.
    pub guest_mac: [u8; 6],
    /// Frames ready for the emulated card.
    pub out: VecDeque<Vec<u8>>,
}

/// The guest's address after a frame: any frame of a single station tells it.
pub open spec fn learned(before: Seq<u8>, frame: Seq<u8>) -> Seq<u8> {
    if is_ethernet(frame) && frame[6] % 2 == 0 {
        frame.subrange(6, 12)
    } else {
        before
    }
}

impl Engine {
    pub open spec fn wf(self) -> bool {
        &&& self.udp.wf()
        &&& self.dns.wf()
        &&& self.tcp.wf()
        &&& self.out@.len() <= MAX_OUT_QUEUED
    }

    pub fn new() -> (r: Engine)
        ensures
            r.wf(),
            r.guest_mac@ == BROADCAST_MAC@,
            r.out@.len() == 0,
            r.udp.flows@.len() == 0,
            r.udp.next_id == 0,
            r.tcp.flows@.len() == 0,
            r.tcp.next_id == 0,
            r.dns.outstanding == 0,
            r.dns.results@.len() == 0,
    {
        Engine {
            udp: UdpNat::new(),
            dns: DnsResolver::new(),
            tcp: TcpNat::new(),
            guest_mac: BROADCAST_MAC,
            out: VecDeque::new(),
        }
    }

    /// Stage a frame for the guest.
    pub fn push_out(&mut self, frame: Vec<u8>)
        requires
            old(self).wf(),
        ensures
            final(self).wf(),
            staged(final(self).out@) == staging(staged(old(self).out@), frame@),
            *final(self) == (Engine { out: final(self).out, ..*old(self) }),
    {
        let mut frame = frame;
        let ghost whole = frame@;
        while frame.len() < MIN_FRAME
            invariant
                frame@.len() >= whole.len(),
                whole.len() <= frame@.len() <= MIN_FRAME || frame@ == whole,
                frame@ =~= whole + Seq::new((frame@.len() - whole.len()) as nat, |i: int| 0u8),
            decreases MIN_FRAME - frame@.len(),
        {
            frame.push(0);
        }
        assert(frame@ =~= padded(whole));
        let ghost before = self.out@;
        if self.out.len() >= MAX_OUT_QUEUED {
            self.out.pop_front();
            assert(staged(self.out@) =~= staged(before).drop_first());
        }
        let ghost middle = self.out@;
        self.out.push_back(frame);
        assert(staged(self.out@) =~= staged(middle).push(padded(whole)));
    }

    /// The next frame for the guest.
    pub fn pop_output(&mut self) -> (r: Option<Vec<u8>>)
        requires
            old(self).wf(),
        ensures
            final(self).wf(),
            *final(self) == (Engine { out: final(self).out, ..*old(self) }),
            match r {
                Some(frame) => old(self).out@.len() > 0 && frame == old(self).out@[0]
                    && final(self).out@ == old(self).out@.drop_first(),
                None => old(self).out@.len() == 0 && final(self).out@ == old(self).out@,
            },
    {
        self.out.pop_front()
    }

    /// Frames that were answered are staged; nothing else has changed but
    /// what the answer concerns.
    pub open spec fn answers(self, before: Self, reply: Option<Seq<u8>>) -> bool {
        match reply {
            Some(frame) => {
                &&& staged(self.out@) == staging(staged(before.out@), frame)
                &&& self == Engine { out: self.out, ..before }
            },
            None => self == before,
        }
    }

    /// What is done with a frame of this class, by an engine that has learned
    /// the guest's address from it.
    pub open spec fn handles(
        self,
        frame: Seq<u8>,
        class: Class,
        now: u64,
        after: Self,
        action: FrameAction,
    ) -> bool {
        match class {
            Class::Other => action is Nothing && after == self,
            Class::Arp | Class::BadTcp => action is Stack && after == self,
            Class::Dhcp => action is Nothing && (match dhcp::request_of(frame) {
                Some(p) => exists|reply: Seq<u8>| #[trigger]
                    after.answers(self, Some(reply)) && reply == udp_frame(
                        if dhcp::wants_broadcast(p) {
                            BROADCAST_MAC@
                        } else {
                            p.subrange(28, 34)
                        },
                        GATEWAY_IP@,
                        dhcp::SERVER_PORT,
                        if dhcp::wants_broadcast(p) {
                            frames::BROADCAST_IP@
                        } else {
                            GUEST_IP@
                        },
                        dhcp::CLIENT_PORT,
                        dhcp::reply_body(p),
                    ),
                None => after == self,
            }),
            Class::Ping => action is Nothing && after.answers(
                self,
                if frames::ping_of(frame) is Some {
                    Some(frames::pong(frame))
                } else {
                    None
                },
            ),
            Class::Dns { port, payload } => {
                &&& after == Engine { dns: after.dns, ..self }
                &&& match query_of(payload@) {
                    None => action is Nothing && after == self,
                    Some(q) => match own_answer(q, self.dns.outstanding as nat) {
                        Some(answer) => {
                            &&& action is Nothing
                            &&& after.dns.outstanding == self.dns.outstanding
                            &&& after.dns.answered(self.dns, port, answer)
                        },
                        None => {
                            &&& after.dns.outstanding == self.dns.outstanding + 1
                            &&& after.dns.results == self.dns.results
                            &&& action matches FrameAction::Resolve { lookup } && lookup.guest_port
                                == port && lookup.query@ == q && lookup.wf()
                        },
                    },
                }
            },
            Class::Udp { key, payload } => {
                &&& after == Engine { udp: after.udp, ..self }
                &&& after.udp.next_id == self.udp.next_id
                &&& action matches FrameAction::Datagram { action: todo, key: to, payload: body }
                    && to == key && body@ == payload@ && ({
                    let i = self.udp.flow_index(key);
                    if not_carried(key.remote_ip@) {
                        todo == DatagramAction::Lose && after == self
                    } else if i < self.udp.flows@.len() {
                        &&& todo == DatagramAction::Send { id: self.udp.flows@[i].id }
                        &&& after.udp.flows@ == self.udp.flows@.update(
                            i,
                            crate::net::gateway::udp::UdpFlow {
                                last_used: now,
                                ..self.udp.flows@[i]
                            },
                        )
                    } else {
                        &&& after.udp.flows@ == fresh(self.udp.flows@, now)
                        &&& todo == (if after.udp.flows@.len()
                            >= crate::net::gateway::udp::MAX_FLOWS {
                            DatagramAction::Lose
                        } else {
                            DatagramAction::Open
                        })
                    }
                })
            },
            Class::Tcp { key, syn, ack } => {
                &&& after == self
                &&& if syn && !ack && !self.tcp.knows(key) && self.tcp.flows@.len()
                    < crate::net::gateway::tcp::MAX_FLOWS {
                    action matches FrameAction::Open { key: to } && to == key
                } else {
                    action is Stack
                }
            },
        }
    }

    /// Sort and take in one frame transmitted by the guest.
    pub fn handle_guest_frame(&mut self, frame: &[u8], now: u64) -> (r: FrameAction)
        requires
            old(self).wf(),
            !frames::overlong_ping(frame@),
        ensures
            final(self).wf(),
            exists|mid: Self, class: Class|
                {
                    &&& mid.guest_mac@ == learned(old(self).guest_mac@, frame@)
                    &&& mid == Engine { guest_mac: mid.guest_mac, ..*old(self) }
                    &&& is_class(frame@, class)
                    &&& #[trigger] mid.handles(frame@, class, now, *final(self), r)
                },
    {
        if frame.len() >= 14 && frame[6] % 2 == 0 {
            self.guest_mac = [frame[6], frame[7], frame[8], frame[9], frame[10], frame[11]];
            assert(self.guest_mac@ =~= frame@.subrange(6, 12));
        }
        let ghost mid = *self;
        let class = classify(frame);
        let ghost kind = class;
        match class {
            Class::Other => {
                assert(mid.handles(frame@, kind, now, *self, FrameAction::Nothing));
                FrameAction::Nothing
            },
            Class::Arp => {
                assert(mid.handles(frame@, kind, now, *self, FrameAction::Stack));
                FrameAction::Stack
            },
            Class::BadTcp => {
                assert(mid.handles(frame@, kind, now, *self, FrameAction::Stack));
                FrameAction::Stack
            },
            Class::Dhcp => {
                if let Some(reply) = dhcp::handle_frame(frame) {
                    let ghost sent = reply@;
                    self.push_out(reply);
                    assert(self.answers(mid, Some(sent)));
                }
                assert(mid.handles(frame@, kind, now, *self, FrameAction::Nothing));
                FrameAction::Nothing
            },
            Class::Ping => {
                if let Some(reply) = icmp_echo_reply(frame) {
                    self.push_out(reply);
                }
                assert(mid.handles(frame@, kind, now, *self, FrameAction::Nothing));
                FrameAction::Nothing
            },
            Class::Dns { port, payload } => {
                let asked = self.dns.handle_query(port, payload.as_slice());
                let action = match asked {
                    Some(lookup) => FrameAction::Resolve { lookup },
                    None => FrameAction::Nothing,
                };
                assert(mid.handles(frame@, kind, now, *self, action));
                action
            },
            Class::Udp { key, payload } => {
                let todo = self.udp.handle_datagram(
                    key.guest_port,
                    key.remote_ip,
                    key.remote_port,
                    now,
                );
                let action = FrameAction::Datagram { action: todo, key, payload };
                assert(mid.handles(frame@, kind, now, *self, action));
                action
            },
            Class::Tcp { key, syn, ack } => {
                let action = if self.tcp.wants_flow(&key, syn, ack) {
                    FrameAction::Open { key }
                } else {
                    FrameAction::Stack
                };
                assert(mid.handles(frame@, kind, now, *self, action));
                action
            },
        }
    }

    /// A reply from the host's network on a UDP flow.
    pub fn deliver_reply(&mut self, key: &FlowKey, payload: &[u8])
        requires
            old(self).wf(),
        ensures
            final(self).wf(),
            final(self).answers(
                *old(self),
                if payload@.len() <= 1472 {
                    Some(
                        udp_frame(
                            old(self).guest_mac@,
                            key.remote_ip@,
                            key.remote_port,
                            GUEST_IP@,
                            key.guest_port,
                            payload@,
                        ),
                    )
                } else {
                    None
                },
            ),
    {
        if payload.len() > MAX_UDP_PAYLOAD {
            return ;
        }
        let frame = build_udp(
            self.guest_mac,
            key.remote_ip,
            key.remote_port,
            GUEST_IP,
            key.guest_port,
            payload,
        );
        self.push_out(frame);
    }

    /// The frames of some DNS answers, staged in order.
    pub open spec fn dns_staged(
        queue: Seq<Seq<u8>>,
        mac: Seq<u8>,
        results: Seq<(u16, Vec<u8>)>,
    ) -> Seq<Seq<u8>>
        decreases results.len(),
    {
        if results.len() == 0 {
            queue
        } else {
            let last = results.last();
            staging(
                Self::dns_staged(queue, mac, results.drop_last()),
                udp_frame(mac, DNS_IP@, dns::PORT, GUEST_IP@, last.0, last.1@),
            )
        }
    }

    /// Stage the DNS answers that are ready.
    pub fn flush_answers(&mut self)
        requires
            old(self).wf(),
        ensures
            final(self).wf(),
            final(self).dns.results@.len() == 0,
            final(self).dns.outstanding == old(self).dns.outstanding,
            staged(final(self).out@) == Self::dns_staged(
                staged(old(self).out@),
                old(self).guest_mac@,
                old(self).dns.results@,
            ),
            *final(self) == (Engine {
                dns: final(self).dns,
                out: final(self).out,
                ..*old(self)
            }),
    {
        let ghost before = *self;
        let results = self.dns.poll_results();
        let ghost polled = *self;
        let mut i: usize = 0;
        assert(results@.take(0) =~= Seq::empty());
        while i < results.len()
            invariant
                i <= results@.len(),
                self.wf(),
                *self == (Engine { out: self.out, ..polled }),
                polled == (Engine { dns: polled.dns, ..before }),
                forall|j: int|
                    0 <= j < results@.len() ==> (#[trigger] results@[j]).1@.len()
                        < dns::MAX_ANSWER,
                staged(self.out@) == Self::dns_staged(
                    staged(before.out@),
                    before.guest_mac@,
                    results@.take(i as int),
                ),
            decreases results@.len() - i,
        {
            assert(results@.take(i + 1).drop_last() =~= results@.take(i as int));
            let frame = build_udp(
                self.guest_mac,
                DNS_IP,
                dns::PORT,
                GUEST_IP,
                results[i].0,
                results[i].1.as_slice(),
            );
            self.push_out(frame);
            i += 1;
        }
        assert(results@.take(i as int) =~= results@);
    }
}

/// The guest's own duplicate-address probe stays unanswered: ARP requests for
/// any address but the gateway's and the forwarder's never reach the stack.
pub proof fn law_probes_go_unanswered(frame: Seq<u8>, class: Class)
    requires
        is_ethernet(frame),
        field16(frame, 12) == TYPE_ARP,
        is_arp(frame.skip(14)),
        field16(frame.skip(14), 6) == ARP_REQUEST,
        frame.skip(14).subrange(24, 28) == GUEST_IP@,
        is_class(frame, class),
    ensures
        class is Other,
{
    assert(GUEST_IP@[3] == 15 && GATEWAY_IP@[3] == 2 && DNS_IP@[3] == 3);
}

/// Every frame the guest receives has at least the minimum length of the
/// wire, and what was staged of it is its beginning.
pub proof fn law_frames_are_padded(frame: Seq<u8>)
    ensures
        padded(frame).len() >= MIN_FRAME,
        padded(frame).take(frame.len() as int) == frame,
        padded(frame).len() == frame.len() || frame.len() < MIN_FRAME,
{
    assert(padded(frame).take(frame.len() as int) =~= frame);
}

} // verus!
