//! BOOTP and DHCP responder for the virtual segment. It answers both real
//! DHCP and plain BOOTP requests, always with the one fixed lease.
use vstd::prelude::*;
use crate::bytes::{copy_range, push_all, same_bytes};
use crate::net::gateway::frames::{
    build_udp, carries_udp, udp_frame, BROADCAST_IP, BROADCAST_MAC, DNS_IP, GATEWAY_IP, GUEST_IP,
};
use crate::net::gateway::wire::{
    ipv4_payload, is_ethernet, is_ipv4, is_udp, parse_ethernet, parse_ipv4, parse_udp, udp_payload,
};

verus! {

pub const SERVER_PORT: u16 = 67;

pub const CLIENT_PORT: u16 = 68;

/// What precedes the options, in BOOTP and in DHCP.
pub const OPTION_MAGIC: [u8; 4] = [0x63, 0x82, 0x53, 0x63];

/// Bytes of a request before the options.
pub const BOOTP_HDR: usize = 236;

/// The option that says which kind of DHCP message this is.
pub const MESSAGE_TYPE: u8 = 53;

/// The value of the first option with this code. Padding is skipped, and an
/// option that runs past the end ends the search.
pub open spec fn option_of(opts: Seq<u8>, code: u8) -> Option<Seq<u8>>
    decreases opts.len(),
{
    if opts.len() == 0 {
        None
    } else if opts[0] == 0 {
        option_of(opts.skip(1), code)
    } else if opts[0] == 255 || opts.len() < 2 || opts.len() < 2 + opts[1] {
        None
    } else if opts[0] == code {
        Some(opts.subrange(2, 2 + opts[1]))
    } else {
        option_of(opts.skip(2 + opts[1]), code)
    }
}

/// The value of the first option with this code.
pub fn find_option(opts: &[u8], code: u8) -> (r: Option<Vec<u8>>)
    ensures
        match r {
            Some(v) => option_of(opts@, code) == Some(v@),
            None => option_of(opts@, code) is None,
        },
{
    let n: usize = opts.len();
    let mut at: usize = 0;
    assert(opts@.skip(0) =~= opts@);
    while at < n
        invariant
            at <= n == opts@.len(),
            option_of(opts@, code) == option_of(opts@.skip(at as int), code),
        decreases n - at,
    {
        let ghost rest = opts@.skip(at as int);
        assert(rest[0] == opts@[at as int]);
        if opts[at] == 0 {
            at += 1;
            assert(rest.skip(1) =~= opts@.skip(at as int));
        } else {
            if opts[at] == 255 || n - at < 2 {
                return None;
            }
            assert(rest[1] == opts@[at + 1]);
            let len: usize = opts[at + 1] as usize;
            if n - at < 2 + len {
                return None;
            }
            if opts[at] == code {
                let value = copy_range(opts, at + 2, at + 2 + len);
                assert(value@ =~= rest.subrange(2, 2 + rest[1]));
                return Some(value);
            }
            at += 2 + len;
            assert(rest.skip(2 + rest[1]) =~= opts@.skip(at as int));
        }
    }
    None
}

/// The kind of DHCP message a request is; plain BOOTP has none.
pub open spec fn message_type(p: Seq<u8>) -> Option<u8> {
    if p.len() > BOOTP_HDR + 4 && p.subrange(236, 240) == OPTION_MAGIC@ {
        match option_of(p.skip(240), MESSAGE_TYPE) {
            Some(v) if v.len() > 0 => Some(v[0]),
            _ => None,
        }
    } else {
        None
    }
}

/// Whether a payload is a request for an Ethernet host.
pub open spec fn is_request(p: Seq<u8>) -> bool {
    p.len() >= BOOTP_HDR && p[0] == 1 && p[1] == 1 && p[2] == 6
}

/// Whether a request deserves an answer, and the kind of the answer: an offer
/// for a discovery, an acknowledgement for a request or an inquiry, and a
/// plain reply for plain BOOTP. There is nothing to say to anything else.
pub open spec fn reply_type(p: Seq<u8>) -> Option<Option<u8>> {
    match message_type(p) {
        None => Some(None),
        Some(t) => if t == 1 {
            Some(Some(2u8))
        } else if t == 3 || t == 8 {
            Some(Some(5u8))
        } else {
            None
        },
    }
}

/// A run of zeros.
pub open spec fn zeros(n: nat) -> Seq<u8> {
    Seq::new(n, |i: int| 0u8)
}

/// The fixed part of the answer to `p`.
pub open spec fn reply_header(p: Seq<u8>) -> Seq<u8> {
    seq![2u8, 1, 6, 0] + p.subrange(4, 8) + zeros(2) + p.subrange(10, 12) + zeros(4) + GUEST_IP@
        + GATEWAY_IP@ + zeros(4) + p.subrange(28, 34) + zeros(202)
}

/// The options of the answer.
pub open spec fn reply_options(kind: Option<u8>) -> Seq<u8> {
    (match kind {
        Some(t) => seq![53u8, 1, t, 54, 4] + GATEWAY_IP@ + seq![51u8, 4, 0, 1, 0x51, 0x80],
        None => Seq::empty(),
    }) + seq![1u8, 4, 255, 255, 255, 0, 3, 4] + GATEWAY_IP@ + seq![6u8, 4] + DNS_IP@ + seq![255u8]
}

/// The answer to `p`.
pub open spec fn reply_body(p: Seq<u8>) -> Seq<u8> {
    reply_header(p) + OPTION_MAGIC@ + reply_options(reply_type(p)->0)
}

/// Whether the client cannot receive unicast yet.
pub open spec fn wants_broadcast(p: Seq<u8>) -> bool {
    p[10] >= 0x80
}

/// The request in a guest's frame.
pub open spec fn request_of(frame: Seq<u8>) -> Option<Seq<u8>> {
    let ip = frame.skip(14);
    let udp = ipv4_payload(ip);
    let p = udp_payload(udp);
    if is_ethernet(frame) && is_ipv4(ip) && is_udp(udp) && is_request(p) && reply_type(p) is Some {
        Some(p)
    } else {
        None
    }
}

fn push_zeros(out: &mut Vec<u8>, n: usize)
    ensures
        final(out)@ == old(out)@ + zeros(n as nat),
{
    let ghost before = out@;
    let mut i: usize = 0;
    while i < n
        invariant
            i <= n,
            out@ =~= before + zeros(i as nat),
        decreases n - i,
    {
        out.push(0);
        i += 1;
    }
}

fn header(p: &[u8]) -> (r: Vec<u8>)
    requires
        p@.len() >= BOOTP_HDR,
    ensures
        r@ == reply_header(p@),
        r@.len() == BOOTP_HDR,
{
    let mut b: Vec<u8> = Vec::new();
    b.push(2);
    b.push(1);
    b.push(6);
    b.push(0);
    push_all(&mut b, copy_range(p, 4, 8).as_slice());
    push_zeros(&mut b, 2);
    push_all(&mut b, copy_range(p, 10, 12).as_slice());
    push_zeros(&mut b, 4);
    push_all(&mut b, GUEST_IP.as_slice());
    push_all(&mut b, GATEWAY_IP.as_slice());
    push_zeros(&mut b, 4);
    push_all(&mut b, copy_range(p, 28, 34).as_slice());
    push_zeros(&mut b, 202);
    assert(b@ =~= reply_header(p@));
    b
}

fn push_options(b: &mut Vec<u8>, kind: Option<u8>)
    ensures
        final(b)@ == old(b)@ + reply_options(kind),
{
    let ghost before = b@;
    if let Some(t) = kind {
        push_all(b, [53u8, 1, t, 54, 4].as_slice());
        push_all(b, GATEWAY_IP.as_slice());
        push_all(b, [51u8, 4, 0, 1, 0x51, 0x80].as_slice());
    }
    push_all(b, [1u8, 4, 255, 255, 255, 0, 3, 4].as_slice());
    push_all(b, GATEWAY_IP.as_slice());
    push_all(b, [6u8, 4].as_slice());
    push_all(b, DNS_IP.as_slice());
    b.push(255);
    assert(b@ =~= before + reply_options(kind));
}

fn kind_of_reply(p: &[u8]) -> (r: Option<Option<u8>>)
    requires
        p@.len() >= BOOTP_HDR,
    ensures
        r == reply_type(p@),
{
    let mut kind: Option<u8> = None;
    if p.len() > BOOTP_HDR + 4 {
        let magic = copy_range(p, 236, 240);
        if same_bytes(magic.as_slice(), OPTION_MAGIC.as_slice()) {
            let opts = copy_range(p, 240, p.len());
            assert(opts@ =~= p@.skip(240));
            if let Some(v) = find_option(opts.as_slice(), MESSAGE_TYPE) {
                if v.len() > 0 {
                    kind = Some(v[0]);
                }
            }
        }
    }
    match kind {
        None => Some(None),
        Some(t) => if t == 1 {
            Some(Some(2u8))
        } else if t == 3 || t == 8 {
            Some(Some(5u8))
        } else {
            None
        },
    }
}

fn hardware_address(p: &[u8]) -> (r: [u8; 6])
    requires
        p@.len() >= BOOTP_HDR,
    ensures
        r@ == p@.subrange(28, 34),
{
    let r = [p[28], p[29], p[30], p[31], p[32], p[33]];
    assert(r@ =~= p@.subrange(28, 34));
    r
}

/// Handle one guest frame already known to be UDP to the server's port.
/// Returns the complete reply frame, if the request deserves one. The reply
/// goes to the offered address unless the client asks for a broadcast.
pub fn handle_frame(frame: &[u8]) -> (r: Option<Vec<u8>>)
    ensures
        r is Some <==> request_of(frame@) is Some,
        r matches Some(reply) ==> {
            let p = request_of(frame@)->0;
            let mac = if wants_broadcast(p) {
                BROADCAST_MAC@
            } else {
                p.subrange(28, 34)
            };
            let ip = if wants_broadcast(p) {
                BROADCAST_IP@
            } else {
                GUEST_IP@
            };
            &&& reply@ == udp_frame(
                mac,
                GATEWAY_IP@,
                SERVER_PORT,
                ip,
                CLIENT_PORT,
                reply_body(p),
            )
            &&& carries_udp(
                reply@,
                mac,
                GATEWAY_IP@,
                SERVER_PORT,
                ip,
                CLIENT_PORT,
                reply_body(p),
            )
        },
{
    let eth = match parse_ethernet(frame) {
        Some(eth) => eth,
        None => {
            return None;
        },
    };
    let ip = match parse_ipv4(eth.payload.as_slice()) {
        Some(ip) => ip,
        None => {
            return None;
        },
    };
    let udp = match parse_udp(ip.payload.as_slice()) {
        Some(udp) => udp,
        None => {
            return None;
        },
    };
    let p = udp.payload.as_slice();
    if p.len() < BOOTP_HDR || p[0] != 1 || p[1] != 1 || p[2] != 6 {
        return None;
    }
    let kind = match kind_of_reply(p) {
        Some(kind) => kind,
        None => {
            return None;
        },
    };
    let mut b = header(p);
    push_all(&mut b, OPTION_MAGIC.as_slice());
    push_options(&mut b, kind);
    assert(b@ =~= reply_body(p@));
    let broadcast: bool = p[10] >= 0x80;
    let dst_mac = if broadcast {
        BROADCAST_MAC
    } else {
        hardware_address(p)
    };
    let dst_ip = if broadcast {
        BROADCAST_IP
    } else {
        GUEST_IP
    };
    Some(build_udp(dst_mac, GATEWAY_IP, SERVER_PORT, dst_ip, CLIENT_PORT, b.as_slice()))
}

/// Every lease is the one fixed lease: whatever the request, the answer
/// offers the guest's address, names the gateway as router and the forwarder
/// as DNS server, and echoes the transaction and the hardware address.
pub proof fn law_the_lease_is_fixed(p: Seq<u8>)
    requires
        is_request(p),
        reply_type(p) is Some,
    ensures
        reply_body(p).subrange(4, 8) == p.subrange(4, 8),
        reply_body(p).subrange(16, 20) == GUEST_IP@,
        reply_body(p).subrange(28, 34) == p.subrange(28, 34),
        option_of(reply_body(p).skip(240), 3) == Some(GATEWAY_IP@),
        option_of(reply_body(p).skip(240), 6) == Some(DNS_IP@),
        option_of(reply_body(p).skip(240), 1) == Some(seq![255u8, 255, 255, 0]),
        option_of(reply_body(p).skip(240), MESSAGE_TYPE) == (match reply_type(p)->0 {
            Some(t) => Some(seq![t]),
            None => None,
        }),
{
    let b = reply_body(p);
    let kind = reply_type(p)->0;
    let opts = reply_options(kind);
    assert(reply_header(p).len() == 236);
    assert(b.skip(240) =~= opts);
    assert(b.subrange(4, 8) =~= p.subrange(4, 8));
    assert(b.subrange(16, 20) =~= GUEST_IP@);
    assert(b.subrange(28, 34) =~= p.subrange(28, 34));
    let common = reply_options(None);
    lemma_common_options(common);
    match kind {
        Some(t) => {
            let a1 = opts.skip(3);
            let a2 = a1.skip(6);
            let a3 = a2.skip(6);
            assert(opts[0] == 53 && opts[1] == 1);
            assert(opts.subrange(2, 3) =~= seq![t]);
            assert(a1[0] == 54 && a1[1] == 4);
            assert(a2[0] == 51 && a2[1] == 4);
            assert(a3 =~= common);
            assert forall|code: u8| code == 3 || code == 6 || code == 1 implies #[trigger] option_of(
                opts,
                code,
            ) == option_of(common, code) by {
                assert(option_of(opts, code) == option_of(a1, code));
                assert(option_of(a1, code) == option_of(a2, code));
                assert(option_of(a2, code) == option_of(a3, code));
            }
        },
        None => {
            assert(opts =~= common);
        },
    }
}

proof fn lemma_common_options(common: Seq<u8>)
    requires
        common == reply_options(None),
    ensures
        option_of(common, 1) == Some(seq![255u8, 255, 255, 0]),
        option_of(common, 3) == Some(GATEWAY_IP@),
        option_of(common, 6) == Some(DNS_IP@),
        option_of(common, MESSAGE_TYPE) is None,
{
    let b1 = common.skip(6);
    let b2 = b1.skip(6);
    let b3 = b2.skip(6);
    assert(common[0] == 1 && common[1] == 4);
    assert(common.subrange(2, 6) =~= seq![255u8, 255, 255, 0]);
    assert(b1[0] == 3 && b1[1] == 4);
    assert(b1.subrange(2, 6) =~= GATEWAY_IP@);
    assert(b2[0] == 6 && b2[1] == 4);
    assert(b2.subrange(2, 6) =~= DNS_IP@);
    assert(b3[0] == 255);
    assert(option_of(b3, MESSAGE_TYPE) is None);
    assert(option_of(b2, MESSAGE_TYPE) == option_of(b3, MESSAGE_TYPE));
    assert(option_of(b1, MESSAGE_TYPE) == option_of(b2, MESSAGE_TYPE));
    assert(option_of(common, MESSAGE_TYPE) == option_of(b1, MESSAGE_TYPE));
    assert(option_of(b1, 6) == option_of(b2, 6));
    assert(option_of(common, 6) == option_of(b1, 6));
    assert(option_of(common, 3) == option_of(b1, 3));
}

} // verus!
