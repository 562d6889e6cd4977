//! What the bridge lets through and hands on, byte by byte.
use vstd::prelude::*;
use crate::net::backend::{config_of, NetConfigView, NetError};
use crate::net::bridge::{
    acceptable, burst_over, gathered, group_filter, helper_image, mac_words, source_station,
    station_filter, told, AdapterEvent, BridgeBackend, Command, HostInterface, Instruction, Worker,
};
use crate::ranking::Ranked;
use crate::text::{before, lowered, trimmed};

verus! {

/// A frame from the network is for the guest where it has a header, is not
/// the guest's own, and goes to the guest or to many.
pub proof fn law_frames_for_the_guest_are_let_through(frame: Seq<u8>, mac: [u8; 6])
    ensures
        acceptable(frame, Some(mac)) <==> frame.len() >= 14 && frame.subrange(6, 12) != mac@ && (
        frame[0] % 2 == 1 || frame.subrange(0, 6) == mac@),
        acceptable(frame, None) <==> frame.len() >= 14 && frame[0] % 2 == 1,
{
}

/// The guest's address is that of a frame it sends as a single station, and
/// not the address of nobody.
pub proof fn law_stations_are_known_by_their_frames(frame: Seq<u8>)
    ensures
        source_station(frame) is Some <==> frame.len() >= 12 && frame[6] % 2 == 0 && !(frame[6] == 0
            && frame[7] == 0 && frame[8] == 0 && frame[9] == 0 && frame[10] == 0 && frame[11] == 0),
        source_station(frame) matches Some(mac) ==> mac.len() == 6 && forall|i: int|
            0 <= i < 6 ==> mac[i] == #[trigger] frame[6 + i],
{
    if frame.len() >= 12 {
        let mac = frame.subrange(6, 12);
        let nobody = Seq::new(6, |i: int| 0u8);
        assert(mac[0] == frame[6] && mac[1] == frame[7] && mac[2] == frame[8] && mac[3] == frame[9]
            && mac[4] == frame[10] && mac[5] == frame[11]);
        if frame[6] == 0 && frame[7] == 0 && frame[8] == 0 && frame[9] == 0 && frame[10] == 0
            && frame[11] == 0 {
            assert(mac =~= nobody);
        }
        if mac == nobody {
            assert(mac[0] == nobody[0] && mac[1] == nobody[1] && mac[2] == nobody[2] && mac[3]
                == nobody[3] && mac[4] == nobody[4] && mac[5] == nobody[5]);
        }
    }
}

/// A frame of the guest's waits for the adapter as it is, behind what waits,
/// while fewer than 256 commands do; where it tells a new address, that comes
/// before it. Nothing is taken where the bridge has stopped.
pub proof fn law_sent_frames_wait_for_the_adapter(
    b: BridgeBackend,
    frame: Seq<u8>,
    after: BridgeBackend,
)
    requires
        b.wf(),
        b.transmits(frame, after),
    ensures
        !b.running || b.to_adapter@.len() >= 256 ==> after == b,
        b.running && b.to_adapter@.len() < 255 ==> (after.to_adapter@.last() matches Command::Frame(
            copy,
        ) && copy@ == frame),
        b.running && b.to_adapter@.len() < 256 ==> (source_station(frame) matches Some(mac)
            ==> after.guest_mac matches Some(known) && known@ == mac),
        b.running && source_station(frame) is None ==> after.guest_mac == b.guest_mac,
        after.to_adapter@.len() <= 256,
        after.to_adapter@.take(b.to_adapter@.len() as int) == b.to_adapter@,
        after.to_guest == b.to_guest,
{
    let n = b.to_adapter@.len() as int;
    assert(b.to_adapter@.take(n) =~= b.to_adapter@);
    if after.to_adapter@.len() == n + 1 && after.to_adapter@.drop_last() == b.to_adapter@ {
        assert(after.to_adapter@.take(n) =~= after.to_adapter@.drop_last());
    }
}

/// The adapter is told what waits in its order: frames are sent, addresses
/// filtered for.
pub proof fn law_commands_are_carried_out_in_order(commands: Seq<Command>, i: int)
    requires
        0 <= i < commands.len(),
    ensures
        told(commands).len() == commands.len(),
        match commands[i] {
            Command::Frame(frame) => told(commands)[i] == AdapterEvent::Sent(frame@, true),
            Command::GuestMac(mac) => told(commands)[i] == AdapterEvent::Filtered(mac@, true),
        },
{
}

/// The address that frames are held against is the last that was announced.
pub proof fn law_the_last_address_counts(mac: Option<[u8; 6]>, commands: Seq<Command>, c: Command)
    ensures
        Worker::mac_after(mac, Seq::empty()) == mac,
        c matches Command::GuestMac(new) ==> Worker::mac_after(mac, commands.push(c)) == Some(new),
        c is Frame ==> Worker::mac_after(mac, commands.push(c)) == Worker::mac_after(mac, commands),
{
    assert(commands.push(c).drop_last() =~= commands);
}

/// Of what the adapter captures, the frames for the guest are queued in their
/// order, 512 at most.
pub proof fn law_captured_frames_are_queued(
    queue: Seq<Seq<u8>>,
    mac: Option<[u8; 6]>,
    burst: Seq<AdapterEvent>,
    frame: Seq<u8>,
)
    ensures
        gathered(queue, mac, Seq::empty()) == queue,
        gathered(queue, mac, burst.push(AdapterEvent::Captured(frame))) == (if acceptable(frame, mac)
            && gathered(queue, mac, burst).len() < 512 {
            gathered(queue, mac, burst).push(frame)
        } else {
            gathered(queue, mac, burst)
        }),
        gathered(queue, mac, burst.push(AdapterEvent::Quiet)) == gathered(queue, mac, burst),
{
    assert(burst.push(AdapterEvent::Captured(frame)).drop_last() =~= burst);
    assert(burst.push(AdapterEvent::Quiet).drop_last() =~= burst);
}

/// A pass over the adapter ends where it has nothing, is gone, after 128
/// frames, or at a frame that finds no room.
pub proof fn law_a_pass_takes_what_there_is(
    queue: Seq<Seq<u8>>,
    mac: Option<[u8; 6]>,
    burst: Seq<AdapterEvent>,
    frame: Seq<u8>,
)
    requires
        burst.len() < 127,
    ensures
        burst_over(queue, mac, burst.push(AdapterEvent::Quiet)),
        burst_over(queue, mac, burst.push(AdapterEvent::Gone)),
        burst_over(queue, mac, burst.push(AdapterEvent::Captured(frame))) <==> acceptable(frame, mac)
            && gathered(queue, mac, burst).len() >= 512,
        forall|more: Seq<AdapterEvent>| more.len() >= 128 ==> #[trigger] burst_over(queue, mac, more),
{
    assert(burst.push(AdapterEvent::Captured(frame)).drop_last() =~= burst);
}

/// The kernel's filter, instruction by instruction: the destination's first
/// two bytes and its last four are held against the guest's, and then the
/// group bit of its first byte; what passes is taken whole.
pub proof fn law_the_kernel_filter_is_written_out(mac: Seq<u8>)
    requires
        mac.len() == 6,
    ensures
        group_filter() == seq![
            Instruction { code: 0x30, jt: 0, jf: 0, k: 0 },
            Instruction { code: 0x45, jt: 0, jf: 1, k: 1 },
            Instruction { code: 0x06, jt: 0, jf: 0, k: 65535 },
            Instruction { code: 0x06, jt: 0, jf: 0, k: 0 },
        ],
        station_filter(mac) == seq![
            Instruction { code: 0x28, jt: 0, jf: 0, k: 0 },
            Instruction { code: 0x15, jt: 0, jf: 2, k: (mac[0] * 256 + mac[1]) as u32 },
            Instruction { code: 0x20, jt: 0, jf: 0, k: 2 },
            Instruction {
                code: 0x15,
                jt: 2,
                jf: 0,
                k: (mac[2] * 0x100_0000 + mac[3] * 0x1_0000 + mac[4] * 0x100 + mac[5]) as u32,
            },
        ] + group_filter(),
{
    crate::bytes::law_two_bytes(mac.subrange(0, 2), 0);
    crate::bytes::law_four_bytes(mac.subrange(2, 6), 0);
}

/// A request to the helper, byte by byte: `CLNETFD1`, the length of the
/// interface's name, the name and the guest's address.
pub proof fn law_helper_requests_are_laid_out(interface: Seq<u8>, mac: Seq<u8>)
    requires
        interface.len() < 256,
        mac.len() == 6,
    ensures
        ({
            let m = helper_image(interface, mac);
            let n = interface.len() as int;
            &&& m.len() == n + 16
            &&& m.subrange(0, 8) == seq![
                'C' as u8, 'L' as u8, 'N' as u8, 'E' as u8, 'T' as u8, 'F' as u8, 'D' as u8, '1' as u8,
            ]
            &&& m[8] == 0 && m[9] == n
            &&& m.subrange(10, 10 + n) == interface
            &&& m.subrange(10 + n, 16 + n) == mac
        }),
{
    let m = helper_image(interface, mac);
    let n = interface.len() as int;
    crate::bytes::law_two_bytes(seq![0u8, 0], interface.len());
    assert(crate::net::bridge::HELPER_MAGIC@ =~= seq![
        'C' as u8, 'L' as u8, 'N' as u8, 'E' as u8, 'T' as u8, 'F' as u8, 'D' as u8, '1' as u8,
    ]);
    assert(m.subrange(0, 8) =~= crate::net::bridge::HELPER_MAGIC@);
    assert(m.subrange(10, 10 + n) =~= interface);
    assert(m.subrange(10 + n, 16 + n) =~= mac);
}

/// An address is written as six numbers of two hexadecimal digits, with
/// colons between them.
pub proof fn law_addresses_are_written_in_six_pairs(mac: Seq<u8>, i: int)
    requires
        mac.len() == 6,
        0 <= i < 6,
    ensures
        mac_words(mac).len() == 17,
        crate::text::hex_value(mac_words(mac)[3 * i]) == Some(mac[i] as int / 16),
        crate::text::hex_value(mac_words(mac)[3 * i + 1]) == Some(mac[i] as int % 16),
        i < 5 ==> mac_words(mac)[3 * i + 2] == ':',
{
    reveal_strlit(":");
    let w = mac_words(mac);
    let b = crate::text::hex_byte(mac[i]);
    assert(w[3 * i] == b[0] && w[3 * i + 1] == b[1]) by {
        assert(i == 0 || i == 1 || i == 2 || i == 3 || i == 4 || i == 5);
    }
}

/// Interfaces are offered with those that run first, then those that are up,
/// those that are no loopback, and by name.
pub proof fn law_running_interfaces_come_first(a: HostInterface, b: HostInterface)
    ensures
        a.running && !b.running ==> a.better(b) && !b.better(a),
        a.running == b.running && a.up && !b.up ==> a.better(b) && !b.better(a),
        a.running == b.running && a.up == b.up && !a.loopback && b.loopback ==> a.better(b)
            && !b.better(a),
        a.running == b.running && a.up == b.up && a.loopback == b.loopback ==> (a.better(b)
            <==> before(a.name@, b.name@)),
{
}

/// An interface is labelled by its description and its name in brackets, or
/// by its name alone where there is no other description.
pub proof fn law_interfaces_are_labelled(i: HostInterface)
    ensures
        i.description is None ==> i.words() == i.name@,
        i.description matches Some(d) ==> (d@ == i.name@ ==> i.words() == i.name@),
        i.description matches Some(d) ==> (d@ != i.name@ ==> i.words() == d@ + seq![' ', '['] + i.name@
            + seq![']']),
{
    reveal_strlit(" [");
    reveal_strlit("]");
    assert(" ["@ =~= seq![' ', '[']);
    assert("]"@ =~= seq![']']);
}

/// A backend is named by a word, in any case and with white space round it;
/// a bridge needs an interface, which is taken without the space round it.
pub proof fn law_backends_are_named(s: Seq<char>, interface: Option<Seq<char>>)
    ensures
        lowered(trimmed(s)) == "none"@ || lowered(trimmed(s)) == "off"@ || trimmed(s).len() == 0
            ==> config_of(s, interface) == Ok::<NetConfigView, NetError>(NetConfigView::Isolated),
        lowered(trimmed(s)) == "loopback"@ || lowered(trimmed(s)) == "loop"@ ==> config_of(
            s,
            interface,
        ) == Ok::<NetConfigView, NetError>(NetConfigView::Loopback),
        lowered(trimmed(s)) == "nat"@ ==> config_of(s, interface) == Ok::<NetConfigView, NetError>(
            NetConfigView::Nat,
        ),
        lowered(trimmed(s)) == "bridge"@ || lowered(trimmed(s)) == "bridged"@ ==> config_of(
            s,
            interface,
        ) == (if interface is Some && trimmed(interface->0).len() > 0 {
            Ok::<NetConfigView, NetError>(
                NetConfigView::Bridge { interface: trimmed(interface->0) },
            )
        } else {
            Err(NetError::NeedsInterface)
        }),
        lowered(trimmed(s)) != "none"@ && lowered(trimmed(s)) != "off"@ && trimmed(s).len() > 0
            && lowered(trimmed(s)) != "loopback"@ && lowered(trimmed(s)) != "loop"@ && lowered(
            trimmed(s),
        ) != "nat"@ && lowered(trimmed(s)) != "bridge"@ && lowered(trimmed(s)) != "bridged"@
            ==> config_of(s, interface) == Err::<NetConfigView, NetError>(NetError::UnknownBackend),
{
    reveal_strlit("none");
    reveal_strlit("off");
    reveal_strlit("");
    reveal_strlit("loopback");
    reveal_strlit("loop");
    reveal_strlit("nat");
    reveal_strlit("bridge");
    reveal_strlit("bridged");
    let word = lowered(trimmed(s));
    assert(word.len() == trimmed(s).len());
    if trimmed(s).len() == 0 {
        assert(word =~= ""@);
    }
    assert("none"@.len() == 4 && "none"@[1] == 'o' && "none"@[0] == 'n' && "nat"@.len() == 3 && "nat"@[0]
        == 'n' && "off"@[0] == 'o' && "loopback"@[0] == 'l' && "loop"@[0] == 'l' && "bridge"@[0]
        == 'b' && "bridged"@[0] == 'b');
}

/// Where the adapter fails, what was told before it was carried out, the
/// command that failed is lost, and the others wait on in their order.
pub proof fn law_a_failed_command_is_lost(
    before: BridgeBackend,
    history: Seq<AdapterEvent>,
    after: BridgeBackend,
    later: Seq<AdapterEvent>,
    n: int,
)
    requires
        Worker::breaks_off(before, history, after, later, n),
    ensures
        0 < n <= before.to_adapter@.len(),
        later.len() == history.len() + n,
        forall|i: int|
            0 <= i < n - 1 ==> #[trigger] later[history.len() + i] == (match before.to_adapter@[i] {
                Command::Frame(frame) => AdapterEvent::Sent(frame@, true),
                Command::GuestMac(mac) => AdapterEvent::Filtered(mac@, true),
            }),
        later.last() == (match before.to_adapter@[n - 1] {
            Command::Frame(frame) => AdapterEvent::Sent(frame@, false),
            Command::GuestMac(mac) => AdapterEvent::Filtered(mac@, false),
        }),
        after.to_adapter@ == before.to_adapter@.subrange(n, before.to_adapter@.len() as int),
        after.to_guest == before.to_guest && after.guest_mac == before.guest_mac,
{
    assert(after.to_adapter@ =~= before.to_adapter@.subrange(
        n,
        before.to_adapter@.len() as int,
    ));
}

/// A whole pass carries out every command, then takes what the adapter has;
/// what it captured is held against the address that was announced last.
pub proof fn law_a_pass_carries_everything_out(
    mac: Option<[u8; 6]>,
    before: BridgeBackend,
    history: Seq<AdapterEvent>,
    after: BridgeBackend,
    later: Seq<AdapterEvent>,
    burst: Seq<AdapterEvent>,
)
    requires
        Worker::carries_out(mac, before, history, after, later, burst),
    ensures
        after.to_adapter@.len() == 0,
        later.len() == history.len() + before.to_adapter@.len() + burst.len(),
        later.take(history.len() as int) == history,
        later.skip(later.len() - burst.len()) == burst,
        burst.len() > 0 && burst.len() <= 128,
        crate::net::backend::frames(after.to_guest@) == gathered(
            crate::net::backend::frames(before.to_guest@),
            Worker::mac_after(mac, before.to_adapter@),
            burst,
        ),
{
    assert(later.take(history.len() as int) =~= history);
    assert(later.skip(later.len() - burst.len()) =~= burst);
    let queue = crate::net::backend::frames(before.to_guest@);
    let now = Worker::mac_after(mac, before.to_adapter@);
    if burst.len() > 128 {
        assert(burst_over(queue, now, burst.take(128)));
    }
    assert(burst_over(queue, now, burst));
}

} // verus!
