//! What the MIDI bridge does with bytes and names, said on its own terms.
use vstd::prelude::*;
use crate::midi::endpoints::{
    answers, before_zero, first_named, is_offered, next_place, offered, place_of, stands_for,
    Endpoint, SequencerPort,
};
use crate::midi::framer::{length_of, Framing};
use crate::midi::input::{filled, passed};
use crate::midi::trace::{description, hex, last_bytes};
use crate::text::{decimal, hex_value};

verus! {

/// How long a message is goes by its status: three bytes for notes, pressure
/// on a key, controls and the bend, two for programs and pressure on a
/// channel; of the system's, three for a song's position, two for a quarter
/// of a frame and a song's number, and one for all else.
pub proof fn law_messages_have_their_length(status: u8)
    requires
        status >= 0x80,
    ensures
        status < 0xc0 ==> length_of(status) == 3,
        0xc0 <= status < 0xe0 ==> length_of(status) == 2,
        0xe0 <= status < 0xf0 ==> length_of(status) == 3,
        status == 0xf1 || status == 0xf3 ==> length_of(status) == 2,
        status == 0xf2 ==> length_of(status) == 3,
        status == 0xf0 || status >= 0xf4 ==> length_of(status) == 1,
{
}

/// An exclusive message that another status breaks off goes out as far as it
/// came, and the status begins its own message; data before any status is
/// dropped.
pub proof fn law_broken_messages_go_out(f: Framing, b: u8)
    ensures
        f.in_sysex && 0x80 <= b < 0xf0 ==> {
            &&& f.fed(b).1 == seq![f.buf]
            &&& !f.fed(b).0.in_sysex
            &&& f.fed(b).0.status == b
            &&& f.fed(b).0.buf == seq![b]
        },
        f.in_sysex && b == 0xf7 ==> f.fed(b).1 == seq![f.buf.push(0xf7)] && !f.fed(b).0.in_sysex
            && f.fed(b).0.buf.len() == 0,
        !f.in_sysex && b == 0xf0 ==> f.fed(b).1.len() == 0 && f.fed(b).0.in_sysex && f.fed(b).0.buf
            == seq![0xf0u8],
        !f.in_sysex && f.buf.len() == 0 && f.status == 0 && b < 0x80 ==> f.fed(b) == (
            f,
            Seq::<Seq<u8>>::empty(),
        ),
        b >= 0xf8 ==> f.fed(b) == (f, seq![seq![b]]),
{
    if f.in_sysex && 0x80 <= b < 0xf0 {
        let none = Framing { buf: Seq::empty(), in_sysex: false, ..f };
        assert(length_of(b) > 1);
        assert(none.fed_plain(b).1 =~= Seq::<Seq<u8>>::empty());
        assert(f.fed(b).1 =~= seq![f.buf]);
    }
}

/// Stepping goes through every endpoint and through none, forward in their
/// order and backward against it.
pub proof fn law_stepping_goes_round(here: int, count: int)
    requires
        0 <= here < count,
    ensures
        here + 1 < count ==> next_place(here, count, true) == here + 1,
        here + 1 == count ==> next_place(here, count, true) == 0,
        here > 0 ==> next_place(here, count, false) == here - 1,
        here == 0 ==> next_place(here, count, false) == count - 1,
{
    if here + 1 == count {
        assert((here + 1) % count == 0) by (nonlinear_arith)
            requires
                here + 1 == count,
                count > 0,
        ;
    } else {
        vstd::arithmetic::div_mod::lemma_small_mod((here + 1) as nat, count as nat);
    }
    if here > 0 {
        vstd::arithmetic::div_mod::lemma_mod_add_multiples_vanish(here - 1, count);
        vstd::arithmetic::div_mod::lemma_small_mod((here - 1) as nat, count as nat);
        assert(here + count - 1 == count + (here - 1));
    } else {
        vstd::arithmetic::div_mod::lemma_small_mod((count - 1) as nat, count as nat);
    }
}

/// The place of the endpoint at hand is one past its index, its first where a
/// name comes twice; none, and a name that is gone, stand at zero.
pub proof fn law_endpoints_have_their_place(list: Seq<Seq<char>>, i: int)
    requires
        0 <= i < list.len(),
        forall|j: int| 0 <= j < i ==> list[j] != list[i],
    ensures
        place_of(Some(list[i]), list) == i + 1,
        place_of(None, list) == 0,
        forall|name: Seq<char>| !list.contains(name) ==> #[trigger] place_of(Some(name), list) == 0,
{
    let name = list[i];
    assert(list.contains(name));
    list.index_of_first_ensures(name);
    let k = list.index_of_first(name)->0;
    assert(0 <= k < list.len() && list[k] == name);
    if k > i {
        assert(list[i] != name);
    }
}

/// An endpoint answers to its own name.
pub proof fn law_endpoints_answer_to_their_name(name: Seq<char>)
    ensures
        answers(name, name),
{
    let low = crate::text::lowercase_text(name);
    let none = Seq::<char>::empty();
    crate::text::law_parts_occur_inside(none, low, none);
    assert(none + low + none =~= low);
}

/// A sequencer's port is offered where it is not the system's, not one's own,
/// and lacks none of what is asked of it.
pub proof fn law_ports_are_offered_that_lack_nothing(p: SequencerPort, caps: u32, own: Seq<i32>)
    ensures
        is_offered(p, caps, own) <==> p.client != 0 && !own.contains(p.client) && caps
            & !p.capabilities == 0,
{
    let have = p.capabilities;
    assert((have & caps == caps) == (caps & !have == 0)) by (bit_vector);
}

/// Ports are offered in their order.
pub proof fn law_ports_are_offered_in_order(
    ports: Seq<SequencerPort>,
    caps: u32,
    own: Seq<i32>,
    n: int,
)
    requires
        0 < n <= ports.len(),
    ensures
        offered(ports, caps, own, n) == (if is_offered(ports[n - 1], caps, own) {
            offered(ports, caps, own, n - 1).push(ports[n - 1])
        } else {
            offered(ports, caps, own, n - 1)
        }),
        offered(ports, caps, own, 0) == Seq::<SequencerPort>::empty(),
{
}

/// A name in units ends before the first zero.
pub proof fn law_names_end_at_the_zero(units: Seq<u16>, rest: Seq<u16>)
    requires
        forall|i: int| 0 <= i < units.len() ==> units[i] != 0,
    ensures
        before_zero(units + seq![0u16] + rest) == units,
        before_zero(units) == units,
    decreases units.len(),
{
    let all = units + seq![0u16] + rest;
    if units.len() > 0 {
        let less = units.drop_first();
        assert forall|i: int| 0 <= i < less.len() implies less[i] != 0 by {
            assert(less[i] == units[i + 1]);
        }
        law_names_end_at_the_zero(less, rest);
        assert(all.drop_first() =~= less + seq![0u16] + rest);
        assert(all[0] == units[0]);
        assert(seq![units[0]] + less =~= units);
    } else {
        assert(all[0] == 0);
        assert(before_zero(all) =~= units);
        assert(before_zero(units) =~= units);
    }
}

/// Where active sensing is stripped, just the bytes 0xfe are left out; else
/// nothing is. The rest keep their order.
pub proof fn law_only_active_sensing_is_stripped(data: Seq<u8>, n: int)
    requires
        0 < n <= data.len(),
    ensures
        passed(data, true, n) == (if data[n - 1] == 0xfe {
            passed(data, true, n - 1)
        } else {
            passed(data, true, n - 1).push(data[n - 1])
        }),
        passed(data, false, n) == passed(data, false, n - 1).push(data[n - 1]),
        passed(data, true, 0) == Seq::<u8>::empty(),
        passed(data, false, 0) == Seq::<u8>::empty(),
{
}

/// The ring takes what fits, from the front; the rest is lost.
pub proof fn law_the_ring_takes_what_fits(before: Seq<u8>, more: Seq<u8>, room: nat)
    requires
        before.len() <= room,
    ensures
        before.len() + more.len() <= room ==> filled(before, more, room) == before + more,
        before.len() + more.len() > room ==> filled(before, more, room) == before + more.take(
            room - before.len(),
        ),
{
    if before.len() + more.len() > room {
        assert(filled(before, more, room) =~= before + more.take(room - before.len()));
    }
}

/// Bytes are written in two hexadecimal digits each, with blanks between
/// them.
pub proof fn law_bytes_are_written_apart(bytes: Seq<u8>, i: int)
    requires
        0 <= i < bytes.len(),
    ensures
        hex(bytes).len() == 3 * bytes.len() - 1,
        hex_value(hex(bytes)[3 * i]) == Some(bytes[i] as int / 16),
        hex_value(hex(bytes)[3 * i + 1]) == Some(bytes[i] as int % 16),
        i + 1 < bytes.len() ==> hex(bytes)[3 * i + 2] == ' ',
        hex(Seq::empty()) == Seq::<char>::empty(),
    decreases bytes.len(),
{
    reveal_strlit(" ");
    assert(" "@ =~= seq![' ']);
    let last = bytes.last();
    crate::text::law_hexadecimal_digits_read_back(last as int / 16);
    crate::text::law_hexadecimal_digits_read_back(last as int % 16);
    if bytes.len() > 1 {
        let early = bytes.drop_last();
        law_bytes_are_written_apart(
            early,
            if i < early.len() {
                i
            } else {
                0
            },
        );
        let text = hex(bytes);
        assert(text == hex(early) + " "@ + crate::text::hex_byte(last));
        if i < early.len() {
            assert(early[i] == bytes[i]);
            assert(text[3 * i] == hex(early)[3 * i]);
            assert(text[3 * i + 1] == hex(early)[3 * i + 1]);
            if i + 1 < early.len() {
                assert(text[3 * i + 2] == hex(early)[3 * i + 2]);
            }
        }
    }
}

/// Messages of a channel are described by their kind, their channel counted
/// from one, and their data; a note struck at no velocity is one let go.
pub proof fn law_channel_messages_are_described(channel: u8, a: u8, b: u8)
    requires
        channel < 16,
    ensures
        ({
            let ch = decimal((channel + 1) as nat);
            let x = decimal(a as nat);
            let y = decimal(b as nat);
            &&& description(seq![(0x80 + channel) as u8, a, b]) == "Note Off   ch"@ + ch + " note "@ + x
                + " vel "@ + y
            &&& b > 0 ==> description(seq![(0x90 + channel) as u8, a, b]) == "Note On    ch"@ + ch
                + " note "@ + x + " vel "@ + y
            &&& description(seq![(0x90 + channel) as u8, a, 0]) == "Note Off   ch"@ + ch + " note "@ + x
                + " (vel 0)"@
            &&& description(seq![(0xa0 + channel) as u8, a, b]) == "Poly AT    ch"@ + ch + " note "@ + x
                + " press "@ + y
            &&& description(seq![(0xb0 + channel) as u8, a, b]) == "Control    ch"@ + ch + " cc "@ + x
                + " val "@ + y
            &&& description(seq![(0xc0 + channel) as u8, a]) == "Program    ch"@ + ch + " "@ + x
            &&& description(seq![(0xd0 + channel) as u8, a]) == "Chan AT    ch"@ + ch + " "@ + x
            &&& description(seq![(0xe0 + channel) as u8, a, b]) == "Pitch Bend ch"@ + ch + " lsb "@ + x
                + " msb "@ + y
        }),
{
}

/// Messages of the system are described by their status, and a message that
/// begins with data by its bytes.
pub proof fn law_system_messages_are_described(rest: Seq<u8>, a: u8)
    ensures
        description(seq![0xf0u8] + rest) == "SysEx ("@ + decimal(rest.len() + 1) + " bytes)"@,
        description(seq![0xf1u8, a]) == "MTC Quarter Frame "@ + decimal(a as nat),
        description(seq![0xf2u8] + rest) == "Song Position"@,
        description(seq![0xf3u8, a]) == "Song Select "@ + decimal(a as nat),
        description(seq![0xf6u8] + rest) == "Tune Request"@,
        description(seq![0xf8u8] + rest) == "Clock"@,
        description(seq![0xfau8] + rest) == "Start"@,
        description(seq![0xfbu8] + rest) == "Continue"@,
        description(seq![0xfcu8] + rest) == "Stop"@,
        description(seq![0xfeu8] + rest) == "Active Sense"@,
        description(seq![0xffu8] + rest) == "Reset"@,
        a < 0x80 ==> description(seq![a] + rest) == "data "@ + hex(seq![a] + rest),
        description(Seq::empty()) == "(empty)"@,
{
}

/// The sample is the end of all that was recorded, as much as it holds.
pub proof fn law_the_sample_is_the_end(bytes: Seq<u8>, n: nat)
    ensures
        last_bytes(bytes, n).len() == (if bytes.len() < n { bytes.len() } else { n }),
        bytes.take(bytes.len() - last_bytes(bytes, n).len()) + last_bytes(bytes, n) == bytes,
{
    let last = last_bytes(bytes, n);
    assert(bytes.take(bytes.len() - last.len()) + last =~= bytes);
}

/// An endpoint answers to any part of its name, whatever the case of letters.
pub proof fn law_endpoints_answer_to_a_part(
    name: Seq<char>,
    want: Seq<char>,
    a: Seq<char>,
    b: Seq<char>,
)
    requires
        crate::text::lowercase_text(name) == a + crate::text::lowercase_text(want) + b,
    ensures
        answers(name, want),
{
    crate::text::law_parts_occur_inside(a, crate::text::lowercase_text(want), b);
}

/// The endpoint that a name finds is the first that answers to it, and none
/// is found where none does.
pub proof fn law_the_first_that_answers_is_found(
    list: Seq<Seq<char>>,
    want: Seq<char>,
    found: Option<usize>,
    i: int,
)
    requires
        first_named(list, want, found),
        0 <= i < list.len(),
        answers(list[i], want),
    ensures
        found is Some,
        found->0 <= i,
        found->0 < list.len(),
        answers(list[found->0 as int], want),
{
}

/// An endpoint names its port by the client's name and the port's, with a
/// colon between them.
pub proof fn law_endpoints_name_their_port(e: Endpoint, p: SequencerPort)
    requires
        stands_for(e, p),
    ensures
        e.client == p.client && e.port == p.port,
        e.name@ == p.client_name@ + seq![':'] + p.port_name@,
{
    reveal_strlit(":");
    assert(":"@ =~= seq![':']);
}

} // verus!
