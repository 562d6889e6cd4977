//! What the unit is asked and shows, said on its own terms.
use vstd::prelude::*;
use crate::mt32::display::trimmed_end;
use crate::mt32::pace::{divides, divisor, Pace};
use crate::mt32::reply::{
    address_of, block_of, blocks, flat, gathered, linear_of, request_of, sum, Dump, Request,
};
use crate::mt32::rom::{carries_version, characters, version_line_at};
use crate::text::is_white;

verus! {

/// A request is thirteen bytes: exclusive, the maker, the device, the model
/// and the command, an address and a length of three bytes with seven bits in
/// each, a checksum that brings their sum to a multiple of 128, and the end.
/// Something must be asked for, and no more than 64 KiB.
pub proof fn law_requests_are_recognised(msg: Seq<u8>)
    requires
        msg.len() == 13,
        forall|i: int| 5 <= i < 12 ==> #[trigger] msg[i] < 128,
    ensures
        ({
            let addr = msg[5] * 16384 + msg[6] * 128 + msg[7];
            let len = msg[8] * 16384 + msg[9] * 128 + msg[10];
            let total = msg[5] + msg[6] + msg[7] + msg[8] + msg[9] + msg[10] + msg[11];
            if msg[0] == 0xf0 && msg[1] == 0x41 && msg[3] == 0x16 && msg[4] == 0x11 && msg[12] == 0xf7
                && total % 128 == 0 && 0 < len <= 65536 {
                request_of(msg) == Some(
                    Request { device: msg[2], addr: addr as u32, len: len as u32 },
                )
            } else {
                request_of(msg) is None
            }
        }),
        forall|other: Seq<u8>| other.len() != 13 ==> #[trigger] request_of(other) is None,
{
    let body = msg.subrange(5, 11);
    assert(msg[5] < 128 && msg[6] < 128 && msg[7] < 128 && msg[8] < 128 && msg[9] < 128 && msg[10]
        < 128 && msg[11] < 128);
    lemma_sum_of_six(body);
    lemma_check_closes(sum(body), msg[11]);
    let addr = msg.subrange(5, 8);
    let len = msg.subrange(8, 11);
    assert(addr[0] == msg[5] && addr[1] == msg[6] && addr[2] == msg[7]);
    assert(len[0] == msg[8] && len[1] == msg[9] && len[2] == msg[10]);
    lemma_flat(addr);
    lemma_flat(len);
}

proof fn lemma_flat(bytes: Seq<u8>)
    requires
        bytes.len() == 3,
        bytes[0] < 128 && bytes[1] < 128 && bytes[2] < 128,
    ensures
        flat(bytes) == bytes[0] * 16384 + bytes[1] * 128 + bytes[2],
{
}

proof fn lemma_check_closes(s: nat, c: u8)
    requires
        c < 128,
    ensures
        (((128 - s % 128) % 128) as u8 == c) <==> (s + c) % 128 == 0,
{
    let r = s % 128;
    assert((s + c) % 128 == (r + c) % 128);
}

proof fn lemma_sum_of_six(b: Seq<u8>)
    requires
        b.len() == 6,
        forall|i: int| 0 <= i < 6 ==> #[trigger] b[i] < 128,
    ensures
        sum(b) == b[0] + b[1] + b[2] + b[3] + b[4] + b[5],
{
    reveal_with_fuel(sum, 7);
    assert(b[0] < 128 && b[1] < 128 && b[2] < 128 && b[3] < 128 && b[4] < 128 && b[5] < 128);
}

/// A dump is read in stretches of 256 bytes, and the last as long as is left.
pub proof fn law_dumps_are_read_in_stretches(dump: Dump)
    ensures
        dump.left >= 256 ==> dump.take() == 256,
        dump.left < 256 ==> dump.take() == dump.left,
{
}

/// A reply carries the memory whole: in blocks of 256 bytes, each with the
/// address it starts at, and the rest in the last.
pub proof fn law_replies_carry_the_memory_whole(device: u8, addr: nat, memory: Seq<u8>)
    ensures
        memory.len() == 0 ==> blocks(device, addr, memory) == Seq::<u8>::empty(),
        0 < memory.len() <= 256 ==> blocks(device, addr, memory) == block_of(
            device,
            address_of(addr),
            memory,
        ),
        memory.len() > 256 ==> blocks(device, addr, memory) == block_of(
            device,
            address_of(addr),
            memory.subrange(0, 256),
        ) + blocks(device, addr + 256, memory.subrange(256, memory.len() as int)),
{
    if memory.len() > 256 {
        assert(memory.take(256) =~= memory.subrange(0, 256));
        assert(memory.skip(256) =~= memory.subrange(256, memory.len() as int));
    }
}

/// An address is three bytes with seven bits in each, the highest first, and
/// reads as it is written; a printed one has eight bits to each.
pub proof fn law_addresses_have_seven_bits_to_a_byte(addr: nat, bytes: Seq<u8>)
    requires
        addr < 0x20_0000,
        bytes.len() == 3,
        bytes[0] < 128 && bytes[1] < 128 && bytes[2] < 128,
    ensures
        address_of(addr).len() == 3,
        address_of(addr)[0] * 16384 + address_of(addr)[1] * 128 + address_of(addr)[2] == addr,
        address_of(addr)[0] < 128 && address_of(addr)[1] < 128 && address_of(addr)[2] < 128,
        flat(bytes) == bytes[0] * 16384 + bytes[1] * 128 + bytes[2],
        linear_of((bytes[0] * 65536 + bytes[1] * 256 + bytes[2]) as nat) == flat(bytes),
{
    let packed = (bytes[0] * 65536 + bytes[1] * 256 + bytes[2]) as nat;
    assert(packed / 65536 == bytes[0]);
    assert(packed / 256 == bytes[0] * 256 + bytes[1]);
    assert(packed / 256 % 128 == bytes[1]);
    assert(packed % 128 == bytes[2]);
    assert(addr / 16384 % 128 == addr / 16384);
}

/// A message is gathered from its exclusive status to its end: data is added
/// while there are fewer than 1024 bytes, real time bytes pass, another
/// channel's status drops it, and nothing is gathered before its status.
pub proof fn law_messages_are_gathered_byte_by_byte(pending: Seq<u8>, b: u8)
    ensures
        gathered(pending, 0xf0) == (seq![0xf0u8], None::<Request>),
        pending.len() > 0 ==> gathered(pending, 0xf7) == (
            Seq::<u8>::empty(),
            request_of(pending.push(0xf7)),
        ),
        b < 0x80 && 0 < pending.len() < 1024 ==> gathered(pending, b) == (
            pending.push(b),
            None::<Request>,
        ),
        b < 0x80 && pending.len() >= 1024 ==> gathered(pending, b) == (
            Seq::<u8>::empty(),
            None::<Request>,
        ),
        b >= 0xf8 ==> gathered(pending, b) == (pending, None::<Request>),
        0x80 <= b < 0xf0 ==> gathered(pending, b) == (Seq::<u8>::empty(), None::<Request>),
        pending.len() == 0 && b != 0xf0 && !(0x80 <= b < 0xf0) ==> gathered(pending, b) == (
            pending,
            None::<Request>,
        ),
{
}

/// The ratio is brought to its lowest terms: whatever divides both numbers
/// divides what they are divided by.
pub proof fn law_ratios_are_in_their_lowest_terms(a: nat, b: nat, d: nat)
    requires
        divides(d, a),
        divides(d, b),
    ensures
        divides(d, divisor(a, b)),
    decreases b,
{
    if b > 0 {
        let i = choose|k: nat| #[trigger] (k * d) == a;
        let j = choose|k: nat| #[trigger] (k * d) == b;
        let q = a / b;
        let r = a % b;
        assert(a == q * b + r) by (nonlinear_arith)
            requires
                q == a / b,
                r == a % b,
                b > 0,
        ;
        assert(r == (i - q * j) * d) by (nonlinear_arith)
            requires
                a == q * b + r,
                i * d == a,
                j * d == b,
        ;
        if d > 0 {
            assert(i - q * j >= 0) by (nonlinear_arith)
                requires
                    r == (i - q * j) * d,
                    r >= 0,
                    d > 0,
            ;
            let k = (i - q * j) as nat;
            assert(k * d == r);
        } else {
            assert(r == 0) by (nonlinear_arith)
                requires
                    r == (i - q * j) * d,
                    d == 0,
            ;
            assert(0 * d == r);
        }
        assert(divides(d, r));
        law_ratios_are_in_their_lowest_terms(b, r, d);
    }
}

/// A frame of the unit's is pulled where the phase comes round, and the phase
/// goes on by the unit's share, less what came round.
pub proof fn law_a_frame_is_pulled_as_the_phase_comes_round(p: Pace)
    requires
        p.wf(),
    ensures
        p.phase + p.inputs >= p.outputs ==> p.stepped().phase == p.phase + p.inputs - p.outputs,
        p.phase + p.inputs < p.outputs ==> p.stepped().phase == p.phase + p.inputs,
        p.stepped().inputs == p.inputs && p.stepped().outputs == p.outputs,
        p.pulled(0) == 0,
        p.pulled(1) == (if p.phase + p.inputs >= p.outputs {
            1nat
        } else {
            0
        }),
{
    reveal_with_fuel(Pace::pulled, 2);
}

/// The display shows its characters without the white space at their end.
pub proof fn law_displays_end_with_something(s: Seq<char>, blank: Seq<char>)
    requires
        s.len() > 0 ==> !is_white(s.last()),
        forall|i: int| 0 <= i < blank.len() ==> is_white(#[trigger] blank[i]),
    ensures
        trimmed_end(s + blank) == s,
    decreases blank.len(),
{
    let all = s + blank;
    if blank.len() > 0 {
        let rest = blank.drop_last();
        assert forall|i: int| 0 <= i < rest.len() implies is_white(#[trigger] rest[i]) by {
            assert(rest[i] == blank[i]);
        }
        assert(all.last() == blank.last());
        assert(is_white(blank[blank.len() - 1]));
        assert(all.drop_last() =~= s + rest);
        law_displays_end_with_something(s, rest);
    } else {
        assert(all =~= s);
    }
}

/// A version line is twenty characters that can be printed, with a version
/// among them: a figure, a point and two figures, where a figure may be an X.
pub proof fn law_version_lines_carry_a_version(image: Seq<u8>, at: int)
    requires
        0 <= at,
        at + 20 <= image.len(),
    ensures
        version_line_at(image, at) <==> {
            &&& forall|i: int| at <= i < at + 20 ==> 0x20 <= #[trigger] image[i] <= 0x7e
            &&& exists|i: int|
                #![trigger image[i]]
                at <= i <= at + 16 && image[i + 1] == '.' as u8 && figure(image[i]) && figure(
                    image[i + 2],
                ) && figure(image[i + 3])
        },
        forall|i: int|
            at <= i < at + 20 ==> characters(image.subrange(at, at + 20))[i - at] == (
            #[trigger] image[i]) as char,
{
    let line = image.subrange(at, at + 20);
    assert forall|i: int| at <= i < at + 20 implies line[i - at] == #[trigger] image[i] by {}
    if version_line_at(image, at) {
        assert forall|i: int| at <= i < at + 20 implies 0x20 <= #[trigger] image[i] <= 0x7e by {
            assert(crate::mt32::rom::is_printable(line[i - at]));
        }
        let k = choose|k: int|
            0 <= k && k + 4 <= line.len() && #[trigger] crate::mt32::rom::version_at(line, k);
        assert(image[at + k] == line[k]);
    }
    if exists|i: int|
        #![trigger image[i]]
        at <= i <= at + 16 && image[i + 1] == '.' as u8 && figure(image[i]) && figure(image[i + 2])
            && figure(image[i + 3]) {
        let i = choose|i: int|
            #![trigger image[i]]
            at <= i <= at + 16 && image[i + 1] == '.' as u8 && figure(image[i]) && figure(
                image[i + 2],
            ) && figure(image[i + 3]);
        assert(crate::mt32::rom::version_at(line, i - at));
        assert(carries_version(line));
    }
}

/// A figure of a version: a digit, or an X of either case.
pub open spec fn figure(b: u8) -> bool {
    '0' as u8 <= b <= '9' as u8 || b == 'x' as u8 || b == 'X' as u8
}

} // verus!
