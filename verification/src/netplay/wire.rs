//! Small fixed-layout datagrams of a two-player session. No remote state
//! deserialization or allocation from an untrusted length. Redundant
//! unacknowledged inputs fit below the MTU.
use vstd::prelude::*;
use crate::bytes::{le, le_value, lemma_byte_range, lemma_le_len, lemma_le_reads_back,
    push_all, push_le, read_le, take_16, take_32};
use crate::netplay::input::Input;
use crate::netplay::rollback::HASH_INTERVAL;

verus! {

/// Version of the datagram layout.
pub const VERSION: u16 = 1;

/// Version of the machine snapshots the session's digests are taken of.
pub const STATE_VERSION: u32 = 1;

/// Inputs one datagram can carry.
pub const MAX_INPUTS: usize = 32;

/// Bytes before the first input record.
pub const HEADER: usize = 111;

/// Bytes of one input record.
pub const INPUT_RECORD: usize = 26;

/// The longest datagram.
pub const MAX_PACKET: usize = 943;

/// What a datagram of the two-player format says.
#[derive(Clone, Debug, PartialEq, Eq)]
pub struct Packet {
    pub session: [u8; 16],
    pub identity: [u8; 32],
    pub player: usize,
    pub ready: bool,
    pub delay: u8,
    pub window: u8,
    /// Next input needed; all frames below it have been received.
    pub ack: u64,
    pub inputs: Vec<(u64, Input)>,
    pub checksum: Option<(u64, [u8; 32])>,
}

/// The four bytes every datagram opens with.
pub open spec fn magic() -> Seq<u8> {
    seq![0x43u8, 0x4cu8, 0x4eu8, 0x50u8]
}

/// One input record.
pub open spec fn record(entry: (u64, Input)) -> Seq<u8> {
    le(entry.0 as nat, 8) + le(entry.1.buttons as nat, 2) + entry.1.keys@
}

/// Input records, one after another.
pub open spec fn records(entries: Seq<(u64, Input)>) -> Seq<u8>
    decreases entries.len(),
{
    if entries.len() == 0 {
        Seq::empty()
    } else {
        records(entries.drop_last()) + record(entries.last())
    }
}

/// The input at a record's place: controller bits and keys, no motion.
pub open spec fn record_at(bytes: Seq<u8>, at: int, entry: (u64, Input)) -> bool {
    &&& le_value(bytes.subrange(at, at + 8)) == entry.0
    &&& le_value(bytes.subrange(at + 8, at + 10)) == entry.1.buttons
    &&& bytes.subrange(at + 10, at + 26) == entry.1.keys@
    &&& entry.1.mouse_dx == 0
    &&& entry.1.mouse_dy == 0
    &&& entry.1.mouse_buttons == 0
}

impl Packet {
    /// What a peer may say: ports, delays and windows in range, no more
    /// inputs than fit, in ascending frame order and with controller bits
    /// and keys only, and a digest only of a checkpoint.
    pub open spec fn acceptable(self) -> bool {
        &&& self.player <= 1
        &&& self.delay <= 6
        &&& 1 <= self.window <= 12
        &&& self.inputs@.len() <= MAX_INPUTS
        &&& forall|i: int| 0 <= i < self.inputs@.len() ==> input_acceptable(#[trigger] self.inputs@[i])
        &&& forall|i: int, j: int|
            0 <= i < j < self.inputs@.len() ==> #[trigger] self.inputs@[i].0
                < #[trigger] self.inputs@[j].0
        &&& self.checksum matches Some(c) ==> c.0 > 0 && c.0 % HASH_INTERVAL == 0
    }

    /// The datagram of this packet.
    pub open spec fn image(self) -> Seq<u8> {
        magic() + le(VERSION as nat, 2) + le(STATE_VERSION as nat, 4) + self.session@
            + self.identity@ + seq![
            self.player as u8,
            if self.ready {
                1u8
            } else {
                0u8
            },
            self.delay,
            self.window,
        ] + le(self.ack as nat, 8) + le(self.checksum_frame() as nat, 8) + self.checksum_hash()
            + seq![self.inputs@.len() as u8] + records(self.inputs@)
    }

    /// The frame of the digest; zero where there is none.
    pub open spec fn checksum_frame(self) -> u64 {
        match self.checksum {
            Some(c) => c.0,
            None => 0,
        }
    }

    /// The digest; zeros where there is none.
    pub open spec fn checksum_hash(self) -> Seq<u8> {
        match self.checksum {
            Some(c) => c.1@,
            None => Seq::new(32, |i: int| 0u8),
        }
    }

    /// `bytes` has the layout of a datagram and says what this packet says.
    pub open spec fn carried_by(self, bytes: Seq<u8>) -> bool {
        &&& bytes.len() == HEADER + INPUT_RECORD * self.inputs@.len()
        &&& bytes.subrange(0, 4) == magic()
        &&& le_value(bytes.subrange(4, 6)) == VERSION
        &&& le_value(bytes.subrange(6, 10)) == STATE_VERSION
        &&& bytes.subrange(10, 26) == self.session@
        &&& bytes.subrange(26, 58) == self.identity@
        &&& bytes[58] == self.player
        &&& bytes[59] == (if self.ready {
            1u8
        } else {
            0u8
        })
        &&& bytes[60] == self.delay
        &&& bytes[61] == self.window
        &&& le_value(bytes.subrange(62, 70)) == self.ack
        &&& le_value(bytes.subrange(70, 78)) == self.checksum_frame()
        &&& self.checksum matches Some(c) ==> bytes.subrange(78, 110) == c.1@
        &&& bytes[110] == self.inputs@.len()
        &&& forall|i: int|
            0 <= i < self.inputs@.len() ==> record_at(
                bytes,
                HEADER + INPUT_RECORD * i,
                #[trigger] self.inputs@[i],
            )
    }
}

/// Controller bits and keys only, and no bits past the eleven there are.
pub open spec fn input_acceptable(entry: (u64, Input)) -> bool {
    &&& entry.1.buttons <= Input::BUTTONS
    &&& entry.1.mouse_dx == 0
    &&& entry.1.mouse_dy == 0
    &&& entry.1.mouse_buttons == 0
}

proof fn lemma_records_len(entries: Seq<(u64, Input)>)
    ensures
        records(entries).len() == INPUT_RECORD * entries.len(),
    decreases entries.len(),
{
    if entries.len() > 0 {
        lemma_records_len(entries.drop_last());
        lemma_record_len(entries.last());
    }
}

proof fn lemma_record_len(entry: (u64, Input))
    ensures
        record(entry).len() == INPUT_RECORD,
{
    lemma_le_len(entry.0 as nat, 8);
    lemma_le_len(entry.1.buttons as nat, 2);
}

proof fn lemma_record_at(entries: Seq<(u64, Input)>, i: int)
    requires
        0 <= i < entries.len(),
    ensures
        records(entries).len() == INPUT_RECORD * entries.len(),
        records(entries).subrange(INPUT_RECORD * i, INPUT_RECORD * i + INPUT_RECORD) == record(
            entries[i],
        ),
    decreases entries.len(),
{
    lemma_records_len(entries);
    let rest = entries.drop_last();
    lemma_records_len(rest);
    lemma_record_len(entries.last());
    let a = INPUT_RECORD * i;
    if i < rest.len() {
        lemma_record_at(rest, i);
        assert(records(entries).subrange(a, a + INPUT_RECORD) =~= records(rest).subrange(
            a,
            a + INPUT_RECORD,
        ));
    } else {
        assert(records(entries).subrange(a, a + INPUT_RECORD) =~= record(entries.last()));
    }
}

/// The datagram of an acceptable packet says what the packet says.
proof fn lemma_image_carries(p: Packet)
    requires
        p.acceptable(),
    ensures
        p.carried_by(p.image()),
{
    let b = p.image();
    lemma_byte_range();
    lemma_le_reads_back(VERSION as nat, 2);
    lemma_le_reads_back(STATE_VERSION as nat, 4);
    lemma_le_reads_back(p.ack as nat, 8);
    lemma_le_reads_back(p.checksum_frame() as nat, 8);
    lemma_records_len(p.inputs@);
    assert(b.subrange(0, 4) =~= magic());
    assert(b.subrange(4, 6) =~= le(VERSION as nat, 2));
    assert(b.subrange(6, 10) =~= le(STATE_VERSION as nat, 4));
    assert(b.subrange(10, 26) =~= p.session@);
    assert(b.subrange(26, 58) =~= p.identity@);
    assert(b.subrange(62, 70) =~= le(p.ack as nat, 8));
    assert(b.subrange(70, 78) =~= le(p.checksum_frame() as nat, 8));
    assert(b.subrange(78, 110) =~= p.checksum_hash());
    assert(b.subrange(111, b.len() as int) =~= records(p.inputs@));
    assert forall|i: int| 0 <= i < p.inputs@.len() implies record_at(
        b,
        HEADER + INPUT_RECORD * i,
        #[trigger] p.inputs@[i],
    ) by {
        let e = p.inputs@[i];
        let at = HEADER + INPUT_RECORD * i;
        lemma_record_at(p.inputs@, i);
        lemma_record_len(e);
        assert(input_acceptable(e));
        assert(b.subrange(at, at + 26) =~= record(e));
        lemma_le_reads_back(e.0 as nat, 8);
        lemma_le_reads_back(e.1.buttons as nat, 2);
        assert(b.subrange(at, at + 8) =~= record(e).subrange(0, 8));
        assert(record(e).subrange(0, 8) =~= le(e.0 as nat, 8));
        assert(b.subrange(at + 8, at + 10) =~= record(e).subrange(8, 10));
        assert(record(e).subrange(8, 10) =~= le(e.1.buttons as nat, 2));
        assert(b.subrange(at + 10, at + 26) =~= record(e).subrange(10, 26));
        assert(record(e).subrange(10, 26) =~= e.1.keys@);
    }
}

/// A datagram says one thing: two packets it carries are the same.
pub proof fn law_a_datagram_says_one_thing(bytes: Seq<u8>, p: Packet, q: Packet)
    requires
        p.carried_by(bytes),
        q.carried_by(bytes),
        p.acceptable(),
        q.acceptable(),
    ensures
        p == (Packet { inputs: p.inputs, ..q }),
        p.inputs@ == q.inputs@,
{
    assert(p.session =~= q.session) by {
        assert(p.session@ == q.session@);
        assert forall|i: int| 0 <= i < 16 implies p.session[i] == q.session[i] by {
            assert(p.session@[i] == q.session@[i]);
        }
    }
    assert(p.identity =~= q.identity) by {
        assert(p.identity@ == q.identity@);
        assert forall|i: int| 0 <= i < 32 implies p.identity[i] == q.identity[i] by {
            assert(p.identity@[i] == q.identity@[i]);
        }
    }
    match (p.checksum, q.checksum) {
        (Some(c), Some(d)) => {
            assert(c.1 =~= d.1) by {
                assert(c.1@ == d.1@);
                assert forall|i: int| 0 <= i < 32 implies c.1[i] == d.1[i] by {
                    assert(c.1@[i] == d.1@[i]);
                }
            }
        },
        _ => {},
    }
    assert forall|i: int| 0 <= i < p.inputs@.len() implies p.inputs@[i] == q.inputs@[i] by {
        let a = p.inputs@[i];
        let b = q.inputs@[i];
        assert(record_at(bytes, HEADER + INPUT_RECORD * i, a));
        assert(record_at(bytes, HEADER + INPUT_RECORD * i, b));
        assert(a.1.keys@ == b.1.keys@);
        assert(a.1.keys =~= b.1.keys) by {
            assert forall|k: int| 0 <= k < 16 implies a.1.keys[k] == b.1.keys[k] by {
                assert(a.1.keys@[k] == b.1.keys@[k]);
            }
        }
    }
    assert(p.inputs@ =~= q.inputs@);
}

impl Packet {
    /// The datagram to send.
    pub fn encode(&self) -> (r: Vec<u8>)
        requires
            self.inputs@.len() <= MAX_INPUTS,
        ensures
            r@ == self.image(),
            self.acceptable() ==> self.carried_by(r@),
    {
        let mut out: Vec<u8> = Vec::new();
        out.push(0x43);
        out.push(0x4c);
        out.push(0x4e);
        out.push(0x50);
        assert(out@ =~= magic());
        push_le(&mut out, VERSION as u64, 2);
        push_le(&mut out, STATE_VERSION as u64, 4);
        push_all(&mut out, &self.session);
        push_all(&mut out, &self.identity);
        let ghost head = out@;
        let ready: u8 = if self.ready {
            1
        } else {
            0
        };
        out.push(self.player as u8);
        out.push(ready);
        out.push(self.delay);
        out.push(self.window);
        assert(out@ =~= head + seq![self.player as u8, ready, self.delay, self.window]);
        push_le(&mut out, self.ack, 8);
        let (frame, hash) = match self.checksum {
            Some(c) => c,
            None => (0u64, [0u8; 32]),
        };
        assert(hash@ =~= self.checksum_hash());
        push_le(&mut out, frame, 8);
        push_all(&mut out, &hash);
        let ghost head = out@;
        out.push(self.inputs.len() as u8);
        assert(out@ =~= head + seq![self.inputs@.len() as u8]);
        let ghost head = out@;
        let mut i: usize = 0;
        assert(out@ =~= head + records(self.inputs@.take(0)));
        while i < self.inputs.len()
            invariant
                i <= self.inputs@.len(),
                out@ == head + records(self.inputs@.take(i as int)),
            decreases self.inputs@.len() - i,
        {
            let entry = self.inputs[i];
            let ghost before = out@;
            push_le(&mut out, entry.0, 8);
            push_le(&mut out, entry.1.buttons as u64, 2);
            push_all(&mut out, &entry.1.keys);
            proof {
                let done = self.inputs@.take(i as int + 1);
                assert(done.drop_last() =~= self.inputs@.take(i as int));
                assert(out@ =~= before + record(entry));
                assert(out@ =~= head + records(done));
            }
            i += 1;
        }
        proof {
            assert(self.inputs@.take(i as int) =~= self.inputs@);
            if self.acceptable() {
                lemma_image_carries(*self);
            }
        }
        out
    }

    /// Read a datagram. Anything but a well-formed one from a peer of this
    /// version is refused.
    pub fn decode(bytes: &[u8]) -> (r: Option<Packet>)
        ensures
            match r {
                Some(p) => p.acceptable() && p.carried_by(bytes@),
                None => forall|p: Packet| #[trigger] p.acceptable() ==> !p.carried_by(bytes@),
            },
    {
        let len: usize = bytes.len();
        if len < HEADER || len > MAX_PACKET {
            return None;
        }
        if bytes[0] != 0x43 || bytes[1] != 0x4c || bytes[2] != 0x4e || bytes[3] != 0x50 {
            proof {
                assert forall|p: Packet| #[trigger] p.acceptable() implies !p.carried_by(
                    bytes@,
                ) by {
                    assert forall|k: int| 0 <= k < 4 implies bytes@.subrange(0, 4)[k]
                        == bytes@[k] by {}
                    if bytes@.subrange(0, 4) == magic() {
                        assert(bytes@.subrange(0, 4)[0] == 0x43);
                        assert(bytes@.subrange(0, 4)[1] == 0x4c);
                        assert(bytes@.subrange(0, 4)[2] == 0x4e);
                        assert(bytes@.subrange(0, 4)[3] == 0x50);
                    }
                }
            }
            return None;
        }
        assert(bytes@.subrange(0, 4) =~= magic());
        if read_le(bytes, 4, 2) != VERSION as u64 || read_le(bytes, 6, 4) != STATE_VERSION as u64 {
            return None;
        }
        let session = take_16(bytes, 10);
        let identity = take_32(bytes, 26);
        let player: u8 = bytes[58];
        let ready: u8 = bytes[59];
        let delay: u8 = bytes[60];
        let window: u8 = bytes[61];
        if player > 1 || ready > 1 || delay > 6 || window < 1 || window > 12 {
            return None;
        }
        let ack: u64 = read_le(bytes, 62, 8);
        let frame: u64 = read_le(bytes, 70, 8);
        let hash = take_32(bytes, 78);
        if frame != 0 && frame % HASH_INTERVAL != 0 {
            return None;
        }
        let count: usize = bytes[110] as usize;
        if count > MAX_INPUTS || len != HEADER + count * INPUT_RECORD {
            return None;
        }
        let mut inputs: Vec<(u64, Input)> = Vec::new();
        let mut i: usize = 0;
        while i < count
            invariant
                i <= count <= MAX_INPUTS,
                count == bytes@[110],
                len == bytes@.len() == HEADER + count * INPUT_RECORD,
                inputs@.len() == i,
                forall|k: int|
                    #![trigger inputs@[k]]
                    0 <= k < i ==> record_at(bytes@, HEADER + INPUT_RECORD * k, inputs@[k])
                        && input_acceptable(inputs@[k]),
                forall|j: int, k: int|
                    0 <= j < k < i ==> #[trigger] inputs@[j].0 < #[trigger] inputs@[k].0,
            decreases count - i,
        {
            let at: usize = HEADER + i * INPUT_RECORD;
            let number: u64 = read_le(bytes, at, 8);
            let buttons: u16 = read_le(bytes, at + 8, 2) as u16;
            proof {
                lemma_byte_range();
                crate::bytes::lemma_le_writes_back(bytes@.subrange(at + 8, at + 10));
            }
            if buttons > Input::BUTTONS {
                proof {
                    assert forall|p: Packet| #[trigger] p.acceptable() implies !p.carried_by(
                        bytes@,
                    ) by {
                        if p.carried_by(bytes@) {
                            assert(record_at(bytes@, at as int, p.inputs@[i as int]));
                            assert(input_acceptable(p.inputs@[i as int]));
                        }
                    }
                }
                return None;
            }
            if i > 0 && inputs[i - 1].0 >= number {
                proof {
                    assert forall|p: Packet| #[trigger] p.acceptable() implies !p.carried_by(
                        bytes@,
                    ) by {
                        if p.carried_by(bytes@) {
                            assert(record_at(bytes@, at as int, p.inputs@[i as int]));
                            assert(record_at(
                                bytes@,
                                HEADER + INPUT_RECORD * (i - 1),
                                p.inputs@[i - 1],
                            ));
                            assert(p.inputs@[i - 1].0 == inputs@[i - 1].0);
                        }
                    }
                }
                return None;
            }
            let keys = take_16(bytes, at + 10);
            let entry = (
                number,
                Input { buttons, keys, mouse_dx: 0, mouse_dy: 0, mouse_buttons: 0 },
            );
            inputs.push(entry);
            proof {
                assert(record_at(bytes@, at as int, entry));
                assert forall|j: int, k: int| 0 <= j < k < i + 1 implies #[trigger] inputs@[j].0
                    < #[trigger] inputs@[k].0 by {
                    if k == i && j < i - 1 {
                        assert(inputs@[j].0 < inputs@[i - 1].0);
                    }
                }
            }
            i += 1;
        }
        let checksum: Option<(u64, [u8; 32])> = if frame != 0 {
            Some((frame, hash))
        } else {
            None
        };
        Some(
            Packet {
                session,
                identity,
                player: player as usize,
                ready: ready != 0,
                delay,
                window,
                ack,
                inputs,
                checksum,
            },
        )
    }
}

/// What a peer reads of a datagram is what was put into it.
pub proof fn law_decoding_inverts_encoding(sent: Packet, read: Packet)
    requires
        sent.acceptable(),
        read.acceptable(),
        read.carried_by(sent.image()),
    ensures
        sent == (Packet { inputs: sent.inputs, ..read }),
        sent.inputs@ == read.inputs@,
{
    lemma_image_carries(sent);
    law_a_datagram_says_one_thing(sent.image(), sent, read);
}

/// Every datagram read has a bounded length, set by the inputs it carries.
pub proof fn law_datagrams_are_bounded(p: Packet, bytes: Seq<u8>)
    requires
        p.acceptable(),
        p.carried_by(bytes),
    ensures
        HEADER <= bytes.len() <= MAX_PACKET,
{
}

} // verus!
