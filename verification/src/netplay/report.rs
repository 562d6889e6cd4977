//! What peers of a session with two to four players tell each other, and its
//! datagram layout. No remote state deserialization or allocation from an
//! untrusted length. Redundant unacknowledged inputs fit below the MTU.
use vstd::prelude::*;
use crate::bytes::{le, le_value, lemma_byte_range, lemma_le_len, lemma_le_reads_back,
    lemma_le_writes_back, push_all, push_le, read_le, same_bytes, take_16, take_32};
use crate::netplay::input::{Input, MAX_PLAYERS};
use crate::netplay::rollback::HASH_INTERVAL;
use crate::netplay::wire::{magic, STATE_VERSION};

verus! {

/// Version of the datagram layout.
pub const VERSION: u16 = 2;

/// Inputs one datagram can carry.
pub const MAX_INPUTS: usize = 32;

/// Bytes before the first input record.
pub const HEADER: usize = 136;

/// Bytes of one input record.
pub const INPUT_RECORD: usize = 32;

/// The longest datagram.
pub const MAX_PACKET: usize = 1160;

/// One peer's report to another: what it still needs of each port, and the
/// inputs it owes.
#[derive(Clone, Debug, PartialEq, Eq)]
pub struct Report {
    pub session: [u8; 16],
    pub identity: [u8; 32],
    pub player: usize,
    pub players: usize,
    /// The sender has everyone it is waiting for.
    pub ready: bool,
    pub delay: u8,
    pub window: u8,
    /// Next input needed from each player.
    pub acks: [u64; MAX_PLAYERS],
    /// Port, frame and input, ordered by port and then frame.
    pub inputs: Vec<(usize, u64, Input)>,
    pub checksum: Option<(u64, [u8; 32])>,
}

/// Whether one record comes before another.
pub open spec fn precedes(a: (usize, u64, Input), b: (usize, u64, Input)) -> bool {
    a.0 < b.0 || (a.0 == b.0 && a.1 < b.1)
}

/// Records in order of port and then frame, each port's frames distinct.
pub open spec fn in_record_order(s: Seq<(usize, u64, Input)>) -> bool {
    forall|i: int, j: int|
        0 <= i < j < s.len() ==> #[trigger] precedes(s[i], s[j])
}

/// A signed counter as an unsigned one.
pub open spec fn offset_motion(v: i16) -> nat {
    (v + 0x8000) as nat
}

/// Only bits that controllers and mice have.
pub open spec fn entry_acceptable(entry: (usize, u64, Input), players: usize) -> bool {
    &&& entry.0 < players
    &&& entry.2.buttons <= Input::BUTTONS
    &&& entry.2.mouse_buttons <= 7
}

/// One input record.
pub open spec fn record(entry: (usize, u64, Input)) -> Seq<u8> {
    seq![entry.0 as u8] + le(entry.1 as nat, 8) + le(entry.2.buttons as nat, 2) + entry.2.keys@
        + le(offset_motion(entry.2.mouse_dx), 2) + le(offset_motion(entry.2.mouse_dy), 2) + seq![
        entry.2.mouse_buttons,
    ]
}

/// Input records, one after another.
pub open spec fn records(entries: Seq<(usize, u64, Input)>) -> Seq<u8>
    decreases entries.len(),
{
    if entries.len() == 0 {
        Seq::empty()
    } else {
        records(entries.drop_last()) + record(entries.last())
    }
}

/// The bytes from `at` are the record of `entry`.
pub open spec fn record_at(bytes: Seq<u8>, at: int, entry: (usize, u64, Input)) -> bool {
    &&& bytes[at] == entry.0
    &&& le_value(bytes.subrange(at + 1, at + 9)) == entry.1
    &&& le_value(bytes.subrange(at + 9, at + 11)) == entry.2.buttons
    &&& bytes.subrange(at + 11, at + 27) == entry.2.keys@
    &&& le_value(bytes.subrange(at + 27, at + 29)) == offset_motion(entry.2.mouse_dx)
    &&& le_value(bytes.subrange(at + 29, at + 31)) == offset_motion(entry.2.mouse_dy)
    &&& bytes[at + 31] == entry.2.mouse_buttons
}

/// What the ports acknowledge, one after another.
pub open spec fn acks_image(acks: Seq<u64>) -> Seq<u8> {
    le(acks[0] as nat, 8) + le(acks[1] as nat, 8) + le(acks[2] as nat, 8) + le(acks[3] as nat, 8)
}

/// The datagram that says this.
pub open spec fn report_image(
    session: Seq<u8>,
    identity: Seq<u8>,
    player: usize,
    players: usize,
    ready: bool,
    delay: u8,
    window: u8,
    acks: Seq<u64>,
    checksum: Option<(u64, [u8; 32])>,
    inputs: Seq<(usize, u64, Input)>,
) -> Seq<u8> {
    magic() + le(VERSION as nat, 2) + le(STATE_VERSION as nat, 4) + session + identity + seq![
        player as u8,
        players as u8,
        if ready {
            1u8
        } else {
            0u8
        },
        delay,
        window,
    ] + acks_image(acks) + le(
        (match checksum {
            Some(c) => c.0,
            None => 0,
        }) as nat,
        8,
    ) + (match checksum {
        Some(c) => c.1@,
        None => Seq::new(32, |i: int| 0u8),
    }) + seq![inputs.len() as u8] + records(inputs)
}

impl Report {
    /// What a peer may say: ports, delays and windows in range, no more
    /// inputs than fit, in order, and a digest only of a checkpoint.
    pub open spec fn acceptable(self) -> bool {
        &&& 2 <= self.players <= MAX_PLAYERS
        &&& self.player < self.players
        &&& self.delay <= 6
        &&& 1 <= self.window <= 12
        &&& self.inputs@.len() <= MAX_INPUTS
        &&& forall|i: int|
            0 <= i < self.inputs@.len() ==> entry_acceptable(
                #[trigger] self.inputs@[i],
                self.players,
            )
        &&& in_record_order(self.inputs@)
        &&& self.checksum matches Some(c) ==> c.0 > 0 && c.0 % HASH_INTERVAL == 0
    }

    /// The frame of the digest; zero where there is none.
    pub open spec fn checksum_frame(self) -> u64 {
        match self.checksum {
            Some(c) => c.0,
            None => 0,
        }
    }

    /// The digest; zeros where there is none.
    pub open spec fn checksum_hash(self) -> Seq<u8> {
        match self.checksum {
            Some(c) => c.1@,
            None => Seq::new(32, |i: int| 0u8),
        }
    }

    /// The datagram of this report.
    pub open spec fn image(self) -> Seq<u8> {
        report_image(
            self.session@,
            self.identity@,
            self.player,
            self.players,
            self.ready,
            self.delay,
            self.window,
            self.acks@,
            self.checksum,
            self.inputs@,
        )
    }

    /// `bytes` has the layout of a datagram and says what this report says.
    pub open spec fn carried_by(self, bytes: Seq<u8>) -> bool {
        &&& bytes.len() == HEADER + INPUT_RECORD * self.inputs@.len()
        &&& bytes.subrange(0, 4) == magic()
        &&& le_value(bytes.subrange(4, 6)) == VERSION
        &&& le_value(bytes.subrange(6, 10)) == STATE_VERSION
        &&& bytes.subrange(10, 26) == self.session@
        &&& bytes.subrange(26, 58) == self.identity@
        &&& bytes[58] == self.player
        &&& bytes[59] == self.players
        &&& bytes[60] == (if self.ready {
            1u8
        } else {
            0u8
        })
        &&& bytes[61] == self.delay
        &&& bytes[62] == self.window
        &&& le_value(bytes.subrange(63, 71)) == self.acks[0]
        &&& le_value(bytes.subrange(71, 79)) == self.acks[1]
        &&& le_value(bytes.subrange(79, 87)) == self.acks[2]
        &&& le_value(bytes.subrange(87, 95)) == self.acks[3]
        &&& le_value(bytes.subrange(95, 103)) == self.checksum_frame()
        &&& self.checksum matches Some(c) ==> bytes.subrange(103, 135) == c.1@
        &&& bytes[135] == self.inputs@.len()
        &&& forall|i: int|
            0 <= i < self.inputs@.len() ==> record_at(
                bytes,
                HEADER + INPUT_RECORD * i,
                #[trigger] self.inputs@[i],
            )
    }
}

proof fn lemma_record_len(entry: (usize, u64, Input))
    ensures
        record(entry).len() == INPUT_RECORD,
{
    lemma_le_len(entry.1 as nat, 8);
    lemma_le_len(entry.2.buttons as nat, 2);
    lemma_le_len(offset_motion(entry.2.mouse_dx), 2);
    lemma_le_len(offset_motion(entry.2.mouse_dy), 2);
}

proof fn lemma_records_len(entries: Seq<(usize, u64, Input)>)
    ensures
        records(entries).len() == INPUT_RECORD * entries.len(),
    decreases entries.len(),
{
    if entries.len() > 0 {
        lemma_records_len(entries.drop_last());
        lemma_record_len(entries.last());
    }
}

proof fn lemma_record_at(entries: Seq<(usize, u64, Input)>, i: int)
    requires
        0 <= i < entries.len(),
    ensures
        records(entries).len() == INPUT_RECORD * entries.len(),
        records(entries).subrange(INPUT_RECORD * i, INPUT_RECORD * i + INPUT_RECORD) == record(
            entries[i],
        ),
    decreases entries.len(),
{
    lemma_records_len(entries);
    let rest = entries.drop_last();
    lemma_records_len(rest);
    lemma_record_len(entries.last());
    let a = INPUT_RECORD * i;
    if i < rest.len() {
        lemma_record_at(rest, i);
        assert(records(entries).subrange(a, a + INPUT_RECORD) =~= records(rest).subrange(
            a,
            a + INPUT_RECORD,
        ));
    } else {
        assert(records(entries).subrange(a, a + INPUT_RECORD) =~= record(entries.last()));
    }
}

proof fn lemma_record_reads(bytes: Seq<u8>, at: int, entry: (usize, u64, Input))
    requires
        0 <= at,
        at + INPUT_RECORD <= bytes.len(),
        bytes.subrange(at, at + INPUT_RECORD) == record(entry),
        entry.0 < 256,
    ensures
        record_at(bytes, at, entry),
{
    let r = record(entry);
    lemma_record_len(entry);
    lemma_byte_range();
    lemma_le_reads_back(entry.1 as nat, 8);
    lemma_le_reads_back(entry.2.buttons as nat, 2);
    lemma_le_reads_back(offset_motion(entry.2.mouse_dx), 2);
    lemma_le_reads_back(offset_motion(entry.2.mouse_dy), 2);
    assert(bytes[at] == r[0]);
    assert(bytes[at + 31] == r[31]);
    assert(bytes.subrange(at + 1, at + 9) =~= r.subrange(1, 9));
    assert(r.subrange(1, 9) =~= le(entry.1 as nat, 8));
    assert(bytes.subrange(at + 9, at + 11) =~= r.subrange(9, 11));
    assert(r.subrange(9, 11) =~= le(entry.2.buttons as nat, 2));
    assert(bytes.subrange(at + 11, at + 27) =~= r.subrange(11, 27));
    assert(r.subrange(11, 27) =~= entry.2.keys@);
    assert(bytes.subrange(at + 27, at + 29) =~= r.subrange(27, 29));
    assert(r.subrange(27, 29) =~= le(offset_motion(entry.2.mouse_dx), 2));
    assert(bytes.subrange(at + 29, at + 31) =~= r.subrange(29, 31));
    assert(r.subrange(29, 31) =~= le(offset_motion(entry.2.mouse_dy), 2));
}

/// The datagram of an acceptable report says what the report says.
pub(crate) proof fn lemma_image_carries(p: Report)
    requires
        p.acceptable(),
    ensures
        p.carried_by(p.image()),
{
    let b = p.image();
    lemma_byte_range();
    lemma_le_reads_back(VERSION as nat, 2);
    lemma_le_reads_back(STATE_VERSION as nat, 4);
    lemma_le_reads_back(p.acks[0] as nat, 8);
    lemma_le_reads_back(p.acks[1] as nat, 8);
    lemma_le_reads_back(p.acks[2] as nat, 8);
    lemma_le_reads_back(p.acks[3] as nat, 8);
    lemma_le_reads_back(p.checksum_frame() as nat, 8);
    lemma_records_len(p.inputs@);
    assert(b.subrange(0, 4) =~= magic());
    assert(b.subrange(4, 6) =~= le(VERSION as nat, 2));
    assert(b.subrange(6, 10) =~= le(STATE_VERSION as nat, 4));
    assert(b.subrange(10, 26) =~= p.session@);
    assert(b.subrange(26, 58) =~= p.identity@);
    assert(b.subrange(63, 71) =~= le(p.acks[0] as nat, 8));
    assert(b.subrange(71, 79) =~= le(p.acks[1] as nat, 8));
    assert(b.subrange(79, 87) =~= le(p.acks[2] as nat, 8));
    assert(b.subrange(87, 95) =~= le(p.acks[3] as nat, 8));
    assert(b.subrange(95, 103) =~= le(p.checksum_frame() as nat, 8));
    assert(b.subrange(103, 135) =~= p.checksum_hash());
    assert(b.subrange(136, b.len() as int) =~= records(p.inputs@));
    assert forall|i: int| 0 <= i < p.inputs@.len() implies record_at(
        b,
        HEADER + INPUT_RECORD * i,
        #[trigger] p.inputs@[i],
    ) by {
        let at = HEADER + INPUT_RECORD * i;
        lemma_record_at(p.inputs@, i);
        assert(entry_acceptable(p.inputs@[i], p.players));
        assert(b.subrange(at, at + INPUT_RECORD) =~= record(p.inputs@[i]));
        lemma_record_reads(b, at, p.inputs@[i]);
    }
}

/// A datagram says one thing: two reports it carries are the same.
pub proof fn law_a_report_says_one_thing(bytes: Seq<u8>, p: Report, q: Report)
    requires
        p.carried_by(bytes),
        q.carried_by(bytes),
        p.acceptable(),
        q.acceptable(),
    ensures
        p == (Report { inputs: p.inputs, ..q }),
        p.inputs@ == q.inputs@,
{
    assert(p.session =~= q.session) by {
        assert forall|i: int| 0 <= i < 16 implies p.session[i] == q.session[i] by {
            assert(p.session@[i] == q.session@[i]);
        }
    }
    assert(p.identity =~= q.identity) by {
        assert forall|i: int| 0 <= i < 32 implies p.identity[i] == q.identity[i] by {
            assert(p.identity@[i] == q.identity@[i]);
        }
    }
    assert(p.acks =~= q.acks);
    match (p.checksum, q.checksum) {
        (Some(c), Some(d)) => {
            assert(c.1 =~= d.1) by {
                assert forall|i: int| 0 <= i < 32 implies c.1[i] == d.1[i] by {
                    assert(c.1@[i] == d.1@[i]);
                }
            }
        },
        _ => {},
    }
    assert forall|i: int| 0 <= i < p.inputs@.len() implies p.inputs@[i] == q.inputs@[i] by {
        let a = p.inputs@[i];
        let b = q.inputs@[i];
        assert(record_at(bytes, HEADER + INPUT_RECORD * i, a));
        assert(record_at(bytes, HEADER + INPUT_RECORD * i, b));
        assert(a.2.keys =~= b.2.keys) by {
            assert forall|k: int| 0 <= k < 16 implies a.2.keys[k] == b.2.keys[k] by {
                assert(a.2.keys@[k] == b.2.keys@[k]);
            }
        }
    }
    assert(p.inputs@ =~= q.inputs@);
}

/// What a peer reads of a report is what was put into it.
pub proof fn law_reading_a_report_inverts_writing_it(sent: Report, read: Report)
    requires
        sent.acceptable(),
        read.acceptable(),
        read.carried_by(sent.image()),
    ensures
        sent == (Report { inputs: sent.inputs, ..read }),
        sent.inputs@ == read.inputs@,
{
    lemma_image_carries(sent);
    law_a_report_says_one_thing(sent.image(), sent, read);
}

fn read_motion(bytes: &[u8], at: usize) -> (r: i16)
    requires
        at + 2 <= bytes@.len(),
    ensures
        le_value(bytes@.subrange(at as int, at + 2)) == offset_motion(r),
{
    proof {
        lemma_byte_range();
        lemma_le_writes_back(bytes@.subrange(at as int, at + 2));
    }
    let v: u64 = read_le(bytes, at, 2);
    (v as i32 - 0x8000) as i16
}

impl Report {
    /// The datagram to send.
    pub fn encode(&self) -> (r: Vec<u8>)
        requires
            self.inputs@.len() <= MAX_INPUTS,
        ensures
            r@ == self.image(),
            self.acceptable() ==> self.carried_by(r@),
    {
        let mut out: Vec<u8> = Vec::new();
        out.push(0x43);
        out.push(0x4c);
        out.push(0x4e);
        out.push(0x50);
        assert(out@ =~= magic());
        push_le(&mut out, VERSION as u64, 2);
        push_le(&mut out, STATE_VERSION as u64, 4);
        push_all(&mut out, &self.session);
        push_all(&mut out, &self.identity);
        let ghost head = out@;
        let ready: u8 = if self.ready {
            1
        } else {
            0
        };
        out.push(self.player as u8);
        out.push(self.players as u8);
        out.push(ready);
        out.push(self.delay);
        out.push(self.window);
        assert(out@ =~= head + seq![
            self.player as u8,
            self.players as u8,
            ready,
            self.delay,
            self.window,
        ]);
        let ghost head = out@;
        push_le(&mut out, self.acks[0], 8);
        push_le(&mut out, self.acks[1], 8);
        push_le(&mut out, self.acks[2], 8);
        push_le(&mut out, self.acks[3], 8);
        assert(out@ =~= head + acks_image(self.acks@));
        let (frame, hash) = match self.checksum {
            Some(c) => c,
            None => (0u64, [0u8; 32]),
        };
        assert(hash@ =~= self.checksum_hash());
        push_le(&mut out, frame, 8);
        push_all(&mut out, &hash);
        let ghost head = out@;
        out.push(self.inputs.len() as u8);
        assert(out@ =~= head + seq![self.inputs@.len() as u8]);
        let ghost head = out@;
        let mut i: usize = 0;
        assert(out@ =~= head + records(self.inputs@.take(0)));
        while i < self.inputs.len()
            invariant
                i <= self.inputs@.len(),
                out@ == head + records(self.inputs@.take(i as int)),
            decreases self.inputs@.len() - i,
        {
            let entry = self.inputs[i];
            let ghost before = out@;
            out.push(entry.0 as u8);
            push_le(&mut out, entry.1, 8);
            push_le(&mut out, entry.2.buttons as u64, 2);
            push_all(&mut out, &entry.2.keys);
            push_le(&mut out, (entry.2.mouse_dx as i32 + 0x8000) as u64, 2);
            push_le(&mut out, (entry.2.mouse_dy as i32 + 0x8000) as u64, 2);
            out.push(entry.2.mouse_buttons);
            proof {
                let done = self.inputs@.take(i as int + 1);
                assert(done.drop_last() =~= self.inputs@.take(i as int));
                assert(out@ =~= before + record(entry));
                assert(out@ =~= head + records(done));
            }
            i += 1;
        }
        proof {
            assert(self.inputs@.take(i as int) =~= self.inputs@);
            if self.acceptable() {
                lemma_image_carries(*self);
            }
        }
        out
    }

    /// Read a datagram. Anything but a well-formed one from a peer of this
    /// version is refused.
    pub fn decode(bytes: &[u8]) -> (r: Option<Report>)
        ensures
            match r {
                Some(p) => p.acceptable() && p.carried_by(bytes@),
                None => forall|p: Report| #[trigger] p.acceptable() ==> !p.carried_by(bytes@),
            },
    {
        let len: usize = bytes.len();
        if len < HEADER || len > MAX_PACKET {
            return None;
        }
        if !is_magic(bytes) {
            return None;
        }
        if read_le(bytes, 4, 2) != VERSION as u64 || read_le(bytes, 6, 4) != STATE_VERSION as u64 {
            return None;
        }
        let session = take_16(bytes, 10);
        let identity = take_32(bytes, 26);
        let player: usize = bytes[58] as usize;
        let players: usize = bytes[59] as usize;
        let ready: u8 = bytes[60];
        let delay: u8 = bytes[61];
        let window: u8 = bytes[62];
        if players < 2 || players > MAX_PLAYERS || player >= players || ready > 1 || delay > 6
            || window < 1 || window > 12 {
            return None;
        }
        let acks: [u64; MAX_PLAYERS] = [
            read_le(bytes, 63, 8),
            read_le(bytes, 71, 8),
            read_le(bytes, 79, 8),
            read_le(bytes, 87, 8),
        ];
        let frame: u64 = read_le(bytes, 95, 8);
        let hash = take_32(bytes, 103);
        if frame != 0 && frame % HASH_INTERVAL != 0 {
            return None;
        }
        let count: usize = bytes[135] as usize;
        if count > MAX_INPUTS || len != HEADER + count * INPUT_RECORD {
            return None;
        }
        let mut inputs: Vec<(usize, u64, Input)> = Vec::new();
        let mut i: usize = 0;
        while i < count
            invariant
                i <= count <= MAX_INPUTS,
                count == bytes@[135],
                players == bytes@[59],
                len == bytes@.len() == HEADER + count * INPUT_RECORD,
                inputs@.len() == i,
                forall|k: int|
                    #![trigger inputs@[k]]
                    0 <= k < i ==> record_at(bytes@, HEADER + INPUT_RECORD * k, inputs@[k])
                        && entry_acceptable(inputs@[k], players),
                in_record_order(inputs@),
            decreases count - i,
        {
            let at: usize = HEADER + i * INPUT_RECORD;
            let source: usize = bytes[at] as usize;
            let number: u64 = read_le(bytes, at + 1, 8);
            let buttons: u16 = read_le(bytes, at + 9, 2) as u16;
            let mouse_buttons: u8 = bytes[at + 31];
            proof {
                lemma_byte_range();
                lemma_le_writes_back(bytes@.subrange(at + 9, at + 11));
            }
            if source >= players || buttons > Input::BUTTONS || mouse_buttons > 7 {
                proof {
                    assert forall|p: Report| #[trigger] p.acceptable() implies !p.carried_by(
                        bytes@,
                    ) by {
                        if p.carried_by(bytes@) {
                            assert(record_at(bytes@, at as int, p.inputs@[i as int]));
                            assert(entry_acceptable(p.inputs@[i as int], p.players));
                        }
                    }
                }
                return None;
            }
            if i > 0 && !(inputs[i - 1].0 < source || (inputs[i - 1].0 == source && inputs[i - 1].1
                < number)) {
                proof {
                    assert forall|p: Report| #[trigger] p.acceptable() implies !p.carried_by(
                        bytes@,
                    ) by {
                        if p.carried_by(bytes@) {
                            assert(record_at(bytes@, at as int, p.inputs@[i as int]));
                            assert(record_at(
                                bytes@,
                                HEADER + INPUT_RECORD * (i - 1),
                                p.inputs@[i - 1],
                            ));
                            assert(p.inputs@[i - 1].0 == inputs@[i - 1].0);
                            assert(p.inputs@[i - 1].1 == inputs@[i - 1].1);
                            assert(precedes(p.inputs@[i - 1], p.inputs@[i as int]));
                        }
                    }
                }
                return None;
            }
            let keys = take_16(bytes, at + 11);
            let entry = (
                source,
                number,
                Input {
                    buttons,
                    keys,
                    mouse_dx: read_motion(bytes, at + 27),
                    mouse_dy: read_motion(bytes, at + 29),
                    mouse_buttons,
                },
            );
            let ghost before = inputs@;
            inputs.push(entry);
            proof {
                assert(record_at(bytes@, at as int, entry));
                assert forall|j: int, k: int| 0 <= j < k < inputs@.len() implies #[trigger] precedes(
                    inputs@[j],
                    inputs@[k],
                ) by {
                    if k < i {
                        assert(precedes(before[j], before[k]));
                    } else if j < i - 1 {
                        assert(precedes(before[j], before[i - 1]));
                    }
                }
            }
            i += 1;
        }
        let checksum: Option<(u64, [u8; 32])> = if frame != 0 {
            Some((frame, hash))
        } else {
            None
        };
        Some(
            Report {
                session,
                identity,
                player,
                players,
                ready: ready != 0,
                delay,
                window,
                acks,
                inputs,
                checksum,
            },
        )
    }

    /// A datagram of this session from a peer with another layout version:
    /// such a peer can never be understood.
    pub open spec fn speaks_another_version(bytes: Seq<u8>, session: Seq<u8>) -> bool {
        &&& bytes.len() >= 26
        &&& bytes.subrange(0, 4) == magic()
        &&& bytes.subrange(10, 26) == session
        &&& (le_value(bytes.subrange(4, 6)) != VERSION || le_value(bytes.subrange(6, 10))
            != STATE_VERSION)
    }

    /// Whether a datagram of this session has a version this peer can read.
    pub fn check_version(bytes: &[u8], session: &[u8; 16]) -> (r: bool)
        ensures
            r == !Report::speaks_another_version(bytes@, session@),
    {
        if bytes.len() < 26 || !is_magic(bytes) {
            return true;
        }
        let named = take_16(bytes, 10);
        if !same_bytes(&named, session) {
            return true;
        }
        read_le(bytes, 4, 2) == VERSION as u64 && read_le(bytes, 6, 4) == STATE_VERSION as u64
    }
}

fn is_magic(bytes: &[u8]) -> (r: bool)
    requires
        bytes@.len() >= 4,
    ensures
        r == (bytes@.subrange(0, 4) == magic()),
{
    let r = bytes[0] == 0x43 && bytes[1] == 0x4c && bytes[2] == 0x4e && bytes[3] == 0x50;
    proof {
        let s = bytes@.subrange(0, 4);
        if r {
            assert(s =~= magic());
        } else if s == magic() {
            assert(s[0] == 0x43 && s[1] == 0x4c && s[2] == 0x4e && s[3] == 0x50);
        }
    }
    r
}

/// A report of this version is never mistaken for another version's.
pub proof fn law_reports_pass_the_version_check(p: Report)
    requires
        p.acceptable(),
    ensures
        !Report::speaks_another_version(p.image(), p.session@),
{
    lemma_image_carries(p);
}

} // verus!
