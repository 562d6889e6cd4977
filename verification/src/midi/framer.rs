//! Puts the guest's bytes together into messages.
//!
//! A receiver expects a message at a time: sent a byte at a time, a message
//! never forms. Running status and exclusive messages are followed, and a
//! realtime byte passes straight through between the bytes of another.
use vstd::prelude::*;
use crate::bytes::copy_range;

verus! {

/// What begins and ends an exclusive message.
pub const EXCLUSIVE: u8 = 0xf0;

pub const END_EXCLUSIVE: u8 = 0xf7;

/// The first of the realtime bytes.
pub const REALTIME: u8 = 0xf8;

/// How many bytes a message has, from its status byte; exclusive messages
/// aside.
pub open spec fn length_of(status: u8) -> nat {
    let kind = status / 16;
    if kind == 0x8 || kind == 0x9 || kind == 0xa || kind == 0xb || kind == 0xe {
        3
    } else if kind == 0xc || kind == 0xd {
        2
    } else if status == 0xf2 {
        3
    } else if status == 0xf1 || status == 0xf3 {
        2
    } else {
        1
    }
}

pub fn message_len(status: u8) -> (r: usize)
    ensures
        r == length_of(status),
{
    let kind: u8 = status / 16;
    if kind == 0x8 || kind == 0x9 || kind == 0xa || kind == 0xb || kind == 0xe {
        3
    } else if kind == 0xc || kind == 0xd {
        2
    } else if status == 0xf2 {
        3
    } else if status == 0xf1 || status == 0xf3 {
        2
    } else {
        1
    }
}

/// Puts bytes together into messages.
pub struct MidiFramer {
    /// The bytes of the message at hand.
    pub buf: Vec<u8>,
    /// How many bytes it needs.
    pub expected: usize,
    /// The status that data bytes alone go on with; zero is none.
    pub status: u8,
    pub in_sysex: bool,
}

/// Where a framer stands.
pub struct Framing {
    pub buf: Seq<u8>,
    pub expected: nat,
    pub status: u8,
    pub in_sysex: bool,
}

impl View for MidiFramer {
    type V = Framing;

    open spec fn view(&self) -> Framing {
        Framing {
            buf: self.buf@,
            expected: self.expected as nat,
            status: self.status,
            in_sysex: self.in_sysex,
        }
    }
}

impl Framing {
    /// A framer holds an exclusive message that has begun, or a part of
    /// another, or nothing.
    pub open spec fn wf(self) -> bool {
        &&& self.status == 0 || 0x80 <= self.status < 0xf0
        &&& if self.in_sysex {
            self.buf.len() > 0 && self.buf[0] == EXCLUSIVE && self.status == 0 && forall|i: int|
                1 <= i < self.buf.len() ==> #[trigger] self.buf[i] < 0x80
        } else {
            self.buf.len() > 0 ==> 0x80 <= self.buf[0] < REALTIME && self.buf[0] != EXCLUSIVE
                && self.expected == length_of(self.buf[0]) && self.buf.len() < self.expected
                && forall|i: int| 1 <= i < self.buf.len() ==> #[trigger] self.buf[i] < 0x80
        }
    }

    /// The message at hand goes out where it is complete.
    pub open spec fn settled(self) -> (Framing, Seq<Seq<u8>>) {
        if self.buf.len() >= self.expected {
            (Framing { buf: Seq::empty(), ..self }, seq![self.buf])
        } else {
            (self, Seq::empty())
        }
    }

    /// The framer after a byte outside an exclusive message.
    pub open spec fn fed_plain(self, b: u8) -> (Framing, Seq<Seq<u8>>) {
        if b == EXCLUSIVE {
            (Framing { in_sysex: true, buf: seq![b], status: 0, ..self }, Seq::empty())
        } else if b >= 0x80 {
            Framing {
                status: if b < 0xf0 {
                    b
                } else {
                    0
                },
                expected: length_of(b),
                buf: seq![b],
                ..self
            }.settled()
        } else if self.buf.len() > 0 {
            Framing { buf: self.buf.push(b), ..self }.settled()
        } else if self.status == 0 {
            (self, Seq::empty())
        } else {
            Framing {
                buf: seq![self.status, b],
                expected: length_of(self.status),
                ..self
            }.settled()
        }
    }

    /// The framer after a byte, and the messages that it completes.
    pub open spec fn fed(self, b: u8) -> (Framing, Seq<Seq<u8>>) {
        if b >= REALTIME {
            (self, seq![seq![b]])
        } else if !self.in_sysex {
            self.fed_plain(b)
        } else if b < 0x80 {
            (Framing { buf: self.buf.push(b), ..self }, Seq::empty())
        } else if b == END_EXCLUSIVE {
            (
                Framing { buf: Seq::empty(), in_sysex: false, ..self },
                seq![self.buf.push(b)],
            )
        } else {
            let (after, more) = Framing {
                buf: Seq::empty(),
                in_sysex: false,
                ..self
            }.fed_plain(b);
            (after, seq![self.buf] + more)
        }
    }

    /// The framer after some bytes, and the messages they complete.
    pub open spec fn fed_all(self, bytes: Seq<u8>) -> (Framing, Seq<Seq<u8>>)
        decreases bytes.len(),
    {
        if bytes.len() == 0 {
            (self, Seq::empty())
        } else {
            let (before, messages) = self.fed_all(bytes.drop_last());
            let (after, more) = before.fed(bytes.last());
            (after, messages + more)
        }
    }
}

/// The texts of messages.
pub open spec fn messages(list: Seq<Vec<u8>>) -> Seq<Seq<u8>> {
    list.map_values(|m: Vec<u8>| m@)
}

impl Default for MidiFramer {
    fn default() -> (r: MidiFramer)
        ensures
            r@.wf(),
            r@ == (Framing { buf: Seq::empty(), expected: 0, status: 0, in_sysex: false }),
    {
        MidiFramer { buf: Vec::new(), expected: 0, status: 0, in_sysex: false }
    }
}

impl MidiFramer {
    /// Take a byte. Returns the messages that it completes, in order.
    pub fn push(&mut self, b: u8) -> (r: Vec<Vec<u8>>)
        requires
            old(self)@.wf(),
        ensures
            final(self)@.wf(),
            final(self)@ == old(self)@.fed(b).0,
            messages(r@) == old(self)@.fed(b).1,
    {
        let mut out: Vec<Vec<u8>> = Vec::new();
        let ghost before = self@;
        assert(messages(out@) =~= Seq::empty());
        if b >= REALTIME {
            let mut one: Vec<u8> = Vec::new();
            one.push(b);
            assert(one@ =~= seq![b]);
            out.push(one);
            assert(messages(out@) =~= seq![seq![b]]);
            return out;
        }
        if self.in_sysex {
            if b < 0x80 {
                self.buf.push(b);
                return out;
            }
            if b == END_EXCLUSIVE {
                self.buf.push(b);
            }
            let ghost sent = self.buf@;
            let message = self.take_buf();
            out.push(message);
            self.in_sysex = false;
            assert(messages(out@) =~= seq![sent]);
            if b == END_EXCLUSIVE {
                return out;
            }
        }
        let ghost done = messages(out@);
        let ghost idle = self@;
        if let Some(message) = self.push_plain(b) {
            let ghost sent = message@;
            let ghost held = out@;
            out.push(message);
            assert(messages(out@) =~= messages(held).push(sent));
            assert(messages(out@) =~= done + seq![sent]);
        } else {
            assert(done + Seq::<Seq<u8>>::empty() =~= done);
        }
        proof {
            if before.in_sysex {
                assert(done =~= seq![before.buf]);
            } else {
                assert(done =~= Seq::empty());
                assert(done + before.fed_plain(b).1 =~= before.fed_plain(b).1);
            }
        }
        out
    }

    /// Take a byte outside an exclusive message.
    fn push_plain(&mut self, b: u8) -> (r: Option<Vec<u8>>)
        requires
            old(self)@.wf(),
            !old(self).in_sysex,
            b < REALTIME,
        ensures
            final(self)@.wf(),
            final(self)@ == old(self)@.fed_plain(b).0,
            old(self)@.fed_plain(b).1 == (match r {
                Some(message) => seq![message@],
                None => Seq::<Seq<u8>>::empty(),
            }),
    {
        if b == EXCLUSIVE {
            self.in_sysex = true;
            self.buf = Vec::new();
            self.buf.push(b);
            self.status = 0;
            assert(self.buf@ =~= seq![b]);
            return None;
        }
        if b >= 0x80 {
            self.status = if b < 0xf0 {
                b
            } else {
                0
            };
            self.expected = message_len(b);
            self.buf = Vec::new();
            self.buf.push(b);
            assert(self.buf@ =~= seq![b]);
            return self.emit_if_complete();
        }
        if self.buf.len() == 0 {
            if self.status == 0 {
                return None;
            }
            self.buf.push(self.status);
            self.expected = message_len(self.status);
        }
        self.buf.push(b);
        proof {
            if old(self).buf@.len() == 0 {
                assert(self.buf@ =~= seq![self.status, b]);
            }
        }
        self.emit_if_complete()
    }

    fn take_buf(&mut self) -> (r: Vec<u8>)
        ensures
            r@ == old(self).buf@,
            final(self)@ == (Framing { buf: Seq::empty(), ..old(self)@ }),
    {
        let mut message: Vec<u8> = Vec::new();
        std::mem::swap(&mut message, &mut self.buf);
        message
    }

    fn emit_if_complete(&mut self) -> (r: Option<Vec<u8>>)
        ensures
            final(self)@ == old(self)@.settled().0,
            old(self)@.settled().1 == (match r {
                Some(message) => seq![message@],
                None => Seq::<Seq<u8>>::empty(),
            }),
    {
        if self.buf.len() >= self.expected {
            Some(self.take_buf())
        } else {
            None
        }
    }
}

/// A message that a receiver can take: a realtime byte, an exclusive message,
/// or a status byte with as many data bytes as it calls for.
pub open spec fn is_message(m: Seq<u8>) -> bool {
    &&& m.len() > 0
    &&& m[0] >= REALTIME ==> m.len() == 1
    &&& m[0] == EXCLUSIVE ==> forall|i: int|
        1 <= i < m.len() ==> #[trigger] m[i] < 0x80 || (m[i] == END_EXCLUSIVE && i == m.len() - 1)
    &&& m[0] < REALTIME && m[0] != EXCLUSIVE ==> {
        &&& 0x80 <= m[0]
        &&& m.len() == length_of(m[0])
        &&& forall|i: int| 1 <= i < m.len() ==> #[trigger] m[i] < 0x80
    }
}

/// Everything that goes out is a whole message.
pub proof fn law_only_messages_go_out(f: Framing, b: u8)
    requires
        f.wf(),
    ensures
        f.fed(b).0.wf(),
        forall|i: int| 0 <= i < f.fed(b).1.len() ==> is_message(#[trigger] f.fed(b).1[i]),
{
    let idle = Framing { buf: Seq::empty(), in_sysex: false, ..f };
    if b < REALTIME {
        if !f.in_sysex {
            lemma_plain(f, b);
        } else if b >= 0x80 && b != END_EXCLUSIVE {
            lemma_plain(idle, b);
            let more = idle.fed_plain(b).1;
            let all = seq![f.buf] + more;
            assert forall|i: int| 0 <= i < all.len() implies is_message(#[trigger] all[i]) by {
                if i > 0 {
                    assert(all[i] == more[i - 1]);
                }
            }
        }
    }
}

proof fn lemma_plain(f: Framing, b: u8)
    requires
        f.wf(),
        !f.in_sysex,
        b < REALTIME,
    ensures
        f.fed_plain(b).0.wf(),
        forall|i: int| 0 <= i < f.fed_plain(b).1.len() ==> is_message(#[trigger] f.fed_plain(b).1[i]),
{
}

/// A whole message goes in a byte at a time and comes out as it was: from a
/// framer that holds nothing, its bytes complete it and nothing else.
pub proof fn law_messages_come_out_whole(f: Framing, m: Seq<u8>)
    requires
        f.wf(),
        f.buf.len() == 0,
        !f.in_sysex,
        m.len() > 0,
        0x80 <= m[0] < REALTIME,
        m[0] != EXCLUSIVE,
        m.len() == length_of(m[0]),
        forall|i: int| 1 <= i < m.len() ==> #[trigger] m[i] < 0x80,
    ensures
        f.fed_all(m).1 == seq![m],
        f.fed_all(m).0.buf.len() == 0,
        !f.fed_all(m).0.in_sysex,
{
    let none = Seq::<Seq<u8>>::empty();
    reveal_with_fuel(Framing::fed_all, 4);
    assert(none + seq![m] =~= seq![m]);
    assert(none + none =~= none);
    if m.len() == 1 {
        assert(m.drop_last() =~= Seq::empty());
        assert(seq![m[0]] =~= m);
    } else if m.len() == 2 {
        assert(m.drop_last() =~= seq![m[0]]);
        assert(m.drop_last().drop_last() =~= Seq::empty());
        assert(seq![m[0]].push(m[1]) =~= m);
    } else {
        assert(m.len() == 3);
        assert(m.drop_last() =~= seq![m[0], m[1]]);
        assert(m.drop_last().drop_last() =~= seq![m[0]]);
        assert(m.drop_last().drop_last().drop_last() =~= Seq::empty());
        assert(seq![m[0]].push(m[1]) =~= seq![m[0], m[1]]);
        assert(seq![m[0], m[1]].push(m[2]) =~= m);
    }
}

/// An exclusive message comes out as it went in, however long it is.
pub proof fn law_exclusive_messages_come_out_whole(f: Framing, data: Seq<u8>)
    requires
        f.wf(),
        !f.in_sysex,
        forall|i: int| 0 <= i < data.len() ==> (#[trigger] data[i]) < 0x80,
    ensures
        ({
            let m = seq![EXCLUSIVE] + data + seq![END_EXCLUSIVE];
            &&& f.fed_all(m).1 == seq![m]
            &&& f.fed_all(m).0.buf.len() == 0
            &&& !f.fed_all(m).0.in_sysex
        }),
{
    let m = seq![EXCLUSIVE] + data + seq![END_EXCLUSIVE];
    lemma_exclusive_gathers(f, data);
    assert(m.drop_last() =~= seq![EXCLUSIVE] + data);
    assert((seq![EXCLUSIVE] + data).push(END_EXCLUSIVE) =~= m);
    assert(Seq::<Seq<u8>>::empty() + seq![m] =~= seq![m]);
}

proof fn lemma_exclusive_gathers(f: Framing, data: Seq<u8>)
    requires
        f.wf(),
        !f.in_sysex,
        forall|i: int| 0 <= i < data.len() ==> (#[trigger] data[i]) < 0x80,
    ensures
        f.fed_all(seq![EXCLUSIVE] + data).1 == Seq::<Seq<u8>>::empty(),
        f.fed_all(seq![EXCLUSIVE] + data).0.buf == seq![EXCLUSIVE] + data,
        f.fed_all(seq![EXCLUSIVE] + data).0.in_sysex,
    decreases data.len(),
{
    let begun = seq![EXCLUSIVE] + data;
    let none = Seq::<Seq<u8>>::empty();
    assert(none + none =~= none);
    if data.len() == 0 {
        assert(begun =~= seq![EXCLUSIVE]);
        assert(begun.drop_last() =~= Seq::empty());
        assert(f.fed_all(begun.drop_last()) == (f, none));
    } else {
        let rest = data.drop_last();
        assert forall|i: int| 0 <= i < rest.len() implies (#[trigger] rest[i]) < 0x80 by {
            assert(rest[i] == data[i]);
        }
        lemma_exclusive_gathers(f, rest);
        assert(begun.drop_last() =~= seq![EXCLUSIVE] + rest);
        assert((seq![EXCLUSIVE] + rest).push(data.last()) =~= begun);
        assert(data.last() == data[data.len() - 1]);
    }
}

/// A status runs on: after a channel message, data bytes alone make further
/// messages with its status.
pub proof fn law_a_status_runs_on(f: Framing, data: Seq<u8>)
    requires
        f.wf(),
        f.buf.len() == 0,
        !f.in_sysex,
        f.status != 0,
        data.len() + 1 == length_of(f.status),
        forall|i: int| 0 <= i < data.len() ==> (#[trigger] data[i]) < 0x80,
    ensures
        f.fed_all(data).1 == seq![seq![f.status] + data],
        f.fed_all(data).0.buf.len() == 0,
        f.fed_all(data).0.status == f.status,
        !f.fed_all(data).0.in_sysex,
{
    let none = Seq::<Seq<u8>>::empty();
    let m = seq![f.status] + data;
    reveal_with_fuel(Framing::fed_all, 3);
    assert(none + seq![m] =~= seq![m]);
    assert(none + none =~= none);
    assert(data.len() == 1 || data.len() == 2);
    if data.len() == 1 {
        assert(data.drop_last() =~= Seq::empty());
        assert(seq![f.status, data[0]] =~= m);
    } else {
        assert(data.drop_last().drop_last() =~= Seq::empty());
        assert(data.drop_last().last() == data[0]);
        assert(seq![f.status, data[0]].push(data[1]) =~= m);
    }
}

/// A realtime byte passes straight through and disturbs nothing.
pub proof fn law_realtime_passes_through(f: Framing, b: u8)
    requires
        b >= REALTIME,
    ensures
        f.fed(b) == (f, seq![seq![b]]),
{
}

/// A realtime byte that went out by itself.
pub open spec fn is_realtime(m: Seq<u8>) -> bool {
    m.len() == 1 && m[0] >= REALTIME
}

/// Bytes without the realtime bytes among them.
pub open spec fn quiet(bytes: Seq<u8>) -> Seq<u8>
    decreases bytes.len(),
{
    if bytes.len() == 0 {
        Seq::empty()
    } else if bytes.last() >= REALTIME {
        quiet(bytes.drop_last())
    } else {
        quiet(bytes.drop_last()).push(bytes.last())
    }
}

/// The realtime bytes among some bytes, each a message.
pub open spec fn pulses(bytes: Seq<u8>) -> Seq<Seq<u8>>
    decreases bytes.len(),
{
    if bytes.len() == 0 {
        Seq::empty()
    } else if bytes.last() >= REALTIME {
        pulses(bytes.drop_last()).push(seq![bytes.last()])
    } else {
        pulses(bytes.drop_last())
    }
}

/// The messages that are realtime bytes, or those that are not, in order.
pub open spec fn sifted(list: Seq<Seq<u8>>, realtime: bool) -> Seq<Seq<u8>>
    decreases list.len(),
{
    if list.len() == 0 {
        Seq::empty()
    } else if is_realtime(list.last()) == realtime {
        sifted(list.drop_last(), realtime).push(list.last())
    } else {
        sifted(list.drop_last(), realtime)
    }
}

proof fn lemma_sifted_add(a: Seq<Seq<u8>>, b: Seq<Seq<u8>>, realtime: bool)
    ensures
        sifted(a + b, realtime) == sifted(a, realtime) + sifted(b, realtime),
    decreases b.len(),
{
    if b.len() == 0 {
        assert(a + b =~= a);
        assert(sifted(a, realtime) + sifted(b, realtime) =~= sifted(a, realtime));
    } else {
        lemma_sifted_add(a, b.drop_last(), realtime);
        assert((a + b).drop_last() =~= a + b.drop_last());
        assert(sifted(a + b, realtime) =~= sifted(a, realtime) + sifted(b, realtime));
    }
}

/// What a byte that is not a realtime byte completes is no realtime byte.
proof fn lemma_no_pulse(f: Framing, b: u8)
    requires
        f.wf(),
        b < REALTIME,
    ensures
        sifted(f.fed(b).1, false) == f.fed(b).1,
        sifted(f.fed(b).1, true) == Seq::<Seq<u8>>::empty(),
{
    let out = f.fed(b).1;
    reveal_with_fuel(sifted, 3);
    assert(out.len() <= 2);
    if out.len() == 1 {
        assert(out.drop_last() =~= Seq::empty());
        assert(sifted(out, false) =~= out);
    } else if out.len() == 2 {
        assert(out.drop_last().drop_last() =~= Seq::empty());
        assert(out[0] == f.buf);
        assert(sifted(out, false) =~= out);
    }
}

/// Realtime bytes may stand anywhere in a stream: each goes out at once, as a
/// message of its own, and the rest is put together as if none were there.
pub proof fn law_realtime_bytes_disturb_nothing(f: Framing, bytes: Seq<u8>)
    requires
        f.wf(),
    ensures
        f.fed_all(bytes).0.wf(),
        f.fed_all(bytes).0 == f.fed_all(quiet(bytes)).0,
        sifted(f.fed_all(bytes).1, false) == f.fed_all(quiet(bytes)).1,
        sifted(f.fed_all(bytes).1, true) == pulses(bytes),
        forall|k: int|
            #![trigger bytes[k]]
            0 <= k < bytes.len() && bytes[k] >= REALTIME ==> f.fed_all(bytes.take(k + 1)).1
                == f.fed_all(bytes.take(k)).1.push(seq![bytes[k]]),
    decreases bytes.len(),
{
    if bytes.len() > 0 {
        let rest = bytes.drop_last();
        let b = bytes.last();
        law_realtime_bytes_disturb_nothing(f, rest);
        let (before, out) = f.fed_all(rest);
        let more = before.fed(b).1;
        lemma_sifted_add(out, more, false);
        lemma_sifted_add(out, more, true);
        if b >= REALTIME {
            reveal_with_fuel(sifted, 2);
            assert(more.drop_last() =~= Seq::empty());
            assert(sifted(out, false) + sifted(more, false) =~= sifted(out, false));
            assert(sifted(out, true) + sifted(more, true) =~= sifted(out, true).push(seq![b]));
        } else {
            law_only_messages_go_out(before, b);
            lemma_no_pulse(before, b);
            let q = quiet(rest);
            assert(q.push(b).drop_last() =~= q);
            assert(sifted(out, true) + sifted(more, true) =~= sifted(out, true));
        }
    } else {
        assert(quiet(bytes) =~= bytes);
    }
    assert forall|k: int| #![trigger bytes[k]]
        0 <= k < bytes.len() && bytes[k] >= REALTIME implies f.fed_all(bytes.take(k + 1)).1
        == f.fed_all(bytes.take(k)).1.push(seq![bytes[k]]) by {
        let up = bytes.take(k + 1);
        assert(up.drop_last() =~= bytes.take(k));
        assert(f.fed_all(bytes.take(k)).1 + seq![seq![bytes[k]]] =~= f.fed_all(
            bytes.take(k),
        ).1.push(seq![bytes[k]]));
    }
}

/// A message of at most three bytes as one word, the status byte lowest.
pub open spec fn packed(data: Seq<u8>) -> nat {
    (if data.len() > 0 {
        data[0] as nat
    } else {
        0
    }) + (if data.len() > 1 {
        256 * data[1] as nat
    } else {
        0
    }) + (if data.len() > 2 {
        65536 * data[2] as nat
    } else {
        0
    })
}

/// The word for a message that is not exclusive. Only three bytes count.
pub fn pack_short(data: &[u8]) -> (r: u32)
    ensures
        r == packed(data@),
{
    let mut word: u32 = 0;
    if data.len() > 0 {
        word = word + data[0] as u32;
    }
    if data.len() > 1 {
        word = word + 256 * data[1] as u32;
    }
    if data.len() > 2 {
        word = word + 65536 * data[2] as u32;
    }
    word
}

/// The message that a word carries: as many bytes as its status calls for.
pub fn unpack_short(word: u32) -> (r: Vec<u8>)
    ensures
        ({
            let bytes = seq![
                (word % 256) as u8,
                (word / 256 % 256) as u8,
                (word / 65536 % 256) as u8,
            ];
            r@ == bytes.take(length_of(bytes[0]) as int)
        }),
{
    let bytes: [u8; 3] = [
        (word % 256) as u8,
        (word / 256 % 256) as u8,
        (word / 65536 % 256) as u8,
    ];
    assert(bytes@ =~= seq![
        (word % 256) as u8,
        (word / 256 % 256) as u8,
        (word / 65536 % 256) as u8,
    ]);
    let n: usize = message_len(bytes[0]);
    let r = copy_range(bytes.as_slice(), 0, n);
    assert(r@ =~= bytes@.take(n as int));
    r
}

/// A message survives being packed and unpacked.
pub proof fn law_short_messages_survive(m: Seq<u8>)
    requires
        m.len() > 0,
        m.len() == length_of(m[0]),
    ensures
        ({
            let word = packed(m);
            let bytes = seq![
                (word % 256) as u8,
                (word / 256 % 256) as u8,
                (word / 65536 % 256) as u8,
            ];
            bytes.take(length_of(bytes[0]) as int) == m
        }),
{
    let word = packed(m);
    let bytes = seq![(word % 256) as u8, (word / 256 % 256) as u8, (word / 65536 % 256) as u8];
    assert(bytes[0] == m[0]);
    if m.len() > 1 {
        assert(bytes[1] == m[1]);
    }
    if m.len() > 2 {
        assert(bytes[2] == m[2]);
    }
    assert(bytes.take(m.len() as int) =~= m);
}

} // verus!
