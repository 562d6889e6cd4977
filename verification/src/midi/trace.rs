//! The debug trace of the bridge.
use vstd::prelude::*;
use crate::text::{decimal, hex_byte, push_decimal, push_hex, push_text, text_of};

verus! {

/// Bytes in two digits each, with spaces between them.
pub open spec fn hex(bytes: Seq<u8>) -> Seq<char>
    decreases bytes.len(),
{
    if bytes.len() == 0 {
        Seq::empty()
    } else if bytes.len() == 1 {
        hex_byte(bytes[0])
    } else {
        hex(bytes.drop_last()) + " "@ + hex_byte(bytes.last())
    }
}

fn push_hex_bytes(out: &mut Vec<char>, bytes: &[u8])
    ensures
        final(out)@ == old(out)@ + hex(bytes@),
{
    let ghost start = out@;
    let mut i: usize = 0;
    proof {
        assert(bytes@.take(0) =~= Seq::empty());
        assert(start + hex(bytes@.take(0)) =~= start);
    }
    while i < bytes.len()
        invariant
            i <= bytes@.len(),
            out@ == start + hex(bytes@.take(i as int)),
        decreases bytes@.len() - i,
    {
        proof {
            let taken = bytes@.take(i + 1);
            assert(taken.drop_last() =~= bytes@.take(i as int));
            assert(taken.last() == bytes@[i as int]);
        }
        if i > 0 {
            push_text(out, " ");
        }
        push_hex(out, bytes[i]);
        assert(out@ =~= start + hex(bytes@.take(i + 1)));
        i += 1;
    }
    assert(bytes@.take(i as int) =~= bytes@);
}

pub fn hex_bytes(bytes: &[u8]) -> (r: String)
    ensures
        r@ == hex(bytes@),
{
    let mut out: Vec<char> = Vec::new();
    push_hex_bytes(&mut out, bytes);
    assert(out@ =~= hex(bytes@));
    text_of(out.as_slice())
}

/// A byte of a message in digits, or a question mark where it is missing.
pub open spec fn datum(msg: Seq<u8>, i: int) -> Seq<char> {
    if i < msg.len() {
        decimal(msg[i] as nat)
    } else {
        "?"@
    }
}

/// The words for a system message.
pub open spec fn system_words(msg: Seq<u8>) -> Seq<char> {
    let status = msg[0];
    if status == 0xf0 {
        "SysEx ("@ + decimal(msg.len()) + " bytes)"@
    } else if status == 0xf1 {
        "MTC Quarter Frame "@ + datum(msg, 1)
    } else if status == 0xf2 {
        "Song Position"@
    } else if status == 0xf3 {
        "Song Select "@ + datum(msg, 1)
    } else if status == 0xf6 {
        "Tune Request"@
    } else if status == 0xf8 {
        "Clock"@
    } else if status == 0xfa {
        "Start"@
    } else if status == 0xfb {
        "Continue"@
    } else if status == 0xfc {
        "Stop"@
    } else if status == 0xfe {
        "Active Sense"@
    } else if status == 0xff {
        "Reset"@
    } else {
        "System 0x"@ + hex_byte(status)
    }
}

/// The words for a message.
pub open spec fn description(msg: Seq<u8>) -> Seq<char> {
    if msg.len() == 0 {
        "(empty)"@
    } else {
        let status = msg[0];
        let kind = status / 16;
        let channel = decimal((status % 16 + 1) as nat);
        if kind == 0x8 {
            "Note Off   ch"@ + channel + " note "@ + datum(msg, 1) + " vel "@ + datum(msg, 2)
        } else if kind == 0x9 && msg.len() > 2 && msg[2] == 0 {
            "Note Off   ch"@ + channel + " note "@ + datum(msg, 1) + " (vel 0)"@
        } else if kind == 0x9 {
            "Note On    ch"@ + channel + " note "@ + datum(msg, 1) + " vel "@ + datum(msg, 2)
        } else if kind == 0xa {
            "Poly AT    ch"@ + channel + " note "@ + datum(msg, 1) + " press "@ + datum(msg, 2)
        } else if kind == 0xb {
            "Control    ch"@ + channel + " cc "@ + datum(msg, 1) + " val "@ + datum(msg, 2)
        } else if kind == 0xc {
            "Program    ch"@ + channel + " "@ + datum(msg, 1)
        } else if kind == 0xd {
            "Chan AT    ch"@ + channel + " "@ + datum(msg, 1)
        } else if kind == 0xe {
            "Pitch Bend ch"@ + channel + " lsb "@ + datum(msg, 1) + " msb "@ + datum(msg, 2)
        } else if kind == 0xf {
            system_words(msg)
        } else {
            "data "@ + hex(msg)
        }
    }
}

fn push_datum(out: &mut Vec<char>, msg: &[u8], i: usize)
    ensures
        final(out)@ == old(out)@ + datum(msg@, i as int),
{
    if i < msg.len() {
        push_decimal(out, msg[i] as u64);
    } else {
        push_text(out, "?");
    }
}

/// What a message begins with: its kind, its channel and a word.
fn push_channel(out: &mut Vec<char>, kind: &str, status: u8, word: &str)
    ensures
        final(out)@ == old(out)@ + (kind@ + decimal((status % 16 + 1) as nat) + word@),
{
    let ghost start = out@;
    push_text(out, kind);
    push_decimal(out, (status % 16 + 1) as u64);
    push_text(out, word);
    assert(out@ =~= start + (kind@ + decimal((status % 16 + 1) as nat) + word@));
}

fn push_system(out: &mut Vec<char>, msg: &[u8])
    requires
        msg@.len() > 0,
    ensures
        final(out)@ == old(out)@ + system_words(msg@),
{
    let ghost start = out@;
    let status: u8 = msg[0];
    if status == 0xf0 {
        push_text(out, "SysEx (");
        push_decimal(out, msg.len() as u64);
        push_text(out, " bytes)");
    } else if status == 0xf1 {
        push_text(out, "MTC Quarter Frame ");
        push_datum(out, msg, 1);
    } else if status == 0xf2 {
        push_text(out, "Song Position");
    } else if status == 0xf3 {
        push_text(out, "Song Select ");
        push_datum(out, msg, 1);
    } else if status == 0xf6 {
        push_text(out, "Tune Request");
    } else if status == 0xf8 {
        push_text(out, "Clock");
    } else if status == 0xfa {
        push_text(out, "Start");
    } else if status == 0xfb {
        push_text(out, "Continue");
    } else if status == 0xfc {
        push_text(out, "Stop");
    } else if status == 0xfe {
        push_text(out, "Active Sense");
    } else if status == 0xff {
        push_text(out, "Reset");
    } else {
        push_text(out, "System 0x");
        push_hex(out, status);
    }
    assert(out@ =~= start + system_words(msg@));
}

/// One line for a message.
pub fn describe(msg: &[u8]) -> (r: String)
    ensures
        r@ == description(msg@),
{
    let mut out: Vec<char> = Vec::new();
    if msg.len() == 0 {
        push_text(&mut out, "(empty)");
        assert(out@ =~= description(msg@));
        return text_of(out.as_slice());
    }
    let status: u8 = msg[0];
    let kind: u8 = status / 16;
    if kind == 0x8 {
        push_channel(&mut out, "Note Off   ch", status, " note ");
        push_datum(&mut out, msg, 1);
        push_text(&mut out, " vel ");
        push_datum(&mut out, msg, 2);
    } else if kind == 0x9 && msg.len() > 2 && msg[2] == 0 {
        push_channel(&mut out, "Note Off   ch", status, " note ");
        push_datum(&mut out, msg, 1);
        push_text(&mut out, " (vel 0)");
    } else if kind == 0x9 {
        push_channel(&mut out, "Note On    ch", status, " note ");
        push_datum(&mut out, msg, 1);
        push_text(&mut out, " vel ");
        push_datum(&mut out, msg, 2);
    } else if kind == 0xa {
        push_channel(&mut out, "Poly AT    ch", status, " note ");
        push_datum(&mut out, msg, 1);
        push_text(&mut out, " press ");
        push_datum(&mut out, msg, 2);
    } else if kind == 0xb {
        push_channel(&mut out, "Control    ch", status, " cc ");
        push_datum(&mut out, msg, 1);
        push_text(&mut out, " val ");
        push_datum(&mut out, msg, 2);
    } else if kind == 0xc {
        push_channel(&mut out, "Program    ch", status, " ");
        push_datum(&mut out, msg, 1);
    } else if kind == 0xd {
        push_channel(&mut out, "Chan AT    ch", status, " ");
        push_datum(&mut out, msg, 1);
    } else if kind == 0xe {
        push_channel(&mut out, "Pitch Bend ch", status, " lsb ");
        push_datum(&mut out, msg, 1);
        push_text(&mut out, " msb ");
        push_datum(&mut out, msg, 2);
    } else if kind == 0xf {
        push_system(&mut out, msg);
    } else {
        push_text(&mut out, "data ");
        push_hex_bytes(&mut out, msg);
    }
    assert(out@ =~= description(msg@));
    text_of(out.as_slice())
}

/// How many of the last bytes are kept for the trace.
pub const SAMPLE: usize = 24;

/// The flow of bytes in both directions.
pub struct MidiDebug {
    pub tx_bytes: u64,
    pub rx_bytes: u64,
    /// The last bytes that were transmitted.
    pub sample: Vec<u8>,
}

/// The last bytes of some.
pub open spec fn last_bytes(bytes: Seq<u8>, n: nat) -> Seq<u8> {
    if bytes.len() <= n {
        bytes
    } else {
        bytes.skip(bytes.len() - n)
    }
}

impl MidiDebug {
    pub open spec fn wf(self) -> bool {
        self.sample@.len() <= SAMPLE
    }

    pub fn new() -> (r: MidiDebug)
        ensures
            r.wf(),
            r.tx_bytes == 0,
            r.rx_bytes == 0,
            r.sample@.len() == 0,
    {
        MidiDebug { tx_bytes: 0, rx_bytes: 0, sample: Vec::new() }
    }

    /// Keep the last of the transmitted bytes.
    pub fn record_sample(&mut self, msg: &[u8])
        requires
            old(self).wf(),
        ensures
            final(self).wf(),
            final(self).sample@ == last_bytes(old(self).sample@ + msg@, 24 as nat),
            final(self).tx_bytes == old(self).tx_bytes,
            final(self).rx_bytes == old(self).rx_bytes,
    {
        let ghost start = self.sample@;
        let mut i: usize = 0;
        proof {
            assert(start + msg@.take(0) =~= start);
        }
        while i < msg.len()
            invariant
                i <= msg@.len(),
                self.wf(),
                self.sample@ == last_bytes(start + msg@.take(i as int), SAMPLE as nat),
                self.tx_bytes == old(self).tx_bytes,
                self.rx_bytes == old(self).rx_bytes,
            decreases msg@.len() - i,
        {
            let ghost all = start + msg@.take(i as int);
            let ghost held = self.sample@;
            if self.sample.len() >= SAMPLE {
                self.sample.remove(0);
            }
            self.sample.push(msg[i]);
            proof {
                assert(start + msg@.take(i + 1) =~= all.push(msg@[i as int]));
                assert(self.sample@ =~= last_bytes(all.push(msg@[i as int]), SAMPLE as nat));
            }
            i += 1;
        }
        assert(msg@.take(i as int) =~= msg@);
    }

    /// The report that is made about once a second.
    pub fn report(&self) -> (r: String)
        ensures
            r@ == "midi: tx "@ + decimal(self.tx_bytes as nat) + " bytes, rx "@ + decimal(
                self.rx_bytes as nat,
            ) + " bytes, first tx: ["@ + hex(self.sample@) + "]"@,
    {
        let mut out: Vec<char> = Vec::new();
        push_text(&mut out, "midi: tx ");
        push_decimal(&mut out, self.tx_bytes);
        push_text(&mut out, " bytes, rx ");
        push_decimal(&mut out, self.rx_bytes);
        push_text(&mut out, " bytes, first tx: [");
        push_hex_bytes(&mut out, self.sample.as_slice());
        push_text(&mut out, "]");
        assert(out@ =~= "midi: tx "@ + decimal(self.tx_bytes as nat) + " bytes, rx "@ + decimal(
            self.rx_bytes as nat,
        ) + " bytes, first tx: ["@ + hex(self.sample@) + "]"@);
        text_of(out.as_slice())
    }
}

} // verus!
