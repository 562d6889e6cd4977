//! Telnet network virtual terminal for the modem's translation mode.
//!
//! The guest side is a plain terminal program that knows nothing of
//! negotiation. This module answers a server's option negotiation, unescapes
//! inbound data and escapes outbound data, in the minimal subset that a
//! bulletin board session needs:
//!
//! - ECHO and SUPPRESS-GO-AHEAD are accepted from the server.
//! - BINARY is accepted both ways.
//! - TERMINAL-TYPE is answered with a fixed name.
//! - NAWS and SEND-LOCATION are accepted only with the reporting extra.
//! - Everything else is refused, which every server must accept.
//!
//! IAC bytes are doubled outbound and undoubled inbound. Outside binary mode
//! a bare outbound CR becomes CR NUL, and an inbound CR NUL becomes CR.
use vstd::prelude::*;
use crate::bytes::push_all;

verus! {

pub const IAC: u8 = 255;

pub const DONT: u8 = 254;

pub const DO: u8 = 253;

pub const WONT: u8 = 252;

pub const WILL: u8 = 251;

pub const SB: u8 = 250;

pub const SE: u8 = 240;

pub const OPT_BINARY: u8 = 0;

pub const OPT_ECHO: u8 = 1;

pub const OPT_SGA: u8 = 3;

pub const OPT_SEND_LOCATION: u8 = 23;

pub const OPT_TTYPE: u8 = 24;

pub const OPT_NAWS: u8 = 31;

pub const TTYPE_IS: u8 = 0;

pub const TTYPE_SEND: u8 = 1;

/// Carriage return.
pub const CR: u8 = 13;

/// The terminal type answered: `ANSI`.
pub const TERM_TYPE: [u8; 4] = [0x41, 0x4e, 0x53, 0x49];

/// The location answered: `Copperline`. There is no real place to report, so
/// this names the emulator.
pub const LOCATION: [u8; 10] = [0x43, 0x6f, 0x70, 0x70, 0x65, 0x72, 0x6c, 0x69, 0x6e, 0x65];

/// Where the parser stands.
#[derive(Clone, Copy, Debug, PartialEq, Eq, Structural)]
pub enum State {
    /// Ordinary data bytes.
    Data,
    /// An IAC byte was just seen; the next byte says what kind of command.
    Iac,
    /// A verb was seen; the next byte is the option.
    Opt(u8),
    /// Inside a subnegotiation.
    Sb,
    /// An IAC was seen inside a subnegotiation.
    SbIac,
}

/// A minimal network virtual terminal, one byte at a time.
pub struct TelnetNvt {
    /// The extras: window size and location.
    pub reporting: bool,
    pub state: State,
    /// The subnegotiation's payload; the first byte is the option.
    pub sb: Vec<u8>,
    /// The previous data byte was a bare CR.
    pub last_was_cr: bool,
    /// Options that the remote performs.
    pub remote_on: [bool; 256],
    /// Options that this side performs.
    pub local_on: [bool; 256],
}

/// What a terminal knows.
pub struct Terminal {
    pub reporting: bool,
    pub state: State,
    pub sb: Seq<u8>,
    pub last_was_cr: bool,
    pub remote_on: Seq<bool>,
    pub local_on: Seq<bool>,
}

impl View for TelnetNvt {
    type V = Terminal;

    open spec fn view(&self) -> Terminal {
        Terminal {
            reporting: self.reporting,
            state: self.state,
            sb: self.sb@,
            last_was_cr: self.last_was_cr,
            remote_on: self.remote_on@,
            local_on: self.local_on@,
        }
    }
}

pub open spec fn is_verb(b: u8) -> bool {
    b == WILL || b == WONT || b == DO || b == DONT
}

/// The fixed location's subnegotiation.
pub open spec fn location_report() -> Seq<u8> {
    seq![IAC, SB, OPT_SEND_LOCATION] + LOCATION@ + seq![IAC, SE]
}

/// The window of a fixed terminal of eighty columns and twenty-four rows.
pub open spec fn window_report() -> Seq<u8> {
    seq![IAC, SB, OPT_NAWS, 0, 80, 0, 24, IAC, SE]
}

impl Terminal {
    /// Options this side performs when it is asked to.
    pub open spec fn accepts_local(self, opt: u8) -> bool {
        opt == OPT_BINARY || opt == OPT_SGA || opt == OPT_TTYPE || (self.reporting && (opt
            == OPT_NAWS || opt == OPT_SEND_LOCATION))
    }

    /// Options the remote may perform when it offers to.
    pub open spec fn accepts_remote(self, opt: u8) -> bool {
        opt == OPT_BINARY || opt == OPT_ECHO || opt == OPT_SGA
    }

    /// Every option that is on is one that is accepted, and a verb that
    /// awaits its option is a verb.
    pub open spec fn wf(self) -> bool {
        &&& self.remote_on.len() == 256
        &&& self.local_on.len() == 256
        &&& forall|opt: u8| #[trigger] self.remote_on[opt as int] ==> self.accepts_remote(opt)
        &&& forall|opt: u8| #[trigger] self.local_on[opt as int] ==> self.accepts_local(opt)
        &&& self.state matches State::Opt(verb) ==> is_verb(verb)
    }

    /// The options after a verb, and the answer to it.
    pub open spec fn negotiated(self, verb: u8, opt: u8) -> (Terminal, Seq<u8>) {
        let on_here = Terminal { local_on: self.local_on.update(opt as int, true), ..self };
        let off_here = Terminal { local_on: self.local_on.update(opt as int, false), ..self };
        let on_there = Terminal { remote_on: self.remote_on.update(opt as int, true), ..self };
        let off_there = Terminal { remote_on: self.remote_on.update(opt as int, false), ..self };
        let none = Seq::<u8>::empty();
        if verb == DO {
            if !self.accepts_local(opt) {
                (self, seq![IAC, WONT, opt])
            } else if self.local_on[opt as int] {
                (self, none)
            } else if opt == OPT_NAWS {
                (on_here, seq![IAC, WILL, opt] + window_report())
            } else if opt == OPT_SEND_LOCATION {
                (on_here, seq![IAC, WILL, opt] + location_report())
            } else {
                (on_here, seq![IAC, WILL, opt])
            }
        } else if verb == DONT {
            if self.local_on[opt as int] {
                (off_here, seq![IAC, WONT, opt])
            } else {
                (self, none)
            }
        } else if verb == WILL {
            if !self.accepts_remote(opt) {
                (self, seq![IAC, DONT, opt])
            } else if self.remote_on[opt as int] {
                (self, none)
            } else {
                (on_there, seq![IAC, DO, opt])
            }
        } else if verb == WONT {
            if self.remote_on[opt as int] {
                (off_there, seq![IAC, DONT, opt])
            } else {
                (self, none)
            }
        } else {
            (self, none)
        }
    }

    /// The answer to a subnegotiation.
    pub open spec fn subnegotiated(self) -> Seq<u8> {
        if self.sb.len() >= 2 && self.sb[0] == OPT_TTYPE && self.sb[1] == TTYPE_SEND {
            seq![IAC, SB, OPT_TTYPE, TTYPE_IS] + TERM_TYPE@ + seq![IAC, SE]
        } else if self.reporting && self.sb.len() > 0 && self.sb[0] == OPT_SEND_LOCATION {
            location_report()
        } else {
            Seq::empty()
        }
    }

    /// The terminal after a byte from the wire, the data it yields, and the
    /// answer it calls for.
    pub open spec fn received(self, b: u8) -> (Terminal, Seq<u8>, Seq<u8>) {
        let none = Seq::<u8>::empty();
        match self.state {
            State::Data => if b == IAC {
                (Terminal { last_was_cr: false, state: State::Iac, ..self }, none, none)
            } else if self.last_was_cr && b == 0 && !self.remote_on[OPT_BINARY as int] {
                (Terminal { last_was_cr: false, ..self }, none, none)
            } else {
                (Terminal { last_was_cr: b == CR, ..self }, seq![b], none)
            },
            State::Iac => if b == IAC {
                (Terminal { state: State::Data, ..self }, seq![IAC], none)
            } else if is_verb(b) {
                (Terminal { state: State::Opt(b), ..self }, none, none)
            } else if b == SB {
                (Terminal { state: State::Sb, sb: none, ..self }, none, none)
            } else {
                (Terminal { state: State::Data, ..self }, none, none)
            },
            State::Opt(verb) => {
                let (after, reply) = self.negotiated(verb, b);
                (Terminal { state: State::Data, ..after }, none, reply)
            },
            State::Sb => if b == IAC {
                (Terminal { state: State::SbIac, ..self }, none, none)
            } else {
                (Terminal { sb: self.sb.push(b), ..self }, none, none)
            },
            State::SbIac => if b == SE {
                (Terminal { state: State::Data, ..self }, none, self.subnegotiated())
            } else {
                (Terminal { state: State::Sb, sb: self.sb.push(b), ..self }, none, none)
            },
        }
    }

    /// The wire's bytes for one byte of the guest.
    pub open spec fn sent(self, b: u8) -> Seq<u8> {
        if b == IAC {
            seq![IAC, IAC]
        } else if b == CR && !self.local_on[OPT_BINARY as int] {
            seq![CR, 0]
        } else {
            seq![b]
        }
    }

    /// The terminal after some bytes from the wire, the data and the answers.
    pub open spec fn received_all(self, bytes: Seq<u8>) -> (Terminal, Seq<u8>, Seq<u8>)
        decreases bytes.len(),
    {
        if bytes.len() == 0 {
            (self, Seq::empty(), Seq::empty())
        } else {
            let (before, data, reply) = self.received_all(bytes.drop_last());
            let (after, more, answer) = before.received(bytes.last());
            (after, data + more, reply + answer)
        }
    }

    /// The wire's bytes for some bytes of the guest.
    pub open spec fn sent_all(self, bytes: Seq<u8>) -> Seq<u8>
        decreases bytes.len(),
    {
        if bytes.len() == 0 {
            Seq::empty()
        } else {
            self.sent_all(bytes.drop_last()) + self.sent(bytes.last())
        }
    }
}

impl TelnetNvt {
    /// A terminal on a fresh line, with the extras or without.
    pub fn new(reporting: bool) -> (r: TelnetNvt)
        ensures
            r@.wf(),
            r@ == (Terminal {
                reporting,
                state: State::Data,
                sb: Seq::empty(),
                last_was_cr: false,
                remote_on: Seq::new(256, |i: int| false),
                local_on: Seq::new(256, |i: int| false),
            }),
    {
        let r = TelnetNvt {
            reporting,
            state: State::Data,
            sb: Vec::new(),
            last_was_cr: false,
            remote_on: [false;256],
            local_on: [false;256],
        };
        assert(r.remote_on@ =~= Seq::new(256, |i: int| false));
        assert(r.local_on@ =~= Seq::new(256, |i: int| false));
        r
    }

    fn accepts_local(&self, opt: u8) -> (r: bool)
        ensures
            r == self@.accepts_local(opt),
    {
        opt == OPT_BINARY || opt == OPT_SGA || opt == OPT_TTYPE || (self.reporting && (opt
            == OPT_NAWS || opt == OPT_SEND_LOCATION))
    }

    fn accepts_remote(&self, opt: u8) -> (r: bool)
        ensures
            r == self@.accepts_remote(opt),
    {
        opt == OPT_BINARY || opt == OPT_ECHO || opt == OPT_SGA
    }

    /// One byte from the wire: data bytes for the guest go onto `data`, and
    /// negotiation answers onto `reply`.
    pub fn receive(&mut self, b: u8, data: &mut Vec<u8>, reply: &mut Vec<u8>)
        requires
            old(self)@.wf(),
        ensures
            final(self)@.wf(),
            final(self)@ == old(self)@.received(b).0,
            final(data)@ == old(data)@ + old(self)@.received(b).1,
            final(reply)@ == old(reply)@ + old(self)@.received(b).2,
    {
        let ghost before = self@;
        let ghost data0 = data@;
        let ghost reply0 = reply@;
        proof {
            assert(data0 + Seq::<u8>::empty() =~= data0);
            assert(reply0 + Seq::<u8>::empty() =~= reply0);
            assert(data0.push(b) =~= data0 + seq![b]);
            assert(data0.push(IAC) =~= data0 + seq![IAC]);
        }
        match self.state {
            State::Data => {
                if b == IAC {
                    self.last_was_cr = false;
                    self.state = State::Iac;
                } else if self.last_was_cr && b == 0 && !self.remote_on[OPT_BINARY as usize] {
                    self.last_was_cr = false;
                } else {
                    self.last_was_cr = b == CR;
                    data.push(b);
                }
            },
            State::Iac => {
                if b == IAC {
                    data.push(IAC);
                    self.state = State::Data;
                } else if b == WILL || b == WONT || b == DO || b == DONT {
                    self.state = State::Opt(b);
                } else if b == SB {
                    self.sb = Vec::new();
                    self.state = State::Sb;
                } else {
                    self.state = State::Data;
                }
            },
            State::Opt(verb) => {
                self.negotiate(verb, b, reply);
                self.state = State::Data;
            },
            State::Sb => {
                if b == IAC {
                    self.state = State::SbIac;
                } else {
                    self.sb.push(b);
                }
            },
            State::SbIac => {
                if b == SE {
                    self.subnegotiate(reply);
                    self.state = State::Data;
                } else {
                    self.sb.push(b);
                    self.state = State::Sb;
                }
            },
        }
    }

    /// Answer a request to switch an option. Where the same was just asked, it is
    /// answered only where it is refused, and changes nothing.
    pub fn negotiate(&mut self, verb: u8, opt: u8, reply: &mut Vec<u8>)
        requires
            old(self)@.wf(),
            is_verb(verb),
        ensures
            final(self)@.wf(),
            final(self)@ == old(self)@.negotiated(verb, opt).0,
            final(reply)@ == old(reply)@ + old(self)@.negotiated(verb, opt).1,
            final(self)@.negotiated(verb, opt) == (
                final(self)@,
                if verb == DO && !old(self)@.accepts_local(opt) {
                    seq![IAC, WONT, opt]
                } else if verb == WILL && !old(self)@.accepts_remote(opt) {
                    seq![IAC, DONT, opt]
                } else {
                    Seq::empty()
                },
            ),
    {
        let ghost before = self@;
        let ghost reply0 = reply@;
        proof {
            law_negotiation_settles(before, verb, opt);
            assert(reply0 + Seq::<u8>::empty() =~= reply0);
        }
        if verb == DO {
            if self.accepts_local(opt) {
                if !self.local_on[opt as usize] {
                    self.local_on[opt as usize] = true;
                    push_three(reply, IAC, WILL, opt);
                    if opt == OPT_NAWS {
                        let window: [u8; 9] = [IAC, SB, OPT_NAWS, 0, 80, 0, 24, IAC, SE];
                        assert(window@ =~= window_report());
                        push_all(reply, window.as_slice());
                        assert(reply@ =~= reply0 + (seq![IAC, WILL, opt] + window_report()));
                    }
                    if opt == OPT_SEND_LOCATION {
                        send_location(reply);
                        assert(reply@ =~= reply0 + (seq![IAC, WILL, opt] + location_report()));
                    }
                }
            } else {
                push_three(reply, IAC, WONT, opt);
            }
        } else if verb == DONT {
            if self.local_on[opt as usize] {
                self.local_on[opt as usize] = false;
                push_three(reply, IAC, WONT, opt);
            }
        } else if verb == WILL {
            if self.accepts_remote(opt) {
                if !self.remote_on[opt as usize] {
                    self.remote_on[opt as usize] = true;
                    push_three(reply, IAC, DO, opt);
                }
            } else {
                push_three(reply, IAC, DONT, opt);
            }
        } else if self.remote_on[opt as usize] {
            self.remote_on[opt as usize] = false;
            push_three(reply, IAC, DONT, opt);
        }
    }

    fn subnegotiate(&self, reply: &mut Vec<u8>)
        ensures
            final(reply)@ == old(reply)@ + self@.subnegotiated(),
    {
        let ghost reply0 = reply@;
        if self.sb.len() >= 2 && self.sb[0] == OPT_TTYPE && self.sb[1] == TTYPE_SEND {
            let head: [u8; 4] = [IAC, SB, OPT_TTYPE, TTYPE_IS];
            push_all(reply, head.as_slice());
            push_all(reply, TERM_TYPE.as_slice());
            let tail: [u8; 2] = [IAC, SE];
            push_all(reply, tail.as_slice());
            assert(head@ =~= seq![IAC, SB, OPT_TTYPE, TTYPE_IS]);
            assert(tail@ =~= seq![IAC, SE]);
            assert(reply@ =~= reply0 + self@.subnegotiated());
            return ;
        }
        if self.reporting && self.sb.len() > 0 && self.sb[0] == OPT_SEND_LOCATION {
            send_location(reply);
        } else {
            assert(reply@ =~= reply0 + self@.subnegotiated());
        }
    }

    /// One byte of the guest; the wire's bytes go onto `out`.
    pub fn send(&self, b: u8, out: &mut Vec<u8>)
        requires
            self@.wf(),
        ensures
            final(out)@ == old(out)@ + self@.sent(b),
    {
        if b == IAC {
            out.push(IAC);
            out.push(IAC);
        } else if b == CR && !self.local_on[OPT_BINARY as usize] {
            out.push(CR);
            out.push(0);
        } else {
            out.push(b);
        }
        assert(out@ =~= old(out)@ + self@.sent(b));
    }
}

fn push_three(out: &mut Vec<u8>, a: u8, b: u8, c: u8)
    ensures
        final(out)@ == old(out)@ + seq![a, b, c],
{
    out.push(a);
    out.push(b);
    out.push(c);
    assert(out@ =~= old(out)@ + seq![a, b, c]);
}

fn send_location(reply: &mut Vec<u8>)
    ensures
        final(reply)@ == old(reply)@ + location_report(),
{
    push_three(reply, IAC, SB, OPT_SEND_LOCATION);
    push_all(reply, LOCATION.as_slice());
    reply.push(IAC);
    reply.push(SE);
    assert(reply@ =~= old(reply)@ + location_report());
}

/// Reading the wire in pieces is reading it whole.
proof fn lemma_received_all_splits(t: Terminal, a: Seq<u8>, b: Seq<u8>)
    ensures
        ({
            let (mid, data, reply) = t.received_all(a);
            let (end, more, answer) = mid.received_all(b);
            t.received_all(a + b) == (end, data + more, reply + answer)
        }),
    decreases b.len(),
{
    let (mid, data, reply) = t.received_all(a);
    if b.len() == 0 {
        assert(a + b =~= a);
        assert(data + Seq::<u8>::empty() =~= data);
        assert(reply + Seq::<u8>::empty() =~= reply);
    } else {
        assert((a + b).drop_last() =~= a + b.drop_last());
        lemma_received_all_splits(t, a, b.drop_last());
        let (last, more, answer) = mid.received_all(b.drop_last());
        let (end, most, final_answer) = last.received(b.last());
        assert((data + more) + most =~= data + (more + most));
        assert((reply + answer) + final_answer =~= reply + (answer + final_answer));
    }
}

/// Data crosses the line unchanged: whatever bytes one terminal sends, a
/// terminal that agrees with it about binary mode hands on exactly those, and
/// finds nothing in them to answer.
pub proof fn law_data_crosses_unchanged(sender: Terminal, receiver: Terminal, bytes: Seq<u8>)
    requires
        sender.wf(),
        receiver.wf(),
        sender.local_on[OPT_BINARY as int] == receiver.remote_on[OPT_BINARY as int],
        receiver.state == State::Data,
        receiver.remote_on[OPT_BINARY as int] || !receiver.last_was_cr,
    ensures
        ({
            let (after, data, reply) = receiver.received_all(sender.sent_all(bytes));
            &&& data == bytes
            &&& reply == Seq::<u8>::empty()
            &&& after.state == State::Data
            &&& after.remote_on == receiver.remote_on
            &&& after.local_on == receiver.local_on
            &&& after.remote_on[OPT_BINARY as int] || !after.last_was_cr
        }),
    decreases bytes.len(),
{
    if bytes.len() == 0 {
        assert(sender.sent_all(bytes) =~= Seq::empty());
        assert(bytes =~= Seq::empty());
    } else {
        let first = bytes.drop_last();
        let b = bytes.last();
        law_data_crosses_unchanged(sender, receiver, first);
        lemma_received_all_splits(receiver, sender.sent_all(first), sender.sent(b));
        let mid = receiver.received_all(sender.sent_all(first)).0;
        let wire = sender.sent(b);
        let (end, data, reply) = mid.received_all(wire);
        assert(wire.drop_last().len() < 2);
        if wire.len() == 1 {
            assert(wire.drop_last() =~= Seq::empty());
            assert(mid.received_all(wire.drop_last()) == (
                mid,
                Seq::<u8>::empty(),
                Seq::<u8>::empty(),
            ));
            assert(data =~= seq![b]);
            assert(reply =~= Seq::empty());
        } else {
            let head = wire.drop_last();
            assert(head =~= seq![wire[0]]);
            assert(head.drop_last() =~= Seq::empty());
            assert(mid.received_all(head.drop_last()) == (
                mid,
                Seq::<u8>::empty(),
                Seq::<u8>::empty(),
            ));
            let step = mid.received(wire[0]);
            assert(mid.received_all(head).0 == step.0);
            assert(mid.received_all(head).1 =~= step.1);
            assert(mid.received_all(head).2 =~= step.2);
            assert(data =~= seq![b]);
            assert(reply =~= Seq::empty());
        }
        assert(bytes =~= first + seq![b]);
        assert(Seq::<u8>::empty() + Seq::<u8>::empty() =~= Seq::<u8>::empty());
    }
}

/// Negotiation settles: whatever is asked, asking it again changes nothing and
/// is not answered, unless it is refused. A request to switch on an option that
/// is not accepted is refused each time, in the same words.
pub proof fn law_negotiation_settles(t: Terminal, verb: u8, opt: u8)
    requires
        t.wf(),
        is_verb(verb),
    ensures
        ({
            let (once, _) = t.negotiated(verb, opt);
            let (twice, again) = once.negotiated(verb, opt);
            &&& once.wf()
            &&& twice == once
            &&& again == (if verb == DO && !t.accepts_local(opt) {
                seq![IAC, WONT, opt]
            } else if verb == WILL && !t.accepts_remote(opt) {
                seq![IAC, DONT, opt]
            } else {
                Seq::empty()
            })
        }),
{
    let (once, _) = t.negotiated(verb, opt);
    assert(once.wf()) by {
        assert forall|o: u8| #[trigger] once.remote_on[o as int] implies once.accepts_remote(o) by {
            if o != opt {
                assert(once.remote_on[o as int] == t.remote_on[o as int]);
            }
        }
        assert forall|o: u8| #[trigger] once.local_on[o as int] implies once.accepts_local(o) by {
            if o != opt {
                assert(once.local_on[o as int] == t.local_on[o as int]);
            }
        }
    }
}

} // verus!
