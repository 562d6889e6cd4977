//! Scripted modem calls and the stored profile.
use std::collections::VecDeque;

use copperline::modem::profile::{set_persistence, ModemProfile, Persistence, Stored};
use copperline::modem::session::{
    delay_texts, parse_script, DelayReading, DialError, Directive, ListenError, ScriptError,
    ScriptFault, ScriptedTransport,
};

/// Ticks of the color clock in a second.
const PAULA_CLOCK_HZ: u32 = 3_546_895;

/// The reading of a delay's number.
fn reading(text: &str) -> DelayReading {
    match text.parse::<f64>() {
        Err(_) => DelayReading::NotANumber,
        Ok(secs) if !secs.is_finite() || secs < 0.0 => DelayReading::OutOfRange(secs.to_string()),
        Ok(secs) => DelayReading::Ticks((secs * f64::from(PAULA_CLOCK_HZ)) as u64),
    }
}

fn parse(text: &str) -> Result<Vec<Directive>, ScriptError> {
    let readings: Vec<DelayReading> = delay_texts(text).iter().map(|t| reading(t)).collect();
    parse_script(text, &readings)
}

fn from_script(text: &str) -> ScriptedTransport {
    let readings: Vec<DelayReading> = delay_texts(text).iter().map(|t| reading(t)).collect();
    match ScriptedTransport::from_script(text, &readings) {
        Ok(t) => t,
        Err(e) => panic!("the script parses: {}", e.text()),
    }
}

/// A modem that knows just enough commands to place a scripted call.
struct Sink {
    transport: ScriptedTransport,
    echo: bool,
    online: bool,
    line: String,
    out: VecDeque<u8>,
    pluses: usize,
    last: u64,
}

impl Sink {
    fn with_transport(transport: ScriptedTransport) -> Self {
        Sink {
            transport,
            echo: true,
            online: false,
            line: String::new(),
            out: VecDeque::new(),
            pluses: 0,
            last: 0,
        }
    }

    fn say(&mut self, text: &str) {
        self.out.extend(format!("\r\n{text}\r\n").bytes());
    }

    fn write_byte(&mut self, b: u8, at: u64) {
        let guard = u64::from(PAULA_CLOCK_HZ);
        if self.online {
            if b == b'+' && (self.pluses > 0 || at >= self.last + guard) {
                self.pluses += 1;
            } else {
                self.pluses = 0;
                self.transport.write_byte(b);
            }
            self.last = at;
            return;
        }
        if self.echo {
            self.out.push_back(b);
        }
        if b != 13 {
            self.line.push(b as char);
            return;
        }
        let line = std::mem::take(&mut self.line);
        if line == "ATE0" {
            self.echo = false;
            self.say("OK");
        } else if line == "ATH" {
            self.transport.hangup();
            self.say("OK");
        } else if line == "ATO" {
            if self.transport.carrier() {
                self.online = true;
                self.say("CONNECT");
            } else {
                self.say("NO CARRIER");
            }
        } else if line.starts_with("ATD") {
            match self.transport.dial() {
                Ok(()) => {
                    self.online = true;
                    self.last = at;
                    self.say("CONNECT");
                    self.transport.advance(at);
                }
                Err(DialError::Refused) => self.say("BUSY"),
                Err(DialError::Unreachable) => self.say("NO CARRIER"),
            }
        }
    }

    fn poll(&mut self, at: u64) {
        if self.online {
            if self.pluses == 3 && at >= self.last + u64::from(PAULA_CLOCK_HZ) {
                self.pluses = 0;
                self.online = false;
                self.say("OK");
            } else {
                self.transport.advance(at);
            }
        }
    }

    fn read_byte(&mut self) -> Option<u8> {
        if let Some(b) = self.out.pop_front() {
            return Some(b);
        }
        if self.online {
            if let Some(b) = self.transport.read_byte() {
                return Some(b);
            }
            if !self.transport.carrier() {
                self.online = false;
                self.say("NO CARRIER");
                return self.out.pop_front();
            }
        }
        None
    }
}

fn type_line(sink: &mut Sink, s: &str, at_cck: u64) {
    for b in s.bytes() {
        sink.write_byte(b, at_cck);
    }
    sink.write_byte(0x0D, at_cck);
}

fn drain_str(sink: &mut Sink) -> String {
    let mut v = Vec::new();
    while let Some(b) = sink.read_byte() {
        v.push(b);
    }
    String::from_utf8(v).unwrap()
}

#[test]
fn parses_every_directive_kind() {
    let script = "\
        # a comment\n\
        \n\
        accept\n\
        delay 0.5\n\
        send Welcome\\r\\n\n\
        expect ATH\\r\n\
        close\n";
    let directives = parse(script).unwrap();
    assert_eq!(directives.len(), 5);
    assert!(matches!(directives[0], Directive::Accept));
    assert!(matches!(directives[1], Directive::Delay(t) if t == PAULA_CLOCK_HZ as u64 / 2));
    assert!(matches!(&directives[2], Directive::Send(b) if b == b"Welcome\r\n"));
    assert!(matches!(&directives[3], Directive::Expect(b) if b == b"ATH\r"));
    assert!(matches!(directives[4], Directive::Close));
}

#[test]
fn refuse_reasons_parse() {
    let d = parse("refuse busy\n").unwrap();
    assert!(matches!(d[0], Directive::Refuse(DialError::Refused)));
    let d = parse("refuse unreachable\n").unwrap();
    assert!(matches!(d[0], Directive::Refuse(DialError::Unreachable)));
    let d = parse("refuse\n").unwrap();
    assert!(matches!(d[0], Directive::Refuse(DialError::Unreachable)));
}

#[test]
fn unknown_directive_is_a_parse_error() {
    let err = parse("frobnicate\n").unwrap_err().text();
    assert!(err.contains("line 1"), "{err:?}");
    assert!(err.contains("frobnicate"), "{err:?}");
    assert_eq!(err, "line 1: unknown directive \"frobnicate\"");
}

#[test]
fn negative_delay_is_a_parse_error() {
    assert!(parse("delay -1\n").is_err());
}

#[test]
fn every_fault_names_its_line() {
    let fault = |text: &str| {
        let e = parse(text).unwrap_err();
        (e.line, e.text())
    };
    assert_eq!(
        fault("accept\nrefuse later\n"),
        (2, "line 2: refuse: \"later\" is not \"busy\" or \"unreachable\"".to_string())
    );
    assert_eq!(
        fault("# c\n\ndelay soon\nfrobnicate"),
        (3, "line 3: delay: \"soon\" is not a number of seconds".to_string())
    );
    assert_eq!(
        fault("delay -1"),
        (1, "line 1: delay: -1 is not a non-negative number of seconds".to_string())
    );
    assert_eq!(fault("expect"), (1, "line 1: expect: nothing to expect".to_string()));
    assert!(matches!(
        parse("say \"a\\b\"").unwrap_err().fault,
        ScriptFault::Unknown(w) if w == "say"
    ));
    assert!(matches!(
        parse_script("delay 1", &[]).unwrap_err().fault,
        ScriptFault::NotANumber(n) if n == "1"
    ));
    // The quoting of a text escapes what the debug form of a string does.
    assert_eq!(
        parse("\"\u{7}").unwrap_err().text(),
        "line 1: unknown directive \"\\\"\\u{7}\""
    );
}

#[test]
fn texts_are_unescaped() {
    let d = parse("send a\\tb\\\\c\\q\u{e9}\\").unwrap();
    assert!(matches!(&d[0], Directive::Send(b) if b == "a\tb\\c\\q\u{e9}\\".as_bytes()));
    let d = parse("send\n").unwrap();
    assert!(matches!(&d[0], Directive::Send(b) if b.is_empty()));
}

#[test]
fn full_round_trip_atd_connect_banner_escape_hangup() {
    let script = "accept\nsend \\r\\nWelcome to the BBS\\r\\n\n";
    let mut sink = Sink::with_transport(from_script(script));
    type_line(&mut sink, "ATE0", 0);
    drain_str(&mut sink);

    type_line(&mut sink, "ATD127.0.0.1:2323", 0);
    assert_eq!(
        drain_str(&mut sink),
        "\r\nCONNECT\r\n\r\nWelcome to the BBS\r\n"
    );

    let guard = u64::from(PAULA_CLOCK_HZ);
    sink.write_byte(b'+', guard);
    sink.write_byte(b'+', 2 * guard);
    sink.write_byte(b'+', 3 * guard);
    sink.poll(4 * guard);
    assert_eq!(drain_str(&mut sink), "\r\nOK\r\n");

    type_line(&mut sink, "ATH", 5 * guard);
    assert_eq!(drain_str(&mut sink), "\r\nOK\r\n");
    type_line(&mut sink, "ATO", 6 * guard);
    assert_eq!(drain_str(&mut sink), "\r\nNO CARRIER\r\n");
}

#[test]
fn expect_mismatch_drops_carrier_and_logs() {
    let script = "accept\nexpect HELLO\r\n";
    let mut sink = Sink::with_transport(from_script(script));
    type_line(&mut sink, "ATE0", 0);
    drain_str(&mut sink);
    type_line(&mut sink, "ATD127.0.0.1:2323", 0);
    drain_str(&mut sink);

    for b in b"HELP" {
        sink.write_byte(*b, 100);
    }
    assert_eq!(drain_str(&mut sink), "\r\nNO CARRIER\r\n");
}

#[test]
fn refuse_reports_busy_to_the_guest() {
    let mut sink = Sink::with_transport(from_script("refuse busy\n"));
    type_line(&mut sink, "ATE0", 0);
    drain_str(&mut sink);
    type_line(&mut sink, "ATD127.0.0.1:2323", 0);
    assert_eq!(drain_str(&mut sink), "\r\nBUSY\r\n");
}

#[test]
fn exhausted_script_reports_no_carrier_on_redial() {
    let mut sink = Sink::with_transport(from_script("accept\nclose\n"));
    type_line(&mut sink, "ATE0", 0);
    drain_str(&mut sink);
    type_line(&mut sink, "ATD127.0.0.1:2323", 0);
    drain_str(&mut sink);
    drain_str(&mut sink);
    type_line(&mut sink, "ATD127.0.0.1:2323", 200);
    assert_eq!(drain_str(&mut sink), "\r\nNO CARRIER\r\n");
}

#[test]
fn two_runs_of_the_same_script_produce_identical_output() {
    let script = "\
        accept\n\
        delay 0.1\n\
        send \\r\\nWelcome\\r\\n\n\
        expect BYE\\r\n\
        send \\r\\nNO CARRIER\\r\\n\n";
    let run = || {
        let mut sink = Sink::with_transport(from_script(script));
        type_line(&mut sink, "ATE0", 0);
        drain_str(&mut sink);
        type_line(&mut sink, "ATD bbs:23", 0);
        let mut out = drain_str(&mut sink);
        let ticks = PAULA_CLOCK_HZ as u64 / 10;
        sink.poll(ticks);
        out += &drain_str(&mut sink);
        for b in b"BYE\r" {
            sink.write_byte(*b, 2 * ticks);
        }
        out += &drain_str(&mut sink);
        out
    };
    assert_eq!(run(), run());
    assert_eq!(run(), "\r\nCONNECT\r\n\r\nWelcome\r\n\r\nNO CARRIER\r\n");
}

#[test]
fn hangup_discards_bytes_the_guest_never_read() {
    let script = "accept\nsend FIRST-CALL\\r\\n\naccept\nsend SECOND-CALL\\r\\n\n";
    let mut sink = Sink::with_transport(from_script(script));
    type_line(&mut sink, "ATE0", 0);
    drain_str(&mut sink);

    type_line(&mut sink, "ATD127.0.0.1:2323", 0);
    type_line(&mut sink, "ATH", 0);
    drain_str(&mut sink);

    type_line(&mut sink, "ATD127.0.0.1:2323", 0);
    let second = drain_str(&mut sink);
    assert!(
        !second.contains("FIRST-CALL"),
        "the first call's undrained bytes leaked into the second: {second:?}"
    );

    // The same, with the line dropped for certain.
    let mut transport = from_script("accept\nsend FIRST\nclose\naccept\nsend SECOND\n");
    assert!(transport.dial().is_ok());
    transport.advance(0);
    assert!(transport.has_pending());
    transport.hangup();
    assert!(!transport.has_pending());
    assert!(transport.dial().is_ok());
    transport.advance(0);
    let mut got = Vec::new();
    while let Some(b) = transport.read_byte() {
        got.push(b);
    }
    assert_eq!(got, b"SECOND");
}

#[test]
fn a_timeline_jump_replays_the_script_from_the_top() {
    let script = "accept\nsend BANNER\\r\\n\n";
    let mut transport = from_script(script);
    assert!(transport.dial().is_ok());
    transport.advance(0);
    assert!(transport.has_pending(), "the banner should be queued");

    transport.reset_timeline();
    assert!(!transport.carrier(), "the jump drops the call");
    assert!(
        !transport.has_pending(),
        "the abandoned timeline's bytes must not survive the jump"
    );
    assert!(
        transport.dial().is_ok(),
        "the script's first directive must be available again"
    );
    transport.advance(0);
    let mut got = Vec::new();
    while let Some(b) = transport.read_byte() {
        got.push(b);
    }
    assert_eq!(String::from_utf8(got).unwrap(), "BANNER\r\n");
}

#[test]
fn a_delay_holds_back_what_follows_and_advancing_twice_changes_nothing() {
    let mut transport = from_script("accept\nexpect A\ndelay 1\nsend B\n");
    assert!(transport.dial().is_ok());
    transport.advance(10);
    // The guest's byte releases nothing past the delay, which has no time yet.
    transport.write_byte(b'A');
    assert!(!transport.has_pending());
    transport.advance(100);
    transport.advance(100);
    assert_eq!(transport.due, Some(100 + u64::from(PAULA_CLOCK_HZ)));
    transport.advance(99 + u64::from(PAULA_CLOCK_HZ));
    assert!(!transport.has_pending());
    transport.advance(100 + u64::from(PAULA_CLOCK_HZ));
    assert_eq!(transport.read_byte(), Some(b'B'));
    assert!(transport.ended);
}

#[test]
fn a_scripted_far_end_takes_no_calls() {
    let mut transport = from_script("accept\n");
    assert_eq!(transport.listen(), Err(ListenError::Unsupported));
    assert!(!transport.ringing());
    assert!(!transport.answer());
    // A dial that finds no decision next leaves the script where it is.
    let mut other = from_script("send X\naccept\n");
    assert_eq!(other.dial(), Err(DialError::Unreachable));
    assert_eq!(other.next, 0);
}

fn profile() -> ModemProfile {
    ModemProfile {
        echo: true,
        verbose: true,
        quiet: false,
        s0: 0,
        s2: b'+',
        s9: 6,
        s12: 50,
        dcd_always: false,
        dtr_action: 2,
        telnet: false,
        listen_port: None,
        default_port: 23,
    }
}

#[test]
fn load_and_save_are_noops_while_persistence_is_off() {
    let off = Persistence::default();
    assert!(ModemProfile::load(off, Stored::Missing).profile.is_none());
    assert!(ModemProfile::load(off, Stored::Profile(profile())).profile.is_none());
    assert!(!ModemProfile::load(off, Stored::Damaged).warn);
    assert_eq!(profile().save(off, Stored::Missing), Stored::Missing);
}

#[test]
fn a_saved_profile_comes_back_while_persistence_is_on() {
    let mut on = Persistence::default();
    set_persistence(&mut on, true);
    let stored = profile().save(on, Stored::Missing);
    assert_eq!(ModemProfile::load(on, stored).profile, Some(profile()));
    assert!(ModemProfile::load(on, Stored::Damaged).warn);
    let missing = ModemProfile::load(on, Stored::Missing);
    assert!(missing.profile.is_none() && !missing.warn);
}

#[test]
fn whatever_came_before_a_reset_the_script_answers_as_at_first() {
    let script = "refuse busy\naccept\ndelay 10\nsend a\nexpect ok\nsend bc\nclose\n";
    let run = |t: &mut ScriptedTransport| {
        let mut seen = Vec::new();
        seen.push(format!("{:?}", t.dial()));
        seen.push(format!("{:?}", t.dial()));
        for now in [0, 5, 10, 20] {
            t.advance(now);
            seen.push(format!("{:?} {}", t.read_byte(), t.carrier()));
        }
        for b in *b"ok" {
            t.write_byte(b);
            seen.push(format!("{} {}", t.has_pending(), t.carrier()));
        }
        t.advance(30);
        seen.push(format!("{:?} {:?} {}", t.read_byte(), t.read_byte(), t.carrier()));
        t.hangup();
        seen.push(format!("{:?}", t.dial()));
        seen
    };
    let fresh = run(&mut from_script(script));
    for steps in 0..8 {
        let mut t = from_script(script);
        let _ = t.dial();
        let _ = t.dial();
        for now in 0..steps {
            t.advance(now * 4);
            t.write_byte(b'o');
        }
        t.reset_timeline();
        assert!(!t.carrier() && !t.has_pending());
        assert_eq!(run(&mut t), fresh, "reset after {steps} steps");
    }
}

#[test]
fn only_the_delay_at_hand_has_to_end_in_time() {
    let readings = [DelayReading::Ticks(5), DelayReading::Ticks(u64::MAX)];
    let mut t = ScriptedTransport::from_script("accept\ndelay 1\nsend a\ndelay 2\n", &readings)
        .ok()
        .unwrap();
    assert!(t.dial().is_ok());
    t.advance(100);
    assert!(!t.has_pending());
    t.advance(104);
    assert!(!t.has_pending());
    assert_eq!(t.due, Some(105));
}
