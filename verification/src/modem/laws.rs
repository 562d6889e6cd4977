//! What the far end hears of the terminal, and what a script does to a call.
use vstd::prelude::*;
use crate::modem::session::{
    argument, at_rest, delays_before, dialed, heard, hung_up, keyword, keyword_len, progressed,
    reading_at, script_of, step_of, taken, unescaped, Call, DelayReading, DialError, Fault, Step,
};
use crate::modem::telnet::{State, Terminal};
use crate::text::{is_white, trimmed};
use vstd::utf8::encode_utf8;

verus! {

/// A command of three bytes, from a terminal that is not in the middle of
/// one: what it says of an option, and how the terminal is left.
pub open spec fn commanded(t: Terminal, verb: u8, opt: u8) -> (Terminal, Seq<u8>, Seq<u8>) {
    let first = t.received(255);
    let second = first.0.received(verb);
    let third = second.0.received(opt);
    (third.0, first.1 + second.1 + third.1, first.2 + second.2 + third.2)
}

/// The far end asks for an option: binary, no go-ahead and the terminal's
/// type are switched on, the window and the location too where they are
/// reported, each with its report of 80 by 24 and of the place. What is on
/// stays so without a word, and anything else is refused. None of it is data.
pub proof fn law_wanted_options_are_switched_on(t: Terminal, opt: u8)
    requires
        t.wf(),
        t.state == State::Data,
    ensures
        ({
            let (after, data, reply) = commanded(t, 253, opt);
            let plain = opt == 0 || opt == 3 || opt == 24;
            let told = t.reporting && (opt == 31 || opt == 23);
            &&& data.len() == 0
            &&& after.state == State::Data
            &&& after.local_on[opt as int] == (plain || told)
            &&& forall|o: int| 0 <= o < 256 && o != opt ==> #[trigger] after.local_on[o] == t.local_on[o]
            &&& after.remote_on == t.remote_on
            &&& t.local_on[opt as int] ==> reply == Seq::<u8>::empty()
            &&& !plain && !told ==> reply == seq![255u8, 252, opt]
            &&& !t.local_on[opt as int] && plain ==> reply == seq![255u8, 251, opt]
            &&& !t.local_on[opt as int] && told && opt == 31 ==> reply == seq![
                255u8, 251, 31, 255, 250, 31, 0, 80, 0, 24, 255, 240,
            ]
            &&& !t.local_on[opt as int] && told && opt == 23 ==> reply == seq![
                255u8, 251, 23, 255, 250, 23, 'C' as u8, 'o' as u8, 'p' as u8, 'p' as u8, 'e' as u8,
                'r' as u8, 'l' as u8, 'i' as u8, 'n' as u8, 'e' as u8, 255, 240,
            ]
        }),
{
    let (after, data, reply) = commanded(t, 253, opt);
    let none = Seq::<u8>::empty();
    let answer = (Terminal { last_was_cr: false, state: State::Opt(253), ..t }).negotiated(
        253,
        opt,
    ).1;
    assert(none + none + answer =~= answer);
    assert(none + none + none =~= none);
    assert(crate::modem::telnet::LOCATION@.len() == 10);
}

/// The far end forbids an option: one that is on is switched off and said to
/// be; one that is off stays so without a word.
pub proof fn law_unwanted_options_are_switched_off(t: Terminal, opt: u8)
    requires
        t.wf(),
        t.state == State::Data,
    ensures
        ({
            let (after, data, reply) = commanded(t, 254, opt);
            &&& data.len() == 0
            &&& after.state == State::Data
            &&& !after.local_on[opt as int]
            &&& forall|o: int| 0 <= o < 256 && o != opt ==> #[trigger] after.local_on[o] == t.local_on[o]
            &&& reply == (if t.local_on[opt as int] {
                seq![255u8, 252, opt]
            } else {
                Seq::empty()
            })
        }),
{
    let none = Seq::<u8>::empty();
    let answer = (Terminal { last_was_cr: false, state: State::Opt(254), ..t }).negotiated(
        254,
        opt,
    ).1;
    assert(none + none + answer =~= answer);
    assert(none + none + none =~= none);
}

/// The far end offers an option: it may be binary, echo and send no go-ahead,
/// and is told so once; anything else is refused. Where it withdraws one that
/// was on, that is said back once.
pub proof fn law_offered_options_are_taken(t: Terminal, opt: u8)
    requires
        t.wf(),
        t.state == State::Data,
    ensures
        ({
            let (after, data, reply) = commanded(t, 251, opt);
            let good = opt == 0 || opt == 1 || opt == 3;
            &&& data.len() == 0
            &&& after.remote_on[opt as int] == good
            &&& after.local_on == t.local_on
            &&& reply == (if !good {
                seq![255u8, 254, opt]
            } else if t.remote_on[opt as int] {
                Seq::empty()
            } else {
                seq![255u8, 253, opt]
            })
        }),
        ({
            let (after, data, reply) = commanded(t, 252, opt);
            &&& data.len() == 0
            &&& !after.remote_on[opt as int]
            &&& after.local_on == t.local_on
            &&& reply == (if t.remote_on[opt as int] {
                seq![255u8, 254, opt]
            } else {
                Seq::empty()
            })
        }),
{
    let none = Seq::<u8>::empty();
    let will = (Terminal { last_was_cr: false, state: State::Opt(251), ..t }).negotiated(
        251,
        opt,
    ).1;
    let wont = (Terminal { last_was_cr: false, state: State::Opt(252), ..t }).negotiated(
        252,
        opt,
    ).1;
    assert(none + none + will =~= will);
    assert(none + none + wont =~= wont);
    assert(none + none + none =~= none);
}

/// A subnegotiation is gathered up to its end, with a doubled mark for one,
/// and answered there: the request for the terminal's type with `ANSI`, one
/// about the location with the place where it is reported, and no other.
pub proof fn law_subnegotiations_are_answered(t: Terminal)
    requires
        t.wf(),
        t.state == State::SbIac,
    ensures
        ({
            let (after, data, reply) = t.received(240);
            let asks_type = t.sb.len() >= 2 && t.sb[0] == 24 && t.sb[1] == 1;
            let asks_place = t.sb.len() > 0 && t.sb[0] == 23 && t.reporting;
            &&& after.state == State::Data
            &&& data.len() == 0
            &&& asks_type ==> reply == seq![
                255u8, 250, 24, 0, 'A' as u8, 'N' as u8, 'S' as u8, 'I' as u8, 255, 240,
            ]
            &&& asks_place ==> reply == seq![
                255u8, 250, 23, 'C' as u8, 'o' as u8, 'p' as u8, 'p' as u8, 'e' as u8, 'r' as u8,
                'l' as u8, 'i' as u8, 'n' as u8, 'e' as u8, 255, 240,
            ]
            &&& !asks_type && !asks_place ==> reply == Seq::<u8>::empty()
        }),
        forall|b: u8| b != 240 ==> (#[trigger] t.received(b)).0.sb == t.sb.push(b),
{
    assert(crate::modem::telnet::LOCATION@.len() == 10);
    assert(crate::modem::telnet::TERM_TYPE@.len() == 4);
}

/// How a subnegotiation begins, grows and ends.
pub proof fn law_subnegotiations_are_gathered(t: Terminal, b: u8)
    requires
        t.wf(),
    ensures
        t.state == State::Iac ==> t.received(250).0.state == State::Sb && t.received(250).0.sb
            == Seq::<u8>::empty(),
        t.state == State::Sb && b != 255 ==> t.received(b).0.sb == t.sb.push(b) && t.received(
            b,
        ).0.state == State::Sb,
        t.state == State::Sb ==> t.received(255).0.state == State::SbIac && t.received(255).0.sb
            == t.sb,
        t.state == State::Sb || t.state == State::SbIac ==> t.received(b).1 == Seq::<u8>::empty(),
{
}

/// What is data: every byte but the mark of a command, which stands doubled
/// for itself, and but the zero behind a return while the far end is not
/// binary. Any other command is passed over.
pub proof fn law_data_is_what_is_no_command(t: Terminal, b: u8)
    requires
        t.wf(),
    ensures
        t.state == State::Data && b != 255 && !(b == 0 && t.last_was_cr && !t.remote_on[0])
            ==> t.received(b).1 == seq![b] && t.received(b).0.state == State::Data,
        t.state == State::Data && t.last_was_cr && !t.remote_on[0] ==> t.received(0).1 == Seq::<
            u8,
        >::empty(),
        t.state == State::Data && b != 255 ==> (t.received(b).0.last_was_cr <==> b == 13),
        t.state == State::Data ==> t.received(255).1 == Seq::<u8>::empty() && t.received(255).0.state
            == State::Iac,
        t.state == State::Iac ==> t.received(255).1 == seq![255u8] && t.received(255).0.state
            == State::Data,
        t.state == State::Iac && b < 250 ==> t.received(b).1 == Seq::<u8>::empty() && t.received(
            b,
        ).2 == Seq::<u8>::empty() && t.received(b).0.state == State::Data,
        t.state == State::Data || t.state == State::Iac ==> t.received(b).2 == Seq::<u8>::empty(),
{
}

/// What is sent: the mark of a command doubled, a return followed by a zero
/// while this end is not binary, and any other byte as it is.
pub proof fn law_sent_bytes_are_told_from_commands(t: Terminal, b: u8)
    ensures
        b == 255 ==> t.sent(b) == seq![255u8, 255],
        b == 13 ==> t.sent(b) == (if t.local_on[0] {
            seq![13u8]
        } else {
            seq![13u8, 0]
        }),
        b != 255 && b != 13 ==> t.sent(b) == seq![b],
{
}

/// Escapes: a backslash makes a return of `r`, a new line of `n`, a tab of
/// `t` and a backslash of itself; before anything else, and at the end, it
/// stands for itself. Every other character does so too.
pub proof fn law_escapes_stand_for_their_character(c: char, rest: Seq<char>)
    ensures
        unescaped(Seq::empty()) == Seq::<char>::empty(),
        c != '\\' ==> unescaped(seq![c] + rest) == seq![c] + unescaped(rest),
        unescaped(seq!['\\', 'r'] + rest) == seq!['\r'] + unescaped(rest),
        unescaped(seq!['\\', 'n'] + rest) == seq!['\n'] + unescaped(rest),
        unescaped(seq!['\\', 't'] + rest) == seq!['\t'] + unescaped(rest),
        unescaped(seq!['\\', '\\'] + rest) == seq!['\\'] + unescaped(rest),
        c != 'r' && c != 'n' && c != 't' && c != '\\' ==> unescaped(seq!['\\', c] + rest) == seq![
            '\\',
            c,
        ] + unescaped(rest),
        unescaped(seq!['\\']) == seq!['\\'],
{
    assert((seq![c] + rest).skip(1) =~= rest);
    assert((seq!['\\', 'r'] + rest).skip(2) =~= rest);
    assert((seq!['\\', 'n'] + rest).skip(2) =~= rest);
    assert((seq!['\\', 't'] + rest).skip(2) =~= rest);
    assert((seq!['\\', '\\'] + rest).skip(2) =~= rest);
    assert((seq!['\\', c] + rest).skip(2) =~= rest);
    reveal_with_fuel(unescaped, 2);
}

/// A line is a word and, behind white space, its argument.
pub proof fn law_a_line_is_a_word_and_its_argument(word: Seq<char>, rest: Seq<char>)
    requires
        forall|i: int| 0 <= i < word.len() ==> !is_white(#[trigger] word[i]),
        rest.len() == 0 || is_white(rest[0]),
    ensures
        keyword(word + rest) == word,
        argument(word + rest) == trimmed(rest),
{
    lemma_word_len(word, rest);
    let line = word + rest;
    assert(line.take(word.len() as int) =~= word);
    assert(line.skip(word.len() as int) =~= rest);
}

proof fn lemma_word_len(word: Seq<char>, rest: Seq<char>)
    requires
        forall|i: int| 0 <= i < word.len() ==> !is_white(#[trigger] word[i]),
        rest.len() == 0 || is_white(rest[0]),
    ensures
        keyword_len(word + rest) == word.len(),
    decreases word.len(),
{
    let line = word + rest;
    if word.len() > 0 {
        let less = word.skip(1);
        assert forall|i: int| 0 <= i < less.len() implies !is_white(#[trigger] less[i]) by {
            assert(less[i] == word[i + 1]);
        }
        lemma_word_len(less, rest);
        assert(line.skip(1) =~= less + rest);
        assert(line[0] == word[0]);
    } else {
        assert(line =~= rest);
    }
}

/// A directive says by its word what is done: a call is accepted or refused,
/// as busy or as unreachable, which is what nothing means; a delay is waited;
/// text is sent and expected with its escapes, and something must be; the
/// call is closed. There is no other.
pub proof fn law_directives_go_by_their_word(line: Seq<char>, reading: Option<DelayReading>)
    ensures
        keyword(trimmed(line)) == "accept"@ ==> step_of(line, reading) == Ok::<Step, Fault>(
            Step::Accept,
        ),
        keyword(trimmed(line)) == "refuse"@ && argument(trimmed(line)).len() == 0 ==> step_of(
            line,
            reading,
        ) == Ok::<Step, Fault>(Step::Refuse(DialError::Unreachable)),
        keyword(trimmed(line)) == "refuse"@ && argument(trimmed(line)) == "unreachable"@ ==> step_of(
            line,
            reading,
        ) == Ok::<Step, Fault>(Step::Refuse(DialError::Unreachable)),
        keyword(trimmed(line)) == "refuse"@ && argument(trimmed(line)) == "busy"@ ==> step_of(
            line,
            reading,
        ) == Ok::<Step, Fault>(Step::Refuse(DialError::Refused)),
        keyword(trimmed(line)) == "delay"@ && (reading matches Some(DelayReading::Ticks(_)))
            ==> step_of(line, reading) == Ok::<Step, Fault>(Step::Delay(reading->0->Ticks_0 as nat)),
        keyword(trimmed(line)) == "delay"@ && reading == Some(DelayReading::NotANumber) ==> step_of(
            line,
            reading,
        ) == Err::<Step, Fault>(Fault::NotANumber(argument(trimmed(line)))),
        keyword(trimmed(line)) == "send"@ ==> step_of(line, reading) == Ok::<Step, Fault>(
            Step::Send(encode_utf8(unescaped(argument(trimmed(line))))),
        ),
        keyword(trimmed(line)) == "expect"@ && argument(trimmed(line)).len() > 0 ==> step_of(
            line,
            reading,
        ) == Ok::<Step, Fault>(Step::Expect(encode_utf8(unescaped(argument(trimmed(line)))))),
        keyword(trimmed(line)) == "expect"@ && argument(trimmed(line)).len() == 0 ==> step_of(
            line,
            reading,
        ) == Err::<Step, Fault>(Fault::NothingToExpect),
        keyword(trimmed(line)) == "close"@ ==> step_of(line, reading) == Ok::<Step, Fault>(
            Step::Close,
        ),
        keyword(trimmed(line)) != "accept"@ && keyword(trimmed(line)) != "refuse"@ && keyword(
            trimmed(line),
        ) != "delay"@ && keyword(trimmed(line)) != "send"@ && keyword(trimmed(line)) != "expect"@
            && keyword(trimmed(line)) != "close"@ ==> step_of(line, reading) == Err::<Step, Fault>(
            Fault::Unknown(keyword(trimmed(line))),
        ),
{
    reveal_strlit("accept");
    reveal_strlit("refuse");
    reveal_strlit("delay");
    reveal_strlit("send");
    reveal_strlit("expect");
    reveal_strlit("close");
    reveal_strlit("busy");
    reveal_strlit("unreachable");
    reveal_strlit("");
    let word = keyword(trimmed(line));
    let rest = argument(trimmed(line));
    if rest.len() == 0 {
        assert(rest =~= ""@);
    }
    assert("accept"@[0] == 'a' && "refuse"@[0] == 'r' && "delay"@[0] == 'd' && "send"@[0] == 's'
        && "expect"@[0] == 'e' && "close"@[0] == 'c');
    assert("busy"@[0] == 'b' && "unreachable"@[0] == 'u');
}

/// A script is its lines: empty ones and remarks say nothing, every other is
/// one step, and the first that says nothing sensible is what is wrong, by
/// its number.
pub proof fn law_scripts_are_read_line_by_line(
    lines: Seq<Seq<char>>,
    readings: Seq<DelayReading>,
    n: int,
)
    requires
        0 < n <= lines.len(),
    ensures
        script_of(lines, readings, 0) == Ok::<Seq<Step>, (int, Fault)>(Seq::empty()),
        script_of(lines, readings, n - 1) is Err ==> script_of(lines, readings, n) == script_of(
            lines,
            readings,
            n - 1,
        ),
        script_of(lines, readings, n - 1) matches Ok(before) ==> {
            let line = lines[n - 1];
            let told = trimmed(line).len() > 0 && trimmed(line)[0] != '#';
            let reading = reading_at(readings, delays_before(lines, n - 1));
            &&& !told ==> script_of(lines, readings, n) == Ok::<Seq<Step>, (int, Fault)>(before)
            &&& told ==> match step_of(line, reading) {
                Ok(step) => script_of(lines, readings, n) == Ok::<Seq<Step>, (int, Fault)>(
                    before.push(step),
                ),
                Err(fault) => script_of(lines, readings, n) == Err::<Seq<Step>, (int, Fault)>(
                    (n, fault),
                ),
            }
        },
        delays_before(lines, n) == delays_before(lines, n - 1) + (if trimmed(lines[n - 1]).len() > 0
            && trimmed(lines[n - 1])[0] != '#' && keyword(trimmed(lines[n - 1])) == "delay"@ {
            1int
        } else {
            0
        }),
{
}

/// What a call does next while there is a carrier and nothing is expected: a
/// delay ends so long after it was reached, sent bytes are released behind
/// what is there, expected bytes are waited for, and closing ends the call.
/// At the end of the script there is nothing more.
pub proof fn law_a_call_follows_its_script(script: Seq<Step>, c: Call, now: int)
    requires
        c.carrier,
        c.expecting is None,
        0 <= c.next,
    ensures
        c.next >= script.len() ==> progressed(script, c, Some(now)) == (Call { ended: true, ..c }),
        c.next < script.len() ==> match script[c.next] {
            Step::Send(bytes) => progressed(script, c, Some(now)) == progressed(
                script,
                Call { next: c.next + 1, ready: c.ready + bytes, ..c },
                Some(now),
            ),
            Step::Expect(_) => progressed(script, c, Some(now)) == (Call {
                next: c.next + 1,
                expecting: Some((c.next, 0)),
                ..c
            }),
            Step::Close => progressed(script, c, Some(now)) == (Call {
                next: c.next + 1,
                carrier: false,
                ..c
            }),
            Step::Delay(ticks) => {
                &&& c.due is None && ticks > 0 ==> progressed(script, c, Some(now)) == (Call {
                    due: Some(now + ticks),
                    ..c
                })
                &&& c.due is None && ticks == 0 ==> progressed(script, c, Some(now)) == progressed(
                    script,
                    Call { next: c.next + 1, ..c },
                    Some(now),
                )
                &&& c.due matches Some(due) ==> (now < due ==> progressed(script, c, Some(now)) == c)
                &&& c.due matches Some(due) ==> (now >= due ==> progressed(script, c, Some(now))
                    == progressed(script, Call { next: c.next + 1, due: None, ..c }, Some(now)))
                &&& progressed(script, c, None) == c
            },
            _ => progressed(script, c, Some(now)) == progressed(
                script,
                Call { next: c.next + 1, ..c },
                Some(now),
            ),
        },
{
}

/// A call without a carrier, or that waits for bytes, does nothing by itself.
pub proof fn law_a_waiting_call_does_nothing(script: Seq<Step>, c: Call, at: Option<int>)
    requires
        !c.carrier || c.expecting is Some,
    ensures
        progressed(script, c, at) == c,
{
}

/// Dialing is answered by the script: a step that accepts gives a carrier, one
/// that refuses says why, and both are used up; without either there is no
/// answer and nothing is used up.
pub proof fn law_dialing_is_answered_by_the_script(script: Seq<Step>, c: Call)
    requires
        0 <= c.next <= script.len(),
    ensures
        c.next < script.len() && script[c.next] == Step::Accept ==> dialed(script, c).1 == Ok::<
            (),
            DialError,
        >(()) && dialed(script, c).0.carrier && dialed(script, c).0.next == c.next + 1,
        c.next < script.len() && (script[c.next] matches Step::Refuse(_)) ==> dialed(script, c).1
            == Err::<(), DialError>(script[c.next]->Refuse_0) && dialed(script, c).0.carrier
            == c.carrier && dialed(script, c).0.next == c.next + 1,
        c.next == script.len() || (script[c.next] != Step::Accept && !(script[c.next] is Refuse))
            ==> dialed(script, c) == (c, Err::<(), DialError>(DialError::Unreachable)),
        dialed(script, c).0.ready == c.ready,
        dialed(script, c).0.expecting == c.expecting,
{
}

/// A byte from the guest is held against what is expected: the one that comes
/// next brings the call on, to the script's next step where it was the last;
/// any other drops the carrier. Where nothing is expected it is passed over.
pub proof fn law_expected_bytes_bring_a_call_on(
    script: Seq<Step>,
    c: Call,
    b: u8,
    directive: int,
    matched: int,
    bytes: Seq<u8>,
)
    requires
        c.expecting == Some((directive, matched)),
        script[directive] == Step::Expect(bytes),
        0 <= matched < bytes.len(),
    ensures
        b != bytes[matched] ==> heard(script, c, b) == (Call {
            expecting: None,
            carrier: false,
            ..c
        }),
        b == bytes[matched] && matched + 1 < bytes.len() ==> heard(script, c, b) == (Call {
            expecting: Some((directive, matched + 1)),
            ..c
        }),
        b == bytes[matched] && matched + 1 == bytes.len() ==> heard(script, c, b) == progressed(
            script,
            Call { expecting: None, ..c },
            None,
        ),
        heard(script, Call { expecting: None, ..c }, b) == (Call { expecting: None, ..c }),
{
}

/// Released bytes are read in their order, each once, and hanging up loses
/// what was not read but not the place in the script.
pub proof fn law_released_bytes_are_read_once(c: Call, bytes: Seq<u8>, b: u8)
    ensures
        c.ready == seq![b] + bytes ==> taken(c) == ((Call { ready: bytes, ..c }), Some(b)),
        c.ready.len() == 0 ==> taken(c) == (c, None::<u8>),
        hung_up(c).next == c.next,
        !hung_up(c).carrier,
        hung_up(c).ready.len() == 0,
        hung_up(c).expecting is None && hung_up(c).due is None,
        at_rest().next == 0 && !at_rest().carrier && at_rest().ready.len() == 0,
{
    if c.ready == seq![b] + bytes {
        assert(c.ready.drop_first() =~= bytes);
        assert(c.ready[0] == b);
    }
}

} // verus!
