//! Scripted modem calls: a canned dial-out session replayed from a text
//! instead of a socket, so that a run is reproducible byte for byte.
//!
//! A script is a list of directives, one per line, carried out in order
//! against a single simulated call. Blank lines and lines that start with `#`
//! are ignored.
//!
//! - `accept`: the next dial succeeds.
//! - `refuse busy`, `refuse unreachable`: the next dial fails; unreachable is
//!   the default.
//! - `delay 0.5`: hold back what follows for so many emulated seconds.
//! - `send text`: bytes the far end emits to the guest.
//! - `expect text`: bytes the guest must send next; a mismatch drops the line.
//! - `close`: the far end hangs up.
//!
//! In a text, `\r`, `\n`, `\t` and `\\` are escapes, and everything else
//! stands for itself. Running out of directives is not an error: the line
//! stays up with nothing more happening.
use std::collections::VecDeque;
use vstd::prelude::*;
use vstd::utf8::encode_utf8;
use crate::bytes::copy_range;
use crate::text::{
    chars_of, copy_chars, decimal, is_white, push_decimal, push_text, spells, split, split_text,
    text_of, texts, trim, trimmed, white,
};

verus! {

/// Why a call does not connect.
#[derive(Clone, Copy, Debug, PartialEq, Eq, Structural)]
pub enum DialError {
    /// The far end is busy.
    Refused,
    /// There is no carrier.
    Unreachable,
}

/// One step of a script.
#[derive(Clone, Debug)]
pub enum Directive {
    Accept,
    Refuse(DialError),
    /// Hold back what follows for so many ticks of the color clock.
    Delay(u64),
    Send(Vec<u8>),
    Expect(Vec<u8>),
    Close,
}

/// What a directive says.
pub enum Step {
    Accept,
    Refuse(DialError),
    Delay(nat),
    Send(Seq<u8>),
    Expect(Seq<u8>),
    Close,
}

impl View for Directive {
    type V = Step;

    open spec fn view(&self) -> Step {
        match *self {
            Directive::Accept => Step::Accept,
            Directive::Refuse(reason) => Step::Refuse(reason),
            Directive::Delay(ticks) => Step::Delay(ticks as nat),
            Directive::Send(bytes) => Step::Send(bytes@),
            Directive::Expect(bytes) => Step::Expect(bytes@),
            Directive::Close => Step::Close,
        }
    }
}

/// How the number of a `delay` reads.
#[derive(Clone, Debug)]
pub enum DelayReading {
    /// So many ticks of the color clock.
    Ticks(u64),
    /// It is no number.
    NotANumber,
    /// It is negative or not finite; the number as it is written.
    OutOfRange(String),
}

/// What is wrong with a line of a script.
#[derive(Clone, Debug)]
pub enum ScriptFault {
    /// Not a reason to refuse a call.
    Reason(String),
    /// Not a number of seconds.
    NotANumber(String),
    /// Not a non-negative number of seconds.
    OutOfRange(String),
    /// Nothing to expect.
    NothingToExpect,
    /// Not a directive.
    Unknown(String),
}

/// A line that is no directive.
#[derive(Clone, Debug)]
pub struct ScriptError {
    /// The line's number, from one.
    pub line: usize,
    pub fault: ScriptFault,
}

/// What a fault says.
pub enum Fault {
    Reason(Seq<char>),
    NotANumber(Seq<char>),
    OutOfRange(Seq<char>),
    NothingToExpect,
    Unknown(Seq<char>),
}

impl View for ScriptFault {
    type V = Fault;

    open spec fn view(&self) -> Fault {
        match *self {
            ScriptFault::Reason(s) => Fault::Reason(s@),
            ScriptFault::NotANumber(s) => Fault::NotANumber(s@),
            ScriptFault::OutOfRange(s) => Fault::OutOfRange(s@),
            ScriptFault::NothingToExpect => Fault::NothingToExpect,
            ScriptFault::Unknown(s) => Fault::Unknown(s@),
        }
    }
}

/// A text in quotes, as the standard library's debug form writes it.
pub uninterp spec fn quoted_text(s: Seq<char>) -> Seq<char>;

/// `format!` with the debug form of a string. Claimed of it: what it writes
/// is a function of the text alone. How each character is escaped is left
/// unsaid.
#[verifier::external_body]
fn quoted(s: &str) -> (r: String)
    ensures
        r@ == quoted_text(s@),
{
    format!("{:?}", s)
}

impl ScriptError {
    /// The words for an error.
    pub open spec fn words(self) -> Seq<char> {
        "line "@ + decimal(self.line as nat) + (match self.fault@ {
            Fault::Reason(s) => ": refuse: "@ + quoted_text(s) + " is not \"busy\" or \"unreachable\""@,
            Fault::NotANumber(s) => ": delay: "@ + quoted_text(s) + " is not a number of seconds"@,
            Fault::OutOfRange(s) => ": delay: "@ + s + " is not a non-negative number of seconds"@,
            Fault::NothingToExpect => ": expect: nothing to expect"@,
            Fault::Unknown(s) => ": unknown directive "@ + quoted_text(s),
        })
    }

    /// The words for an error.
    pub fn text(&self) -> (r: String)
        ensures
            r@ == self.words(),
    {
        let mut out: Vec<char> = Vec::new();
        push_text(&mut out, "line ");
        push_decimal(&mut out, self.line as u64);
        let ghost start = out@;
        match &self.fault {
            ScriptFault::Reason(s) => {
                push_text(&mut out, ": refuse: ");
                push_text(&mut out, quoted(s.as_str()).as_str());
                push_text(&mut out, " is not \"busy\" or \"unreachable\"");
            },
            ScriptFault::NotANumber(s) => {
                push_text(&mut out, ": delay: ");
                push_text(&mut out, quoted(s.as_str()).as_str());
                push_text(&mut out, " is not a number of seconds");
            },
            ScriptFault::OutOfRange(s) => {
                push_text(&mut out, ": delay: ");
                push_text(&mut out, s.as_str());
                push_text(&mut out, " is not a non-negative number of seconds");
            },
            ScriptFault::NothingToExpect => {
                push_text(&mut out, ": expect: nothing to expect");
            },
            ScriptFault::Unknown(s) => {
                push_text(&mut out, ": unknown directive ");
                push_text(&mut out, quoted(s.as_str()).as_str());
            },
        }
        assert(out@ =~= self.words());
        text_of(out.as_slice())
    }
}

/// A text with its escapes resolved.
pub open spec fn unescaped(s: Seq<char>) -> Seq<char>
    decreases s.len(),
{
    if s.len() == 0 {
        Seq::empty()
    } else if s[0] != '\\' {
        seq![s[0]] + unescaped(s.skip(1))
    } else if s.len() == 1 {
        seq!['\\']
    } else {
        (if s[1] == 'r' {
            seq!['\r']
        } else if s[1] == 'n' {
            seq!['\n']
        } else if s[1] == 't' {
            seq!['\t']
        } else if s[1] == '\\' {
            seq!['\\']
        } else {
            seq!['\\', s[1]]
        }) + unescaped(s.skip(2))
    }
}

/// A text's bytes, with its escapes resolved.
pub fn unescape(s: &[char]) -> (r: Vec<u8>)
    ensures
        r@ == encode_utf8(unescaped(s@)),
        s@.len() > 0 ==> r@.len() > 0,
{
    let mut out: Vec<char> = Vec::new();
    let mut i: usize = 0;
    assert(s@.skip(0) =~= s@);
    while i < s.len()
        invariant
            i <= s@.len(),
            out@ + unescaped(s@.skip(i as int)) == unescaped(s@),
            i > 0 ==> out@.len() > 0,
        decreases s@.len() - i,
    {
        let ghost rest = s@.skip(i as int);
        let ghost before = out@;
        assert(rest[0] == s@[i as int]);
        if s[i] != '\\' {
            out.push(s[i]);
            i += 1;
            assert(rest.skip(1) =~= s@.skip(i as int));
            assert(out@ + unescaped(s@.skip(i as int)) =~= before + unescaped(rest));
        } else if i + 1 >= s.len() {
            out.push('\\');
            i += 1;
            assert(s@.skip(i as int) =~= Seq::empty());
            assert(out@ + unescaped(s@.skip(i as int)) =~= before + unescaped(rest));
        } else {
            assert(rest[1] == s@[i + 1]);
            let next = s[i + 1];
            if next == 'r' {
                out.push('\r');
            } else if next == 'n' {
                out.push('\n');
            } else if next == 't' {
                out.push('\t');
            } else if next == '\\' {
                out.push('\\');
            } else {
                out.push('\\');
                out.push(next);
            }
            i += 2;
            assert(rest.skip(2) =~= s@.skip(i as int));
            assert(out@ + unescaped(s@.skip(i as int)) =~= before + unescaped(rest));
        }
    }
    assert(s@.skip(i as int) =~= Seq::empty());
    assert(out@ =~= unescaped(s@));
    let text = text_of(out.as_slice());
    let bytes = text.as_str().as_bytes();
    let r = copy_range(bytes, 0, bytes.len());
    assert(r@ =~= bytes@);
    r
}

/// How many characters of a text come before its first white space.
pub open spec fn keyword_len(s: Seq<char>) -> nat
    decreases s.len(),
{
    if s.len() == 0 || is_white(s[0]) {
        0
    } else {
        1 + keyword_len(s.skip(1))
    }
}

/// What stands before the first white space of a line.
pub open spec fn keyword(line: Seq<char>) -> Seq<char> {
    line.take(keyword_len(line) as int)
}

/// What stands behind it.
pub open spec fn argument(line: Seq<char>) -> Seq<char> {
    trimmed(line.skip(keyword_len(line) as int))
}

/// A line that is no directive at all.
pub open spec fn is_idle(line: Seq<char>) -> bool {
    trimmed(line).len() == 0 || trimmed(line)[0] == '#'
}

/// A line that is a delay.
pub open spec fn is_delay(line: Seq<char>) -> bool {
    !is_idle(line) && keyword(trimmed(line)) == "delay"@
}

/// How a delay's number reads, where it is known.
pub open spec fn delay_step(number: Seq<char>, reading: Option<DelayReading>) -> Result<
    Step,
    Fault,
> {
    match reading {
        Some(DelayReading::Ticks(ticks)) => Ok(Step::Delay(ticks as nat)),
        Some(DelayReading::OutOfRange(text)) => Err(Fault::OutOfRange(text@)),
        _ => Err(Fault::NotANumber(number)),
    }
}

/// The step that a line stands for, which is not an idle one, with the
/// reading of its number where it is a delay.
pub open spec fn step_of(line: Seq<char>, reading: Option<DelayReading>) -> Result<Step, Fault> {
    let word = keyword(trimmed(line));
    let rest = argument(trimmed(line));
    if word == "accept"@ {
        Ok(Step::Accept)
    } else if word == "refuse"@ {
        if rest == ""@ || rest == "unreachable"@ {
            Ok(Step::Refuse(DialError::Unreachable))
        } else if rest == "busy"@ {
            Ok(Step::Refuse(DialError::Refused))
        } else {
            Err(Fault::Reason(rest))
        }
    } else if word == "delay"@ {
        delay_step(rest, reading)
    } else if word == "send"@ {
        Ok(Step::Send(encode_utf8(unescaped(rest))))
    } else if word == "expect"@ {
        if rest.len() == 0 {
            Err(Fault::NothingToExpect)
        } else {
            Ok(Step::Expect(encode_utf8(unescaped(rest))))
        }
    } else if word == "close"@ {
        Ok(Step::Close)
    } else {
        Err(Fault::Unknown(word))
    }
}

/// The lines of a text.
pub open spec fn lines_of(text: Seq<char>) -> Seq<Seq<char>> {
    split(text, '\n')
}

/// How many of the first lines are delays.
pub open spec fn delays_before(lines: Seq<Seq<char>>, n: int) -> nat
    decreases n,
{
    if n <= 0 {
        0
    } else {
        delays_before(lines, n - 1) + (if is_delay(lines[n - 1]) {
            1nat
        } else {
            0
        })
    }
}

/// The reading at a place, where there is one.
pub open spec fn reading_at(readings: Seq<DelayReading>, i: nat) -> Option<DelayReading> {
    if i < readings.len() {
        Some(readings[i as int])
    } else {
        None
    }
}

/// The steps of the first lines, or the first fault among them and its line.
pub open spec fn script_of(
    lines: Seq<Seq<char>>,
    readings: Seq<DelayReading>,
    n: int,
) -> Result<Seq<Step>, (int, Fault)>
    decreases n,
{
    if n <= 0 {
        Ok(Seq::empty())
    } else {
        match script_of(lines, readings, n - 1) {
            Err(e) => Err(e),
            Ok(steps) => if is_idle(lines[n - 1]) {
                Ok(steps)
            } else {
                match step_of(lines[n - 1], reading_at(readings, delays_before(lines, n - 1))) {
                    Ok(step) => Ok(steps.push(step)),
                    Err(fault) => Err((n, fault)),
                }
            },
        }
    }
}

/// The steps of directives.
pub open spec fn steps(directives: Seq<Directive>) -> Seq<Step> {
    directives.map_values(|d: Directive| d@)
}

fn is_idle_line(line: &[char]) -> (r: bool)
    ensures
        r == is_idle(line@),
{
    let bare = trim(line);
    bare.len() == 0 || bare[0] == '#'
}

fn keyword_end(line: &[char]) -> (r: usize)
    ensures
        r == keyword_len(line@),
        r <= line@.len(),
{
    let mut i: usize = 0;
    assert(line@.skip(0) =~= line@);
    while i < line.len() && !white(line[i])
        invariant
            i <= line@.len(),
            keyword_len(line@) == i + keyword_len(line@.skip(i as int)),
        decreases line@.len() - i,
    {
        assert(line@.skip(i as int)[0] == line@[i as int]);
        assert(line@.skip(i as int).skip(1) =~= line@.skip(i + 1));
        i += 1;
    }
    if i < line.len() {
        assert(line@.skip(i as int)[0] == line@[i as int]);
    }
    i
}

/// A line's keyword and its argument.
fn parse_line(line: &[char]) -> (r: (Vec<char>, Vec<char>))
    ensures
        r.0@ == keyword(trimmed(line@)),
        r.1@ == argument(trimmed(line@)),
{
    let bare = trim(line);
    let end: usize = keyword_end(bare.as_slice());
    let word = copy_chars(bare.as_slice(), 0, end);
    assert(word@ =~= keyword(bare@));
    let tail = copy_chars(bare.as_slice(), end, bare.len());
    assert(tail@ =~= bare@.skip(end as int));
    let rest = trim(tail.as_slice());
    (word, rest)
}

/// The numbers of a script's delays, in order, as they are written.
pub fn delay_texts(text: &str) -> (r: Vec<String>)
    ensures
        ({
            let lines = lines_of(text@);
            &&& r@.len() == delays_before(lines, lines.len() as int)
            &&& forall|i: int|
                0 <= i < lines.len() && is_delay(#[trigger] lines[i]) ==> r@[delays_before(
                    lines,
                    i,
                ) as int]@ == argument(trimmed(lines[i]))
        }),
{
    let chars = chars_of(text);
    let lines = split_text(chars.as_slice(), '\n');
    let ghost views = lines_of(text@);
    let mut out: Vec<String> = Vec::new();
    let mut i: usize = 0;
    assert(texts(lines@).len() == lines@.len());
    while i < lines.len()
        invariant
            i <= lines@.len(),
            lines@.len() == views.len(),
            texts(lines@) == views,
            out@.len() == delays_before(views, i as int),
            forall|j: int|
                0 <= j < i && is_delay(#[trigger] views[j]) ==> delays_before(views, j) < out@.len()
                    && out@[delays_before(views, j) as int]@ == argument(trimmed(views[j])),
        decreases lines@.len() - i,
    {
        assert(lines@[i as int]@ == views[i as int]);
        let ghost before = out@;
        if !is_idle_line(lines[i].as_slice()) {
            let (word, rest) = parse_line(lines[i].as_slice());
            if spells(word.as_slice(), "delay") {
                out.push(text_of(rest.as_slice()));
            }
        }
        assert forall|j: int| 0 <= j < i + 1 && is_delay(#[trigger] views[j]) implies delays_before(
            views,
            j,
        ) < out@.len() && out@[delays_before(views, j) as int]@ == argument(trimmed(views[j])) by {
            if j < i {
                assert(out@[delays_before(views, j) as int] == before[delays_before(
                    views,
                    j,
                ) as int]);
            }
        }
        i += 1;
    }
    out
}

/// A copy of a reading.
fn copy_reading(readings: &[DelayReading], i: usize) -> (r: Option<DelayReading>)
    ensures
        match (r, reading_at(readings@, i as nat)) {
            (Some(DelayReading::Ticks(a)), Some(DelayReading::Ticks(b))) => a == b,
            (Some(DelayReading::NotANumber), Some(DelayReading::NotANumber)) => true,
            (Some(DelayReading::OutOfRange(a)), Some(DelayReading::OutOfRange(b))) => a@ == b@,
            (None, None) => true,
            _ => false,
        },
{
    if i >= readings.len() {
        return None;
    }
    Some(
        match &readings[i] {
            DelayReading::Ticks(ticks) => DelayReading::Ticks(*ticks),
            DelayReading::NotANumber => DelayReading::NotANumber,
            DelayReading::OutOfRange(text) => DelayReading::OutOfRange(text.clone()),
        },
    )
}

/// The directive that a line stands for.
fn parse_directive(line: &[char], reading: Option<DelayReading>) -> (r: Result<
    Directive,
    ScriptFault,
>)
    requires
        !is_idle(line@),
    ensures
        match r {
            Ok(d) => step_of(line@, reading) == Ok::<Step, Fault>(d@) && (d@ matches Step::Expect(b)
                ==> b.len() > 0),
            Err(e) => step_of(line@, reading) == Err::<Step, Fault>(e@),
        },
{
    let (word, rest) = parse_line(line);
    if spells(word.as_slice(), "accept") {
        return Ok(Directive::Accept);
    }
    if spells(word.as_slice(), "refuse") {
        if spells(rest.as_slice(), "") || spells(rest.as_slice(), "unreachable") {
            return Ok(Directive::Refuse(DialError::Unreachable));
        }
        if spells(rest.as_slice(), "busy") {
            return Ok(Directive::Refuse(DialError::Refused));
        }
        return Err(ScriptFault::Reason(text_of(rest.as_slice())));
    }
    if spells(word.as_slice(), "delay") {
        return match reading {
            Some(DelayReading::Ticks(ticks)) => Ok(Directive::Delay(ticks)),
            Some(DelayReading::OutOfRange(text)) => Err(ScriptFault::OutOfRange(text)),
            _ => Err(ScriptFault::NotANumber(text_of(rest.as_slice()))),
        };
    }
    if spells(word.as_slice(), "send") {
        return Ok(Directive::Send(unescape(rest.as_slice())));
    }
    if spells(word.as_slice(), "expect") {
        if rest.len() == 0 {
            return Err(ScriptFault::NothingToExpect);
        }
        return Ok(Directive::Expect(unescape(rest.as_slice())));
    }
    if spells(word.as_slice(), "close") {
        return Ok(Directive::Close);
    }
    Err(ScriptFault::Unknown(text_of(word.as_slice())))
}

/// No directive expects nothing.
pub open spec fn sound(script: Seq<Step>) -> bool {
    forall|i: int|
        0 <= i < script.len() ==> (#[trigger] script[i] matches Step::Expect(bytes) ==> bytes.len()
            > 0)
}

/// Read a script. The readings are those of its delays' numbers, in order; a
/// delay without one is no number.
pub fn parse_script(text: &str, readings: &[DelayReading]) -> (r: Result<
    Vec<Directive>,
    ScriptError,
>)
    ensures
        ({
            let lines = lines_of(text@);
            let script = script_of(lines, readings@, lines.len() as int);
            match r {
                Ok(directives) => script == Ok::<Seq<Step>, (int, Fault)>(steps(directives@))
                    && sound(steps(directives@)),
                Err(e) => script == Err::<Seq<Step>, (int, Fault)>((e.line as int, e.fault@)),
            }
        }),
{
    let chars = chars_of(text);
    let lines = split_text(chars.as_slice(), '\n');
    let ghost views = lines_of(text@);
    let mut out: Vec<Directive> = Vec::new();
    let mut delays: usize = 0;
    let mut i: usize = 0;
    proof {
        assert(texts(lines@).len() == lines@.len());
        assert(steps(out@) =~= Seq::empty());
    }
    while i < lines.len()
        invariant
            i <= lines@.len(),
            lines@.len() == views.len(),
            views == lines_of(text@),
            texts(lines@) == views,
            delays == delays_before(views, i as int),
            delays <= i,
            script_of(views, readings@, i as int) == Ok::<Seq<Step>, (int, Fault)>(steps(out@)),
            sound(steps(out@)),
        decreases lines@.len() - i,
    {
        assert(lines@[i as int]@ == views[i as int]);
        if !is_idle_line(lines[i].as_slice()) {
            let reading = copy_reading(readings, delays);
            let ghost held = reading;
            let ghost before = steps(out@);
            match parse_directive(lines[i].as_slice(), reading) {
                Ok(d) => {
                    proof {
                        lemma_same_step(views[i as int], held, reading_at(readings@, delays as nat));
                    }
                    let ghost step = d@;
                    out.push(d);
                    assert(steps(out@) =~= before.push(step));
                },
                Err(fault) => {
                    proof {
                        lemma_same_step(views[i as int], held, reading_at(readings@, delays as nat));
                        lemma_fault_stays(
                            views,
                            readings@,
                            i + 1,
                            views.len() as int,
                            (i + 1, fault@),
                        );
                    }
                    return Err(ScriptError { line: i + 1, fault });
                },
            }
            let (word, _) = parse_line(lines[i].as_slice());
            if spells(word.as_slice(), "delay") {
                delays += 1;
            }
        }
        i += 1;
    }
    Ok(out)
}

proof fn lemma_same_step(line: Seq<char>, a: Option<DelayReading>, b: Option<DelayReading>)
    requires
        match (a, b) {
            (Some(DelayReading::Ticks(a)), Some(DelayReading::Ticks(b))) => a == b,
            (Some(DelayReading::NotANumber), Some(DelayReading::NotANumber)) => true,
            (Some(DelayReading::OutOfRange(a)), Some(DelayReading::OutOfRange(b))) => a@ == b@,
            (None, None) => true,
            _ => false,
        },
    ensures
        step_of(line, a) == step_of(line, b),
{
}

proof fn lemma_fault_stays(
    lines: Seq<Seq<char>>,
    readings: Seq<DelayReading>,
    n: int,
    m: int,
    e: (int, Fault),
)
    requires
        0 <= n <= m,
        script_of(lines, readings, n) == Err::<Seq<Step>, (int, Fault)>(e),
    ensures
        script_of(lines, readings, m) == Err::<Seq<Step>, (int, Fault)>(e),
    decreases m - n,
{
    if n < m {
        lemma_fault_stays(lines, readings, n, m - 1, e);
    }
}

/// How far a scripted call has come.
pub struct Call {
    /// The next directive.
    pub next: int,
    /// Bytes released for the guest.
    pub ready: Seq<u8>,
    /// The directive whose bytes are expected, and how many have come.
    pub expecting: Option<(int, int)>,
    /// When the delay at hand is over.
    pub due: Option<int>,
    pub carrier: bool,
    /// The script has run out.
    pub ended: bool,
}

/// A call that has not begun.
pub open spec fn at_rest() -> Call {
    Call {
        next: 0,
        ready: Seq::empty(),
        expecting: None,
        due: None,
        carrier: false,
        ended: false,
    }
}

/// The call after every directive that is due: up to one that expects
/// something, a delay that is not over, or the end of the line. Without a
/// time, a delay stays where it is.
pub open spec fn progressed(script: Seq<Step>, c: Call, at: Option<int>) -> Call
    decreases
            (if c.next < script.len() {
                script.len() - c.next
            } else {
                0
            }),
{
    if !c.carrier || c.expecting is Some || c.next < 0 {
        c
    } else if c.next >= script.len() {
        Call { ended: true, ..c }
    } else {
        match script[c.next] {
            Step::Delay(ticks) => match at {
                None => c,
                Some(now) => {
                    let due = match c.due {
                        Some(due) => due,
                        None => now + ticks,
                    };
                    if now < due {
                        Call { due: Some(due), ..c }
                    } else {
                        progressed(script, Call { next: c.next + 1, due: None, ..c }, at)
                    }
                },
            },
            Step::Send(bytes) => progressed(
                script,
                Call { next: c.next + 1, ready: c.ready + bytes, ..c },
                at,
            ),
            Step::Expect(_) => Call { next: c.next + 1, expecting: Some((c.next, 0)), ..c },
            Step::Close => Call { next: c.next + 1, carrier: false, ..c },
            Step::Accept | Step::Refuse(_) => progressed(
                script,
                Call { next: c.next + 1, ..c },
                at,
            ),
        }
    }
}

/// The call after dialing, and the outcome.
pub open spec fn dialed(script: Seq<Step>, c: Call) -> (Call, Result<(), DialError>) {
    if 0 <= c.next < script.len() {
        match script[c.next] {
            Step::Accept => (
                Call { next: c.next + 1, carrier: true, due: None, ended: false, ..c },
                Ok(()),
            ),
            Step::Refuse(reason) => (Call { next: c.next + 1, ..c }, Err(reason)),
            _ => (c, Err(DialError::Unreachable)),
        }
    } else {
        (c, Err(DialError::Unreachable))
    }
}

/// The call after a byte of the guest.
pub open spec fn heard(script: Seq<Step>, c: Call, b: u8) -> Call {
    match c.expecting {
        None => c,
        Some((directive, matched)) => {
            let expected = match script[directive] {
                Step::Expect(bytes) => bytes,
                _ => Seq::empty(),
            };
            if expected[matched] != b {
                Call { expecting: None, carrier: false, ..c }
            } else if matched + 1 < expected.len() {
                Call { expecting: Some((directive, matched + 1)), ..c }
            } else {
                progressed(script, Call { expecting: None, ..c }, None)
            }
        },
    }
}

/// The call after a byte is read, and the byte.
pub open spec fn taken(c: Call) -> (Call, Option<u8>) {
    if c.ready.len() > 0 {
        (Call { ready: c.ready.drop_first(), ..c }, Some(c.ready[0]))
    } else {
        (c, None)
    }
}

/// The call after hanging up. Bytes that were released and never read belong to
/// the call that ends.
pub open spec fn hung_up(c: Call) -> Call {
    Call { carrier: false, expecting: None, due: None, ready: Seq::empty(), ..c }
}

/// What can be asked of a scripted far end.
pub enum Asked {
    Dial,
    Advance(int),
    Write(u8),
    Read,
    HasPending,
    Carrier,
    Hangup,
    ResetTimeline,
}

/// What it answers.
pub enum Answer {
    Dialed(Result<(), DialError>),
    Byte(Option<u8>),
    Yes(bool),
    Nothing,
}

/// The call after it is asked something, and the answer.
pub open spec fn answered(script: Seq<Step>, c: Call, asked: Asked) -> (Call, Answer) {
    match asked {
        Asked::Dial => (dialed(script, c).0, Answer::Dialed(dialed(script, c).1)),
        Asked::Advance(now) => (progressed(script, c, Some(now)), Answer::Nothing),
        Asked::Write(b) => (heard(script, c, b), Answer::Nothing),
        Asked::Read => (taken(c).0, Answer::Byte(taken(c).1)),
        Asked::HasPending => (c, Answer::Yes(c.ready.len() > 0)),
        Asked::Carrier => (c, Answer::Yes(c.carrier)),
        Asked::Hangup => (hung_up(c), Answer::Nothing),
        Asked::ResetTimeline => (at_rest(), Answer::Nothing),
    }
}

/// The call after it is asked some things, and the answers.
pub open spec fn answers(script: Seq<Step>, c: Call, asked: Seq<Asked>) -> (Call, Seq<Answer>)
    decreases asked.len(),
{
    if asked.len() == 0 {
        (c, Seq::empty())
    } else {
        let (before, said) = answers(script, c, asked.drop_last());
        let (after, answer) = answered(script, before, asked.last());
        (after, said.push(answer))
    }
}

proof fn lemma_answers_go_on(script: Seq<Step>, c: Call, first: Seq<Asked>, later: Seq<Asked>)
    ensures
        ({
            let (middle, said) = answers(script, c, first);
            let (end, more) = answers(script, middle, later);
            answers(script, c, first + later) == (end, said + more)
        }),
    decreases later.len(),
{
    let (middle, said) = answers(script, c, first);
    if later.len() == 0 {
        assert(first + later =~= first);
        assert(said + Seq::<Answer>::empty() =~= said);
    } else {
        let rest = later.drop_last();
        lemma_answers_go_on(script, c, first, rest);
        assert((first + later).drop_last() =~= first + rest);
        let (before, more) = answers(script, middle, rest);
        let answer = answered(script, before, later.last()).1;
        assert((said + more).push(answer) =~= said + more.push(answer));
    }
}

/// Replay from the top is deterministic: whatever a far end was asked before its
/// timeline was reset, it has no carrier and nothing pending, and whatever it is
/// asked then it answers as one does that has just been made from the script.
pub proof fn law_a_reset_replays_from_the_top(
    script: Seq<Step>,
    before: Seq<Asked>,
    later: Seq<Asked>,
)
    ensures
        ({
            let reset = before.push(Asked::ResetTimeline);
            let (c, said) = answers(script, at_rest(), reset);
            &&& !c.carrier
            &&& c.ready.len() == 0
            &&& answers(script, at_rest(), reset + later).0 == answers(script, at_rest(), later).0
            &&& answers(script, at_rest(), reset + later).1 == said + answers(
                script,
                at_rest(),
                later,
            ).1
        }),
{
    let reset = before.push(Asked::ResetTimeline);
    assert(reset.drop_last() =~= before);
    lemma_answers_go_on(script, at_rest(), reset, later);
}

/// A modem's far end, played from a script.
pub struct ScriptedTransport {
    pub script: Vec<Directive>,
    pub next: usize,
    pub ready: VecDeque<u8>,
    pub expecting: Option<(usize, usize)>,
    pub due: Option<u64>,
    pub carrier: bool,
    pub ended: bool,
}

/// Why a scripted far end does not listen.
#[derive(Clone, Copy, Debug, PartialEq, Eq, Structural)]
pub enum ListenError {
    /// It has no inbound side.
    Unsupported,
}

impl ScriptedTransport {
    pub open spec fn steps(self) -> Seq<Step> {
        steps(self.script@)
    }

    pub open spec fn wf(self) -> bool {
        &&& sound(self.steps())
        &&& self.next <= self.script@.len()
        &&& match self.expecting {
            Some((directive, matched)) => directive < self.script@.len()
                && match self.script@[directive as int]@ {
                Step::Expect(bytes) => matched < bytes.len(),
                _ => false,
            },
            None => true,
        }
    }

    /// The delay that the call comes to at this tick ends within the clock's
    /// range.
    pub open spec fn in_time(self, now: u64) -> bool {
        progressed(self.steps(), self.call(), Some(now as int)).due matches Some(due) ==> due
            <= u64::MAX
    }

    pub open spec fn call(self) -> Call {
        Call {
            next: self.next as int,
            ready: self.ready@,
            expecting: match self.expecting {
                Some((directive, matched)) => Some((directive as int, matched as int)),
                None => None,
            },
            due: match self.due {
                Some(due) => Some(due as int),
                None => None,
            },
            carrier: self.carrier,
            ended: self.ended,
        }
    }

    /// A far end for a script.
    pub fn from_directives(script: Vec<Directive>) -> (r: ScriptedTransport)
        requires
            sound(steps(script@)),
        ensures
            r.wf(),
            r.script == script,
            r.call() == at_rest(),
    {
        ScriptedTransport {
            script,
            next: 0,
            ready: VecDeque::new(),
            expecting: None,
            due: None,
            carrier: false,
            ended: false,
        }
    }

    /// A far end for a script's text.
    pub fn from_script(text: &str, readings: &[DelayReading]) -> (r: Result<
        ScriptedTransport,
        ScriptError,
    >)
        ensures
            ({
                let lines = lines_of(text@);
                let script = script_of(lines, readings@, lines.len() as int);
                match r {
                    Ok(t) => t.wf() && t.call() == at_rest() && script == Ok::<
                        Seq<Step>,
                        (int, Fault),
                    >(t.steps()),
                    Err(e) => script == Err::<Seq<Step>, (int, Fault)>((e.line as int, e.fault@)),
                }
            }),
    {
        match parse_script(text, readings) {
            Ok(script) => Ok(Self::from_directives(script)),
            Err(e) => Err(e),
        }
    }

    /// Carry out every directive that is due.
    fn progress(&mut self, at: Option<u64>)
        requires
            old(self).wf(),
            at matches Some(now) ==> old(self).in_time(now),
        ensures
            final(self).wf(),
            final(self).script == old(self).script,
            final(self).call() == progressed(
                old(self).steps(),
                old(self).call(),
                match at {
                    Some(now) => Some(now as int),
                    None => None,
                },
            ),
    {
        let ghost start = *self;
        let ghost script = self.steps();
        let ghost moment: Option<int> = match at {
            Some(now) => Some(now as int),
            None => None,
        };
        if !self.carrier {
            return ;
        }
        while self.next < self.script.len() && self.expecting.is_none() && self.carrier
            invariant
                self.wf(),
                self.script == start.script,
                script == start.steps(),
                start == *old(self),
                moment == (match at {
                    Some(now) => Some(now as int),
                    None => None,
                }),
                at matches Some(now) ==> start.in_time(now),
                self.carrier || self.call() == progressed(script, start.call(), moment),
                self.expecting is Some ==> self.call() == progressed(script, start.call(), moment),
                self.carrier && self.expecting is None ==> progressed(script, self.call(), moment)
                    == progressed(script, start.call(), moment),
            decreases self.script@.len() - self.next,
        {
            let ghost c = self.call();
            let ghost here = self.next as int;
            assert(script[here] == self.script@[here]@);
            match &self.script[self.next] {
                Directive::Delay(ticks) => {
                    match at {
                        None => {
                            return ;
                        },
                        Some(now) => {
                            assert(self.script@[here] == start.script@[here]);
                            let due: u64 = match self.due {
                                Some(due) => due,
                                None => now + *ticks,
                            };
                            if now < due {
                                self.due = Some(due);
                                return ;
                            }
                            self.due = None;
                            self.next += 1;
                        },
                    }
                },
                Directive::Send(bytes) => {
                    let n: usize = bytes.len();
                    let mut i: usize = 0;
                    let ghost sent = bytes@;
                    let ghost ready0 = self.ready@;
                    let ghost held = *self;
                    proof {
                        assert(sent.take(0) =~= Seq::empty());
                        assert(ready0 + sent.take(0) =~= ready0);
                    }
                    while i < n
                        invariant
                            i <= n,
                            n == sent.len(),
                            bytes@ == sent,
                            *self == (ScriptedTransport { ready: self.ready, ..held }),
                            self.ready@ == ready0 + sent.take(i as int),
                        decreases n - i,
                    {
                        self.ready.push_back(bytes[i]);
                        assert(sent.take(i + 1) =~= sent.take(i as int).push(sent[i as int]));
                        assert(ready0 + sent.take(i + 1) =~= (ready0 + sent.take(i as int)).push(
                            sent[i as int],
                        ));
                        i += 1;
                    }
                    assert(sent.take(n as int) =~= sent);
                    self.next += 1;
                },
                Directive::Expect(_) => {
                    self.expecting = Some((self.next, 0));
                    self.next += 1;
                },
                Directive::Close => {
                    self.carrier = false;
                    self.next += 1;
                },
                Directive::Accept | Directive::Refuse(_) => {
                    self.next += 1;
                },
            }
        }
        if self.carrier && self.expecting.is_none() {
            self.ended = true;
        }
    }

    /// Dial. The script's next directive decides; where it is not a decision,
    /// or the script has run out, there is no carrier.
    pub fn dial(&mut self) -> (r: Result<(), DialError>)
        requires
            old(self).wf(),
        ensures
            final(self).wf(),
            final(self).script == old(self).script,
            (final(self).call(), r) == dialed(old(self).steps(), old(self).call()),
    {
        if self.next < self.script.len() {
            assert(self.steps()[self.next as int] == self.script@[self.next as int]@);
            match &self.script[self.next] {
                Directive::Accept => {
                    self.next += 1;
                    self.carrier = true;
                    self.due = None;
                    self.ended = false;
                    Ok(())
                },
                Directive::Refuse(reason) => {
                    let reason: DialError = *reason;
                    self.next += 1;
                    Err(reason)
                },
                _ => Err(DialError::Unreachable),
            }
        } else {
            Err(DialError::Unreachable)
        }
    }

    /// The next byte for the guest.
    pub fn read_byte(&mut self) -> (r: Option<u8>)
        requires
            old(self).wf(),
        ensures
            final(self).wf(),
            final(self).script == old(self).script,
            (final(self).call(), r) == taken(old(self).call()),
    {
        let r = self.ready.pop_front();
        assert(r is Some ==> self.ready@ =~= old(self).ready@.drop_first());
        r
    }

    pub fn has_pending(&self) -> (r: bool)
        ensures
            r == (self.call().ready.len() > 0),
    {
        self.ready.len() > 0
    }

    /// A byte of the guest. It is held against what is expected, if anything
    /// is; what follows a match without a delay is released at once.
    pub fn write_byte(&mut self, b: u8)
        requires
            old(self).wf(),
        ensures
            final(self).wf(),
            final(self).script == old(self).script,
            final(self).call() == heard(old(self).steps(), old(self).call(), b),
    {
        if let Some((directive, matched)) = self.expecting {
            assert(self.steps()[directive as int] == self.script@[directive as int]@);
            if let Directive::Expect(expected) = &self.script[directive] {
                assert(matched < expected@.len());
                assert(expected@.len() == expected.len());
                if expected[matched] == b {
                    if matched + 1 < expected.len() {
                        self.expecting = Some((directive, matched + 1));
                    } else {
                        self.expecting = None;
                        self.progress(None);
                    }
                } else {
                    self.expecting = None;
                    self.carrier = false;
                }
            }
        }
    }

    pub fn carrier(&self) -> (r: bool)
        ensures
            r == self.call().carrier,
    {
        self.carrier
    }

    /// Hang up. Bytes that were released and never read belong to the call
    /// that ends here.
    pub fn hangup(&mut self)
        requires
            old(self).wf(),
        ensures
            final(self).wf(),
            final(self).script == old(self).script,
            final(self).call() == hung_up(old(self).call()),
    {
        self.carrier = false;
        self.expecting = None;
        self.due = None;
        self.ready = VecDeque::new();
    }

    /// The emulated machine has gone backwards: replay from the top.
    pub fn reset_timeline(&mut self)
        requires
            old(self).wf(),
        ensures
            final(self).wf(),
            final(self).script == old(self).script,
            final(self).call() == at_rest(),
    {
        self.next = 0;
        self.ready = VecDeque::new();
        self.expecting = None;
        self.due = None;
        self.carrier = false;
        self.ended = false;
    }

    /// A scripted far end only plays outbound calls.
    pub fn listen(&self) -> (r: Result<(), ListenError>)
        ensures
            r == Err::<(), ListenError>(ListenError::Unsupported),
    {
        Err(ListenError::Unsupported)
    }

    pub fn ringing(&self) -> (r: bool)
        ensures
            !r,
    {
        false
    }

    pub fn answer(&mut self) -> (r: bool)
        ensures
            !r,
            *final(self) == *old(self),
    {
        false
    }

    /// Time has come to this tick.
    pub fn advance(&mut self, now: u64)
        requires
            old(self).wf(),
            old(self).in_time(now),
        ensures
            final(self).wf(),
            final(self).script == old(self).script,
            final(self).call() == progressed(old(self).steps(), old(self).call(), Some(now as int)),
    {
        self.progress(Some(now));
    }
}

/// What the directives from one place to another send, put together.
pub open spec fn sent_between(script: Seq<Step>, from: int, to: int) -> Seq<u8>
    decreases to - from,
{
    if from >= to {
        Seq::empty()
    } else {
        (match script[from] {
            Step::Send(bytes) => bytes,
            _ => Seq::empty(),
        }) + sent_between(script, from + 1, to)
    }
}

/// Only what the script sends reaches the guest, in the script's order: what
/// carrying directives out adds to the released bytes is what those
/// directives send.
pub proof fn law_only_sends_reach_the_guest(script: Seq<Step>, c: Call, at: Option<int>)
    requires
        0 <= c.next <= script.len(),
    ensures
        ({
            let after = progressed(script, c, at);
            &&& c.next <= after.next <= script.len()
            &&& after.ready == c.ready + sent_between(script, c.next, after.next)
        }),
    decreases script.len() - c.next,
{
    let after = progressed(script, c, at);
    assert(c.ready + Seq::<u8>::empty() =~= c.ready);
    if c.carrier && c.expecting is None && c.next < script.len() {
        let here = match script[c.next] {
            Step::Send(bytes) => bytes,
            _ => Seq::<u8>::empty(),
        };
        let stepped = match script[c.next] {
            Step::Delay(ticks) => Call { next: c.next + 1, due: None, ..c },
            Step::Send(bytes) => Call { next: c.next + 1, ready: c.ready + bytes, ..c },
            Step::Expect(_) => Call { next: c.next + 1, expecting: Some((c.next, 0)), ..c },
            Step::Close => Call { next: c.next + 1, carrier: false, ..c },
            _ => Call { next: c.next + 1, ..c },
        };
        law_only_sends_reach_the_guest(script, stepped, at);
        if after.next > c.next {
            let rest = sent_between(script, c.next + 1, after.next);
            assert(c.ready + (here + rest) =~= (c.ready + here) + rest);
        }
    }
}

/// Nothing happens twice: carrying out what is due a second time at the same
/// moment changes nothing.
pub proof fn law_progress_is_settled(script: Seq<Step>, c: Call, at: Option<int>)
    requires
        0 <= c.next <= script.len(),
    ensures
        ({
            let after = progressed(script, c, at);
            progressed(script, after, at) == after
        }),
    decreases script.len() - c.next,
{
    if c.carrier && c.expecting is None && c.next < script.len() {
        match script[c.next] {
            Step::Delay(_) => {
                law_progress_is_settled(script, Call { next: c.next + 1, due: None, ..c }, at);
            },
            Step::Send(bytes) => {
                law_progress_is_settled(
                    script,
                    Call { next: c.next + 1, ready: c.ready + bytes, ..c },
                    at,
                );
            },
            Step::Accept | Step::Refuse(_) => {
                law_progress_is_settled(script, Call { next: c.next + 1, ..c }, at);
            },
            _ => {},
        }
    }
}

} // verus!
