//! Host MIDI endpoints, and choosing among them.
use vstd::prelude::*;
use crate::text::{
    chars_of, contains, lowercase, lowercase_text, occurs, push_text, same_chars, text_of,
};

verus! {

/// An endpoint that can be selected by name.
#[derive(Clone, Debug)]
pub struct MidiEndpoint {
    pub name: String,
}

/// The endpoints of the host, by direction.
#[derive(Clone, Debug)]
pub struct MidiEndpoints {
    /// Endpoints that send to the guest.
    pub inputs: Vec<MidiEndpoint>,
    /// Endpoints that the guest sends to.
    pub outputs: Vec<MidiEndpoint>,
}

impl Default for MidiEndpoints {
    fn default() -> (r: MidiEndpoints)
        ensures
            r.inputs@.len() == 0,
            r.outputs@.len() == 0,
    {
        MidiEndpoints { inputs: Vec::new(), outputs: Vec::new() }
    }
}

/// The names of endpoints.
pub open spec fn endpoint_names(list: Seq<MidiEndpoint>) -> Seq<Seq<char>> {
    list.map_values(|e: MidiEndpoint| e.name@)
}

/// The texts of names.
pub open spec fn names(list: Seq<String>) -> Seq<Seq<char>> {
    list.map_values(|s: String| s@)
}

/// A live platform connection. Nothing is known of what it does.
pub trait MidiBackend {
    /// Schedule a message for delivery at a moment of the host's clock.
    fn send(&mut self, data: &[u8], at: u64);

    /// Retarget the output to an endpoint, or stop sending.
    fn set_output(&mut self, endpoint: Option<&str>);

    /// Retarget the input to an endpoint, or stop receiving.
    fn set_input(&mut self, endpoint: Option<&str>);

    /// The name of the current output endpoint.
    fn current_output(&self) -> Option<String>;

    /// The name of the current input endpoint.
    fn current_input(&self) -> Option<String>;
}

fn endpoints_of(list: Vec<String>) -> (r: Vec<MidiEndpoint>)
    ensures
        endpoint_names(r@) == names(list@),
{
    let mut out: Vec<MidiEndpoint> = Vec::new();
    let mut i: usize = 0;
    while i < list.len()
        invariant
            i <= list@.len(),
            out@.len() == i,
            forall|j: int| 0 <= j < i ==> (#[trigger] out@[j]).name@ == list@[j]@,
        decreases list@.len() - i,
    {
        let name = list[i].clone();
        out.push(MidiEndpoint { name });
        i += 1;
    }
    assert(endpoint_names(out@) =~= names(list@));
    out
}

/// The endpoints of the names that the platform reports.
pub fn enumerate(inputs: Vec<String>, outputs: Vec<String>) -> (r: MidiEndpoints)
    ensures
        endpoint_names(r.inputs@) == names(inputs@),
        endpoint_names(r.outputs@) == names(outputs@),
{
    MidiEndpoints { inputs: endpoints_of(inputs), outputs: endpoints_of(outputs) }
}

/// Where a name stands in a list, counted from one; zero where it does not.
pub open spec fn place_of(current: Option<Seq<char>>, list: Seq<Seq<char>>) -> int {
    match current {
        Some(name) => if list.contains(name) {
            list.index_of_first(name).unwrap() + 1
        } else {
            0
        },
        None => 0,
    }
}

/// The next choice after one: nothing, and then the names in order, round and
/// round.
pub open spec fn next_place(here: int, count: int, forward: bool) -> int {
    if forward {
        (here + 1) % count
    } else {
        (here + count - 1) % count
    }
}

/// A text, where there is one.
pub open spec fn shown(s: Option<String>) -> Option<Seq<char>> {
    match s {
        Some(t) => Some(t@),
        None => None,
    }
}

/// Step a selection through nothing and then the named endpoints.
pub fn next_endpoint(current: Option<&str>, list: &Vec<String>, forward: bool) -> (r: Option<
    String,
>)
    requires
        list@.len() < usize::MAX / 2,
    ensures
        ({
            let here = place_of(
                match current {
                    Some(c) => Some(c@),
                    None => None,
                },
                names(list@),
            );
            let next = next_place(here, list@.len() as int + 1, forward);
            shown(r) == (if next > 0 {
                Some(list@[next - 1]@)
            } else {
                None
            })
        }),
{
    let ghost views = names(list@);
    let mut here: usize = 0;
    if let Some(c) = current {
        let name = chars_of(c);
        let mut i: usize = 0;
        while i < list.len() && here == 0
            invariant
                i <= list@.len(),
                views == names(list@),
                name@ == c@,
                list@.len() < usize::MAX / 2,
                here <= i,
                here == 0 ==> forall|j: int| 0 <= j < i ==> #[trigger] views[j] != c@,
                here > 0 ==> views[here - 1] == c@ && forall|j: int|
                    0 <= j < here - 1 ==> #[trigger] views[j] != c@,
            decreases list@.len() - i,
        {
            let other = chars_of(list[i].as_str());
            assert(views[i as int] == other@);
            if same_chars(other.as_slice(), name.as_slice()) {
                here = i + 1;
            }
            i += 1;
        }
        proof {
            assert(views.len() == list@.len());
            if here > 0 {
                assert(views.contains(c@));
                views.index_of_first_ensures(c@);
            } else {
                assert(!views.contains(c@));
            }
        }
    }
    let count: usize = list.len() + 1;
    let next: usize = if forward {
        (here + 1) % count
    } else {
        (here + (count - 1)) % count
    };
    if next > 0 {
        Some(list[next - 1].clone())
    } else {
        None
    }
}

/// An endpoint answers to a name where the name occurs in its own, without
/// regard to case.
pub open spec fn answers(name: Seq<char>, want: Seq<char>) -> bool {
    occurs(lowercase_text(name), lowercase_text(want))
}

/// The first endpoint that answers to a name.
pub open spec fn first_named(list: Seq<Seq<char>>, want: Seq<char>, r: Option<usize>) -> bool {
    match r {
        Some(at) => at < list.len() && answers(list[at as int], want) && forall|i: int|
            0 <= i < at ==> !answers(#[trigger] list[i], want),
        None => forall|i: int| 0 <= i < list.len() ==> !answers(#[trigger] list[i], want),
    }
}

pub fn find_named(list: &Vec<String>, want: &str) -> (r: Option<usize>)
    ensures
        first_named(names(list@), want@, r),
{
    let needle = chars_of(lowercase(want).as_str());
    let ghost views = names(list@);
    let mut i: usize = 0;
    while i < list.len()
        invariant
            i <= list@.len(),
            views == names(list@),
            needle@ == lowercase_text(want@),
            forall|j: int| 0 <= j < i ==> !answers(#[trigger] views[j], want@),
        decreases list@.len() - i,
    {
        let name = chars_of(lowercase(list[i].as_str()).as_str());
        assert(views[i as int] == list@[i as int]@);
        if contains(name.as_slice(), needle.as_slice()) {
            return Some(i);
        }
        i += 1;
    }
    assert(views.len() == list@.len());
    None
}

/// Why a connection is not opened.
#[derive(Clone, Copy, Debug, PartialEq, Eq, Structural)]
pub enum OpenError {
    /// No output endpoint answers to the name.
    NoOutput,
    /// No input endpoint answers to the name.
    NoInput,
}

/// Which endpoints a connection is opened to.
#[derive(Clone, Copy, Debug, PartialEq, Eq, Structural)]
pub struct Opening {
    pub output: Option<usize>,
    pub input: Option<usize>,
}

impl Opening {
    /// Nothing is connected, so that the bridge does nothing.
    pub fn inert(&self) -> (r: bool)
        ensures
            r == (self.output is None && self.input is None),
    {
        self.output.is_none() && self.input.is_none()
    }
}

/// Choose the endpoints to open. Both are optional; one that is asked for and
/// not there is an error, the output's first.
pub fn choose_endpoints(
    midi_out: Option<&str>,
    midi_in: Option<&str>,
    outputs: &Vec<String>,
    inputs: &Vec<String>,
) -> (r: Result<Opening, OpenError>)
    ensures
        ({
            let missing_out = match midi_out {
                Some(want) => first_named(names(outputs@), want@, None),
                None => false,
            };
            let missing_in = match midi_in {
                Some(want) => first_named(names(inputs@), want@, None),
                None => false,
            };
            match r {
                Ok(opening) => {
                    &&& !missing_out && !missing_in
                    &&& match midi_out {
                        Some(want) => opening.output is Some && first_named(
                            names(outputs@),
                            want@,
                            opening.output,
                        ),
                        None => opening.output is None,
                    }
                    &&& match midi_in {
                        Some(want) => opening.input is Some && first_named(
                            names(inputs@),
                            want@,
                            opening.input,
                        ),
                        None => opening.input is None,
                    }
                },
                Err(OpenError::NoOutput) => missing_out,
                Err(OpenError::NoInput) => !missing_out && missing_in,
            }
        }),
{
    let output: Option<usize> = match midi_out {
        Some(want) => {
            let found: Option<usize> = find_named(outputs, want);
            if found.is_none() {
                return Err(OpenError::NoOutput);
            }
            found
        },
        None => None,
    };
    let input: Option<usize> = match midi_in {
        Some(want) => {
            let found: Option<usize> = find_named(inputs, want);
            if found.is_none() {
                return Err(OpenError::NoInput);
            }
            found
        },
        None => None,
    };
    Ok(Opening { output, input })
}

/// A port of a sequencer, as the host reports it.
#[derive(Clone, Debug)]
pub struct SequencerPort {
    pub client: i32,
    pub client_name: String,
    pub port: i32,
    pub port_name: String,
    pub capabilities: u32,
}

/// An endpoint that can be connected to.
#[derive(Clone, Debug)]
pub struct Endpoint {
    pub client: i32,
    pub port: i32,
    pub name: String,
}

/// The sequencer's own client.
pub const SYSTEM_CLIENT: i32 = 0;

/// A port that is offered: it can do what is asked of it, and it is neither
/// the system's nor one of our own.
pub open spec fn is_offered(p: SequencerPort, caps: u32, own: Seq<i32>) -> bool {
    &&& p.client != SYSTEM_CLIENT
    &&& !own.contains(p.client)
    &&& p.capabilities & caps == caps
}

/// An endpoint stands for a port.
pub open spec fn stands_for(e: Endpoint, p: SequencerPort) -> bool {
    &&& e.client == p.client
    &&& e.port == p.port
    &&& e.name@ == p.client_name@ + ":"@ + p.port_name@
}

/// The ports that are offered among the first ones.
pub open spec fn offered(
    ports: Seq<SequencerPort>,
    caps: u32,
    own: Seq<i32>,
    n: int,
) -> Seq<SequencerPort>
    decreases n,
{
    if n <= 0 {
        Seq::empty()
    } else if is_offered(ports[n - 1], caps, own) {
        offered(ports, caps, own, n - 1).push(ports[n - 1])
    } else {
        offered(ports, caps, own, n - 1)
    }
}

fn is_own(own: &[i32], client: i32) -> (r: bool)
    ensures
        r == own@.contains(client),
{
    let mut i: usize = 0;
    while i < own.len()
        invariant
            i <= own@.len(),
            forall|j: int| 0 <= j < i ==> own@[j] != client,
        decreases own@.len() - i,
    {
        if own[i] == client {
            assert(own@[i as int] == client);
            return true;
        }
        i += 1;
    }
    false
}

/// The endpoints that the host's ports offer, in order.
pub fn query_ports(ports: &[SequencerPort], caps: u32, own: &[i32]) -> (r: Vec<Endpoint>)
    ensures
        ({
            let list = offered(ports@, caps, own@, ports@.len() as int);
            &&& r@.len() == list.len()
            &&& forall|i: int| 0 <= i < list.len() ==> stands_for(#[trigger] r@[i], list[i])
        }),
{
    let mut out: Vec<Endpoint> = Vec::new();
    let mut i: usize = 0;
    while i < ports.len()
        invariant
            i <= ports@.len(),
            out@.len() == offered(ports@, caps, own@, i as int).len(),
            forall|j: int|
                0 <= j < out@.len() ==> stands_for(
                    #[trigger] out@[j],
                    offered(ports@, caps, own@, i as int)[j],
                ),
        decreases ports@.len() - i,
    {
        let p = &ports[i];
        if p.client != SYSTEM_CLIENT && !is_own(own, p.client) && p.capabilities & caps == caps {
            let mut name: Vec<char> = Vec::new();
            push_text(&mut name, p.client_name.as_str());
            push_text(&mut name, ":");
            push_text(&mut name, p.port_name.as_str());
            assert(name@ =~= p.client_name@ + ":"@ + p.port_name@);
            out.push(
                Endpoint { client: p.client, port: p.port, name: text_of(name.as_slice()) },
            );
        }
        i += 1;
    }
    out
}

/// A change of input that one thread asks another for.
pub struct InputControl {
    /// What was asked for: an endpoint, or nothing to listen to.
    pub request: Option<Option<Endpoint>>,
    /// What is listened to.
    pub current: Option<Endpoint>,
}

/// What is done for a change of input, in order.
pub struct Retarget {
    pub leave: Option<Endpoint>,
    pub join: Option<Endpoint>,
}

impl InputControl {
    pub fn new(current: Option<Endpoint>) -> (r: InputControl)
        ensures
            r.request is None,
            r.current == current,
    {
        InputControl { request: None, current }
    }

    /// Ask for a change. The last that was asked for counts.
    pub fn set_input(&mut self, target: Option<Endpoint>)
        ensures
            *final(self) == (InputControl { request: Some(target), ..*old(self) }),
    {
        self.request = Some(target);
    }

    /// Begin the change that was asked for, if one was: what was listened to
    /// is left first, so that there are never two.
    pub fn take_request(&mut self) -> (r: Option<Retarget>)
        ensures
            final(self).request is None,
            match old(self).request {
                Some(target) => final(self).current is None && (r matches Some(change)
                    && change.leave == old(self).current && change.join == target),
                None => r is None && final(self).current == old(self).current,
            },
    {
        match self.request.take() {
            Some(target) => {
                let leave = self.current.take();
                Some(Retarget { leave, join: target })
            },
            None => None,
        }
    }

    /// The endpoint was joined, or could not be.
    pub fn joined(&mut self, endpoint: Endpoint, ok: bool)
        ensures
            *final(self) == (if ok {
                InputControl { current: Some(endpoint), ..*old(self) }
            } else {
                *old(self)
            }),
    {
        if ok {
            self.current = Some(endpoint);
        }
    }
}

/// A text of two-byte units, with what is no text replaced.
pub uninterp spec fn wide_text(units: Seq<u16>) -> Seq<char>;

/// `String::from_utf16_lossy`. Claimed of it: what it returns is a function of
/// the units alone. Which units make which characters is left unsaid.
#[verifier::external_body]
fn from_wide(units: &[u16]) -> (r: String)
    ensures
        r@ == wide_text(units@),
{
    String::from_utf16_lossy(units)
}

/// The units before the first that is zero.
pub open spec fn before_zero(units: Seq<u16>) -> Seq<u16>
    decreases units.len(),
{
    if units.len() == 0 || units[0] == 0 {
        Seq::empty()
    } else {
        seq![units[0]] + before_zero(units.drop_first())
    }
}

/// A device's name out of the field that holds it.
pub fn caps_name(units: &[u16]) -> (r: String)
    ensures
        r@ == wide_text(before_zero(units@)),
{
    let mut name: Vec<u16> = Vec::new();
    let mut i: usize = 0;
    proof {
        assert(units@.skip(0) =~= units@);
        assert(name@ + before_zero(units@.skip(0)) =~= before_zero(units@));
    }
    while i < units.len() && units[i] != 0
        invariant
            i <= units@.len(),
            name@ + before_zero(units@.skip(i as int)) == before_zero(units@),
        decreases units@.len() - i,
    {
        let ghost rest = units@.skip(i as int);
        let ghost held = name@;
        assert(rest[0] == units@[i as int]);
        assert(rest.drop_first() =~= units@.skip(i + 1));
        name.push(units[i]);
        assert(name@ + before_zero(units@.skip(i + 1)) =~= held + before_zero(rest));
        i += 1;
    }
    proof {
        if i < units@.len() {
            assert(units@.skip(i as int)[0] == units@[i as int]);
        }
        assert(name@ =~= before_zero(units@));
    }
    from_wide(name.as_slice())
}

/// Stepping forward and then back comes to where it began.
pub proof fn law_stepping_can_be_undone(here: int, count: int)
    requires
        0 <= here < count,
    ensures
        next_place(next_place(here, count, true), count, false) == here,
        next_place(next_place(here, count, false), count, true) == here,
{
    if here + 1 < count {
        assert((here + 1) % count == here + 1) by (nonlinear_arith)
            requires
                0 <= here + 1 < count,
        ;
        assert((here + count) % count == here) by (nonlinear_arith)
            requires
                0 <= here < count,
        ;
    } else {
        assert((here + 1) % count == 0) by (nonlinear_arith)
            requires
                here + 1 == count,
                count > 0,
        ;
        assert((count - 1) % count == count - 1) by (nonlinear_arith)
            requires
                count > 0,
        ;
    }
    if here > 0 {
        assert((here + count - 1) % count == here - 1) by (nonlinear_arith)
            requires
                0 < here < count,
        ;
        assert(here % count == here) by (nonlinear_arith)
            requires
                0 <= here < count,
        ;
    } else {
        assert((count - 1) % count == count - 1) by (nonlinear_arith)
            requires
                count > 0,
        ;
        assert(count % count == 0) by (nonlinear_arith)
            requires
                count > 0,
        ;
    }
}

} // verus!
