//! Direct host-adapter Ethernet bridge.
//!
//! The emulator never blocks on the host. A small worker owns the platform's
//! capture handle and exchanges complete frames with the card over bounded
//! queues. Receive filtering is applied by the platform where possible, and
//! repeated here as a safety boundary.
use std::collections::VecDeque;
use vstd::prelude::*;
use crate::bytes::{be, be_value, copy_range, same_bytes};
use crate::hostpath::{route_of, HostPath};
use crate::net::backend::{dequeue, frames};
use crate::ranking::{in_order, rank, ranked, Ranked};
use crate::text::{
    before, chars_of, comes_before, decimal, hex_byte, lemma_before_is_an_order, number_of,
    parse_u32, push_chars, push_decimal, push_hex, push_text, same_chars, spells, text_of,
};

verus! {

pub const TO_ADAPTER_CAPACITY: usize = 256;

pub const TO_GUEST_CAPACITY: usize = 512;

/// Frames taken from the adapter in one pass.
pub const MAX_RX_BURST: usize = 128;

/// One adapter selectable for direct bridging.
#[derive(Debug, Clone, PartialEq, Eq)]
pub struct HostInterface {
    /// Stable platform identifier.
    pub name: String,
    /// Description for people, where the platform provides one.
    pub description: Option<String>,
    pub up: bool,
    pub running: bool,
    pub loopback: bool,
    pub wireless: bool,
}

impl HostInterface {
    /// The words for an adapter: its description with its name, or the name
    /// alone where there is nothing more to say.
    pub open spec fn words(self) -> Seq<char> {
        match self.description {
            Some(description) => if description@ != self.name@ {
                description@ + " ["@ + self.name@ + "]"@
            } else {
                self.name@
            },
            None => self.name@,
        }
    }

    /// Concise label for pickers.
    pub fn label(&self) -> (r: String)
        ensures
            r@ == self.words(),
    {
        let name = chars_of(self.name.as_str());
        let mut out: Vec<char> = Vec::new();
        match &self.description {
            Some(description) => {
                let text = chars_of(description.as_str());
                if !same_chars(text.as_slice(), name.as_slice()) {
                    push_chars(&mut out, text.as_slice());
                    push_text(&mut out, " [");
                    push_chars(&mut out, name.as_slice());
                    push_text(&mut out, "]");
                } else {
                    push_chars(&mut out, name.as_slice());
                }
            },
            None => {
                push_chars(&mut out, name.as_slice());
            },
        }
        assert(out@ =~= self.words());
        text_of(out.as_slice())
    }
}

/// The better adapter comes first: running before idle, up before down, real
/// before loopback, and then by name.
impl Ranked for HostInterface {
    open spec fn better(self, other: HostInterface) -> bool {
        if self.running != other.running {
            self.running
        } else if self.up != other.up {
            self.up
        } else if self.loopback != other.loopback {
            other.loopback
        } else {
            before(self.name@, other.name@)
        }
    }

    fn is_better(&self, other: &HostInterface) -> (r: bool) {
        if self.running != other.running {
            self.running
        } else if self.up != other.up {
            self.up
        } else if self.loopback != other.loopback {
            other.loopback
        } else {
            let a = chars_of(self.name.as_str());
            let b = chars_of(other.name.as_str());
            comes_before(a.as_slice(), b.as_slice())
        }
    }

    proof fn lemma_is_an_order(a: HostInterface, b: HostInterface, c: HostInterface) {
        lemma_before_is_an_order(a.name@, b.name@, c.name@);
        lemma_before_is_an_order(c.name@, b.name@, a.name@);
        lemma_before_is_an_order(b.name@, c.name@, a.name@);
    }
}

/// Put the adapters that were found in the order in which they are offered:
/// the best first, and equals as they were found.
pub fn list_interfaces(found: Vec<HostInterface>) -> (r: Vec<HostInterface>)
    ensures
        r@ == in_order(found@),
        ranked(r@),
        r@.to_multiset() == found@.to_multiset(),
{
    rank(found)
}

/// A frame the guest should see: addressed to it or to a group, and not its
/// own coming back from the capture.
pub open spec fn acceptable(frame: Seq<u8>, guest_mac: Option<[u8; 6]>) -> bool {
    &&& frame.len() >= 14
    &&& !(guest_mac matches Some(mac) && frame.subrange(6, 12) == mac@)
    &&& frame[0] % 2 == 1 || (guest_mac matches Some(mac) && frame.subrange(0, 6) == mac@)
}

pub fn accept_frame(frame: &[u8], guest_mac: Option<[u8; 6]>) -> (r: bool)
    ensures
        r == acceptable(frame@, guest_mac),
{
    if frame.len() < 14 {
        return false;
    }
    match guest_mac {
        Some(mac) => {
            let source = copy_range(frame, 6, 12);
            if same_bytes(source.as_slice(), &mac) {
                return false;
            }
            let destination = copy_range(frame, 0, 6);
            frame[0] % 2 == 1 || same_bytes(destination.as_slice(), &mac)
        },
        None => frame[0] % 2 == 1,
    }
}

/// An address as six pairs of digits.
pub open spec fn mac_words(mac: Seq<u8>) -> Seq<char> {
    hex_byte(mac[0]) + ":"@ + hex_byte(mac[1]) + ":"@ + hex_byte(mac[2]) + ":"@ + hex_byte(mac[3])
        + ":"@ + hex_byte(mac[4]) + ":"@ + hex_byte(mac[5])
}

fn push_mac(out: &mut Vec<char>, mac: &[u8; 6])
    ensures
        final(out)@ == old(out)@ + mac_words(mac@),
{
    let ghost start = out@;
    push_hex(out, mac[0]);
    push_text(out, ":");
    push_hex(out, mac[1]);
    push_text(out, ":");
    push_hex(out, mac[2]);
    push_text(out, ":");
    push_hex(out, mac[3]);
    push_text(out, ":");
    push_hex(out, mac[4]);
    push_text(out, ":");
    push_hex(out, mac[5]);
    assert(out@ =~= start + mac_words(mac@));
}

/// The capture filter for a station, in the capture library's language.
pub fn mac_filter(mac: [u8; 6]) -> (r: String)
    ensures
        r@ == "(ether dst "@ + mac_words(mac@) + " or ether multicast) and not ether src "@
            + mac_words(mac@),
{
    let mut out: Vec<char> = Vec::new();
    push_text(&mut out, "(ether dst ");
    push_mac(&mut out, &mac);
    push_text(&mut out, " or ether multicast) and not ether src ");
    push_mac(&mut out, &mac);
    assert(out@ =~= "(ether dst "@ + mac_words(mac@)
        + " or ether multicast) and not ether src "@ + mac_words(mac@));
    text_of(out.as_slice())
}

/// What the card tells the worker.
pub enum Command {
    Frame(Vec<u8>),
    GuestMac([u8; 6]),
}

/// Two commands are the same.
pub open spec fn same_command(a: Command, b: Command) -> bool {
    match (a, b) {
        (Command::Frame(x), Command::Frame(y)) => x@ == y@,
        (Command::GuestMac(x), Command::GuestMac(y)) => x@ == y@,
        _ => false,
    }
}

/// The card's end of a bridge.
pub struct BridgeBackend {
    /// The worker is running.
    pub running: bool,
    pub to_adapter: VecDeque<Command>,
    pub to_guest: VecDeque<Vec<u8>>,
    /// The station address the card is known to have.
    pub guest_mac: Option<[u8; 6]>,
}

/// The station address a frame gives away: its source, where that is a
/// single station's.
pub open spec fn source_station(frame: Seq<u8>) -> Option<Seq<u8>> {
    if frame.len() >= 12 && frame[6] % 2 == 0 && frame.subrange(6, 12) != Seq::new(
        6,
        |i: int| 0u8,
    ) {
        Some(frame.subrange(6, 12))
    } else {
        None
    }
}

impl BridgeBackend {
    pub open spec fn wf(self) -> bool {
        &&& self.to_adapter@.len() <= TO_ADAPTER_CAPACITY
        &&& self.to_guest@.len() <= TO_GUEST_CAPACITY
    }

    pub fn new(guest_mac: Option<[u8; 6]>) -> (r: BridgeBackend)
        ensures
            r.wf(),
            r.running,
            r.to_adapter@.len() == 0,
            r.to_guest@.len() == 0,
            r.guest_mac == guest_mac,
    {
        BridgeBackend {
            running: true,
            to_adapter: VecDeque::new(),
            to_guest: VecDeque::new(),
            guest_mac,
        }
    }

    /// The card is not known to have this address yet.
    pub open spec fn unknown(self, mac: Seq<u8>) -> bool {
        !(self.guest_mac matches Some(known) && known@ == mac)
    }

    /// What transmitting a frame queues: first the station's address, where
    /// the frame gives away a new one, and then the frame. A full queue loses
    /// what does not fit.
    pub open spec fn transmits(self, frame: Seq<u8>, after: Self) -> bool {
        let room = TO_ADAPTER_CAPACITY - self.to_adapter@.len();
        let learns = source_station(frame) matches Some(mac) && self.unknown(mac);
        &&& after.running == self.running
        &&& after.to_guest == self.to_guest
        &&& if !self.running || room == 0 {
            after == self
        } else if learns {
            &&& after.guest_mac matches Some(mac) && Some(mac@) == source_station(frame)
                && after.to_adapter@.len() == self.to_adapter@.len() + (if room > 1 {
                2int
            } else {
                1
            }) && after.to_adapter@.take(self.to_adapter@.len() as int) == self.to_adapter@
                && same_command(
                after.to_adapter@[self.to_adapter@.len() as int],
                Command::GuestMac(mac),
            )
            &&& room > 1 ==> (after.to_adapter@.last() matches Command::Frame(copy) && copy@
                == frame)
        } else {
            &&& after.guest_mac == self.guest_mac
            &&& after.to_adapter@.len() == self.to_adapter@.len() + 1
            &&& after.to_adapter@.drop_last() == self.to_adapter@
            &&& after.to_adapter@.last() matches Command::Frame(copy) && copy@ == frame
        }
    }

    /// Transmit one frame. A card that sets no address of its own is known by
    /// the first frame it transmits.
    pub fn transmit(&mut self, frame: &[u8])
        requires
            old(self).wf(),
        ensures
            final(self).wf(),
            old(self).transmits(frame@, *final(self)),
    {
        if !self.running || self.to_adapter.len() >= TO_ADAPTER_CAPACITY {
            return ;
        }
        let ghost start = self.to_adapter@;
        if frame.len() >= 12 && frame[6] % 2 == 0 {
            let source = [frame[6], frame[7], frame[8], frame[9], frame[10], frame[11]];
            assert(source@ =~= frame@.subrange(6, 12));
            let zero: [u8; 6] = [0, 0, 0, 0, 0, 0];
            assert(zero@ =~= Seq::new(6, |i: int| 0u8));
            let known: bool = match self.guest_mac {
                Some(mac) => same_bytes(&mac, &source),
                None => false,
            };
            if !same_bytes(&source, &zero) && !known {
                self.to_adapter.push_back(Command::GuestMac(source));
                self.guest_mac = Some(source);
                assert(self.to_adapter@.take(start.len() as int) =~= start);
                if self.to_adapter.len() >= TO_ADAPTER_CAPACITY {
                    return ;
                }
                let copy = copy_range(frame, 0, frame.len());
                assert(copy@ =~= frame@);
                self.to_adapter.push_back(Command::Frame(copy));
                assert(self.to_adapter@.take(start.len() as int) =~= start);
                return ;
            }
        }
        let copy = copy_range(frame, 0, frame.len());
        assert(copy@ =~= frame@);
        self.to_adapter.push_back(Command::Frame(copy));
        assert(self.to_adapter@.drop_last() =~= start);
    }

    /// The next frame for the guest.
    pub fn receive(&mut self) -> (r: Option<Vec<u8>>)
        requires
            old(self).wf(),
        ensures
            final(self).wf(),
            *final(self) == (BridgeBackend { to_guest: final(self).to_guest, ..*old(self) }),
            match r {
                Some(frame) => old(self).to_guest@.len() > 0 && frame@ == frames(
                    old(self).to_guest@,
                )[0] && frames(final(self).to_guest@) == frames(old(self).to_guest@).drop_first(),
                None => old(self).to_guest@.len() == 0 && final(self).to_guest@ == old(
                    self,
                ).to_guest@,
            },
    {
        let r = dequeue(&mut self.to_guest);
        assert(frames(self.to_guest@).len() == self.to_guest@.len());
        r
    }

    /// The card has been given an address. It is known once the worker is
    /// sure to hear of it.
    pub fn announce_mac(&mut self, mac: [u8; 6])
        requires
            old(self).wf(),
        ensures
            final(self).wf(),
            if old(self).running && old(self).to_adapter@.len() < 256 {
                &&& final(self).guest_mac == Some(mac)
                &&& final(self).to_adapter@ == old(self).to_adapter@.push(Command::GuestMac(mac))
                &&& *final(self) == (BridgeBackend {
                    guest_mac: final(self).guest_mac,
                    to_adapter: final(self).to_adapter,
                    ..*old(self)
                })
            } else {
                *final(self) == *old(self)
            },
    {
        if self.running && self.to_adapter.len() < TO_ADAPTER_CAPACITY {
            self.to_adapter.push_back(Command::GuestMac(mac));
            self.guest_mac = Some(mac);
        }
    }
}

/// What passes between the worker and an adapter: a frame to inject or a station
/// to filter for, each with whether the adapter was then still there, a captured
/// frame, nothing captured, or the end of it.
pub enum AdapterEvent {
    Sent(Seq<u8>, bool),
    Filtered(Seq<u8>, bool),
    Captured(Seq<u8>),
    Quiet,
    Gone,
}

/// A platform's capture handle. Nothing is known of what it does; what it is
/// told and what it hands over is kept in its history. The history grows with
/// every call, so an implementation must be a value that changes with every
/// call: one that stays the same whatever it is told cannot meet that.
pub trait AdapterIo {
    closed spec fn history(&self) -> Seq<AdapterEvent> {
        arbitrary()
    }

    /// Inject one frame. Returns whether the adapter is still there.
    fn send(&mut self, frame: &[u8]) -> (r: bool)
        ensures
            final(self).history() == old(self).history().push(AdapterEvent::Sent(frame@, r)),
    ;

    /// The next captured frame, if any; nothing but an error where the
    /// adapter is gone.
    fn receive(&mut self) -> (r: Result<Option<Vec<u8>>, ()>)
        ensures
            final(self).history() == old(self).history().push(
                match r {
                    Ok(Some(frame)) => AdapterEvent::Captured(frame@),
                    Ok(None) => AdapterEvent::Quiet,
                    Err(_) => AdapterEvent::Gone,
                },
            ),
    ;

    /// Filter for this station. Returns whether the adapter is still there.
    fn set_guest_mac(&mut self, mac: [u8; 6]) -> (r: bool)
        ensures
            final(self).history() == old(self).history().push(AdapterEvent::Filtered(mac@, r)),
    ;
}

/// What a command tells an adapter, and what the adapter answers.
pub open spec fn event_of(command: Command, there: bool) -> AdapterEvent {
    match command {
        Command::Frame(frame) => AdapterEvent::Sent(frame@, there),
        Command::GuestMac(mac) => AdapterEvent::Filtered(mac@, there),
    }
}

/// What commands tell an adapter that stays there.
pub open spec fn told(commands: Seq<Command>) -> Seq<AdapterEvent> {
    commands.map_values(|c: Command| event_of(c, true))
}

/// A captured frame that the guest should see.
pub open spec fn wanted(event: AdapterEvent, mac: Option<[u8; 6]>) -> bool {
    event matches AdapterEvent::Captured(frame) && acceptable(frame, mac)
}

/// The guest's queue after a burst from the adapter. What does not fit is lost.
pub open spec fn gathered(
    queue: Seq<Seq<u8>>,
    mac: Option<[u8; 6]>,
    burst: Seq<AdapterEvent>,
) -> Seq<Seq<u8>>
    decreases burst.len(),
{
    if burst.len() == 0 {
        queue
    } else {
        let before = gathered(queue, mac, burst.drop_last());
        if wanted(burst.last(), mac) && before.len() < 512 {
            before.push(burst.last()->Captured_0)
        } else {
            before
        }
    }
}

/// A burst is over: it has its full length, nothing more was captured, the
/// adapter is gone, or a frame was lost.
pub open spec fn burst_over(
    queue: Seq<Seq<u8>>,
    mac: Option<[u8; 6]>,
    burst: Seq<AdapterEvent>,
) -> bool {
    burst.len() >= 128 || (burst.len() > 0 && (burst.last() is Quiet || burst.last() is Gone
        || (wanted(burst.last(), mac) && gathered(queue, mac, burst.drop_last()).len()
        >= 512)))
}

/// Whatever an adapter hands over, what was queued for the guest stays where it
/// was, only frames that the guest should see come behind it, and the queue stays
/// within its bound.
pub proof fn law_only_wanted_frames_reach_the_guest(
    queue: Seq<Seq<u8>>,
    mac: Option<[u8; 6]>,
    burst: Seq<AdapterEvent>,
)
    requires
        queue.len() <= 512,
    ensures
        queue.len() <= gathered(queue, mac, burst).len() <= 512,
        gathered(queue, mac, burst).take(queue.len() as int) == queue,
        forall|i: int|
            queue.len() <= i < gathered(queue, mac, burst).len() ==> acceptable(
                #[trigger] gathered(queue, mac, burst)[i],
                mac,
            ),
    decreases burst.len(),
{
    if burst.len() > 0 {
        law_only_wanted_frames_reach_the_guest(queue, mac, burst.drop_last());
        let before = gathered(queue, mac, burst.drop_last());
        assert forall|i: int| queue.len() <= i < gathered(queue, mac, burst).len() implies acceptable(
            #[trigger] gathered(queue, mac, burst)[i],
            mac,
        ) by {
            if i < before.len() {
                assert(gathered(queue, mac, burst)[i] == before[i]);
            }
        }
        assert(gathered(queue, mac, burst).take(queue.len() as int) =~= before.take(
            queue.len() as int,
        ));
    } else {
        assert(queue.take(queue.len() as int) =~= queue);
    }
}

/// The worker's own idea of the guest's address.
pub struct Worker {
    pub guest_mac: Option<[u8; 6]>,
}

impl Worker {
    /// The address after some commands.
    pub open spec fn mac_after(mac: Option<[u8; 6]>, commands: Seq<Command>) -> Option<[u8; 6]>
        decreases commands.len(),
    {
        if commands.len() == 0 {
            mac
        } else {
            match commands.last() {
                Command::GuestMac(new) => Some(new),
                Command::Frame(_) => Self::mac_after(mac, commands.drop_last()),
            }
        }
    }

    /// A pass that ended at a command: the adapter was told the first `n`, was
    /// gone at the last of these and no earlier, and the rest still wait.
    pub open spec fn breaks_off(
        before: BridgeBackend,
        history: Seq<AdapterEvent>,
        after: BridgeBackend,
        later: Seq<AdapterEvent>,
        n: int,
    ) -> bool {
        &&& 0 < n <= before.to_adapter@.len()
        &&& later == (history + told(before.to_adapter@.take(n - 1))).push(
            event_of(before.to_adapter@[n - 1], false),
        )
        &&& after.to_adapter@ == before.to_adapter@.skip(n)
        &&& after == (BridgeBackend { to_adapter: after.to_adapter, ..before })
    }

    /// A pass that carried out every command and then took a burst.
    pub open spec fn carries_out(
        mac: Option<[u8; 6]>,
        before: BridgeBackend,
        history: Seq<AdapterEvent>,
        after: BridgeBackend,
        later: Seq<AdapterEvent>,
        burst: Seq<AdapterEvent>,
    ) -> bool {
        let queue = frames(before.to_guest@);
        let now = Self::mac_after(mac, before.to_adapter@);
        &&& later == history + told(before.to_adapter@) + burst
        &&& after.to_adapter@.len() == 0
        &&& frames(after.to_guest@) == gathered(queue, now, burst)
        &&& after == (BridgeBackend {
            to_adapter: after.to_adapter,
            to_guest: after.to_guest,
            ..before
        })
        &&& burst_over(queue, now, burst)
        &&& forall|i: int| 0 <= i < burst.len() ==> !#[trigger] burst_over(queue, now, burst.take(i))
    }

    /// One pass: carry out the card's commands in order, then take a bounded
    /// burst from the adapter. Returns whether the adapter is still there, as its
    /// last answer has it.
    /// Whatever the adapter hands over, only frames that the guest should see
    /// reach it, and its queue stays within its bounds.
    pub fn service<A: AdapterIo>(&mut self, backend: &mut BridgeBackend, adapter: &mut A) -> (r:
        bool)
        requires
            old(backend).wf(),
        ensures
            final(backend).wf(),
            ({
                let cut = exists|n: int| #[trigger]
                    Self::breaks_off(
                        *old(backend),
                        old(adapter).history(),
                        *final(backend),
                        final(adapter).history(),
                        n,
                    ) && final(self).guest_mac == Self::mac_after(
                        old(self).guest_mac,
                        old(backend).to_adapter@.take(n),
                    );
                let whole = exists|burst: Seq<AdapterEvent>| #[trigger]
                    Self::carries_out(
                        old(self).guest_mac,
                        *old(backend),
                        old(adapter).history(),
                        *final(backend),
                        final(adapter).history(),
                        burst,
                    ) && r == !(burst.last() is Gone) && final(self).guest_mac == Self::mac_after(
                        old(self).guest_mac,
                        old(backend).to_adapter@,
                    );
                whole || (!r && cut)
            }),
    {
        let ghost start = *backend;
        let ghost mac0 = self.guest_mac;
        let ghost past = adapter.history();
        let ghost mut n: int = 0;
        assert(start.to_adapter@.take(0) =~= Seq::empty());
        assert(past =~= past + told(start.to_adapter@.take(0)));
        assert(start.to_adapter@ =~= start.to_adapter@.skip(0));
        while backend.to_adapter.len() > 0
            invariant
                start == *old(backend),
                mac0 == old(self).guest_mac,
                past == old(adapter).history(),
                backend.wf(),
                *backend == (BridgeBackend { to_adapter: backend.to_adapter, ..start }),
                0 <= n <= start.to_adapter@.len(),
                backend.to_adapter@ == start.to_adapter@.skip(n),
                adapter.history() == past + told(start.to_adapter@.take(n)),
                self.guest_mac == Self::mac_after(mac0, start.to_adapter@.take(n)),
            decreases backend.to_adapter@.len(),
        {
            let ghost waiting = backend.to_adapter@;
            if let Some(command) = backend.to_adapter.pop_front() {
                proof {
                    let all = start.to_adapter@;
                    assert(waiting =~= seq![command] + backend.to_adapter@);
                    assert(command == all[n]);
                    assert(all.take(n + 1).drop_last() =~= all.take(n));
                    assert(all.take(n + 1).last() == command);
                    assert(backend.to_adapter@ =~= all.skip(n + 1));
                    assert(told(all.take(n + 1)) =~= told(all.take(n)).push(
                        told(all.take(n + 1)).last(),
                    ));
                    n = n + 1;
                }
                match command {
                    Command::Frame(frame) => {
                        let there = adapter.send(frame.as_slice());
                        if !there {
                            assert(Self::breaks_off(start, past, *backend, adapter.history(), n));
                            return false;
                        }
                        assert(adapter.history() =~= past + told(start.to_adapter@.take(n)));
                    },
                    Command::GuestMac(mac) => {
                        self.guest_mac = Some(mac);
                        let there = adapter.set_guest_mac(mac);
                        if !there {
                            assert(Self::breaks_off(start, past, *backend, adapter.history(), n));
                            return false;
                        }
                        assert(adapter.history() =~= past + told(start.to_adapter@.take(n)));
                    },
                }
            }
        }
        assert(start.to_adapter@.take(n) =~= start.to_adapter@);
        let ghost served = *backend;
        let ghost queue = frames(start.to_guest@);
        let ghost mac = self.guest_mac;
        let ghost begun = adapter.history();
        let ghost mut burst = Seq::<AdapterEvent>::empty();
        assert(begun =~= begun + burst);
        let mut over = false;
        let mut calls: usize = 0;
        while !over
            invariant
                start == *old(backend),
                past == old(adapter).history(),
                begun == past + told(start.to_adapter@),
                self.guest_mac == mac,
                mac == Self::mac_after(old(self).guest_mac, start.to_adapter@),
                queue == frames(start.to_guest@),
                backend.wf(),
                *backend == (BridgeBackend { to_guest: backend.to_guest, ..served }),
                served == (BridgeBackend { to_adapter: served.to_adapter, ..start }),
                served.to_adapter@.len() == 0,
                adapter.history() == begun + burst,
                frames(backend.to_guest@) == gathered(queue, mac, burst),
                over == burst_over(queue, mac, burst),
                calls == burst.len(),
                calls <= MAX_RX_BURST,
                over ==> !(burst.last() is Gone),
                forall|i: int|
                    0 <= i < burst.len() ==> !#[trigger] burst_over(queue, mac, burst.take(i)),
            decreases MAX_RX_BURST - calls,
        {
            let ghost earlier = burst;
            let ghost held = backend.to_guest@;
            let captured = adapter.receive();
            calls += 1;
            proof {
                burst = burst.push(adapter.history().last());
                assert(adapter.history() =~= begun + burst);
                assert(burst.drop_last() =~= earlier);
                assert forall|i: int| 0 <= i < burst.len() implies !#[trigger] burst_over(
                    queue,
                    mac,
                    burst.take(i),
                ) by {
                    if i == earlier.len() {
                        assert(burst.take(i) =~= earlier);
                    } else {
                        assert(burst.take(i) =~= earlier.take(i));
                    }
                }
            }
            match captured {
                Ok(Some(frame)) => {
                    if accept_frame(frame.as_slice(), self.guest_mac) {
                        if backend.to_guest.len() >= TO_GUEST_CAPACITY {
                            over = true;
                        } else {
                            backend.to_guest.push_back(frame);
                            assert(frames(backend.to_guest@) =~= frames(held).push(frame@));
                        }
                    }
                },
                Ok(None) => {
                    over = true;
                },
                Err(_) => {
                    assert(Self::carries_out(
                        old(self).guest_mac,
                        start,
                        past,
                        *backend,
                        adapter.history(),
                        burst,
                    ));
                    return false;
                },
            }
            if calls == MAX_RX_BURST {
                over = true;
            }
        }
        assert(Self::carries_out(
            old(self).guest_mac,
            start,
            past,
            *backend,
            adapter.history(),
            burst,
        ));
        true
    }
}

/// One instruction of a kernel packet filter.
#[derive(Clone, Copy, Debug, PartialEq, Eq, Structural)]
pub struct Instruction {
    pub code: u16,
    pub jt: u8,
    pub jf: u8,
    pub k: u32,
}

/// Load a sixteen-bit word, a thirty-two-bit word or a byte.
pub const LOAD_HALF: u16 = 0x28;

pub const LOAD_WORD: u16 = 0x20;

pub const LOAD_BYTE: u16 = 0x30;

/// Jump where the accumulator equals a constant, or has some of its bits.
pub const JUMP_EQUAL: u16 = 0x15;

pub const JUMP_BITS: u16 = 0x45;

/// Take so many bytes of the packet.
pub const RETURN: u16 = 0x06;

/// Take all of a packet.
pub const WHOLE: u32 = 65_535;

/// What a filter program takes of a packet that holds an Ethernet header, for
/// the instructions used here, from an instruction and an accumulator on.
pub open spec fn filtered(program: Seq<Instruction>, packet: Seq<u8>, at: int, acc: nat) -> Option<
    nat,
>
    decreases
            (if at < program.len() {
                program.len() - at
            } else {
                0
            }),
{
    if at < 0 || at >= program.len() {
        None
    } else {
        let i = program[at];
        if i.code == RETURN {
            Some(i.k as nat)
        } else if i.code == LOAD_HALF {
            filtered(program, packet, at + 1, be_value(packet.subrange(i.k as int, i.k + 2)))
        } else if i.code == LOAD_WORD {
            filtered(program, packet, at + 1, be_value(packet.subrange(i.k as int, i.k + 4)))
        } else if i.code == LOAD_BYTE {
            filtered(program, packet, at + 1, packet[i.k as int] as nat)
        } else if i.code == JUMP_EQUAL {
            if acc == i.k {
                filtered(program, packet, at + 1 + i.jt, acc)
            } else {
                filtered(program, packet, at + 1 + i.jf, acc)
            }
        } else if i.code == JUMP_BITS && i.k == 1 {
            if acc % 2 == 1 {
                filtered(program, packet, at + 1 + i.jt, acc)
            } else {
                filtered(program, packet, at + 1 + i.jf, acc)
            }
        } else {
            None
        }
    }
}

/// The last four instructions of every filter: groups are taken, and nothing
/// else.
pub open spec fn group_filter() -> Seq<Instruction> {
    seq![
        Instruction { code: LOAD_BYTE, jt: 0, jf: 0, k: 0 },
        Instruction { code: JUMP_BITS, jt: 0, jf: 1, k: 1 },
        Instruction { code: RETURN, jt: 0, jf: 0, k: WHOLE },
        Instruction { code: RETURN, jt: 0, jf: 0, k: 0 },
    ]
}

/// The filter for a station.
pub open spec fn station_filter(mac: Seq<u8>) -> Seq<Instruction> {
    seq![
        Instruction { code: LOAD_HALF, jt: 0, jf: 0, k: 0 },
        Instruction {
            code: JUMP_EQUAL,
            jt: 0,
            jf: 2,
            k: be_value(mac.subrange(0, 2)) as u32,
        },
        Instruction { code: LOAD_WORD, jt: 0, jf: 0, k: 2 },
        Instruction {
            code: JUMP_EQUAL,
            jt: 2,
            jf: 0,
            k: be_value(mac.subrange(2, 6)) as u32,
        },
    ] + group_filter()
}

/// The kernel's guard on a capture socket: it takes frames for the guest and
/// for groups. Before a card has revealed its address, groups are the only
/// useful ingress.
pub fn receive_filter(guest_mac: Option<[u8; 6]>) -> (r: Vec<Instruction>)
    ensures
        r@ == (match guest_mac {
            Some(mac) => station_filter(mac@),
            None => group_filter(),
        }),
{
    let mut program: Vec<Instruction> = Vec::new();
    if let Some(mac) = guest_mac {
        let first: u64 = crate::bytes::read_be(&mac, 0, 2);
        let rest: u64 = crate::bytes::read_be(&mac, 2, 4);
        proof {
            crate::bytes::lemma_byte_range();
            crate::bytes::lemma_be_writes_back(mac@.subrange(0, 2));
            crate::bytes::lemma_be_writes_back(mac@.subrange(2, 6));
        }
        program.push(Instruction { code: LOAD_HALF, jt: 0, jf: 0, k: 0 });
        program.push(Instruction { code: JUMP_EQUAL, jt: 0, jf: 2, k: first as u32 });
        program.push(Instruction { code: LOAD_WORD, jt: 0, jf: 0, k: 2 });
        program.push(Instruction { code: JUMP_EQUAL, jt: 2, jf: 0, k: rest as u32 });
    }
    program.push(Instruction { code: LOAD_BYTE, jt: 0, jf: 0, k: 0 });
    program.push(Instruction { code: JUMP_BITS, jt: 0, jf: 1, k: 1 });
    program.push(Instruction { code: RETURN, jt: 0, jf: 0, k: WHOLE });
    program.push(Instruction { code: RETURN, jt: 0, jf: 0, k: 0 });
    assert(program@ =~= (match guest_mac {
        Some(mac) => station_filter(mac@),
        None => group_filter(),
    }));
    program
}

/// The kernel's guard agrees with the filter applied here: of the frames that
/// are not the guest's own, it takes exactly those addressed to the guest or
/// to a group.
pub proof fn law_kernel_filter_takes_guest_and_groups(
    mac: [u8; 6],
    packet: Seq<u8>,
)
    requires
        packet.len() >= 14,
    ensures
        filtered(station_filter(mac@), packet, 0, 0) == Some(
            if packet[0] % 2 == 1 || packet.subrange(0, 6) == mac@ {
                WHOLE as nat
            } else {
                0
            },
        ),
        filtered(group_filter(), packet, 0, 0) == Some(
            if packet[0] % 2 == 1 {
                WHOLE as nat
            } else {
                0
            },
        ),
{
    let program = station_filter(mac@);
    let first = mac@.subrange(0, 2);
    let rest = mac@.subrange(2, 6);
    let a = packet.subrange(0, 2);
    let b = packet.subrange(2, 6);
    let head = be_value(a);
    let tail = be_value(b);
    crate::bytes::lemma_byte_range();
    crate::bytes::lemma_be_writes_back(first);
    crate::bytes::lemma_be_writes_back(rest);
    crate::bytes::lemma_be_writes_back(a);
    crate::bytes::lemma_be_writes_back(b);
    let dst = packet.subrange(0, 6);
    assert(dst =~= a + b);
    assert(mac@ =~= first + rest);
    if dst == mac@ {
        assert(a =~= dst.subrange(0, 2));
        assert(b =~= dst.subrange(2, 6));
    }
    assert(program.len() == 8);
    assert(program[0].code == LOAD_HALF && program[0].k == 0);
    assert(program[1].code == JUMP_EQUAL && program[1].k == be_value(first) && program[1].jt == 0
        && program[1].jf == 2);
    assert(program[2].code == LOAD_WORD && program[2].k == 2);
    assert(program[3].code == JUMP_EQUAL && program[3].k == be_value(rest) && program[3].jt == 2
        && program[3].jf == 0);
    assert(program[4] == group_filter()[0]);
    assert(program[5] == group_filter()[1]);
    assert(program[6] == group_filter()[2]);
    assert(program[7] == group_filter()[3]);
    lemma_groups(group_filter(), packet, 0, 0);
    lemma_groups(program, packet, 4, head);
    lemma_groups(program, packet, 4, tail);
    assert(filtered(program, packet, 0, 0) == filtered(program, packet, 1, head));
    if head == be_value(first) {
        assert(filtered(program, packet, 1, head) == filtered(program, packet, 2, head));
        assert(filtered(program, packet, 2, head) == filtered(program, packet, 3, tail));
        if tail == be_value(rest) {
            assert(filtered(program, packet, 3, tail) == filtered(program, packet, 6, tail));
        } else {
            assert(filtered(program, packet, 3, tail) == filtered(program, packet, 4, tail));
        }
    } else {
        assert(filtered(program, packet, 1, head) == filtered(program, packet, 4, head));
    }
}

/// Where a program ends with the filter for groups, it takes groups and
/// nothing else.
proof fn lemma_groups(program: Seq<Instruction>, packet: Seq<u8>, at: int, acc: nat)
    requires
        0 <= at,
        program.len() == at + 4,
        forall|i: int| 0 <= i < 4 ==> program[at + i] == #[trigger] group_filter()[i],
    ensures
        filtered(program, packet, at, acc) == Some(
            if packet[0] % 2 == 1 {
                WHOLE as nat
            } else {
                0
            },
        ),
{
    assert(program[at] == group_filter()[0]);
    assert(program[at + 1] == group_filter()[1]);
    assert(program[at + 2] == group_filter()[2]);
    assert(program[at + 3] == group_filter()[3]);
    let byte = packet[0] as nat;
    assert(filtered(program, packet, at + 2, byte) == Some(WHOLE as nat));
    assert(filtered(program, packet, at + 3, byte) == Some(0nat));
    assert(filtered(program, packet, at, acc) == filtered(program, packet, at + 1, byte));
}

/// What the two programs that share a capture socket say to each other first.
pub const HELPER_MAGIC: [u8; 8] = [0x43, 0x4c, 0x4e, 0x45, 0x54, 0x46, 0x44, 0x31];

/// Bytes an interface's name may have.
pub const MAX_INTERFACE_LEN: usize = 15;

/// A request for a capture socket: the magic, the interface's name behind its
/// length, and the station's address, or zeros where it has none.
pub open spec fn helper_image(interface: Seq<u8>, mac: Seq<u8>) -> Seq<u8> {
    HELPER_MAGIC@ + be(interface.len(), 2) + interface + mac
}

/// The request for a capture socket on this interface; none where the name is
/// too long.
pub fn helper_request(interface: &[u8], guest_mac: Option<[u8; 6]>) -> (r: Option<Vec<u8>>)
    ensures
        r is Some <==> interface@.len() <= 15,
        r matches Some(bytes) ==> bytes@ == helper_image(
            interface@,
            match guest_mac {
                Some(mac) => mac@,
                None => Seq::new(6, |i: int| 0u8),
            },
        ),
{
    if interface.len() > MAX_INTERFACE_LEN {
        return None;
    }
    let mut out: Vec<u8> = Vec::new();
    crate::bytes::push_all(&mut out, HELPER_MAGIC.as_slice());
    crate::bytes::push_be(&mut out, interface.len() as u64, 2);
    crate::bytes::push_all(&mut out, interface);
    let mac: [u8; 6] = match guest_mac {
        Some(mac) => mac,
        None => [0, 0, 0, 0, 0, 0],
    };
    crate::bytes::push_all(&mut out, mac.as_slice());
    proof {
        if guest_mac is None {
            assert(mac@ =~= Seq::new(6, |i: int| 0u8));
        }
        assert(out@ =~= helper_image(interface@, mac@));
    }
    Some(out)
}

/// Why a request for a capture socket is refused.
#[derive(Clone, Copy, Debug, PartialEq, Eq, Structural)]
pub enum HelperError {
    UnsupportedProtocol,
    NameLength,
    NotText,
    /// The request is cut short.
    CutShort,
}

/// A request as it is read: the interface and the station.
pub struct HelperRequest {
    pub interface: Vec<u8>,
    pub guest_mac: Option<[u8; 6]>,
}

/// Read a request for a capture socket.
pub fn parse_helper_request(bytes: &[u8]) -> (r: Result<HelperRequest, HelperError>)
    ensures
        ({
            let n = be_value(bytes@.subrange(8, 10));
            if bytes@.len() < 8 {
                r matches Err(HelperError::CutShort)
            } else if bytes@.subrange(0, 8) != HELPER_MAGIC@ {
                r matches Err(HelperError::UnsupportedProtocol)
            } else if bytes@.len() < 10 {
                r matches Err(HelperError::CutShort)
            } else if n == 0 || n > 15 {
                r matches Err(HelperError::NameLength)
            } else if bytes@.len() < 10 + n {
                r matches Err(HelperError::CutShort)
            } else if !vstd::utf8::valid_utf8(bytes@.subrange(10, 10 + n as int)) {
                r matches Err(HelperError::NotText)
            } else if bytes@.len() < 16 + n {
                r matches Err(HelperError::CutShort)
            } else {
                let mac = bytes@.subrange(10 + n as int, 16 + n as int);
                r matches Ok(request) && request.interface@ == bytes@.subrange(10, 10 + n as int)
                    && match request.guest_mac {
                    Some(m) => m@ == mac && mac != Seq::new(6, |i: int| 0u8),
                    None => mac == Seq::new(6, |i: int| 0u8),
                }
            }
        }),
{
    if bytes.len() < 8 {
        return Err(HelperError::CutShort);
    }
    let magic = copy_range(bytes, 0, 8);
    if !same_bytes(magic.as_slice(), HELPER_MAGIC.as_slice()) {
        return Err(HelperError::UnsupportedProtocol);
    }
    if bytes.len() < 10 {
        return Err(HelperError::CutShort);
    }
    let length: u64 = crate::bytes::read_be(bytes, 8, 2);
    if length == 0 || length > MAX_INTERFACE_LEN as u64 {
        return Err(HelperError::NameLength);
    }
    let n: usize = length as usize;
    if bytes.len() < 10 + n {
        return Err(HelperError::CutShort);
    }
    let interface = copy_range(bytes, 10, 10 + n);
    if !crate::text::is_utf8(interface.as_slice()) {
        return Err(HelperError::NotText);
    }
    if bytes.len() < 16 + n {
        return Err(HelperError::CutShort);
    }
    let mac: [u8; 6] = [
        bytes[10 + n],
        bytes[11 + n],
        bytes[12 + n],
        bytes[13 + n],
        bytes[14 + n],
        bytes[15 + n],
    ];
    assert(mac@ =~= bytes@.subrange(10 + n as int, 16 + n as int));
    let zero: [u8; 6] = [0, 0, 0, 0, 0, 0];
    assert(zero@ =~= Seq::new(6, |i: int| 0u8));
    let guest_mac = if same_bytes(&mac, &zero) {
        None
    } else {
        Some(mac)
    };
    Ok(HelperRequest { interface, guest_mac })
}

/// A request reads back: the fields of what was written are where they are
/// read.
pub proof fn law_requests_read_back(interface: Seq<u8>, mac: Seq<u8>)
    requires
        0 < interface.len() <= MAX_INTERFACE_LEN,
        mac.len() == 6,
    ensures
        ({
            let bytes = helper_image(interface, mac);
            &&& bytes.len() == 16 + interface.len()
            &&& bytes.subrange(0, 8) == HELPER_MAGIC@
            &&& be_value(bytes.subrange(8, 10)) == interface.len()
            &&& bytes.subrange(10, 10 + interface.len() as int) == interface
            &&& bytes.subrange(10 + interface.len() as int, 16 + interface.len() as int) == mac
        }),
{
    crate::bytes::lemma_byte_range();
    crate::bytes::lemma_be_reads_back(interface.len(), 2);
    let bytes = helper_image(interface, mac);
    assert(bytes.subrange(0, 8) =~= HELPER_MAGIC@);
    assert(bytes.subrange(8, 10) =~= be(interface.len(), 2));
    assert(bytes.subrange(10, 10 + interface.len() as int) =~= interface);
    assert(bytes.subrange(10 + interface.len() as int, 16 + interface.len() as int) =~= mac);
}

/// The station that an adapter filters for at first. A card that has not
/// revealed its address gets a placeholder that no station has, which leaves
/// only groups.
pub fn initial_filter(guest_mac: Option<[u8; 6]>) -> (r: [u8; 6])
    ensures
        r@ == (match guest_mac {
            Some(mac) => mac@,
            None => Seq::new(6, |i: int| 0u8),
        }),
{
    match guest_mac {
        Some(mac) => mac,
        None => {
            let zero: [u8; 6] = [0, 0, 0, 0, 0, 0];
            assert(zero@ =~= Seq::new(6, |i: int| 0u8));
            zero
        },
    }
}

/// The socket of a user's helper: in the runtime directory, or where that is
/// by custom.
pub fn helper_socket_path(runtime: Option<&str>, uid: u32) -> (r: HostPath)
    ensures
        r@ == (match runtime {
            Some(dir) => route_of(dir@).join(route_of("copperline-net-helper"@)).join(
                route_of("control.sock"@),
            ),
            None => route_of(
                "/run/user/"@ + decimal(uid as nat) + "/copperline-net-helper/control.sock"@,
            ),
        }),
{
    match runtime {
        Some(dir) => HostPath::parse(dir).child("copperline-net-helper").child("control.sock"),
        None => {
            let mut text: Vec<char> = Vec::new();
            push_text(&mut text, "/run/user/");
            push_decimal(&mut text, uid as u64);
            push_text(&mut text, "/copperline-net-helper/control.sock");
            assert(text@ =~= "/run/user/"@ + decimal(uid as nat)
                + "/copperline-net-helper/control.sock"@);
            let path = text_of(text.as_slice());
            HostPath::parse(path.as_str())
        },
    }
}

/// Whether the service manager handed this process its listening socket: it
/// names the process, and one socket.
pub fn systemd_listener_available(
    listen_pid: Option<&str>,
    listen_fds: Option<&str>,
    pid: u32,
) -> (r: bool)
    ensures
        r == ((listen_pid matches Some(text) && number_of(text@, u32::MAX as nat) == Some(
            pid as nat,
        )) && (listen_fds matches Some(count) && count@ == "1"@)),
{
    let named = match listen_pid {
        Some(text) => match parse_u32(text) {
            Some(n) => n == pid,
            None => false,
        },
        None => false,
    };
    let one = match listen_fds {
        Some(count) => spells(chars_of(count).as_slice(), "1"),
        None => false,
    };
    named && one
}

} // verus!
