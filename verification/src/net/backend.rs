//! The backends a card can be given, and how they are named.
use std::collections::VecDeque;
use vstd::prelude::*;
use crate::bytes::copy_range;
use crate::net::bridge::BridgeBackend;
use crate::text::{chars_of, lowered, spells, text_of, to_lower, trim, trimmed};

verus! {

/// A host networking backend an emulated card sends and receives frames
/// through.
pub trait NetBackend {
    /// Transmit one Ethernet frame from the guest to the network.
    fn send(&mut self, frame: &[u8]);

    /// The next inbound Ethernet frame for the guest, if any.
    fn poll(&mut self) -> Option<Vec<u8>>;

    /// Update the station address a backend's receive filter uses.
    fn set_guest_mac(&mut self, mac: [u8; 6]);
}

/// Which host backend a board uses.
#[derive(Clone, Debug, PartialEq, Eq)]
pub enum NetConfig {
    /// No connectivity: transmits are dropped, nothing is ever received.
    Isolated,
    /// Transmitted frames come straight back.
    Loopback,
    /// A virtual gateway carries the guest's IPv4 over ordinary host sockets.
    Nat,
    /// Direct attachment to a host adapter, named as the platform names it.
    Bridge { interface: String },
}

impl Default for NetConfig {
    fn default() -> (r: NetConfig)
        ensures
            r == NetConfig::Isolated,
    {
        NetConfig::Isolated
    }
}

/// Why a backend is refused.
#[derive(Clone, Copy, Debug, PartialEq, Eq, Structural)]
pub enum NetError {
    /// Not the name of a backend.
    UnknownBackend,
    /// A bridge needs the name of its adapter.
    NeedsInterface,
    /// This build has no bridge.
    NoBridge,
}

/// The frames of a queue.
pub open spec fn frames(queue: Seq<Vec<u8>>) -> Seq<Seq<u8>> {
    queue.map_values(|f: Vec<u8>| f@)
}

/// Put a copy of a frame at the end of a queue.
pub fn enqueue_copy(queue: &mut VecDeque<Vec<u8>>, frame: &[u8])
    ensures
        frames(final(queue)@) == frames(old(queue)@).push(frame@),
        final(queue)@.len() == old(queue)@.len() + 1,
{
    let ghost before = queue@;
    let copy = copy_range(frame, 0, frame.len());
    assert(copy@ =~= frame@);
    queue.push_back(copy);
    assert(frames(queue@) =~= frames(before).push(frame@));
}

/// Take the frame at the front of a queue.
pub fn dequeue(queue: &mut VecDeque<Vec<u8>>) -> (r: Option<Vec<u8>>)
    ensures
        match r {
            Some(frame) => frames(old(queue)@).len() > 0 && frame@ == frames(old(queue)@)[0]
                && frames(final(queue)@) == frames(old(queue)@).drop_first(),
            None => old(queue)@.len() == 0 && final(queue)@ == old(queue)@,
        },
{
    let ghost before = queue@;
    let r = queue.pop_front();
    if r.is_some() {
        assert(frames(queue@) =~= frames(before).drop_first());
    }
    r
}

/// What happens to a queue of frames: one is put in, or the next is asked for.
pub enum Crossing {
    In(Seq<u8>),
    Out,
}

/// Whether a queue has room for another frame.
pub open spec fn has_room(waiting: Seq<Seq<u8>>, capacity: Option<int>) -> bool {
    capacity matches Some(n) ==> waiting.len() < n
}

/// What waits in a queue after some crossings, the frames it took, and those it
/// gave. A queue that is full loses what is put in.
pub open spec fn crossed(
    waiting: Seq<Seq<u8>>,
    capacity: Option<int>,
    crossings: Seq<Crossing>,
) -> (Seq<Seq<u8>>, Seq<Seq<u8>>, Seq<Seq<u8>>)
    decreases crossings.len(),
{
    if crossings.len() == 0 {
        (waiting, Seq::empty(), Seq::empty())
    } else {
        let (held, taken, given) = crossed(waiting, capacity, crossings.drop_last());
        match crossings.last() {
            Crossing::In(frame) => if has_room(held, capacity) {
                (held.push(frame), taken.push(frame), given)
            } else {
                (held, taken, given)
            },
            Crossing::Out => if held.len() > 0 {
                (held.drop_first(), taken, given.push(held[0]))
            } else {
                (held, taken, given)
            },
        }
    }
}

/// The frames that were put in.
pub open spec fn put_in(crossings: Seq<Crossing>) -> Seq<Seq<u8>>
    decreases crossings.len(),
{
    if crossings.len() == 0 {
        Seq::empty()
    } else {
        match crossings.last() {
            Crossing::In(frame) => put_in(crossings.drop_last()).push(frame),
            Crossing::Out => put_in(crossings.drop_last()),
        }
    }
}

/// Frames cross in order, each once: what a queue gave, and what still waits in
/// it, are what waited at first and what it took. A queue without a limit takes
/// every frame.
pub proof fn law_frames_cross_in_order(
    waiting: Seq<Seq<u8>>,
    capacity: Option<int>,
    crossings: Seq<Crossing>,
)
    ensures
        ({
            let (left, taken, given) = crossed(waiting, capacity, crossings);
            &&& given + left == waiting + taken
            &&& capacity is None ==> taken == put_in(crossings)
        }),
    decreases crossings.len(),
{
    let none = Seq::<Seq<u8>>::empty();
    if crossings.len() == 0 {
        assert(none + waiting =~= waiting + none);
    } else {
        law_frames_cross_in_order(waiting, capacity, crossings.drop_last());
        let (held, taken, given) = crossed(waiting, capacity, crossings.drop_last());
        match crossings.last() {
            Crossing::In(frame) => {
                assert(given + held.push(frame) =~= (given + held).push(frame));
                assert(waiting + taken.push(frame) =~= (waiting + taken).push(frame));
            },
            Crossing::Out => {
                if held.len() > 0 {
                    assert(given.push(held[0]) + held.drop_first() =~= given + held);
                }
            },
        }
    }
}

/// A backend that queues each transmitted frame straight back for receipt.
pub struct LoopbackBackend {
    pub queue: VecDeque<Vec<u8>>,
}

impl LoopbackBackend {
    pub open spec fn waiting(self) -> Seq<Seq<u8>> {
        frames(self.queue@)
    }
}

impl Default for LoopbackBackend {
    fn default() -> (r: LoopbackBackend)
        ensures
            r.waiting() == Seq::<Seq<u8>>::empty(),
    {
        let r = LoopbackBackend { queue: VecDeque::new() };
        assert(r.waiting() =~= Seq::empty());
        r
    }
}

impl NetBackend for LoopbackBackend {
    fn send(&mut self, frame: &[u8])
        ensures
            final(self).waiting() == old(self).waiting().push(frame@),
    {
        enqueue_copy(&mut self.queue, frame);
    }

    fn poll(&mut self) -> (r: Option<Vec<u8>>)
        ensures
            match r {
                Some(frame) => old(self).waiting().len() > 0 && frame@ == old(self).waiting()[0]
                    && final(self).waiting() == old(self).waiting().drop_first(),
                None => old(self).waiting().len() == 0 && final(self).waiting().len() == 0,
            },
    {
        let r = dequeue(&mut self.queue);
        assert(frames(self.queue@).len() == self.queue@.len());
        r
    }

    fn set_guest_mac(&mut self, mac: [u8; 6])
        ensures
            *final(self) == *old(self),
    {
    }
}

/// Frames a card can queue toward the gateway before they are lost.
pub const TO_ENGINE_CAPACITY: usize = 256;

/// Frames the gateway can queue toward the guest before they are lost.
pub const TO_GUEST_CAPACITY: usize = 512;

/// The card's end of the gateway: frames cross in both directions over
/// bounded queues that drop on overflow, so a stalled host never stops the
/// emulator. A lost frame is ordinary Ethernet loss.
pub struct NatBackend {
    /// The gateway is running.
    pub running: bool,
    pub to_engine: VecDeque<Vec<u8>>,
    pub to_guest: VecDeque<Vec<u8>>,
}

impl NatBackend {
    pub open spec fn wf(self) -> bool {
        &&& self.to_engine@.len() <= TO_ENGINE_CAPACITY
        &&& self.to_guest@.len() <= TO_GUEST_CAPACITY
        &&& !self.running ==> self.to_engine@.len() == 0
    }

    pub fn new(running: bool) -> (r: NatBackend)
        ensures
            r.wf(),
            r.running == running,
            r.to_engine@.len() == 0,
            r.to_guest@.len() == 0,
    {
        NatBackend { running, to_engine: VecDeque::new(), to_guest: VecDeque::new() }
    }

    /// Transmit one frame; a full queue loses it.
    pub fn transmit(&mut self, frame: &[u8])
        requires
            old(self).wf(),
        ensures
            final(self).wf(),
            frames(final(self).to_engine@) == (if old(self).running && old(self).to_engine@.len()
                < 256 {
                frames(old(self).to_engine@).push(frame@)
            } else {
                frames(old(self).to_engine@)
            }),
            *final(self) == (NatBackend { to_engine: final(self).to_engine, ..*old(self) }),
    {
        if self.running && self.to_engine.len() < TO_ENGINE_CAPACITY {
            enqueue_copy(&mut self.to_engine, frame);
        }
    }

    /// The next frame for the guest.
    pub fn receive(&mut self) -> (r: Option<Vec<u8>>)
        requires
            old(self).wf(),
        ensures
            final(self).wf(),
            *final(self) == (NatBackend { to_guest: final(self).to_guest, ..*old(self) }),
            match r {
                Some(frame) => old(self).to_guest@.len() > 0 && frame@ == frames(
                    old(self).to_guest@,
                )[0] && frames(final(self).to_guest@) == frames(old(self).to_guest@).drop_first(),
                None => old(self).to_guest@.len() == 0 && final(self).to_guest@ == old(
                    self,
                ).to_guest@,
            },
    {
        let r = dequeue(&mut self.to_guest);
        assert(frames(self.to_guest@).len() == self.to_guest@.len());
        r
    }

    /// The next frame for the gateway.
    pub fn take_outbound(&mut self) -> (r: Option<Vec<u8>>)
        requires
            old(self).wf(),
        ensures
            final(self).wf(),
            *final(self) == (NatBackend { to_engine: final(self).to_engine, ..*old(self) }),
            match r {
                Some(frame) => old(self).to_engine@.len() > 0 && frame@ == frames(
                    old(self).to_engine@,
                )[0] && frames(final(self).to_engine@) == frames(
                    old(self).to_engine@,
                ).drop_first(),
                None => old(self).to_engine@.len() == 0 && final(self).to_engine@ == old(
                    self,
                ).to_engine@,
            },
    {
        let r = dequeue(&mut self.to_engine);
        assert(frames(self.to_engine@).len() == self.to_engine@.len());
        r
    }

    /// Hand a frame to the guest. Returns whether there was room; where there
    /// was none, the rest of a batch is dropped with it.
    pub fn deliver(&mut self, frame: &[u8]) -> (r: bool)
        requires
            old(self).wf(),
        ensures
            final(self).wf(),
            r == (old(self).to_guest@.len() < 512),
            frames(final(self).to_guest@) == (if r {
                frames(old(self).to_guest@).push(frame@)
            } else {
                frames(old(self).to_guest@)
            }),
            *final(self) == (NatBackend { to_guest: final(self).to_guest, ..*old(self) }),
    {
        if self.to_guest.len() >= TO_GUEST_CAPACITY {
            return false;
        }
        enqueue_copy(&mut self.to_guest, frame);
        true
    }
}

/// The live backends a configuration brings up.
pub enum Backend {
    Loopback(LoopbackBackend),
    Nat(NatBackend),
    Bridge(BridgeBackend),
}

impl Backend {
    pub open spec fn wf(self) -> bool {
        match self {
            Backend::Loopback(_) => true,
            Backend::Nat(nat_end) => nat_end.wf(),
            Backend::Bridge(bridge) => bridge.wf(),
        }
    }

    /// Transmit one frame.
    pub fn send(&mut self, frame: &[u8])
        requires
            old(self).wf(),
        ensures
            final(self).wf(),
            match *old(self) {
                Backend::Loopback(b) => *final(self) matches Backend::Loopback(after)
                    && after.waiting() == b.waiting().push(frame@),
                Backend::Nat(b) => *final(self) matches Backend::Nat(after) && frames(
                    after.to_engine@,
                ) == (if b.running && b.to_engine@.len() < 256 {
                    frames(b.to_engine@).push(frame@)
                } else {
                    frames(b.to_engine@)
                }) && after == (NatBackend { to_engine: after.to_engine, ..b }),
                Backend::Bridge(b) => *final(self) matches Backend::Bridge(after) && b.transmits(
                    frame@,
                    after,
                ),
            },
    {
        match self {
            Backend::Loopback(b) => b.send(frame),
            Backend::Nat(b) => b.transmit(frame),
            Backend::Bridge(b) => b.transmit(frame),
        }
    }

    /// The next inbound frame.
    pub fn poll(&mut self) -> (r: Option<Vec<u8>>)
        requires
            old(self).wf(),
        ensures
            final(self).wf(),
            ({
                let waiting = old(self).waiting();
                match r {
                    Some(frame) => waiting.len() > 0 && frame@ == waiting[0]
                        && final(self).waiting() == waiting.drop_first(),
                    None => waiting.len() == 0 && final(self).waiting() == waiting,
                }
            }),
            match *old(self) {
                Backend::Loopback(_) => *final(self) is Loopback,
                Backend::Nat(b) => *final(self) matches Backend::Nat(after) && after == (
                NatBackend { to_guest: after.to_guest, ..b }),
                Backend::Bridge(b) => *final(self) matches Backend::Bridge(after) && after == (
                BridgeBackend { to_guest: after.to_guest, ..b }),
            },
    {
        match self {
            Backend::Loopback(b) => b.poll(),
            Backend::Nat(b) => b.receive(),
            Backend::Bridge(b) => b.receive(),
        }
    }

    /// The frames waiting for the guest.
    pub open spec fn waiting(self) -> Seq<Seq<u8>> {
        match self {
            Backend::Loopback(b) => b.waiting(),
            Backend::Nat(b) => frames(b.to_guest@),
            Backend::Bridge(b) => frames(b.to_guest@),
        }
    }
}

/// What the host can bring up.
#[derive(Clone, Copy, Debug, PartialEq, Eq, Structural)]
pub struct Available {
    /// The build has the gateway.
    pub gateway: bool,
    /// The build has a bridge.
    pub bridge: bool,
}

/// Bring up the backend a configuration names; none where the board is
/// isolated. A missing gateway leaves the card isolated, but a bridge is an
/// explicit request for a host resource: its absence is an error, and never
/// silently changes what the network means.
pub fn make_backend(
    cfg: &NetConfig,
    guest_mac: Option<[u8; 6]>,
    available: Available,
) -> (r: Result<Option<Backend>, NetError>)
    ensures
        match *cfg {
            NetConfig::Isolated => r matches Ok(None),
            NetConfig::Loopback => r matches Ok(Some(Backend::Loopback(b))) && b.waiting().len()
                == 0,
            NetConfig::Nat => if available.gateway {
                r matches Ok(Some(Backend::Nat(b))) && b.wf() && b.running && b.to_engine@.len()
                    == 0 && b.to_guest@.len() == 0
            } else {
                r matches Ok(None)
            },
            NetConfig::Bridge { interface } => if available.bridge {
                r matches Ok(Some(Backend::Bridge(b))) && b.wf() && b.running && b.guest_mac
                    == guest_mac
                    && b.to_adapter@.len() == 0 && b.to_guest@.len() == 0
            } else {
                r matches Err(NetError::NoBridge)
            },
        },
{
    match cfg {
        NetConfig::Isolated => Ok(None),
        NetConfig::Loopback => Ok(Some(Backend::Loopback(LoopbackBackend::default()))),
        NetConfig::Nat => {
            if available.gateway {
                Ok(Some(Backend::Nat(NatBackend::new(true))))
            } else {
                Ok(None)
            }
        },
        NetConfig::Bridge { .. } => {
            if available.bridge {
                Ok(Some(Backend::Bridge(BridgeBackend::new(guest_mac))))
            } else {
                Err(NetError::NoBridge)
            }
        },
    }
}

/// The backend a configuration word names.
pub open spec fn config_of(s: Seq<char>, interface: Option<Seq<char>>) -> Result<
    NetConfigView,
    NetError,
> {
    let word = lowered(trimmed(s));
    if word == "none"@ || word == "off"@ || word == ""@ {
        Ok(NetConfigView::Isolated)
    } else if word == "loopback"@ || word == "loop"@ {
        Ok(NetConfigView::Loopback)
    } else if word == "nat"@ {
        Ok(NetConfigView::Nat)
    } else if word == "bridge"@ || word == "bridged"@ {
        match interface {
            Some(name) if trimmed(name).len() > 0 => Ok(
                NetConfigView::Bridge { interface: trimmed(name) },
            ),
            _ => Err(NetError::NeedsInterface),
        }
    } else {
        Err(NetError::UnknownBackend)
    }
}

/// What a configuration says.
pub enum NetConfigView {
    Isolated,
    Loopback,
    Nat,
    Bridge { interface: Seq<char> },
}

impl View for NetConfig {
    type V = NetConfigView;

    open spec fn view(&self) -> NetConfigView {
        match *self {
            NetConfig::Isolated => NetConfigView::Isolated,
            NetConfig::Loopback => NetConfigView::Loopback,
            NetConfig::Nat => NetConfigView::Nat,
            NetConfig::Bridge { interface } => NetConfigView::Bridge { interface: interface@ },
        }
    }
}

/// Read a backend's name. A bridge needs its adapter's name beside it.
pub fn parse_net_config(s: &str, interface: Option<&str>) -> (r: Result<NetConfig, NetError>)
    ensures
        ({
            let named = match interface {
                Some(name) => Some(name@),
                None => None,
            };
            match r {
                Ok(cfg) => config_of(s@, named) == Ok::<NetConfigView, NetError>(cfg@),
                Err(e) => config_of(s@, named) == Err::<NetConfigView, NetError>(e),
            }
        }),
{
    let chars = chars_of(s);
    let bare = trim(chars.as_slice());
    let word = to_lower(bare.as_slice());
    if spells(word.as_slice(), "none") || spells(word.as_slice(), "off") || spells(
        word.as_slice(),
        "",
    ) {
        return Ok(NetConfig::Isolated);
    }
    if spells(word.as_slice(), "loopback") || spells(word.as_slice(), "loop") {
        return Ok(NetConfig::Loopback);
    }
    if spells(word.as_slice(), "nat") {
        return Ok(NetConfig::Nat);
    }
    if spells(word.as_slice(), "bridge") || spells(word.as_slice(), "bridged") {
        return match interface {
            Some(name) => {
                let chars = chars_of(name);
                let bare = trim(chars.as_slice());
                if bare.len() == 0 {
                    Err(NetError::NeedsInterface)
                } else {
                    Ok(NetConfig::Bridge { interface: text_of(bare.as_slice()) })
                }
            },
            None => Err(NetError::NeedsInterface),
        };
    }
    Err(NetError::UnknownBackend)
}

/// The canonical name of a backend.
pub open spec fn config_name(cfg: NetConfigView) -> Seq<char> {
    match cfg {
        NetConfigView::Isolated => "none"@,
        NetConfigView::Loopback => "loopback"@,
        NetConfigView::Nat => "nat"@,
        NetConfigView::Bridge { .. } => "bridge"@,
    }
}

pub fn net_config_name(cfg: &NetConfig) -> (r: &'static str)
    ensures
        r@ == config_name(cfg@),
{
    match cfg {
        NetConfig::Isolated => "none",
        NetConfig::Loopback => "loopback",
        NetConfig::Nat => "nat",
        NetConfig::Bridge { .. } => "bridge",
    }
}

/// The canonical name is the inverse of reading one: every configuration is
/// read back from its name and its adapter's name, where that has no white
/// space around it and is not empty.
pub proof fn law_names_read_back(cfg: NetConfigView)
    requires
        cfg matches NetConfigView::Bridge { interface } ==> interface.len() > 0 && trimmed(
            interface,
        ) == interface,
    ensures
        config_of(
            config_name(cfg),
            match cfg {
                NetConfigView::Bridge { interface } => Some(interface),
                _ => None,
            },
        ) == Ok::<NetConfigView, NetError>(cfg),
{
    reveal_strlit("none");
    reveal_strlit("off");
    reveal_strlit("");
    reveal_strlit("loopback");
    reveal_strlit("loop");
    reveal_strlit("nat");
    reveal_strlit("bridge");
    reveal_strlit("bridged");
    let name = config_name(cfg);
    assert(lowered(name) =~= name);
    assert(trimmed(name) == name);
    match cfg {
        NetConfigView::Nat => {
            assert(name[0] == 'n' && name[1] == 'a');
            assert("none"@[1] == 'o');
        },
        NetConfigView::Bridge { .. } => {
            assert(name[0] == 'b');
            assert("none"@[0] == 'n');
            assert("off"@[0] == 'o');
            assert("loopback"@[0] == 'l');
            assert("loop"@[0] == 'l');
            assert("nat"@[0] == 'n');
        },
        NetConfigView::Loopback => {
            assert(name[0] == 'l');
            assert("none"@[0] == 'n');
            assert("off"@[0] == 'o');
        },
        NetConfigView::Isolated => {},
    }
}

} // verus!
