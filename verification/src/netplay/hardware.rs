//! What one frame's inputs do to the machine's ports and keyboard.
use vstd::prelude::*;
use crate::bits::{bit16, bit8};
use crate::netplay::input::{key_held, merged, Input};

verus! {

/// The first port that only the four-player adapter's sockets have. They
/// carry switch joysticks and no mice.
pub const PARALLEL_PORT_FIRST: usize = 2;

/// One change of the machine's input hardware.
#[derive(Clone, Copy, Debug, PartialEq, Eq, Structural)]
pub enum HardwareEvent {
    MouseMotion { port: usize, dx: i32, dy: i32 },
    MouseButton { port: usize, button: u8, pressed: bool },
    /// Up, down, left, right and the two fire buttons.
    Joystick {
        port: usize,
        up: bool,
        down: bool,
        left: bool,
        right: bool,
        fire: bool,
        second: bool,
    },
    /// The five buttons that only a CD32 pad has.
    Cd32Pad {
        port: usize,
        play: bool,
        reverse: bool,
        forward: bool,
        green: bool,
        yellow: bool,
    },
    Key { key: u8, pressed: bool },
}

/// What a port's device is told. A mouse takes motion and buttons: a digital
/// controller update must not replace the device plugged into its port.
pub open spec fn port_events(port: usize, input: Input, mouse: bool) -> Seq<HardwareEvent> {
    if mouse && port < PARALLEL_PORT_FIRST {
        seq![
            HardwareEvent::MouseMotion {
                port,
                dx: input.mouse_dx as i32,
                dy: input.mouse_dy as i32,
            },
            HardwareEvent::MouseButton { port, button: 0, pressed: bit8(input.mouse_buttons, 0) },
            HardwareEvent::MouseButton { port, button: 1, pressed: bit8(input.mouse_buttons, 1) },
            HardwareEvent::MouseButton { port, button: 2, pressed: bit8(input.mouse_buttons, 2) },
        ]
    } else {
        seq![
            HardwareEvent::Joystick {
                port,
                up: bit16(input.buttons, 0),
                down: bit16(input.buttons, 1),
                left: bit16(input.buttons, 2),
                right: bit16(input.buttons, 3),
                fire: bit16(input.buttons, 4),
                second: bit16(input.buttons, 5),
            },
            HardwareEvent::Cd32Pad {
                port,
                play: bit16(input.buttons, 6),
                reverse: bit16(input.buttons, 7),
                forward: bit16(input.buttons, 8),
                green: bit16(input.buttons, 9),
                yellow: bit16(input.buttons, 10),
            },
        ]
    }
}

/// The first `n` ports, in order.
pub open spec fn ports_events(inputs: Seq<Input>, mice: Seq<bool>, n: int) -> Seq<HardwareEvent>
    decreases n,
{
    if n <= 0 {
        Seq::empty()
    } else {
        ports_events(inputs, mice, n - 1) + port_events(
            (n - 1) as usize,
            inputs[n - 1],
            mice[n - 1],
        )
    }
}

/// Whether a key went down or up between two frames.
pub open spec fn key_changed(keys: Seq<u8>, previous: Seq<u8>, key: int) -> bool {
    key_held(keys, key) != key_held(previous, key)
}

/// The changes among the first `n` keys, in key order.
pub open spec fn key_events(keys: Seq<u8>, previous: Seq<u8>, n: int) -> Seq<HardwareEvent>
    decreases n,
{
    if n <= 0 {
        Seq::empty()
    } else if key_changed(keys, previous, n - 1) {
        key_events(keys, previous, n - 1).push(
            HardwareEvent::Key { key: (n - 1) as u8, pressed: key_held(keys, n - 1) },
        )
    } else {
        key_events(keys, previous, n - 1)
    }
}

/// A whole frame: every port, then the keys that changed.
pub open spec fn frame_events(
    inputs: Seq<Input>,
    mice: Seq<bool>,
    previous_keys: Seq<u8>,
) -> Seq<HardwareEvent> {
    ports_events(inputs, mice, inputs.len() as int) + key_events(
        merged(inputs),
        previous_keys,
        128,
    )
}

fn on8(b: u8, i: u8) -> (r: bool)
    requires
        i < 8,
    ensures
        r == bit8(b, i),
{
    (b >> i) & 1u8 == 1u8
}

fn on16(w: u16, i: u16) -> (r: bool)
    requires
        i < 16,
    ensures
        r == bit16(w, i),
{
    (w >> i) & 1u16 == 1u16
}

fn push_port(out: &mut Vec<HardwareEvent>, port: usize, input: &Input, mouse: bool)
    ensures
        final(out)@ == old(out)@ + port_events(port, *input, mouse),
{
    let ghost before = out@;
    if mouse && port < PARALLEL_PORT_FIRST {
        out.push(
            HardwareEvent::MouseMotion {
                port,
                dx: input.mouse_dx as i32,
                dy: input.mouse_dy as i32,
            },
        );
        out.push(
            HardwareEvent::MouseButton { port, button: 0, pressed: on8(input.mouse_buttons, 0) },
        );
        out.push(
            HardwareEvent::MouseButton { port, button: 1, pressed: on8(input.mouse_buttons, 1) },
        );
        out.push(
            HardwareEvent::MouseButton { port, button: 2, pressed: on8(input.mouse_buttons, 2) },
        );
    } else {
        let b: u16 = input.buttons;
        out.push(
            HardwareEvent::Joystick {
                port,
                up: on16(b, 0),
                down: on16(b, 1),
                left: on16(b, 2),
                right: on16(b, 3),
                fire: on16(b, 4),
                second: on16(b, 5),
            },
        );
        out.push(
            HardwareEvent::Cd32Pad {
                port,
                play: on16(b, 6),
                reverse: on16(b, 7),
                forward: on16(b, 8),
                green: on16(b, 9),
                yellow: on16(b, 10),
            },
        );
    }
    assert(out@ =~= before + port_events(port, *input, mouse));
}

/// What a frame's inputs do to the hardware, in the order in which it is
/// done. `mice` says which ports a mouse is plugged into.
pub fn hardware_events(inputs: &[Input], mice: &[bool], previous_keys: [u8; 16]) -> (r: Vec<
    HardwareEvent,
>)
    requires
        mice@.len() >= inputs@.len(),
    ensures
        r@ == frame_events(inputs@, mice@, previous_keys@),
{
    let mut out: Vec<HardwareEvent> = Vec::new();
    let mut port: usize = 0;
    while port < inputs.len()
        invariant
            port <= inputs@.len() <= mice@.len(),
            out@ == ports_events(inputs@, mice@, port as int),
        decreases inputs@.len() - port,
    {
        push_port(&mut out, port, &inputs[port], mice[port]);
        port += 1;
    }
    let ghost ports = out@;
    let keys = Input::merged_keys(inputs);
    let mut key: u8 = 0;
    while key < 128
        invariant
            key <= 128,
            keys@ == merged(inputs@),
            out@ =~= ports + key_events(keys@, previous_keys@, key as int),
        decreases 128 - key,
    {
        let index: usize = (key / 8) as usize;
        let pressed: bool = on8(keys[index], key % 8);
        let ghost before = out@;
        proof {
            assert(key_held(keys@, key as int) == pressed);
        }
        if pressed != on8(previous_keys[index], key % 8) {
            assert(key_changed(keys@, previous_keys@, key as int));
            out.push(HardwareEvent::Key { key, pressed });
        } else {
            assert(!key_changed(keys@, previous_keys@, key as int));
        }
        key += 1;
    }
    out
}

/// A key is reported exactly when it changed, with its new state: replaying
/// the reports on the previous keys gives the merged keys of the frame.
pub proof fn law_key_reports_are_complete(keys: Seq<u8>, previous: Seq<u8>, n: int, key: int)
    requires
        0 <= key < n <= 128,
    ensures
        key_events(keys, previous, n).contains(
            HardwareEvent::Key { key: key as u8, pressed: key_held(keys, key) },
        ) <==> key_held(keys, key) != key_held(previous, key),
        !key_events(keys, previous, n).contains(
            HardwareEvent::Key { key: key as u8, pressed: !key_held(keys, key) },
        ),
    decreases n,
{
    let news = HardwareEvent::Key { key: key as u8, pressed: key_held(keys, key) };
    let wrong = HardwareEvent::Key { key: key as u8, pressed: !key_held(keys, key) };
    let rest = key_events(keys, previous, n - 1);
    if key < n - 1 {
        law_key_reports_are_complete(keys, previous, n - 1, key);
    } else {
        lemma_later_keys_are_absent(keys, previous, n - 1, key);
        assert(!rest.contains(news));
    }
    assert(!rest.contains(wrong));
    let all = key_events(keys, previous, n);
    if key_changed(keys, previous, n - 1) {
        assert(all.drop_last() =~= rest);
        assert(all.last() == HardwareEvent::Key {
            key: (n - 1) as u8,
            pressed: key_held(keys, n - 1),
        });
        if rest.contains(news) {
            let i = choose|i: int| 0 <= i < rest.len() && rest[i] == news;
            assert(all[i] == news);
        }
        if all.contains(news) && all.last() != news {
            let i = choose|i: int| 0 <= i < all.len() && all[i] == news;
            assert(rest[i] == news);
        }
        if all.contains(wrong) {
            let i = choose|i: int| 0 <= i < all.len() && all[i] == wrong;
            if i < rest.len() {
                assert(rest[i] == wrong);
            }
        }
        if key == n - 1 {
            assert(all[all.len() - 1] == news);
        }
    }
}

proof fn lemma_later_keys_are_absent(keys: Seq<u8>, previous: Seq<u8>, n: int, key: int)
    requires
        0 <= n <= key < 128,
    ensures
        forall|pressed: bool|
            !#[trigger] key_events(keys, previous, n).contains(
                HardwareEvent::Key { key: key as u8, pressed },
            ),
    decreases n,
{
    if n > 0 {
        lemma_later_keys_are_absent(keys, previous, n - 1, key);
        let rest = key_events(keys, previous, n - 1);
        let all = key_events(keys, previous, n);
        assert forall|pressed: bool| !#[trigger] all.contains(
            HardwareEvent::Key { key: key as u8, pressed },
        ) by {
            let e = HardwareEvent::Key { key: key as u8, pressed };
            assert(!rest.contains(e));
            if all.contains(e) {
                let i = choose|i: int| 0 <= i < all.len() && all[i] == e;
                if i < rest.len() {
                    assert(rest[i] == e);
                }
            }
        }
    }
}

/// The event of a port at its place among the events of a frame.
proof fn lemma_port_events_stand(inputs: Seq<Input>, mice: Seq<bool>, n: int, port: int, k: int)
    requires
        0 <= port < n <= inputs.len(),
        n <= usize::MAX,
        0 <= k < port_events(port as usize, inputs[port], mice[port]).len(),
    ensures
        ports_events(inputs, mice, n).contains(
            port_events(port as usize, inputs[port], mice[port])[k],
        ),
    decreases n,
{
    let e = port_events(port as usize, inputs[port], mice[port])[k];
    let rest = ports_events(inputs, mice, n - 1);
    let all = ports_events(inputs, mice, n);
    if port == n - 1 {
        assert(all[rest.len() + k] == e);
    } else {
        lemma_port_events_stand(inputs, mice, n - 1, port, k);
        let i = choose|i: int| 0 <= i < rest.len() && rest[i] == e;
        assert(all[i] == e);
    }
}

/// The port an event tells something of; none for a key.
pub open spec fn told(e: HardwareEvent) -> Option<usize> {
    match e {
        HardwareEvent::MouseMotion { port, .. } => Some(port),
        HardwareEvent::MouseButton { port, .. } => Some(port),
        HardwareEvent::Joystick { port, .. } => Some(port),
        HardwareEvent::Cd32Pad { port, .. } => Some(port),
        HardwareEvent::Key { .. } => None,
    }
}

/// Whatever a frame tells a port is among that port's own events.
proof fn lemma_ports_hear_their_own(
    inputs: Seq<Input>,
    mice: Seq<bool>,
    n: int,
    port: int,
    e: HardwareEvent,
)
    requires
        0 <= n <= inputs.len(),
        0 <= port < inputs.len() <= usize::MAX,
        ports_events(inputs, mice, n).contains(e),
        told(e) == Some(port as usize),
    ensures
        port < n,
        port_events(port as usize, inputs[port], mice[port]).contains(e),
    decreases n,
{
    if n > 0 {
        let rest = ports_events(inputs, mice, n - 1);
        let own = port_events((n - 1) as usize, inputs[n - 1], mice[n - 1]);
        let all = ports_events(inputs, mice, n);
        let i = choose|i: int| 0 <= i < all.len() && all[i] == e;
        if i < rest.len() {
            assert(rest[i] == e);
            lemma_ports_hear_their_own(inputs, mice, n - 1, port, e);
        } else {
            assert(own[i - rest.len()] == e);
            assert(told(own[i - rest.len()]) == Some((n - 1) as usize));
        }
    }
}

proof fn lemma_keys_tell_no_port(keys: Seq<u8>, previous: Seq<u8>, n: int, e: HardwareEvent)
    requires
        key_events(keys, previous, n).contains(e),
    ensures
        told(e) is None,
    decreases n,
{
    let all = key_events(keys, previous, n);
    let i = choose|i: int| 0 <= i < all.len() && all[i] == e;
    let rest = key_events(keys, previous, n - 1);
    if n > 0 && i < rest.len() {
        assert(rest[i] == e);
        lemma_keys_tell_no_port(keys, previous, n - 1, e);
    }
}

proof fn lemma_switches(port: usize, input: Input, mouse: bool, held: Seq<bool>, pad: Seq<bool>)
    requires
        port >= 2 || !mouse,
        held.len() == 6,
        pad.len() == 5,
        held[0] == (input.buttons / 1 % 2 == 1),
        held[1] == (input.buttons / 2 % 2 == 1),
        held[2] == (input.buttons / 4 % 2 == 1),
        held[3] == (input.buttons / 8 % 2 == 1),
        held[4] == (input.buttons / 16 % 2 == 1),
        held[5] == (input.buttons / 32 % 2 == 1),
        pad[0] == (input.buttons / 64 % 2 == 1),
        pad[1] == (input.buttons / 128 % 2 == 1),
        pad[2] == (input.buttons / 256 % 2 == 1),
        pad[3] == (input.buttons / 512 % 2 == 1),
        pad[4] == (input.buttons / 1024 % 2 == 1),
    ensures
        port_events(port, input, mouse) == seq![
            HardwareEvent::Joystick {
                port,
                up: held[0],
                down: held[1],
                left: held[2],
                right: held[3],
                fire: held[4],
                second: held[5],
            },
            HardwareEvent::Cd32Pad {
                port,
                play: pad[0],
                reverse: pad[1],
                forward: pad[2],
                green: pad[3],
                yellow: pad[4],
            },
        ],
{
    crate::bits::law_bits_of_a_word(input.buttons);
}

/// A joystick's switches reach its port as they are held: with up, down,
/// left, right and the two fire buttons in the low six bits of the buttons,
/// in this order, a port without a mouse is told exactly these; and with
/// play, reverse, forward, green and yellow in the five bits above, its pad
/// is told exactly those. The sockets behind the first two never hold a
/// mouse. Nothing else is told of the port.
pub proof fn law_held_switches_reach_their_port(
    inputs: Seq<Input>,
    mice: Seq<bool>,
    previous_keys: Seq<u8>,
    port: int,
    held: Seq<bool>,
    pad: Seq<bool>,
)
    requires
        0 <= port < inputs.len() <= usize::MAX,
        port >= 2 || !mice[port],
        held.len() == 6,
        pad.len() == 5,
        held[0] == (inputs[port].buttons / 1 % 2 == 1),
        held[1] == (inputs[port].buttons / 2 % 2 == 1),
        held[2] == (inputs[port].buttons / 4 % 2 == 1),
        held[3] == (inputs[port].buttons / 8 % 2 == 1),
        held[4] == (inputs[port].buttons / 16 % 2 == 1),
        held[5] == (inputs[port].buttons / 32 % 2 == 1),
        pad[0] == (inputs[port].buttons / 64 % 2 == 1),
        pad[1] == (inputs[port].buttons / 128 % 2 == 1),
        pad[2] == (inputs[port].buttons / 256 % 2 == 1),
        pad[3] == (inputs[port].buttons / 512 % 2 == 1),
        pad[4] == (inputs[port].buttons / 1024 % 2 == 1),
    ensures
        frame_events(inputs, mice, previous_keys).contains(
            HardwareEvent::Joystick {
                port: port as usize,
                up: held[0],
                down: held[1],
                left: held[2],
                right: held[3],
                fire: held[4],
                second: held[5],
            },
        ),
        frame_events(inputs, mice, previous_keys).contains(
            HardwareEvent::Cd32Pad {
                port: port as usize,
                play: pad[0],
                reverse: pad[1],
                forward: pad[2],
                green: pad[3],
                yellow: pad[4],
            },
        ),
        forall|e: HardwareEvent|
            #[trigger] frame_events(inputs, mice, previous_keys).contains(e) && told(e) == Some(
                port as usize,
            ) ==> e == (HardwareEvent::Joystick {
                port: port as usize,
                up: held[0],
                down: held[1],
                left: held[2],
                right: held[3],
                fire: held[4],
                second: held[5],
            }) || e == (HardwareEvent::Cd32Pad {
                port: port as usize,
                play: pad[0],
                reverse: pad[1],
                forward: pad[2],
                green: pad[3],
                yellow: pad[4],
            }),
{
    let own = port_events(port as usize, inputs[port], mice[port]);
    let stick = HardwareEvent::Joystick {
        port: port as usize,
        up: held[0],
        down: held[1],
        left: held[2],
        right: held[3],
        fire: held[4],
        second: held[5],
    };
    let buttons = HardwareEvent::Cd32Pad {
        port: port as usize,
        play: pad[0],
        reverse: pad[1],
        forward: pad[2],
        green: pad[3],
        yellow: pad[4],
    };
    lemma_switches(port as usize, inputs[port], mice[port], held, pad);
    lemma_frame_tells_ports(inputs, mice, previous_keys, port);
    assert(own[0] == stick && own[1] == buttons);
}

/// A frame tells a port its own events, and nothing else.
proof fn lemma_frame_tells_ports(
    inputs: Seq<Input>,
    mice: Seq<bool>,
    previous_keys: Seq<u8>,
    port: int,
)
    requires
        0 <= port < inputs.len() <= usize::MAX,
    ensures
        forall|k: int|
            #![trigger port_events(port as usize, inputs[port], mice[port])[k]]
            0 <= k < port_events(port as usize, inputs[port], mice[port]).len() ==> frame_events(
                inputs,
                mice,
                previous_keys,
            ).contains(port_events(port as usize, inputs[port], mice[port])[k]),
        forall|e: HardwareEvent|
            #[trigger] frame_events(inputs, mice, previous_keys).contains(e) && told(e) == Some(
                port as usize,
            ) ==> port_events(port as usize, inputs[port], mice[port]).contains(e),
{
    let own = port_events(port as usize, inputs[port], mice[port]);
    let ports = ports_events(inputs, mice, inputs.len() as int);
    let keys = key_events(merged(inputs), previous_keys, 128);
    let all = frame_events(inputs, mice, previous_keys);
    assert forall|k: int| #![trigger own[k]] 0 <= k < own.len() implies all.contains(own[k]) by {
        lemma_port_events_stand(inputs, mice, inputs.len() as int, port, k);
        let i = choose|i: int| 0 <= i < ports.len() && ports[i] == own[k];
        assert(all[i] == own[k]);
    }
    assert forall|e: HardwareEvent| #[trigger] all.contains(e) && told(e) == Some(
        port as usize,
    ) implies own.contains(e) by {
        let i = choose|i: int| 0 <= i < all.len() && all[i] == e;
        if i < ports.len() {
            assert(ports[i] == e);
            lemma_ports_hear_their_own(inputs, mice, inputs.len() as int, port, e);
        } else {
            assert(keys[i - ports.len()] == e);
            lemma_keys_tell_no_port(merged(inputs), previous_keys, 128, e);
        }
    }
}

/// A mouse is told how far it moved and which of its three buttons are down,
/// the left one in the lowest bit, and nothing of the switches.
pub proof fn law_a_mouse_is_told_its_motion(
    inputs: Seq<Input>,
    mice: Seq<bool>,
    previous_keys: Seq<u8>,
    port: int,
)
    requires
        0 <= port < 2,
        port < inputs.len() <= usize::MAX,
        mice[port],
    ensures
        frame_events(inputs, mice, previous_keys).contains(
            HardwareEvent::MouseMotion {
                port: port as usize,
                dx: inputs[port].mouse_dx as i32,
                dy: inputs[port].mouse_dy as i32,
            },
        ),
        frame_events(inputs, mice, previous_keys).contains(
            HardwareEvent::MouseButton {
                port: port as usize,
                button: 0,
                pressed: inputs[port].mouse_buttons % 2 == 1,
            },
        ),
        frame_events(inputs, mice, previous_keys).contains(
            HardwareEvent::MouseButton {
                port: port as usize,
                button: 1,
                pressed: inputs[port].mouse_buttons / 2 % 2 == 1,
            },
        ),
        frame_events(inputs, mice, previous_keys).contains(
            HardwareEvent::MouseButton {
                port: port as usize,
                button: 2,
                pressed: inputs[port].mouse_buttons / 4 % 2 == 1,
            },
        ),
        forall|e: HardwareEvent|
            #[trigger] frame_events(inputs, mice, previous_keys).contains(e) && told(e) == Some(
                port as usize,
            ) ==> e is MouseMotion || e is MouseButton,
{
    crate::bits::law_bits_of_a_byte(inputs[port].mouse_buttons);
    let own = port_events(port as usize, inputs[port], mice[port]);
    let all = frame_events(inputs, mice, previous_keys);
    lemma_frame_tells_ports(inputs, mice, previous_keys, port);
    assert(all.contains(own[0]) && all.contains(own[1]) && all.contains(own[2]) && all.contains(
        own[3],
    ));
}

/// A key that any player holds and nobody held before goes down; one that
/// was held and no player holds any more goes up; of no other key anything
/// is told. Key `k` is bit `k % 8` of byte `k / 8`.
pub proof fn law_keys_follow_every_player(
    inputs: Seq<Input>,
    mice: Seq<bool>,
    previous_keys: Seq<u8>,
    key: u8,
    pressed: bool,
)
    requires
        key < 128,
        inputs.len() <= usize::MAX,
    ensures
        frame_events(inputs, mice, previous_keys).contains(
            HardwareEvent::Key { key, pressed },
        ) <==> {
            &&& pressed <==> exists|p: int|
                #![trigger inputs[p]]
                0 <= p < inputs.len() && crate::bits::bit8(
                    inputs[p].keys@[(key / 8) as int],
                    key % 8,
                )
            &&& pressed != crate::bits::bit8(previous_keys[(key / 8) as int], key % 8)
        },
{
    let all = frame_events(inputs, mice, previous_keys);
    let ports = ports_events(inputs, mice, inputs.len() as int);
    let keys = key_events(merged(inputs), previous_keys, 128);
    let e = HardwareEvent::Key { key, pressed };
    crate::netplay::input::lemma_merged_key(inputs, key as int);
    law_key_reports_are_complete(merged(inputs), previous_keys, 128, key as int);
    assert forall|p: int| #![trigger inputs[p]] 0 <= p < inputs.len() implies key_held(
        inputs[p].keys@,
        key as int,
    ) == crate::bits::bit8(inputs[p].keys@[(key / 8) as int], key % 8) by {}
    if all.contains(e) {
        let i = choose|i: int| 0 <= i < all.len() && all[i] == e;
        if i < ports.len() {
            lemma_ports_tell_no_key(inputs, mice, inputs.len() as int, i);
        } else {
            assert(keys[i - ports.len()] == e);
        }
    }
    if keys.contains(e) {
        let i = choose|i: int| 0 <= i < keys.len() && keys[i] == e;
        assert(all[ports.len() + i] == e);
    }
}

proof fn lemma_ports_tell_no_key(inputs: Seq<Input>, mice: Seq<bool>, n: int, i: int)
    requires
        0 <= i < ports_events(inputs, mice, n).len(),
    ensures
        !(ports_events(inputs, mice, n)[i] is Key),
    decreases n,
{
    if n > 0 {
        let rest = ports_events(inputs, mice, n - 1);
        if i < rest.len() {
            lemma_ports_tell_no_key(inputs, mice, n - 1, i);
        }
    }
}

/// Switches that were set reach their port: where the low six bits of the
/// buttons are as a joystick holds its switches, and the five above as a pad
/// holds its own, both are told as they are held.
pub proof fn law_set_switches_reach_their_port(
    inputs: Seq<Input>,
    mice: Seq<bool>,
    previous_keys: Seq<u8>,
    port: int,
    held: Seq<bool>,
    pad: Seq<bool>,
)
    requires
        0 <= port < inputs.len() <= usize::MAX,
        port >= 2 || !mice[port],
        held.len() == 6,
        pad.len() == 5,
        forall|j: u16| j < 6 ==> #[trigger] bit16(inputs[port].buttons, j) == held[j as int],
        forall|j: u16| 6 <= j < 11 ==> #[trigger] bit16(inputs[port].buttons, j) == pad[j - 6],
    ensures
        frame_events(inputs, mice, previous_keys).contains(
            HardwareEvent::Joystick {
                port: port as usize,
                up: held[0],
                down: held[1],
                left: held[2],
                right: held[3],
                fire: held[4],
                second: held[5],
            },
        ),
        frame_events(inputs, mice, previous_keys).contains(
            HardwareEvent::Cd32Pad {
                port: port as usize,
                play: pad[0],
                reverse: pad[1],
                forward: pad[2],
                green: pad[3],
                yellow: pad[4],
            },
        ),
{
    let b = inputs[port].buttons;
    crate::bits::law_bits_of_a_word(b);
    assert(bit16(b, 0) == held[0] && bit16(b, 1) == held[1] && bit16(b, 2) == held[2] && bit16(b, 3)
        == held[3] && bit16(b, 4) == held[4] && bit16(b, 5) == held[5]);
    assert(bit16(b, 6) == pad[0] && bit16(b, 7) == pad[1] && bit16(b, 8) == pad[2] && bit16(b, 9)
        == pad[3] && bit16(b, 10) == pad[4]);
    law_held_switches_reach_their_port(inputs, mice, previous_keys, port, held, pad);
}

/// A frame is told port by port, and of the keys behind all ports, in the
/// order of their codes.
pub proof fn law_frames_are_told_in_order(
    inputs: Seq<Input>,
    mice: Seq<bool>,
    previous_keys: Seq<u8>,
    i: int,
    j: int,
)
    requires
        inputs.len() <= usize::MAX,
        0 <= i < j < frame_events(inputs, mice, previous_keys).len(),
    ensures
        ({
            let a = frame_events(inputs, mice, previous_keys)[i];
            let b = frame_events(inputs, mice, previous_keys)[j];
            match (told(a), told(b)) {
                (Some(p), Some(q)) => p <= q,
                (None, Some(_)) => false,
                (Some(_), None) => true,
                (None, None) => a is Key && b is Key && a->key < b->key,
            }
        }),
{
    let ports = ports_events(inputs, mice, inputs.len() as int);
    let keys = key_events(merged(inputs), previous_keys, 128);
    let all = frame_events(inputs, mice, previous_keys);
    if j < ports.len() {
        lemma_ports_in_order(inputs, mice, inputs.len() as int, i, j);
        assert(all[i] == ports[i] && all[j] == ports[j]);
    } else {
        assert(all[j] == keys[j - ports.len()]);
        assert(keys.contains(keys[j - ports.len()]));
        lemma_keys_tell_no_port(merged(inputs), previous_keys, 128, all[j]);
        if i < ports.len() {
            assert(all[i] == ports[i]);
            lemma_ports_in_order(inputs, mice, inputs.len() as int, i, i);
        } else {
            assert(all[i] == keys[i - ports.len()]);
            lemma_keys_in_order(
                merged(inputs),
                previous_keys,
                128,
                i - ports.len(),
                j - ports.len(),
            );
        }
    }
}

proof fn lemma_ports_in_order(inputs: Seq<Input>, mice: Seq<bool>, n: int, i: int, j: int)
    requires
        n <= inputs.len() <= usize::MAX,
        0 <= i <= j < ports_events(inputs, mice, n).len(),
    ensures
        ({
            let a = told(ports_events(inputs, mice, n)[i]);
            let b = told(ports_events(inputs, mice, n)[j]);
            a is Some && b is Some && a->0 <= b->0 && b->0 < n
        }),
    decreases n,
{
    let rest = ports_events(inputs, mice, n - 1);
    let own = port_events((n - 1) as usize, inputs[n - 1], mice[n - 1]);
    let all = ports_events(inputs, mice, n);
    if j < rest.len() {
        lemma_ports_in_order(inputs, mice, n - 1, i, j);
        assert(all[i] == rest[i] && all[j] == rest[j]);
    } else {
        assert(all[j] == own[j - rest.len()]);
        if i < rest.len() {
            lemma_ports_in_order(inputs, mice, n - 1, i, i);
            assert(all[i] == rest[i]);
        } else {
            assert(all[i] == own[i - rest.len()]);
        }
    }
}

proof fn lemma_keys_in_order(keys: Seq<u8>, previous: Seq<u8>, n: int, i: int, j: int)
    requires
        n <= 128,
        0 <= i <= j < key_events(keys, previous, n).len(),
    ensures
        ({
            let a = key_events(keys, previous, n)[i];
            let b = key_events(keys, previous, n)[j];
            a is Key && b is Key && b->key < n && (i < j ==> a->key < b->key)
        }),
    decreases n,
{
    let rest = key_events(keys, previous, n - 1);
    let all = key_events(keys, previous, n);
    if j < rest.len() {
        lemma_keys_in_order(keys, previous, n - 1, i, j);
        assert(all[i] == rest[i] && all[j] == rest[j]);
    } else if i < rest.len() {
        lemma_keys_in_order(keys, previous, n - 1, i, i);
        assert(all[i] == rest[i]);
    }
}

} // verus!
