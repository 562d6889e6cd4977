//! Controller state for one frame, and the frontend's unsampled motion.
use vstd::prelude::*;
use crate::bits::{bit16, bit8, with_bit16, with_bit8};

verus! {

/// Controller ports a session can drive: the two game ports plus the
/// four-player adapter's two sockets.
pub const MAX_PLAYERS: usize = 4;

/// Controller buttons, relative mouse motion and held keys for one frame.
#[derive(Clone, Copy, Debug, PartialEq, Eq)]
pub struct Input {
    /// Up, down, left, right, red, blue, play, rewind, forward, green, yellow.
    pub buttons: u16,
    pub keys: [u8; 16],
    pub mouse_dx: i16,
    pub mouse_dy: i16,
    /// Left, right and middle mouse buttons.
    pub mouse_buttons: u8,
}

/// A keyboard with nothing pressed.
pub open spec fn no_keys() -> [u8; 16] {
    vstd::array::spec_array_fill_for_copy_type::<u8, 16>(0u8)
}

/// Byte `i` of the keys held by any of the players.
pub open spec fn merged_byte(inputs: Seq<Input>, i: int) -> u8
    decreases inputs.len(),
{
    if inputs.len() == 0 {
        0u8
    } else {
        merged_byte(inputs.drop_last(), i) | inputs.last().keys[i]
    }
}

/// The keyboard bitmap of the keys held by any of the players.
pub open spec fn merged(inputs: Seq<Input>) -> Seq<u8> {
    Seq::new(16, |i: int| merged_byte(inputs, i))
}

proof fn lemma_or_bit8(a: u8, b: u8, j: u8)
    by (bit_vector)
    requires
        j < 8,
    ensures
        bit8(a | b, j) == (bit8(a, j) || bit8(b, j)),
        !bit8(0u8, j),
{
}

/// A key is held in the merged keyboard exactly when some player holds it.
pub proof fn lemma_merged_key(inputs: Seq<Input>, key: int)
    requires
        0 <= key < 128,
    ensures
        key_held(merged(inputs), key) == exists|p: int|
            0 <= p < inputs.len() && #[trigger] key_held(inputs[p].keys@, key),
    decreases inputs.len(),
{
    let i = key / 8;
    let j = (key % 8) as u8;
    if inputs.len() == 0 {
        lemma_or_bit8(0u8, 0u8, j);
    } else {
        let rest = inputs.drop_last();
        lemma_merged_key(rest, key);
        lemma_or_bit8(merged_byte(rest, i), inputs.last().keys[i], j);
        let last = inputs.len() - 1;
        if key_held(inputs.last().keys@, key) {
            assert(key_held(inputs[last].keys@, key));
        }
        if key_held(merged(rest), key) {
            let p = choose|p: int| 0 <= p < rest.len() && #[trigger] key_held(rest[p].keys@, key);
            assert(key_held(inputs[p].keys@, key));
        }
        if exists|p: int| 0 <= p < inputs.len() && #[trigger] key_held(inputs[p].keys@, key) {
            let p = choose|p: int|
                0 <= p < inputs.len() && #[trigger] key_held(inputs[p].keys@, key);
            if p < last {
                assert(key_held(rest[p].keys@, key));
            }
        }
    }
}

/// Whether the key with this code is held in a bitmap of 128 keys.
pub open spec fn key_held(keys: Seq<u8>, key: int) -> bool {
    bit8(keys[key / 8], (key % 8) as u8)
}

impl Default for Input {
    /// Nothing pressed and nothing moved.
    fn default() -> (r: Self)
        ensures
            r == Input::neutral(),
    {
        Input { buttons: 0, keys: [0u8; 16], mouse_dx: 0, mouse_dy: 0, mouse_buttons: 0 }
    }
}

impl Input {
    /// The controller bits a frame may carry.
    pub const BUTTONS: u16 = 0x7ff;

    /// Nothing pressed and nothing moved.
    pub open spec fn neutral() -> Input {
        Input { buttons: 0, keys: no_keys(), mouse_dx: 0, mouse_dy: 0, mouse_buttons: 0 }
    }

    /// The same controls without the relative motion of their frame.
    pub open spec fn still(self) -> Input {
        Input { mouse_dx: 0, mouse_dy: 0, ..self }
    }

    /// Whether two controller states are the same in every field.
    pub fn same(&self, other: &Input) -> (r: bool)
        ensures
            r == (*self == *other),
    {
        if self.buttons != other.buttons || self.mouse_dx != other.mouse_dx || self.mouse_dy
            != other.mouse_dy || self.mouse_buttons != other.mouse_buttons {
            return false;
        }
        for i in 0..16usize
            invariant
                forall|j: int| 0 <= j < i ==> self.keys[j] == other.keys[j],
        {
            if self.keys[i] != other.keys[i] {
                return false;
            }
        }
        assert(self.keys =~= other.keys);
        true
    }

    /// The same controls without the relative motion of their frame.
    pub fn without_motion(self) -> (r: Input)
        ensures
            r == self.still(),
    {
        Input { mouse_dx: 0, mouse_dy: 0, ..self }
    }

    /// Direction switches, red/fire and blue/second button, in wire order.
    pub fn set_joystick(&mut self, held: [bool; 6])
        ensures
            final(self).keys == old(self).keys,
            final(self).mouse_dx == old(self).mouse_dx,
            final(self).mouse_dy == old(self).mouse_dy,
            final(self).mouse_buttons == old(self).mouse_buttons,
            forall|j: u16|
                j < 16 ==> #[trigger] bit16(final(self).buttons, j) == (if j < 6 {
                    held[j as int]
                } else {
                    bit16(old(self).buttons, j)
                }),
            held[0] == (final(self).buttons % 2 == 1),
            held[1] == (final(self).buttons / 2 % 2 == 1),
            held[2] == (final(self).buttons / 4 % 2 == 1),
            held[3] == (final(self).buttons / 8 % 2 == 1),
            held[4] == (final(self).buttons / 16 % 2 == 1),
            held[5] == (final(self).buttons / 32 % 2 == 1),
    {
        let mut buttons: u16 = self.buttons;
        for i in 0..6u16
            invariant
                forall|j: u16|
                    j < 16 ==> #[trigger] bit16(buttons, j) == (if j < i {
                        held[j as int]
                    } else {
                        bit16(old(self).buttons, j)
                    }),
        {
            buttons = with_bit16(buttons, i, held[i as usize]);
        }
        proof {
            crate::bits::law_bits_of_a_word(buttons);
            assert(bit16(buttons, 0) == held[0] && bit16(buttons, 1) == held[1] && bit16(buttons, 2)
                == held[2] && bit16(buttons, 3) == held[3] && bit16(buttons, 4) == held[4]
                && bit16(buttons, 5) == held[5]);
        }
        self.buttons = buttons;
    }

    /// Play, rewind, forward, green and yellow, in wire order. Bits above
    /// the eleven controller bits are cleared.
    pub fn set_cd32_buttons(&mut self, held: [bool; 5])
        ensures
            final(self).keys == old(self).keys,
            final(self).mouse_dx == old(self).mouse_dx,
            final(self).mouse_dy == old(self).mouse_dy,
            final(self).mouse_buttons == old(self).mouse_buttons,
            forall|j: u16|
                j < 16 ==> #[trigger] bit16(final(self).buttons, j) == (if j < 6 {
                    bit16(old(self).buttons, j)
                } else if j < 11 {
                    held[j - 6]
                } else {
                    false
                }),
            held[0] == (final(self).buttons / 64 % 2 == 1),
            held[1] == (final(self).buttons / 128 % 2 == 1),
            held[2] == (final(self).buttons / 256 % 2 == 1),
            held[3] == (final(self).buttons / 512 % 2 == 1),
            held[4] == (final(self).buttons / 1024 % 2 == 1),
    {
        let mut buttons: u16 = self.buttons;
        for i in 6..16u16
            invariant
                forall|j: u16|
                    j < 16 ==> #[trigger] bit16(buttons, j) == (if j < 6 || j >= i {
                        bit16(old(self).buttons, j)
                    } else if j < 11 {
                        held[j - 6]
                    } else {
                        false
                    }),
        {
            let on: bool = if i < 11 {
                held[(i - 6) as usize]
            } else {
                false
            };
            buttons = with_bit16(buttons, i, on);
        }
        proof {
            crate::bits::law_bits_of_a_word(buttons);
            assert(bit16(buttons, 6) == held[0] && bit16(buttons, 7) == held[1] && bit16(buttons, 8)
                == held[2] && bit16(buttons, 9) == held[3] && bit16(buttons, 10) == held[4]);
        }
        self.buttons = buttons;
    }

    /// Press or release one key; codes past the 128 the keyboard has are
    /// ignored.
    pub fn set_key(&mut self, key: u8, pressed: bool)
        ensures
            final(self).buttons == old(self).buttons,
            final(self).mouse_dx == old(self).mouse_dx,
            final(self).mouse_dy == old(self).mouse_dy,
            final(self).mouse_buttons == old(self).mouse_buttons,
            key >= 128 ==> final(self).keys == old(self).keys,
            key < 128 ==> forall|k: int|
                0 <= k < 128 ==> #[trigger] key_held(final(self).keys@, k) == (if k == key {
                    pressed
                } else {
                    key_held(old(self).keys@, k)
                }),
    {
        if key >= 128 {
            return ;
        }
        let index: usize = (key / 8) as usize;
        let bits: u8 = with_bit8(self.keys[index], key % 8, pressed);
        self.keys[index] = bits;
    }

    /// A key is held while any player holds it.
    pub fn merged_keys(inputs: &[Input]) -> (r: [u8; 16])
        ensures
            r@ == merged(inputs@),
    {
        let mut keys: [u8; 16] = [0u8; 16];
        let mut n: usize = 0;
        while n < inputs.len()
            invariant
                n <= inputs.len(),
                keys@ == merged(inputs@.take(n as int)),
            decreases inputs.len() - n,
        {
            let ghost before = keys;
            let held: [u8; 16] = inputs[n].keys;
            for i in 0..16usize
                invariant
                    forall|j: int| 0 <= j < i ==> keys[j] == before[j] | held[j],
                    forall|j: int| i <= j < 16 ==> keys[j] == before[j],
            {
                let byte: u8 = keys[i] | held[i];
                keys[i] = byte;
            }
            proof {
                let done = inputs@.take(n as int + 1);
                assert(done.drop_last() =~= inputs@.take(n as int));
                assert(keys@ =~= merged(done));
            }
            n += 1;
        }
        assert(inputs@.take(n as int) =~= inputs@);
        keys
    }

    /// Press or release one of the three mouse buttons; any other number is
    /// ignored.
    pub fn set_mouse_button(&mut self, button: u8, pressed: bool)
        ensures
            button >= 3 ==> *final(self) == *old(self),
            button < 3 ==> {
                &&& final(self).buttons == old(self).buttons
                &&& final(self).keys == old(self).keys
                &&& final(self).mouse_dx == old(self).mouse_dx
                &&& final(self).mouse_dy == old(self).mouse_dy
                &&& forall|j: u8|
                    j < 8 ==> #[trigger] bit8(final(self).mouse_buttons, j) == (if j == button {
                        pressed
                    } else {
                        bit8(old(self).mouse_buttons, j)
                    })
            },
    {
        if button < 3 {
            self.mouse_buttons = with_bit8(self.mouse_buttons, button, pressed);
        }
    }
}

/// Frontend-held controls and unsampled motion, outside the wire timeline.
#[derive(Clone, Copy, Debug, PartialEq, Eq)]
pub struct LocalInput {
    pub held: Input,
    pub mouse_pending: (i32, i32),
}

/// `v` brought into the range `lo..=hi`.
pub open spec fn clamped(v: int, lo: int, hi: int) -> int {
    if v < lo {
        lo
    } else if v > hi {
        hi
    } else {
        v
    }
}

impl Default for LocalInput {
    /// Nothing held and no motion pending.
    fn default() -> (r: Self)
        ensures
            r.held == Input::neutral(),
            r.mouse_pending == (0i32, 0i32),
    {
        LocalInput { held: Input::default(), mouse_pending: (0, 0) }
    }
}

impl LocalInput {
    /// What a sample of these controls carries: the held state, with as much
    /// pending motion as one frame's 8-bit counters can take.
    pub open spec fn sampled(self) -> Input {
        Input {
            mouse_dx: clamped(self.mouse_pending.0 as int, -100, 100) as i16,
            mouse_dy: clamped(self.mouse_pending.1 as int, -100, 100) as i16,
            ..self.held
        }
    }

    /// The controls left once one sample's motion has been consumed.
    pub open spec fn consumed(self) -> LocalInput {
        LocalInput {
            held: self.held,
            mouse_pending: (
                (self.mouse_pending.0 - self.sampled().mouse_dx) as i32,
                (self.mouse_pending.1 - self.sampled().mouse_dy) as i32,
            ),
        }
    }

    /// Add relative motion, sticking at the counters' limits.
    pub fn add_mouse_delta(&mut self, dx: i32, dy: i32)
        ensures
            final(self).held == old(self).held,
            final(self).mouse_pending.0 == clamped(
                old(self).mouse_pending.0 + dx,
                i32::MIN as int,
                i32::MAX as int,
            ),
            final(self).mouse_pending.1 == clamped(
                old(self).mouse_pending.1 + dy,
                i32::MIN as int,
                i32::MAX as int,
            ),
    {
        self.mouse_pending.0 = saturating_sum(self.mouse_pending.0, dx);
        self.mouse_pending.1 = saturating_sum(self.mouse_pending.1, dy);
    }

    /// The controls of the next frame, leaving the motion pending.
    pub fn sample(&self) -> (r: Input)
        ensures
            r == self.sampled(),
    {
        Input {
            mouse_dx: clamp_motion(self.mouse_pending.0),
            mouse_dy: clamp_motion(self.mouse_pending.1),
            ..self.held
        }
    }

    /// Take a sample's motion out of what is pending.
    pub fn consume(&mut self)
        ensures
            *final(self) == old(self).consumed(),
    {
        let sampled = self.sample();
        self.mouse_pending.0 = self.mouse_pending.0 - sampled.mouse_dx as i32;
        self.mouse_pending.1 = self.mouse_pending.1 - sampled.mouse_dy as i32;
    }
}

fn saturating_sum(a: i32, b: i32) -> (r: i32)
    ensures
        r == clamped(a + b, i32::MIN as int, i32::MAX as int),
{
    let sum: i64 = a as i64 + b as i64;
    if sum < i32::MIN as i64 {
        i32::MIN
    } else if sum > i32::MAX as i64 {
        i32::MAX
    } else {
        sum as i32
    }
}

fn clamp_motion(v: i32) -> (r: i16)
    ensures
        r == clamped(v as int, -100, 100),
{
    if v < -100 {
        -100
    } else if v > 100 {
        100
    } else {
        v as i16
    }
}

/// A single frame's input as frontend state.
pub open spec fn pending(input: Input) -> LocalInput {
    LocalInput {
        held: input.still(),
        mouse_pending: (input.mouse_dx as i32, input.mouse_dy as i32),
    }
}

impl From<Input> for LocalInput {
    /// A single frame's input as frontend state: its motion becomes pending.
    fn from(input: Input) -> (r: Self) {
        LocalInput {
            held: input.without_motion(),
            mouse_pending: (input.mouse_dx as i32, input.mouse_dy as i32),
        }
    }
}

impl vstd::std_specs::convert::FromSpecImpl<Input> for LocalInput {
    open spec fn obeys_from_spec() -> bool {
        true
    }

    open spec fn from_spec(input: Input) -> LocalInput {
        pending(input)
    }
}

/// Sampling consumes exactly the motion it carries: what a sample takes and
/// what stays pending add up to what was pending before.
pub proof fn law_motion_is_conserved(local: LocalInput)
    ensures
        local.sampled().mouse_dx + local.consumed().mouse_pending.0 == local.mouse_pending.0,
        local.sampled().mouse_dy + local.consumed().mouse_pending.1 == local.mouse_pending.1,
        -100 <= local.sampled().mouse_dx <= 100,
        -100 <= local.sampled().mouse_dy <= 100,
{
}

/// A sample holds what is held, and moves by all that is pending where that
/// is a hundred counts at most, else by a hundred counts that way.
pub proof fn law_samples_move_by_what_is_pending(local: LocalInput)
    ensures
        local.sampled().buttons == local.held.buttons,
        local.sampled().keys == local.held.keys,
        local.sampled().mouse_buttons == local.held.mouse_buttons,
        -100 <= local.mouse_pending.0 <= 100 ==> local.sampled().mouse_dx == local.mouse_pending.0,
        local.mouse_pending.0 > 100 ==> local.sampled().mouse_dx == 100,
        local.mouse_pending.0 < -100 ==> local.sampled().mouse_dx == -100,
        -100 <= local.mouse_pending.1 <= 100 ==> local.sampled().mouse_dy == local.mouse_pending.1,
        local.mouse_pending.1 > 100 ==> local.sampled().mouse_dy == 100,
        local.mouse_pending.1 < -100 ==> local.sampled().mouse_dy == -100,
        local.consumed().held == local.held,
{
}

/// A frame's input taken as frontend state samples as itself where its motion
/// fits a frame.
pub proof fn law_inputs_sample_as_themselves(input: Input)
    requires
        -100 <= input.mouse_dx <= 100,
        -100 <= input.mouse_dy <= 100,
    ensures
        pending(input).sampled() == input,
        pending(input).consumed().sampled() == (Input { mouse_dx: 0, mouse_dy: 0, ..input }),
        pending(input).held.mouse_dx == 0 && pending(input).held.mouse_dy == 0,
{
}

} // verus!

