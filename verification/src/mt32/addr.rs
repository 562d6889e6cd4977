//! Where the front panel writes. Addresses are printed a byte per pair of
//! hexadecimal digits, and have seven bits in each byte.
use vstd::prelude::*;
use crate::mt32::reply::{is_printed, linear, linear_of};

verus! {

/// The system area: master tune first.
pub const MASTER_TUNE: u32 = 0x10_0000;

pub const REVERB_MODE: u32 = 0x10_0001;

/// The nine parts' channels.
pub const CHAN_ASSIGN: u32 = 0x10_000d;

pub const MASTER_VOLUME: u32 = 0x10_0016;

/// The parts' patches: nine parts, sixteen bytes apart, each with its timbre
/// group, its timbre number and, eight bytes in, its output level.
pub const PATCH_TEMP: u32 = 0x03_0000;

pub const PATCH_STRIDE: u32 = 0x10;

pub const PATCH_TIMBRE_GROUP: u32 = 0;

pub const PATCH_TIMBRE_NUMBER: u32 = 1;

pub const PATCH_OUTPUT_LEVEL: u32 = 8;

/// The address of a field within a part's patch. The parts lie `PATCH_STRIDE`
/// bytes apart in the flat address space; the printed address carries into its
/// next byte after seven bits.
pub fn patch(n: usize, field: u32) -> (r: u32)
    requires
        linear_of(PATCH_TEMP as nat) + n * PATCH_STRIDE + field < 0x20_0000,
    ensures
        linear_of(r as nat) == linear_of(0x03_0000u32 as nat) + n * 0x10 + field,
        is_printed(r as nat),
{
    let flat: u32 = linear(PATCH_TEMP) + n as u32 * PATCH_STRIDE + field;
    let high: u32 = flat / 16384;
    let middle: u32 = flat / 128 % 128;
    let low: u32 = flat % 128;
    proof {
        assert(flat / 16384 == flat / 128 / 128);
        assert(flat == high * 16384 + middle * 128 + low);
        lemma_carried(high as nat, middle as nat, low as nat);
    }
    high * 65536 + middle * 256 + low
}

proof fn lemma_carried(high: nat, middle: nat, low: nat)
    requires
        high < 128,
        middle < 128,
        low < 128,
    ensures
        linear_of(high * 65536 + middle * 256 + low) == high * 16384 + middle * 128 + low,
        is_printed(high * 65536 + middle * 256 + low),
{
    let printed = high * 65536 + middle * 256 + low;
    assert(printed / 65536 == high);
    assert(printed / 256 == high * 256 + middle);
    assert(printed % 256 == low);
}

} // verus!
