//! Single bits of machine words.
use vstd::prelude::*;

verus! {

/// Bit `i` of a byte, counted from the least significant.
pub open spec fn bit8(b: u8, i: u8) -> bool {
    (b >> i) & 1u8 == 1u8
}

/// Bit `i` of a sixteen-bit word, counted from the least significant.
pub open spec fn bit16(w: u16, i: u16) -> bool {
    (w >> i) & 1u16 == 1u16
}

proof fn lemma_with_bit8(b: u8, i: u8, j: u8)
    by (bit_vector)
    requires
        i < 8,
        j < 8,
    ensures
        bit8(b | (1u8 << i), j) == (j == i || bit8(b, j)),
        bit8(b & !(1u8 << i), j) == (j != i && bit8(b, j)),
{
}

proof fn lemma_with_bit16(w: u16, i: u16, j: u16)
    by (bit_vector)
    requires
        i < 16,
        j < 16,
    ensures
        bit16(w | (1u16 << i), j) == (j == i || bit16(w, j)),
        bit16(w & !(1u16 << i), j) == (j != i && bit16(w, j)),
{
}

/// `b` with bit `i` set or cleared and every other bit kept.
pub fn with_bit8(b: u8, i: u8, on: bool) -> (r: u8)
    requires
        i < 8,
    ensures
        forall|j: u8| j < 8 ==> #[trigger] bit8(r, j) == (if j == i { on } else { bit8(b, j) }),
{
    proof {
        assert forall|j: u8| j < 8 implies #[trigger] bit8(b | (1u8 << i), j) == (j == i
            || bit8(b, j)) by {
            lemma_with_bit8(b, i, j);
        }
        assert forall|j: u8| j < 8 implies #[trigger] bit8(b & !(1u8 << i), j) == (j != i
            && bit8(b, j)) by {
            lemma_with_bit8(b, i, j);
        }
    }
    if on {
        b | (1u8 << i)
    } else {
        b & !(1u8 << i)
    }
}

/// `w` with bit `i` set or cleared and every other bit kept.
pub fn with_bit16(w: u16, i: u16, on: bool) -> (r: u16)
    requires
        i < 16,
    ensures
        forall|j: u16| j < 16 ==> #[trigger] bit16(r, j) == (if j == i { on } else { bit16(w, j) }),
{
    proof {
        assert forall|j: u16| j < 16 implies #[trigger] bit16(w | (1u16 << i), j) == (j == i
            || bit16(w, j)) by {
            lemma_with_bit16(w, i, j);
        }
        assert forall|j: u16| j < 16 implies #[trigger] bit16(w & !(1u16 << i), j) == (j != i
            && bit16(w, j)) by {
            lemma_with_bit16(w, i, j);
        }
    }
    if on {
        w | (1u16 << i)
    } else {
        w & !(1u16 << i)
    }
}

/// The bits of a byte are its binary digits: bit `i` counts `2^i`.
pub proof fn law_bits_of_a_byte(b: u8)
    by (bit_vector)
    ensures
        bit8(b, 0) == (b / 1 % 2 == 1),
        bit8(b, 1) == (b / 2 % 2 == 1),
        bit8(b, 2) == (b / 4 % 2 == 1),
        bit8(b, 3) == (b / 8 % 2 == 1),
        bit8(b, 4) == (b / 16 % 2 == 1),
        bit8(b, 5) == (b / 32 % 2 == 1),
        bit8(b, 6) == (b / 64 % 2 == 1),
        bit8(b, 7) == (b / 128 % 2 == 1),
{
}

/// The bits of a word are its binary digits: bit `i` counts `2^i`.
pub proof fn law_bits_of_a_word(w: u16)
    by (bit_vector)
    ensures
        bit16(w, 0) == (w / 1 % 2 == 1),
        bit16(w, 1) == (w / 2 % 2 == 1),
        bit16(w, 2) == (w / 4 % 2 == 1),
        bit16(w, 3) == (w / 8 % 2 == 1),
        bit16(w, 4) == (w / 16 % 2 == 1),
        bit16(w, 5) == (w / 32 % 2 == 1),
        bit16(w, 6) == (w / 64 % 2 == 1),
        bit16(w, 7) == (w / 128 % 2 == 1),
        bit16(w, 8) == (w / 256 % 2 == 1),
        bit16(w, 9) == (w / 512 % 2 == 1),
        bit16(w, 10) == (w / 1024 % 2 == 1),
        bit16(w, 11) == (w / 2048 % 2 == 1),
        bit16(w, 12) == (w / 4096 % 2 == 1),
        bit16(w, 13) == (w / 8192 % 2 == 1),
        bit16(w, 14) == (w / 16384 % 2 == 1),
        bit16(w, 15) == (w / 32768 % 2 == 1),
{
}

} // verus!
