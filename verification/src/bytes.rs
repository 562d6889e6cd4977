//! Numbers as byte strings, in either byte order.
use vstd::prelude::*;

verus! {

/// How many values `n` bytes can hold.
pub open spec fn byte_range(n: nat) -> nat
    decreases n,
{
    if n == 0 {
        1
    } else {
        256 * byte_range((n - 1) as nat)
    }
}

/// The number a byte string stands for, least significant byte first.
pub open spec fn le_value(s: Seq<u8>) -> nat
    decreases s.len(),
{
    if s.len() == 0 {
        0
    } else {
        s[0] as nat + 256 * le_value(s.drop_first())
    }
}

/// The `n` low bytes of `v`, least significant first.
pub open spec fn le(v: nat, n: nat) -> Seq<u8>
    decreases n,
{
    if n == 0 {
        Seq::empty()
    } else {
        seq![(v % 256) as u8] + le(v / 256, (n - 1) as nat)
    }
}

/// The number a byte string stands for, most significant byte first.
pub open spec fn be_value(s: Seq<u8>) -> nat
    decreases s.len(),
{
    if s.len() == 0 {
        0
    } else {
        256 * be_value(s.drop_last()) + s.last() as nat
    }
}

/// The `n` low bytes of `v`, most significant first.
pub open spec fn be(v: nat, n: nat) -> Seq<u8>
    decreases n,
{
    if n == 0 {
        Seq::empty()
    } else {
        be(v / 256, (n - 1) as nat).push((v % 256) as u8)
    }
}

pub proof fn lemma_le_len(v: nat, n: nat)
    ensures
        le(v, n).len() == n,
    decreases n,
{
    if n > 0 {
        lemma_le_len(v / 256, (n - 1) as nat);
    }
}

pub proof fn lemma_be_len(v: nat, n: nat)
    ensures
        be(v, n).len() == n,
    decreases n,
{
    if n > 0 {
        lemma_be_len(v / 256, (n - 1) as nat);
    }
}

/// Writing a number and reading it back gives the number.
pub proof fn lemma_le_reads_back(v: nat, n: nat)
    requires
        v < byte_range(n),
    ensures
        le(v, n).len() == n,
        le_value(le(v, n)) == v,
    decreases n,
{
    if n > 0 {
        let m = (n - 1) as nat;
        lemma_le_reads_back(v / 256, m);
        assert(le(v, n).drop_first() =~= le(v / 256, m));
    }
}

/// Writing a number and reading it back gives the number.
pub proof fn lemma_be_reads_back(v: nat, n: nat)
    requires
        v < byte_range(n),
    ensures
        be(v, n).len() == n,
        be_value(be(v, n)) == v,
    decreases n,
{
    if n > 0 {
        let m = (n - 1) as nat;
        lemma_be_reads_back(v / 256, m);
        assert(be(v, n).drop_last() =~= be(v / 256, m));
    }
}

/// Reading bytes and writing the number gives the bytes.
pub proof fn lemma_le_writes_back(s: Seq<u8>)
    ensures
        le(le_value(s), s.len()) == s,
        le_value(s) < byte_range(s.len()),
    decreases s.len(),
{
    if s.len() > 0 {
        let rest = s.drop_first();
        lemma_le_writes_back(rest);
        let v = le_value(s);
        assert(v % 256 == s[0] as nat && v / 256 == le_value(rest));
        assert(le(v, s.len()) =~= seq![s[0]] + rest);
        assert(seq![s[0]] + rest =~= s);
    } else {
        assert(le(0, 0) =~= s);
    }
}

/// Reading bytes and writing the number gives the bytes.
pub proof fn lemma_be_writes_back(s: Seq<u8>)
    ensures
        be(be_value(s), s.len()) == s,
        be_value(s) < byte_range(s.len()),
    decreases s.len(),
{
    if s.len() > 0 {
        let rest = s.drop_last();
        lemma_be_writes_back(rest);
        let v = be_value(s);
        assert(v % 256 == s.last() as nat && v / 256 == be_value(rest));
        assert(be(v, s.len()) =~= s);
    } else {
        assert(be(0, 0) =~= s);
    }
}

pub proof fn lemma_byte_range()
    ensures
        byte_range(0) == 1,
        byte_range(1) == 0x100,
        byte_range(2) == 0x1_0000,
        byte_range(3) == 0x100_0000,
        byte_range(4) == 0x1_0000_0000,
        byte_range(8) == 0x1_0000_0000_0000_0000,
{
    reveal_with_fuel(byte_range, 9);
}

/// Append the `n` low bytes of `v`, least significant first.
pub fn push_le(out: &mut Vec<u8>, v: u64, n: usize)
    ensures
        final(out)@ == old(out)@ + le(v as nat, n as nat),
{
    let mut rest: u64 = v;
    let mut i: usize = 0;
    assert(out@ + le(v as nat, n as nat) =~= old(out)@ + le(v as nat, n as nat));
    while i < n
        invariant
            i <= n,
            out@ + le(rest as nat, (n - i) as nat) == old(out)@ + le(v as nat, n as nat),
        decreases n - i,
    {
        let ghost before = out@;
        let ghost tail = le(rest as nat / 256, (n - i - 1) as nat);
        out.push((rest % 256) as u8);
        assert(out@ + tail =~= before + le(rest as nat, (n - i) as nat));
        rest = rest / 256;
        i += 1;
    }
    assert(out@ + le(rest as nat, 0) =~= out@);
}

/// Append the `n` low bytes of `v`, most significant first.
pub fn push_be(out: &mut Vec<u8>, v: u64, n: usize)
    ensures
        final(out)@ == old(out)@ + be(v as nat, n as nat),
    decreases n,
{
    if n > 0 {
        push_be(out, v / 256, n - 1);
        out.push((v % 256) as u8);
    }
    assert(out@ =~= old(out)@ + be(v as nat, n as nat));
}

/// Append every byte of a slice.
pub fn push_all(out: &mut Vec<u8>, bytes: &[u8])
    ensures
        final(out)@ == old(out)@ + bytes@,
{
    let mut i: usize = 0;
    assert(out@ =~= old(out)@ + bytes@.take(0));
    while i < bytes.len()
        invariant
            i <= bytes.len(),
            out@ == old(out)@ + bytes@.take(i as int),
        decreases bytes.len() - i,
    {
        out.push(bytes[i]);
        i += 1;
        assert(out@ =~= old(out)@ + bytes@.take(i as int));
    }
    assert(bytes@.take(i as int) =~= bytes@);
}

/// Read the number in the `n` bytes from `at`, least significant first.
pub fn read_le(bytes: &[u8], at: usize, n: usize) -> (r: u64)
    requires
        at + n <= bytes@.len(),
        n <= 8,
    ensures
        r == le_value(bytes@.subrange(at as int, at + n)),
{
    let len: usize = bytes.len();
    let mut r: u64 = 0;
    let mut i: usize = n;
    assert(bytes@.subrange(at + n, at + n) =~= Seq::<u8>::empty());
    while i > 0
        invariant
            i <= n <= 8,
            at + n <= len == bytes@.len(),
            r == le_value(bytes@.subrange(at + i, at + n)),
        decreases i,
    {
        let ghost tail = bytes@.subrange(at + i, at + n);
        proof {
            lemma_le_writes_back(tail);
            lemma_range_grows(tail.len(), 7);
            lemma_byte_range();
            reveal_with_fuel(byte_range, 9);
            assert(bytes@.subrange(at + i - 1, at + n).drop_first() =~= tail);
        }
        i -= 1;
        r = bytes[at + i] as u64 + 256 * r;
    }
    r
}

proof fn lemma_range_grows(a: nat, b: nat)
    requires
        a <= b,
    ensures
        byte_range(a) <= byte_range(b),
    decreases b,
{
    if a < b {
        lemma_range_grows(a, (b - 1) as nat);
    }
}

/// Read the number in the `n` bytes from `at`, most significant first.
pub fn read_be(bytes: &[u8], at: usize, n: usize) -> (r: u64)
    requires
        at + n <= bytes@.len(),
        n <= 8,
    ensures
        r == be_value(bytes@.subrange(at as int, at + n)),
{
    let len: usize = bytes.len();
    let mut r: u64 = 0;
    let mut i: usize = 0;
    assert(bytes@.subrange(at as int, at as int) =~= Seq::<u8>::empty());
    while i < n
        invariant
            i <= n <= 8,
            at + n <= len == bytes@.len(),
            r == be_value(bytes@.subrange(at as int, at + i)),
        decreases n - i,
    {
        let ghost head = bytes@.subrange(at as int, at + i);
        proof {
            lemma_be_writes_back(head);
            lemma_range_grows(head.len(), 7);
            lemma_byte_range();
            reveal_with_fuel(byte_range, 9);
            assert(bytes@.subrange(at as int, at + i + 1).drop_last() =~= head);
        }
        r = 256 * r + bytes[at + i] as u64;
        i += 1;
    }
    r
}

/// A copy of the bytes from `from` to `to`.
pub fn copy_range(bytes: &[u8], from: usize, to: usize) -> (r: Vec<u8>)
    requires
        from <= to <= bytes@.len(),
    ensures
        r@ == bytes@.subrange(from as int, to as int),
{
    let mut r: Vec<u8> = Vec::new();
    let mut i: usize = from;
    while i < to
        invariant
            from <= i <= to <= bytes@.len(),
            r@ == bytes@.subrange(from as int, i as int),
        decreases to - i,
    {
        r.push(bytes[i]);
        i += 1;
        assert(r@ =~= bytes@.subrange(from as int, i as int));
    }
    r
}

/// Whether two byte strings are the same.
pub fn same_bytes(a: &[u8], b: &[u8]) -> (r: bool)
    ensures
        r == (a@ == b@),
{
    if a.len() != b.len() {
        return false;
    }
    let mut i: usize = 0;
    while i < a.len()
        invariant
            i <= a.len(),
            a@.len() == b@.len(),
            forall|j: int| 0 <= j < i ==> a@[j] == b@[j],
        decreases a.len() - i,
    {
        if a[i] != b[i] {
            return false;
        }
        i += 1;
    }
    assert(a@ =~= b@);
    true
}

/// Sixteen bytes from `at`.
pub fn take_16(bytes: &[u8], at: usize) -> (r: [u8; 16])
    requires
        at + 16 <= bytes@.len(),
    ensures
        r@ == bytes@.subrange(at as int, at + 16),
{
    let len: usize = bytes.len();
    let mut r: [u8; 16] = [0u8; 16];
    for i in 0..16usize
        invariant
            at + 16 <= len == bytes@.len(),
            forall|j: int| 0 <= j < i ==> r[j] == bytes@[at + j],
    {
        r[i] = bytes[at + i];
    }
    assert(r@ =~= bytes@.subrange(at as int, at + 16));
    r
}

/// Thirty-two bytes from `at`.
pub fn take_32(bytes: &[u8], at: usize) -> (r: [u8; 32])
    requires
        at + 32 <= bytes@.len(),
    ensures
        r@ == bytes@.subrange(at as int, at + 32),
{
    let len: usize = bytes.len();
    let mut r: [u8; 32] = [0u8; 32];
    for i in 0..32usize
        invariant
            at + 32 <= len == bytes@.len(),
            forall|j: int| 0 <= j < i ==> r[j] == bytes@[at + j],
    {
        r[i] = bytes[at + i];
    }
    assert(r@ =~= bytes@.subrange(at as int, at + 32));
    r
}

/// Two bytes stand for a number below 65 536, the high one first or last by
/// the byte order.
pub proof fn law_two_bytes(s: Seq<u8>, v: nat)
    requires
        s.len() == 2,
        v < 0x1_0000,
    ensures
        be_value(s) == s[0] * 256 + s[1],
        le_value(s) == s[0] + s[1] * 256,
        be(v, 2).len() == 2,
        be(v, 2)[0] == v / 256,
        be(v, 2)[1] == v % 256,
        le(v, 2).len() == 2,
        le(v, 2)[0] == v % 256,
        le(v, 2)[1] == v / 256,
{
    reveal_with_fuel(be_value, 3);
    reveal_with_fuel(le_value, 3);
    reveal_with_fuel(be, 3);
    reveal_with_fuel(le, 3);
}

/// Four bytes stand for a number below four giga, in either byte order.
pub proof fn law_four_bytes(s: Seq<u8>, v: nat)
    requires
        s.len() == 4,
        v < 0x1_0000_0000,
    ensures
        be_value(s) == s[0] * 0x100_0000 + s[1] * 0x1_0000 + s[2] * 0x100 + s[3],
        le_value(s) == s[0] + s[1] * 0x100 + s[2] * 0x1_0000 + s[3] * 0x100_0000,
        be(v, 4).len() == 4,
        be(v, 4)[0] * 0x100_0000 + be(v, 4)[1] * 0x1_0000 + be(v, 4)[2] * 0x100 + be(v, 4)[3] == v,
        le(v, 4).len() == 4,
        le(v, 4)[0] + le(v, 4)[1] * 0x100 + le(v, 4)[2] * 0x1_0000 + le(v, 4)[3] * 0x100_0000 == v,
{
    reveal_with_fuel(be_value, 5);
    reveal_with_fuel(le_value, 5);
    reveal_with_fuel(be, 5);
    reveal_with_fuel(le, 5);
}

} // verus!
