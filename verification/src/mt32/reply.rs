//! What the MT-32 sends back.
//!
//! The module has no keyboard, so everything it sends is an answer to a
//! request: a librarian asks for a stretch of memory, and the module returns
//! it as one or more data blocks.
use vstd::prelude::*;
use crate::bytes::{copy_range, push_all};

verus! {

/// What an exclusive message opens with: the maker, and behind the device
/// number the model.
pub const MAKER_ID: u8 = 0x41;

pub const MODEL_MT32: u8 = 0x16;

/// A request, and data.
pub const CMD_RQ1: u8 = 0x11;

pub const CMD_DT1: u8 = 0x12;

/// What begins and ends an exclusive message.
pub const EXCLUSIVE: u8 = 0xf0;

pub const END_EXCLUSIVE: u8 = 0xf7;

/// Data bytes per block. A larger dump comes back as several messages.
pub const BLOCK_BYTES: usize = 256;

/// The longest dump that is answered.
pub const MAX_DUMP_BYTES: u32 = 0x10000;

/// The longest exclusive message that is gathered.
pub const MAX_MESSAGE_BYTES: usize = 1024;

/// The device that a message from here is for.
pub const DEVICE: u8 = 0x10;

/// The sum of some bytes, seven bits of each.
pub open spec fn sum(bytes: Seq<u8>) -> nat
    decreases bytes.len(),
{
    if bytes.len() == 0 {
        0
    } else {
        sum(bytes.drop_last()) + bytes.last() as nat % 128
    }
}

/// The byte that brings a sum to a multiple of 128.
pub open spec fn check(bytes: Seq<u8>) -> u8 {
    ((128 - sum(bytes) % 128) % 128) as u8
}

pub fn checksum(bytes: &[u8]) -> (r: u8)
    ensures
        r == check(bytes@),
        r < 128,
{
    let mut total: u8 = 0;
    let mut i: usize = 0;
    assert(bytes@.take(0) =~= Seq::empty());
    while i < bytes.len()
        invariant
            i <= bytes@.len(),
            total < 128,
            total == sum(bytes@.take(i as int)) % 128,
        decreases bytes@.len() - i,
    {
        proof {
            let taken = bytes@.take(i + 1);
            assert(taken.drop_last() =~= bytes@.take(i as int));
            assert(taken.last() == bytes@[i as int]);
        }
        total = (total + bytes[i] % 128) % 128;
        i += 1;
    }
    assert(bytes@.take(i as int) =~= bytes@);
    (128 - total) % 128
}

/// An address as its three seven-bit bytes.
pub open spec fn address_of(addr: nat) -> Seq<u8> {
    seq![(addr / 16384 % 128) as u8, (addr / 128 % 128) as u8, (addr % 128) as u8]
}

pub fn address_bytes(addr: u32) -> (r: [u8; 3])
    ensures
        r@ == address_of(addr as nat),
        forall|i: int| 0 <= i < 3 ==> #[trigger] r@[i] < 128,
{
    let r: [u8; 3] = [(addr / 16384 % 128) as u8, (addr / 128 % 128) as u8, (addr % 128) as u8];
    assert(r@ =~= address_of(addr as nat));
    r
}

/// The flat address that three seven-bit bytes stand for.
pub open spec fn flat(bytes: Seq<u8>) -> nat {
    (bytes[0] as nat % 128) * 16384 + (bytes[1] as nat % 128) * 128 + bytes[2] as nat % 128
}

pub fn address_value(bytes: &[u8]) -> (r: u32)
    requires
        bytes@.len() >= 3,
    ensures
        r == flat(bytes@),
{
    (bytes[0] % 128) as u32 * 16384 + (bytes[1] % 128) as u32 * 128 + (bytes[2] % 128) as u32
}

/// The flat address of one that is printed a byte per pair of digits.
pub open spec fn linear_of(packed: nat) -> nat {
    packed / 65536 % 128 * 16384 + packed / 256 % 128 * 128 + packed % 128
}

pub fn linear(packed: u32) -> (r: u32)
    ensures
        r == linear_of(packed as nat),
{
    packed / 65536 % 128 * 16384 + packed / 256 % 128 * 128 + packed % 128
}

/// The printed address of three bytes.
pub open spec fn printed_of(bytes: Seq<u8>) -> nat {
    bytes[0] as nat * 65536 + bytes[1] as nat * 256 + bytes[2] as nat
}

pub fn printed(bytes: [u8; 3]) -> (r: u32)
    ensures
        r == printed_of(bytes@),
{
    bytes[0] as u32 * 65536 + bytes[1] as u32 * 256 + bytes[2] as u32
}

/// A message that carries data at an address.
pub open spec fn block_of(device: u8, addr: Seq<u8>, data: Seq<u8>) -> Seq<u8> {
    seq![EXCLUSIVE, MAKER_ID, device, MODEL_MT32, CMD_DT1] + (addr + data) + seq![
        check(addr + data),
        END_EXCLUSIVE,
    ]
}

pub fn data_block(device: u8, addr: [u8; 3], data: &[u8]) -> (r: Vec<u8>)
    ensures
        r@ == block_of(device, addr@, data@),
{
    let mut body: Vec<u8> = Vec::new();
    push_all(&mut body, addr.as_slice());
    push_all(&mut body, data);
    assert(body@ =~= addr@ + data@);
    let mut msg: Vec<u8> = Vec::new();
    msg.push(EXCLUSIVE);
    msg.push(MAKER_ID);
    msg.push(device);
    msg.push(MODEL_MT32);
    msg.push(CMD_DT1);
    push_all(&mut msg, body.as_slice());
    msg.push(checksum(body.as_slice()));
    msg.push(END_EXCLUSIVE);
    assert(msg@ =~= block_of(device, addr@, data@));
    msg
}

/// An address that can be printed: seven bits in each of three bytes.
pub open spec fn is_printed(addr: nat) -> bool {
    addr / 65536 < 128 && addr / 256 % 256 < 128 && addr % 256 < 128
}

/// A message from here that carries data at a printed address.
pub fn dt1(addr: u32, data: &[u8]) -> (r: Vec<u8>)
    requires
        is_printed(addr as nat),
    ensures
        r@ == block_of(
            DEVICE,
            seq![(addr / 65536) as u8, (addr / 256 % 256) as u8, (addr % 256) as u8],
            data@,
        ),
{
    let bytes: [u8; 3] = [(addr / 65536) as u8, (addr / 256 % 256) as u8, (addr % 256) as u8];
    assert(bytes@ =~= seq![(addr / 65536) as u8, (addr / 256 % 256) as u8, (addr % 256) as u8]);
    data_block(DEVICE, bytes, data)
}

/// A dump request: where to read and how much.
#[derive(Clone, Copy, Debug, PartialEq, Eq, Structural)]
pub struct Request {
    pub device: u8,
    pub addr: u32,
    pub len: u32,
}

/// The request that a complete exclusive message makes, if it makes one.
pub open spec fn request_of(msg: Seq<u8>) -> Option<Request> {
    let len = flat(msg.subrange(8, 11));
    if msg.len() == 13 && msg[0] == EXCLUSIVE && msg[12] == END_EXCLUSIVE && msg[1] == MAKER_ID
        && msg[3] == MODEL_MT32 && msg[4] == CMD_RQ1 && check(msg.subrange(5, 11)) == msg[11] && 0
        < len <= MAX_DUMP_BYTES {
        Some(Request { device: msg[2], addr: flat(msg.subrange(5, 8)) as u32, len: len as u32 })
    } else {
        None
    }
}

/// Read a request. Anything else is not answered.
pub fn parse_request(msg: &[u8]) -> (r: Option<Request>)
    ensures
        r == request_of(msg@),
{
    if msg.len() != 13 || msg[0] != EXCLUSIVE || msg[12] != END_EXCLUSIVE {
        return None;
    }
    if msg[1] != MAKER_ID || msg[3] != MODEL_MT32 || msg[4] != CMD_RQ1 {
        return None;
    }
    let body = copy_range(msg, 5, 11);
    if checksum(body.as_slice()) != msg[11] {
        return None;
    }
    let at = copy_range(msg, 5, 8);
    let size = copy_range(msg, 8, 11);
    let len: u32 = address_value(size.as_slice());
    if len == 0 || len > MAX_DUMP_BYTES {
        return None;
    }
    Some(Request { device: msg[2], addr: address_value(at.as_slice()), len })
}

/// A reply that is under way.
#[derive(Clone, Copy, Debug, PartialEq, Eq, Structural)]
pub struct Dump {
    pub device: u8,
    pub addr: u32,
    pub left: u32,
}

/// A stretch of memory to read: its printed address and its length.
#[derive(Clone, Copy, Debug, PartialEq, Eq, Structural)]
pub struct Stretch {
    pub addr: u32,
    pub len: usize,
}

impl Dump {
    pub open spec fn wf(self) -> bool {
        self.addr + self.left <= u32::MAX
    }

    /// How much is read next.
    pub open spec fn take(self) -> nat {
        if self.left < BLOCK_BYTES {
            self.left as nat
        } else {
            BLOCK_BYTES as nat
        }
    }

    /// The reply to a request.
    pub fn answer(request: Request) -> (r: Dump)
        requires
            request.addr + request.len <= u32::MAX,
        ensures
            r.wf(),
            r == (Dump { device: request.device, addr: request.addr, left: request.len }),
    {
        Dump { device: request.device, addr: request.addr, left: request.len }
    }

    /// The stretch to read next, until the request is met.
    pub fn next_read(&self) -> (r: Option<Stretch>)
        ensures
            match r {
                Some(stretch) => self.left > 0 && stretch.len == self.take() && stretch.addr
                    == printed_of(address_of(self.addr as nat)),
                None => self.left == 0,
            },
    {
        if self.left == 0 {
            return None;
        }
        let len: usize = if self.left < BLOCK_BYTES as u32 {
            self.left as usize
        } else {
            BLOCK_BYTES
        };
        Some(Stretch { addr: printed(address_bytes(self.addr)), len })
    }

    /// The stretch was read: the block that carries it.
    pub fn give(&mut self, data: &[u8]) -> (r: Vec<u8>)
        requires
            old(self).wf(),
            data@.len() == old(self).take(),
        ensures
            final(self).wf(),
            *final(self) == (Dump {
                device: old(self).device,
                addr: (old(self).addr + data@.len()) as u32,
                left: (old(self).left - data@.len()) as u32,
            }),
            r@ == block_of(old(self).device, address_of(old(self).addr as nat), data@),
    {
        let r = data_block(self.device, address_bytes(self.addr), data);
        let taken: u32 = data.len() as u32;
        self.addr = self.addr + taken;
        self.left = self.left - taken;
        r
    }

    /// There is no such memory. A bad address is answered with silence.
    pub fn stop(&mut self)
        ensures
            *final(self) == (Dump { left: 0, ..*old(self) }),
    {
        self.left = 0;
    }
}

/// The blocks of a reply to a request for memory that is there.
pub open spec fn blocks(device: u8, addr: nat, memory: Seq<u8>) -> Seq<u8>
    decreases memory.len(),
{
    if memory.len() == 0 {
        Seq::empty()
    } else if memory.len() <= BLOCK_BYTES {
        block_of(device, address_of(addr), memory)
    } else {
        block_of(device, address_of(addr), memory.take(BLOCK_BYTES as int)) + blocks(
            device,
            addr + BLOCK_BYTES as nat,
            memory.skip(BLOCK_BYTES as int),
        )
    }
}

/// A reply is made block by block: the next block, and the reply to what is
/// then left, are the reply to the whole.
pub proof fn law_a_reply_is_its_blocks(dump: Dump, memory: Seq<u8>)
    requires
        dump.wf(),
        memory.len() == dump.left,
        dump.left > 0,
    ensures
        ({
            let n = dump.take() as int;
            blocks(dump.device, dump.addr as nat, memory) == block_of(
                dump.device,
                address_of(dump.addr as nat),
                memory.take(n),
            ) + blocks(dump.device, dump.addr as nat + n as nat, memory.skip(n))
        }),
{
    let n = dump.take() as int;
    if memory.len() <= BLOCK_BYTES {
        assert(memory.take(n) =~= memory);
        assert(memory.skip(n) =~= Seq::empty());
        assert(blocks(dump.device, dump.addr as nat, memory) =~= block_of(
            dump.device,
            address_of(dump.addr as nat),
            memory,
        ) + Seq::<u8>::empty());
    }
}

/// Gathers exclusive messages on their way to the module, and finds the
/// requests among them. Nothing else is kept.
#[derive(Debug)]
pub struct Responder {
    /// The exclusive message being gathered.
    pub pending: Vec<u8>,
}

impl Default for Responder {
    fn default() -> (r: Responder)
        ensures
            r.pending@ == Seq::<u8>::empty(),
    {
        Responder { pending: Vec::new() }
    }
}

/// The message being gathered after a byte, and the request that the byte
/// completed.
pub open spec fn gathered(pending: Seq<u8>, b: u8) -> (Seq<u8>, Option<Request>) {
    if b == EXCLUSIVE {
        (seq![b], None)
    } else if b == END_EXCLUSIVE {
        if pending.len() == 0 {
            (pending, None)
        } else {
            (Seq::empty(), request_of(pending.push(b)))
        }
    } else if b >= 0xf8 {
        (pending, None)
    } else if 0x80 <= b <= 0xef {
        (Seq::empty(), None)
    } else if pending.len() == 0 {
        (pending, None)
    } else if pending.len() >= MAX_MESSAGE_BYTES {
        (Seq::empty(), None)
    } else {
        (pending.push(b), None)
    }
}

impl Responder {
    pub open spec fn wf(self) -> bool {
        self.pending@.len() <= MAX_MESSAGE_BYTES
    }

    /// Take a byte on its way to the module, and report the request that it
    /// completed, if it completed one.
    ///
    /// A realtime byte may interrupt a message without ending it. The status
    /// byte of a channel message abandons it, and so does a message that does
    /// not end.
    pub fn write_byte(&mut self, b: u8) -> (r: Option<Request>)
        requires
            old(self).wf(),
        ensures
            final(self).wf(),
            (final(self).pending@, r) == gathered(old(self).pending@, b),
            r is Some ==> b == END_EXCLUSIVE,
    {
        if b == EXCLUSIVE {
            self.pending = Vec::new();
            self.pending.push(b);
            assert(self.pending@ =~= seq![b]);
            None
        } else if b == END_EXCLUSIVE {
            if self.pending.len() == 0 {
                return None;
            }
            self.pending.push(b);
            let r = parse_request(self.pending.as_slice());
            self.pending = Vec::new();
            r
        } else if b >= 0xf8 {
            None
        } else if 0x80 <= b && b <= 0xef {
            self.pending = Vec::new();
            None
        } else {
            if self.pending.len() > 0 {
                if self.pending.len() >= MAX_MESSAGE_BYTES {
                    self.pending = Vec::new();
                } else {
                    self.pending.push(b);
                }
            }
            None
        }
    }
}

proof fn lemma_sum_splits(a: Seq<u8>, b: Seq<u8>)
    ensures
        sum(a + b) == sum(a) + sum(b),
    decreases b.len(),
{
    if b.len() == 0 {
        assert(a + b =~= a);
    } else {
        assert((a + b).drop_last() =~= a + b.drop_last());
        lemma_sum_splits(a, b.drop_last());
    }
}

/// Every block adds up: its address, its data and its checksum together come
/// to a multiple of 128.
pub proof fn law_blocks_add_up(device: u8, addr: Seq<u8>, data: Seq<u8>)
    requires
        addr.len() == 3,
    ensures
        ({
            let block = block_of(device, addr, data);
            sum(block.subrange(5, block.len() - 1)) % 128 == 0
        }),
{
    let block = block_of(device, addr, data);
    let body = addr + data;
    let c = check(body);
    assert(block.subrange(5, block.len() - 1) =~= body + seq![c]);
    lemma_sum_splits(body, seq![c]);
    assert(seq![c].drop_last() =~= Seq::empty());
    assert(seq![c].last() == c);
    assert(sum(Seq::<u8>::empty()) == 0);
    assert(sum(seq![c]) == c as nat % 128);
    assert((sum(body) + (128 - sum(body) % 128) % 128) % 128 == 0) by (nonlinear_arith);
}

/// The message being gathered after some bytes, and what each byte completed.
pub open spec fn gathered_all(pending: Seq<u8>, bytes: Seq<u8>) -> (Seq<u8>, Seq<Option<Request>>)
    decreases bytes.len(),
{
    if bytes.len() == 0 {
        (pending, Seq::empty())
    } else {
        let (before, found) = gathered_all(pending, bytes.drop_last());
        let (after, request) = gathered(before, bytes.last());
        (after, found.push(request))
    }
}

/// Some bytes without the realtime bytes among them.
pub open spec fn data_of(bytes: Seq<u8>) -> Seq<u8>
    decreases bytes.len(),
{
    if bytes.len() == 0 {
        Seq::empty()
    } else if bytes.last() >= 0xf8 {
        data_of(bytes.drop_last())
    } else {
        data_of(bytes.drop_last()).push(bytes.last())
    }
}

/// An exclusive message is read whole, whatever was before it and whatever
/// realtime bytes interrupt it: nothing is found until its last byte, and then
/// a request exactly where the message is one for this module that adds up and
/// asks for no more than is answered.
pub proof fn law_messages_are_gathered_whole(pending: Seq<u8>, bytes: Seq<u8>)
    requires
        forall|i: int| 0 <= i < bytes.len() ==> (#[trigger] bytes[i]) < 0x80 || bytes[i] >= 0xf8,
        data_of(bytes).len() < MAX_MESSAGE_BYTES,
    ensures
        ({
            let m = seq![EXCLUSIVE] + data_of(bytes) + seq![END_EXCLUSIVE];
            let len = flat(m.subrange(8, 11));
            let (after, found) = gathered_all(
                pending,
                seq![EXCLUSIVE] + bytes + seq![END_EXCLUSIVE],
            );
            &&& found.len() == bytes.len() + 2
            &&& forall|i: int| 0 <= i < bytes.len() + 1 ==> (#[trigger] found[i]) is None
            &&& found.last() == (if m.len() == 13 && m[1] == MAKER_ID && m[3] == MODEL_MT32
                && m[4] == CMD_RQ1 && sum(m.subrange(5, 12)) % 128 == 0 && 0 < len
                <= MAX_DUMP_BYTES {
                Some(
                    Request {
                        device: m[2],
                        addr: flat(m.subrange(5, 8)) as u32,
                        len: len as u32,
                    },
                )
            } else {
                None
            })
            &&& after.len() == 0
        }),
{
    let start = seq![EXCLUSIVE] + bytes;
    let all = start + seq![END_EXCLUSIVE];
    let data = data_of(bytes);
    let m = seq![EXCLUSIVE] + data + seq![END_EXCLUSIVE];
    lemma_gathering(pending, bytes);
    assert(all.drop_last() =~= start);
    assert((seq![EXCLUSIVE] + data).push(END_EXCLUSIVE) =~= m);
    if m.len() == 13 {
        let body = m.subrange(5, 11);
        let c = m[11];
        lemma_data_is_data(bytes);
        assert(c == data[10]);
        assert(m.subrange(5, 12) =~= body + seq![c]);
        lemma_sum_splits(body, seq![c]);
        assert(seq![c].drop_last() =~= Seq::empty());
        assert(sum(Seq::<u8>::empty()) == 0);
        assert(sum(seq![c]) == c as nat);
        let s = sum(body) as int;
        let k = c as int;
        assert(((s + k) % 128 == 0) == (k == (128 - s % 128) % 128)) by (nonlinear_arith)
            requires
                0 <= k < 128,
                0 <= s,
        ;
    }
}

proof fn lemma_data_is_data(bytes: Seq<u8>)
    requires
        forall|i: int| 0 <= i < bytes.len() ==> (#[trigger] bytes[i]) < 0x80 || bytes[i] >= 0xf8,
    ensures
        forall|i: int| 0 <= i < data_of(bytes).len() ==> (#[trigger] data_of(bytes)[i]) < 0x80,
    decreases bytes.len(),
{
    if bytes.len() > 0 {
        let rest = bytes.drop_last();
        assert forall|i: int| 0 <= i < rest.len() implies (#[trigger] rest[i]) < 0x80 || rest[i]
            >= 0xf8 by {
            assert(rest[i] == bytes[i]);
        }
        lemma_data_is_data(rest);
        assert(bytes.last() == bytes[bytes.len() - 1]);
        assert forall|i: int| 0 <= i < data_of(bytes).len() implies (#[trigger] data_of(bytes)[i])
            < 0x80 by {
            if i < data_of(rest).len() {
                assert(data_of(bytes)[i] == data_of(rest)[i]);
            }
        }
    }
}

proof fn lemma_gathering(pending: Seq<u8>, bytes: Seq<u8>)
    requires
        forall|i: int| 0 <= i < bytes.len() ==> (#[trigger] bytes[i]) < 0x80 || bytes[i] >= 0xf8,
        data_of(bytes).len() < MAX_MESSAGE_BYTES,
    ensures
        ({
            let (after, found) = gathered_all(pending, seq![EXCLUSIVE] + bytes);
            &&& after == seq![EXCLUSIVE] + data_of(bytes)
            &&& found.len() == bytes.len() + 1
            &&& forall|i: int| 0 <= i < found.len() ==> (#[trigger] found[i]) is None
        }),
    decreases bytes.len(),
{
    let start = seq![EXCLUSIVE] + bytes;
    if bytes.len() == 0 {
        assert(start.drop_last() =~= Seq::empty());
        assert(gathered_all(pending, start.drop_last()).0 == pending);
        assert(seq![EXCLUSIVE] + data_of(bytes) =~= seq![EXCLUSIVE]);
    } else {
        let rest = bytes.drop_last();
        assert forall|i: int| 0 <= i < rest.len() implies (#[trigger] rest[i]) < 0x80 || rest[i]
            >= 0xf8 by {
            assert(rest[i] == bytes[i]);
        }
        assert(bytes.last() == bytes[bytes.len() - 1]);
        lemma_gathering(pending, rest);
        assert(start.drop_last() =~= seq![EXCLUSIVE] + rest);
        assert((seq![EXCLUSIVE] + data_of(rest)).push(bytes.last()) =~= seq![EXCLUSIVE] + data_of(
            rest,
        ).push(bytes.last()));
    }
}

/// A seven-bit address survives being written and read.
pub proof fn law_addresses_read_back(addr: nat)
    requires
        addr < 0x20_0000,
    ensures
        flat(address_of(addr)) == addr,
{
    assert(addr / 16384 % 128 == addr / 16384);
    assert(addr == addr / 16384 * 16384 + addr / 128 % 128 * 128 + addr % 128);
}

/// A printed address, made flat and written in bytes, prints the same.
pub proof fn law_printed_addresses_read_back(addr: nat)
    requires
        is_printed(addr),
    ensures
        linear_of(addr) < 0x20_0000,
        printed_of(address_of(linear_of(addr))) == addr,
{
    let a = addr / 65536;
    let b = addr / 256 % 256;
    let c = addr % 256;
    assert(addr == a * 65536 + b * 256 + c);
    assert(addr / 256 % 128 == b) by {
        assert(addr / 256 == a * 256 + b);
    }
    assert(addr % 128 == c);
    assert(a % 128 == a);
    let l = linear_of(addr);
    assert(l == a * 16384 + b * 128 + c);
    assert(l / 16384 == a);
    assert(l / 128 == a * 128 + b);
    assert(l / 128 % 128 == b);
    assert(l % 128 == c);
}

/// A block carries its address and its data as the unit reads them: behind
/// the exclusive status and the five bytes of its header, up to the checksum,
/// whose seven bits bring the sum of all of them to a multiple of 128.
pub proof fn law_blocks_are_framed(device: u8, addr: Seq<u8>, data: Seq<u8>)
    requires
        addr.len() == 3,
    ensures
        ({
            let block = block_of(device, addr, data);
            &&& block.len() == data.len() + 10
            &&& block.subrange(0, 5) == seq![0xf0u8, 0x41, device, 0x16, 0x12]
            &&& block.subrange(5, 8) == addr
            &&& block.subrange(8, 8 + data.len() as int) == data
            &&& block[8 + data.len() as int] < 128
            &&& (sum(addr) + sum(data) + block[8 + data.len() as int]) % 128 == 0
            &&& block[9 + data.len() as int] == 0xf7
        }),
{
    let block = block_of(device, addr, data);
    assert(block.subrange(0, 5) =~= seq![0xf0u8, 0x41, device, 0x16, 0x12]);
    assert(block.subrange(5, 8) =~= addr);
    assert(block.subrange(8, 8 + data.len() as int) =~= data);
    lemma_sum_splits(addr, data);
    let s = sum(addr + data);
    assert((s + (128 - s % 128) % 128) % 128 == 0) by (nonlinear_arith);
}

} // verus!
