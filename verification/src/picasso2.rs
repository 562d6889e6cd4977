//! A graphics board with two apertures: its registers, and its video memory.
//!
//! Both revisions of the board share these apertures. The offset of an access
//! is tagged with its aperture. What the board decides is which accesses reach
//! its graphics chip, what an access that reaches nothing reads, which of the
//! two pictures the monitor shows, and when it interrupts.
use vstd::prelude::*;
use crate::bytes::be_value;

verus! {

/// The bits of a tagged offset that are the offset itself.
pub const WINDOW_SIZE: u32 = 0x1000_0000;

/// The register aperture's tag, and the video memory's.
pub const WINDOW_REGS: u32 = 0;

pub const WINDOW_VRAM: u32 = 1;

/// The ports of the chip that are decoded.
pub const FIRST_PORT: u32 = 0x3b0;

pub const LAST_PORT: u32 = 0x3df;

/// What a board decides by.
#[derive(Clone, Copy, Debug, PartialEq, Eq, Structural)]
pub struct Picasso2 {
    /// The later revision.
    pub plus: bool,
    /// The monitor shows the board's picture.
    pub show_rtg: bool,
    pub interrupt_enabled: bool,
}

/// An access that the chip carries out.
#[derive(Clone, Copy, Debug, PartialEq, Eq, Structural)]
pub enum ChipWrite {
    Port { port: u16, value: u8 },
    Vram { off: u32, size: usize, value: u32 },
}

/// Where one byte of a read comes from.
#[derive(Clone, Copy, Debug, PartialEq, Eq, Structural)]
pub enum Source {
    Port(u16),
    OpenBus,
}

/// Where a read comes from.
#[derive(Clone, Debug)]
pub enum ChipRead {
    /// These bytes, the first the highest.
    Registers(Vec<Source>),
    Vram { off: u32, size: usize },
    /// Nothing answers, and this is what is read.
    OpenBus(u32),
}

/// What is read where nothing answers.
pub open spec fn open_bus_value(size: nat) -> u32 {
    if size == 1 {
        0xff
    } else if size == 2 {
        0xffff
    } else if size == 4 {
        0xffff_ffff
    } else {
        0
    }
}

pub fn open_bus(size: usize) -> (r: u32)
    ensures
        r == open_bus_value(size as nat),
{
    if size == 1 {
        0xff
    } else if size == 2 {
        0xffff
    } else if size == 4 {
        0xffff_ffff
    } else {
        0
    }
}

/// The port that an offset below the switches decodes to. In its upper half
/// the odd ports appear at even offsets.
pub open spec fn port_of(off: nat) -> nat {
    if off >= 0x1000 {
        off % 0x1000 + 1
    } else {
        off
    }
}

/// Where a byte of the register aperture is read from.
pub open spec fn source_of(off: nat) -> Source {
    if off < 0x2000 && FIRST_PORT <= port_of(off) <= LAST_PORT {
        Source::Port(port_of(off) as u16)
    } else {
        Source::OpenBus
    }
}

fn read_register_byte(off: u32) -> (r: Source)
    ensures
        r == source_of(off as nat),
{
    if off >= 0x2000 {
        return Source::OpenBus;
    }
    let port: u32 = if off >= 0x1000 {
        off % 0x1000 + 1
    } else {
        off
    };
    if port < FIRST_PORT || port > LAST_PORT {
        return Source::OpenBus;
    }
    Source::Port(port as u16)
}

/// The byte of a value that is written at a place, the first the highest.
pub open spec fn byte_of(value: u32, size: nat, i: int) -> u8 {
    if size - 1 - i == 3 {
        (value / 0x100_0000) as u8
    } else if size - 1 - i == 2 {
        (value / 0x1_0000 % 0x100) as u8
    } else if size - 1 - i == 1 {
        (value / 0x100 % 0x100) as u8
    } else {
        (value % 0x100) as u8
    }
}

fn byte_at(value: u32, size: usize, i: usize) -> (r: u8)
    requires
        i < size <= 4,
    ensures
        r == byte_of(value, size as nat, i as int),
{
    let place: usize = size - 1 - i;
    if place == 3 {
        (value / 0x100_0000) as u8
    } else if place == 2 {
        (value / 0x1_0000 % 0x100) as u8
    } else if place == 1 {
        (value / 0x100 % 0x100) as u8
    } else {
        (value % 0x100) as u8
    }
}

impl Picasso2 {
    pub fn new() -> (r: Picasso2)
        ensures
            r == (Picasso2 { plus: false, show_rtg: false, interrupt_enabled: false }),
    {
        Picasso2 { plus: false, show_rtg: false, interrupt_enabled: false }
    }

    pub fn new_plus() -> (r: Picasso2)
        ensures
            r == (Picasso2 { plus: true, show_rtg: false, interrupt_enabled: false }),
    {
        Picasso2 { plus: true, show_rtg: false, interrupt_enabled: false }
    }

    /// Whether the monitor shows the board's picture: it is switched to it,
    /// and the chip has one.
    pub fn rtg_active(&self, video_valid: bool) -> (r: bool)
        ensures
            r == (self.show_rtg && video_valid),
    {
        self.show_rtg && video_valid
    }

    /// The board's picture, where the monitor is switched to it.
    pub fn rtg_frame(&self, composed: Option<(u32, u32)>) -> (r: Option<(u32, u32)>)
        ensures
            r == (if self.show_rtg {
                composed
            } else {
                None
            }),
    {
        if self.show_rtg {
            composed
        } else {
            None
        }
    }

    /// The board after a byte was written to the register aperture.
    pub open spec fn written(self, off: nat) -> Picasso2 {
        if off >= 0x8000 {
            if off % 2 == 0 && (off / 0x1000 == 0x8 || off / 0x1000 == 0xa) {
                Picasso2 { show_rtg: true, ..self }
            } else if off % 2 == 0 && (off / 0x1000 == 0x9 || off / 0x1000 == 0xb) {
                Picasso2 { show_rtg: false, ..self }
            } else {
                self
            }
        } else if off == 0x1000 {
            Picasso2 { interrupt_enabled: false, ..self }
        } else if off == 0x1001 {
            Picasso2 { interrupt_enabled: true, ..self }
        } else {
            self
        }
    }

    /// The write that reaches the chip, where one does.
    pub open spec fn port_write(off: nat, value: u8) -> Option<ChipWrite> {
        if off < 0x2000 && off != 0x1000 && off != 0x1001 && FIRST_PORT <= port_of(off)
            <= LAST_PORT {
            Some(ChipWrite::Port { port: port_of(off) as u16, value })
        } else {
            None
        }
    }

    fn write_register_byte(&mut self, off: u32, value: u8) -> (r: Option<ChipWrite>)
        ensures
            *final(self) == old(self).written(off as nat),
            r == Self::port_write(off as nat, value),
    {
        if off >= 0x8000 {
            if off % 2 == 0 {
                let bank: u32 = off / 0x1000;
                if bank == 0x8 || bank == 0xa {
                    self.show_rtg = true;
                } else if bank == 0x9 || bank == 0xb {
                    self.show_rtg = false;
                }
            }
            return None;
        }
        if off == 0x1000 {
            self.interrupt_enabled = false;
            return None;
        }
        if off == 0x1001 {
            self.interrupt_enabled = true;
            return None;
        }
        match read_register_byte(off) {
            Source::Port(port) => Some(ChipWrite::Port { port, value }),
            Source::OpenBus => None,
        }
    }

    /// The board after the first bytes of a write to the register aperture.
    pub open spec fn written_all(self, off: nat, n: nat) -> Picasso2
        decreases n,
    {
        if n == 0 {
            self
        } else {
            self.written_all(off, (n - 1) as nat).written((off + n - 1) as nat)
        }
    }

    /// The writes that reach the chip, of the first bytes of a write.
    pub open spec fn port_writes(off: nat, size: nat, value: u32, n: nat) -> Seq<ChipWrite>
        decreases n,
    {
        if n == 0 {
            Seq::empty()
        } else {
            let before = Self::port_writes(off, size, value, (n - 1) as nat);
            match Self::port_write((off + n - 1) as nat, byte_of(value, size, n - 1)) {
                Some(write) => before.push(write),
                None => before,
            }
        }
    }

    /// A read. Returns where what is read comes from.
    pub fn read(&self, tagged_off: u32, size: usize) -> (r: ChipRead)
        requires
            tagged_off / WINDOW_SIZE == WINDOW_REGS ==> tagged_off % WINDOW_SIZE + size <= u32::MAX,
        ensures
            ({
                let window = tagged_off / 0x1000_0000;
                let off = tagged_off % 0x1000_0000;
                if window == 0 {
                    r matches ChipRead::Registers(sources) && sources@.len() == size && forall|
                        i: int,
                    |
                        0 <= i < size ==> #[trigger] sources@[i] == source_of((off + i) as nat)
                } else if window == 1 {
                    r matches ChipRead::Vram { off: at, size: n } && at == off && n == size
                } else {
                    r matches ChipRead::OpenBus(value) && value == open_bus_value(size as nat)
                }
            }),
    {
        let window: u32 = tagged_off / WINDOW_SIZE;
        let off: u32 = tagged_off % WINDOW_SIZE;
        if window == WINDOW_REGS {
            let mut sources: Vec<Source> = Vec::new();
            let mut i: usize = 0;
            while i < size
                invariant
                    i <= size,
                    off + size <= u32::MAX,
                    sources@.len() == i,
                    forall|k: int|
                        0 <= k < i ==> #[trigger] sources@[k] == source_of((off + k) as nat),
                decreases size - i,
            {
                sources.push(read_register_byte(off + i as u32));
                i += 1;
            }
            ChipRead::Registers(sources)
        } else if window == WINDOW_VRAM {
            ChipRead::Vram { off, size }
        } else {
            ChipRead::OpenBus(open_bus(size))
        }
    }

    /// A write. Returns the writes that reach the chip, in order.
    pub fn write(&mut self, tagged_off: u32, size: usize, value: u32) -> (r: Vec<ChipWrite>)
        requires
            size <= 4,
        ensures
            ({
                let window = tagged_off / 0x1000_0000;
                let off = (tagged_off % 0x1000_0000) as nat;
                if window == 0 {
                    &&& *final(self) == old(self).written_all(off, size as nat)
                    &&& r@ == Self::port_writes(off, size as nat, value, size as nat)
                } else if window == 1 {
                    &&& *final(self) == *old(self)
                    &&& r@ == seq![ChipWrite::Vram { off: off as u32, size, value }]
                } else {
                    &&& *final(self) == *old(self)
                    &&& r@ == Seq::<ChipWrite>::empty()
                }
            }),
    {
        let window: u32 = tagged_off / WINDOW_SIZE;
        let off: u32 = tagged_off % WINDOW_SIZE;
        let mut out: Vec<ChipWrite> = Vec::new();
        if window == WINDOW_REGS {
            let mut i: usize = 0;
            while i < size
                invariant
                    i <= size <= 4,
                    off < WINDOW_SIZE,
                    *self == old(self).written_all(off as nat, i as nat),
                    out@ == Self::port_writes(off as nat, size as nat, value, i as nat),
                decreases size - i,
            {
                if let Some(write) = self.write_register_byte(
                    off + i as u32,
                    byte_at(value, size, i),
                ) {
                    out.push(write);
                }
                i += 1;
            }
        } else if window == WINDOW_VRAM {
            out.push(ChipWrite::Vram { off, size, value });
            assert(out@ =~= seq![ChipWrite::Vram { off, size, value }]);
        }
        out
    }

    /// Where a word of video memory can be looked at without an access.
    pub fn peek_word(&self, tagged_off: u32, vram_len: usize) -> (r: Option<u32>)
        ensures
            ({
                let off = tagged_off % 0x1000_0000;
                r == (if tagged_off / 0x1000_0000 == 1 && off + 2 <= vram_len {
                    Some(off)
                } else {
                    None
                })
            }),
    {
        let window: u32 = tagged_off / WINDOW_SIZE;
        let off: u32 = tagged_off % WINDOW_SIZE;
        if window != WINDOW_VRAM || (off as usize) + 2 > vram_len {
            return None;
        }
        Some(off)
    }

    /// Whether the board interrupts: only the later revision does, where the
    /// program asked for it and the chip has a retrace pending.
    pub fn int2_line(&self, vblank_pending: bool) -> (r: bool)
        ensures
            r == (self.plus && self.interrupt_enabled && vblank_pending),
    {
        self.plus && self.interrupt_enabled && vblank_pending
    }

    /// The monitor shows the computer's own picture again, and nothing
    /// interrupts.
    pub fn reset(&mut self)
        ensures
            *final(self) == (Picasso2 {
                show_rtg: false,
                interrupt_enabled: false,
                ..*old(self)
            }),
    {
        self.show_rtg = false;
        self.interrupt_enabled = false;
    }

    pub fn kind(&self) -> (r: &'static str)
        ensures
            r@ == (if self.plus {
                "picasso2plus"@
            } else {
                "picasso2"@
            }),
    {
        if self.plus {
            "picasso2plus"
        } else {
            "picasso2"
        }
    }
}

impl Default for Picasso2 {
    fn default() -> (r: Picasso2)
        ensures
            r == (Picasso2 { plus: false, show_rtg: false, interrupt_enabled: false }),
    {
        Picasso2::new()
    }
}

proof fn lemma_shifted_in(value: nat, byte: nat)
    requires
        byte < 0x100,
    ensures
        (value % 0x1_0000_0000) % 0x100_0000 * 0x100 + byte == (value * 0x100 + byte)
            % 0x1_0000_0000,
{
    let low = value % 0x100_0000;
    let high = value / 0x100_0000;
    assert(value == high * 0x100_0000 + low);
    assert((value % 0x1_0000_0000) % 0x100_0000 == low);
    assert(value * 0x100 + byte == high * 0x1_0000_0000 + (low * 0x100 + byte));
}

/// The value that some bytes make, the first the highest; only the last four
/// count.
pub fn combine(bytes: &[u8]) -> (r: u32)
    ensures
        r == be_value(bytes@) % 0x1_0000_0000,
{
    let mut value: u32 = 0;
    let mut i: usize = 0;
    assert(bytes@.take(0) =~= Seq::empty());
    while i < bytes.len()
        invariant
            i <= bytes@.len(),
            value == be_value(bytes@.take(i as int)) % 0x1_0000_0000,
        decreases bytes@.len() - i,
    {
        proof {
            let taken = bytes@.take(i + 1);
            assert(taken.drop_last() =~= bytes@.take(i as int));
            assert(taken.last() == bytes@[i as int]);
            lemma_shifted_in(be_value(taken.drop_last()), bytes@[i as int] as nat);
        }
        value = (value % 0x100_0000) * 0x100 + bytes[i] as u32;
        i += 1;
    }
    assert(bytes@.take(i as int) =~= bytes@);
    value
}

/// The bytes of a write put together again are its value, as far as it was
/// written.
pub proof fn law_writes_read_back(value: u32)
    ensures
        be_value(Seq::new(4, |i: int| byte_of(value, 4, i))) == value,
        be_value(Seq::new(2, |i: int| byte_of(value, 2, i))) == value % 0x1_0000,
        be_value(Seq::new(1, |i: int| byte_of(value, 1, i))) == value % 0x100,
{
    let a = Seq::new(4, |i: int| byte_of(value, 4, i));
    let b = Seq::new(2, |i: int| byte_of(value, 2, i));
    let c = Seq::new(1, |i: int| byte_of(value, 1, i));
    reveal_with_fuel(be_value, 5);
    assert(c.drop_last() =~= Seq::empty());
    assert(b.drop_last().drop_last() =~= Seq::empty());
    assert(a.drop_last().drop_last().drop_last().drop_last() =~= Seq::empty());
    assert(a.drop_last().last() == byte_of(value, 4, 2));
    assert(a.drop_last().drop_last().last() == byte_of(value, 4, 1));
    assert(a.drop_last().drop_last().drop_last().last() == byte_of(value, 4, 0));
    assert(b.drop_last().last() == byte_of(value, 2, 0));
}

/// What the bus reads where nothing answers: every bit set, over as many
/// bytes as are read.
pub proof fn law_an_open_bus_reads_ones()
    ensures
        open_bus_value(1) == 0x100 - 1,
        open_bus_value(2) == 0x1_0000 - 1,
        open_bus_value(4) == 0x1_0000_0000 - 1,
{
}

/// The registers: the chip's ports from 0x3b0 to 0x3df stand at their own
/// place, and once more 0xfff bytes higher, each at the place of the one
/// before it; nothing else answers.
pub proof fn law_ports_stand_twice(off: nat)
    ensures
        0x3b0 <= off <= 0x3df ==> source_of(off) == Source::Port(off as u16),
        0x13af <= off <= 0x13de ==> source_of(off) == Source::Port((off - 0xfff) as u16),
        !(0x3b0 <= off <= 0x3df) && !(0x13af <= off <= 0x13de) ==> source_of(off)
            == Source::OpenBus,
{
}

/// A byte written to a port's place goes to the chip as it is; no other does.
pub proof fn law_writes_go_to_the_ports(off: nat, value: u8)
    ensures
        0x3b0 <= off <= 0x3df ==> Picasso2::port_write(off, value) == Some(
            ChipWrite::Port { port: off as u16, value },
        ),
        0x13af <= off <= 0x13de ==> Picasso2::port_write(off, value) == Some(
            ChipWrite::Port { port: (off - 0xfff) as u16, value },
        ),
        !(0x3b0 <= off <= 0x3df) && !(0x13af <= off <= 0x13de) ==> Picasso2::port_write(off, value)
            is None,
{
}

/// The board's own switches: the board's picture is shown after a write to an
/// even place of 0x8000 or 0xa000 and up, the machine's after one of 0x9000 or
/// 0xb000 and up; the interrupt is let through after one to 0x1001 and not
/// after one to 0x1000. No other write does anything to them.
pub proof fn law_switches_are_thrown_by_their_place(p: Picasso2, off: nat)
    requires
        off < 0x1_0000,
    ensures
        off % 2 == 0 && (0x8000 <= off < 0x9000 || 0xa000 <= off < 0xb000) ==> p.written(off) == (
        Picasso2 { show_rtg: true, ..p }),
        off % 2 == 0 && (0x9000 <= off < 0xa000 || 0xb000 <= off < 0xc000) ==> p.written(off) == (
        Picasso2 { show_rtg: false, ..p }),
        off == 0x1000 ==> p.written(off) == (Picasso2 { interrupt_enabled: false, ..p }),
        off == 0x1001 ==> p.written(off) == (Picasso2 { interrupt_enabled: true, ..p }),
        off >= 0xc000 || (off >= 0x8000 && off % 2 == 1) || (off < 0x8000 && off != 0x1000 && off
            != 0x1001) ==> p.written(off) == p,
{
}

/// A wider write is its bytes, the highest first, each at the next place.
pub proof fn law_wide_writes_are_their_bytes(p: Picasso2, off: nat, size: nat, value: u32, n: nat)
    requires
        n > 0,
    ensures
        p.written_all(off, n) == p.written_all(off, (n - 1) as nat).written((off + n - 1) as nat),
        p.written_all(off, 0) == p,
        Picasso2::port_writes(off, size, value, 0) == Seq::<ChipWrite>::empty(),
        Picasso2::port_writes(off, size, value, n) == (match Picasso2::port_write(
            (off + n - 1) as nat,
            byte_of(value, size, n - 1),
        ) {
            Some(write) => Picasso2::port_writes(off, size, value, (n - 1) as nat).push(write),
            None => Picasso2::port_writes(off, size, value, (n - 1) as nat),
        }),
{
}

} // verus!
