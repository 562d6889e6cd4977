//! The graphics board and the parallel port.
use copperline::parallel::{null_parallel_port, FileParallelPort, NullParallelPort, ParallelPort};
use copperline::picasso2::{
    combine, open_bus, ChipRead, ChipWrite, Picasso2, Source, WINDOW_SIZE, WINDOW_VRAM,
};

/// As much of the graphics chip as the board can be told by: two register
/// files, video memory and a retrace latch.
#[derive(Clone)]
struct Chip {
    sequencer: [u8; 256],
    crtc: [u8; 256],
    seq_index: usize,
    crtc_index: usize,
    vram: Vec<u8>,
    retrace: bool,
}

impl Chip {
    fn new(vram: usize) -> Chip {
        Chip {
            sequencer: [0; 256],
            crtc: [0; 256],
            seq_index: 0,
            crtc_index: 0,
            vram: vec![0; vram],
            retrace: false,
        }
    }

    fn io_write(&mut self, port: u16, value: u8) {
        match port {
            0x3c4 => self.seq_index = value as usize,
            0x3c5 => self.sequencer[self.seq_index] = value,
            0x3d4 => self.crtc_index = value as usize,
            0x3d5 => {
                self.crtc[self.crtc_index] = value;
                if self.crtc_index == 0x11 && value & 0x10 == 0 {
                    self.retrace = false;
                }
            }
            _ => {}
        }
    }

    fn io_read(&self, port: u16) -> u8 {
        match port {
            0x3c2 => u8::from(self.retrace) << 7,
            0x3c4 => self.seq_index as u8,
            0x3c5 => self.sequencer[self.seq_index],
            0x3d5 if self.crtc_index == 0x27 => 0x98,
            0x3d5 => self.crtc[self.crtc_index],
            _ => 0xff,
        }
    }

    /// A mode is programmed and the screen is not blanked.
    fn video_valid(&self) -> bool {
        self.sequencer[0] == 3
            && self.sequencer[1] & 0x20 == 0
            && self.sequencer[7] & 1 == 1
            && self.crtc[0x12] > 0
            && self.crtc[0x13] > 0
    }

    fn tick(&mut self) {
        if self.video_valid() && self.crtc[0x11] & 0x10 != 0 {
            self.retrace = true;
        }
    }
}

#[derive(Clone)]
struct Fitted {
    board: Picasso2,
    chip: Chip,
}

impl Fitted {
    fn new(board: Picasso2, vram: usize) -> Fitted {
        Fitted { board, chip: Chip::new(vram) }
    }

    fn write(&mut self, off: u32, size: usize, value: u32) {
        for write in self.board.write(off, size, value) {
            match write {
                ChipWrite::Port { port, value } => self.chip.io_write(port, value),
                ChipWrite::Vram { off, size, value } => {
                    let at = off as usize;
                    if at + size <= self.chip.vram.len() {
                        let bytes = value.to_be_bytes();
                        self.chip.vram[at..at + size].copy_from_slice(&bytes[4 - size..]);
                    }
                }
            }
        }
    }

    fn read(&mut self, off: u32, size: usize) -> u32 {
        match self.board.read(off, size) {
            ChipRead::Registers(sources) => {
                let bytes: Vec<u8> = sources
                    .iter()
                    .map(|s| match s {
                        Source::Port(port) => self.chip.io_read(*port),
                        Source::OpenBus => 0xff,
                    })
                    .collect();
                combine(&bytes)
            }
            ChipRead::Vram { off, size } => {
                let at = off as usize;
                if at + size <= self.chip.vram.len() {
                    combine(&self.chip.vram[at..at + size])
                } else {
                    open_bus(size)
                }
            }
            ChipRead::OpenBus(value) => value,
        }
    }

    fn peek_word(&self, off: u32) -> Option<u16> {
        let at = self.board.peek_word(off, self.chip.vram.len())? as usize;
        Some(u16::from_be_bytes([self.chip.vram[at], self.chip.vram[at + 1]]))
    }

    fn rtg_active(&self) -> bool {
        self.board.rtg_active(self.chip.video_valid())
    }

    fn int2_line(&self) -> bool {
        self.board.int2_line(self.chip.retrace)
    }
}

fn regs(off: u32) -> u32 {
    off
}

fn vram(off: u32) -> u32 {
    WINDOW_VRAM * WINDOW_SIZE + off
}

fn default() -> Fitted {
    Fitted::new(Picasso2::default(), 2 * 1024 * 1024)
}

#[test]
fn register_word_write_reaches_index_and_data_ports() {
    let mut board = default();
    board.write(regs(0x3c4), 2, 0x0612);
    assert_eq!(board.read(regs(0x3c4), 2), 0x0612);
    board.write(regs(0x3c4), 1, 0x07);
    board.write(regs(0x13c4), 1, 0x01);
    assert_eq!(board.read(regs(0x13c4), 1), 0x01);
}

#[test]
fn vram_window_is_big_endian_on_the_bus_and_linear_in_storage() {
    let mut board = default();
    board.write(vram(2), 4, 0x1234_5678);
    assert_eq!(board.read(vram(2), 4), 0x1234_5678);
    assert_eq!(board.peek_word(vram(3)), Some(0x3456));
    assert_eq!(board.peek_word(regs(3)), None);
    assert_eq!(board.peek_word(vram(2 * 1024 * 1024 - 1)), None);
}

#[test]
fn monitor_switch_resets_to_native_and_ignores_odd_writes() {
    let mut board = default();
    board.write(regs(0x8001), 1, 0);
    assert!(!board.board.show_rtg);
    board.write(regs(0x8000), 1, 0);
    assert!(board.board.show_rtg);
    board.write(regs(0x9000), 1, 0);
    assert!(!board.board.show_rtg);
    board.write(regs(0xa000), 1, 0);
    assert!(board.board.show_rtg);
    board.board.reset();
    assert!(!board.board.show_rtg);
}

#[test]
fn monitor_switch_only_presents_a_valid_programmed_mode() {
    let mut board = default();
    board.write(regs(0x8000), 1, 0);
    assert!(!board.rtg_active(), "power-on register state is not video");

    for (port, value) in [
        (0x3c4, 6),
        (0x3c5, 0x12),
        (0x3c4, 0),
        (0x3c5, 3),
        (0x3c4, 1),
        (0x3c5, 0),
        (0x3c4, 7),
        (0x3c5, 1),
        (0x3d4, 1),
        (0x3d5, 1),
        (0x3d4, 0x12),
        (0x3d5, 15),
        (0x3d4, 0x13),
        (0x3d5, 2),
    ] {
        board.chip.io_write(port, value);
    }
    assert!(board.rtg_active());
    assert_eq!(board.board.rtg_frame(Some((16, 16))), Some((16, 16)));
    board.chip.io_write(0x3c4, 1);
    board.chip.io_write(0x3c5, 0x20);
    assert!(
        !board.rtg_active(),
        "sequencer blanking restores native video"
    );
}

#[test]
fn unused_register_and_vram_offsets_are_open_bus() {
    let mut board = Fitted::new(Picasso2::new(), 1024 * 1024);
    assert_eq!(board.read(regs(0x2000), 1), 0xff);
    assert_eq!(board.read(regs(0x2000), 2), 0xffff);
    assert_eq!(board.read(vram(1024 * 1024), 4), 0xffff_ffff);
    assert_eq!(board.read(2 * WINDOW_SIZE, 2), 0xffff);
}

fn program_interrupt_mode(chip: &mut Chip) {
    for (port, value) in [
        (0x3c4, 6),
        (0x3c5, 0x12),
        (0x3c4, 0),
        (0x3c5, 3),
        (0x3c4, 7),
        (0x3c5, 1),
        (0x3d4, 0),
        (0x3d5, 15),
        (0x3d4, 1),
        (0x3d5, 1),
        (0x3d4, 6),
        (0x3d5, 20),
        (0x3d4, 0x10),
        (0x3d5, 16),
        (0x3d4, 0x11),
        (0x3d5, 0x12),
        (0x3d4, 0x12),
        (0x3d5, 15),
        (0x3d4, 0x13),
        (0x3d5, 2),
    ] {
        chip.io_write(port, value);
    }
}

#[test]
fn picasso2plus_latches_int2_at_vblank_and_cr11_acknowledges_it() {
    let mut plus = Fitted::new(Picasso2::new_plus(), 1024 * 1024);
    program_interrupt_mode(&mut plus.chip);
    plus.write(regs(0x1001), 1, 0);
    for _ in 0..200_000 {
        plus.chip.tick();
        if plus.int2_line() {
            break;
        }
    }
    assert!(plus.int2_line());
    assert_ne!(plus.chip.io_read(0x3c2) & 0x80, 0);

    let mut resumed = plus.clone();
    assert_eq!(resumed.board.kind(), "picasso2plus");
    assert!(resumed.int2_line());
    resumed.chip.io_write(0x3d4, 0x27);
    assert_eq!(resumed.chip.io_read(0x3d5), 0x98);

    for board in [&mut plus, &mut resumed] {
        board.chip.io_write(0x3d4, 0x11);
        board.chip.io_write(0x3d5, 0x02);
        assert!(!board.int2_line());
        assert_eq!(board.chip.io_read(0x3c2) & 0x80, 0);
    }

    let mut plain = Fitted::new(Picasso2::new(), 1024 * 1024);
    program_interrupt_mode(&mut plain.chip);
    plain.write(regs(0x1001), 1, 0);
    for _ in 0..200_000 {
        plain.chip.tick();
    }
    assert!(!plain.int2_line());
    assert_eq!(plain.board.kind(), "picasso2");
}

#[test]
fn null_parallel_port_models_an_unplugged_peripheral() {
    assert!(!NullParallelPort.strobe(0x55, 123));
    let mut port = null_parallel_port();
    assert_eq!(port.read_data(1), None);
    assert!(port.flush());
}

#[test]
fn a_capture_that_failed_takes_no_more_bytes() {
    let mut port = FileParallelPort::create();
    assert!(port.accepts());
    assert!(port.wrote(true));
    assert!(!port.wrote(false));
    assert!(!port.accepts());
}
