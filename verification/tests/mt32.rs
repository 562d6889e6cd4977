//! The MT-32's messages, ROMs and pacing.
use copperline::hostpath::HostPath;
use copperline::mt32::addr;
use copperline::mt32::demo::{
    read_stream, songs, Event, Player, Song, ADDR_RESET, END, ROM_SIZE, SONG_REFS, STOP, STREAM,
    SYNC, TICK,
};
use copperline::mt32::display::display;
use copperline::mt32::pace::{gcd, Pace, TAPS};
use copperline::mt32::reply::{
    address_bytes, address_value, checksum, data_block, dt1, linear, parse_request, printed, Dump,
    Request, Responder, CMD_DT1, CMD_RQ1, MAKER_ID, MAX_DUMP_BYTES, MAX_MESSAGE_BYTES, MODEL_MT32,
};
use copperline::mt32::rom::version_line;
use copperline::mt32::sink::{Mt32Device, Mt32Roms, NextFrame, BLOCK_FRAMES};

fn request_bytes(addr: u32, len: u32) -> Vec<u8> {
    let mut body = Vec::new();
    body.extend_from_slice(&address_bytes(addr));
    body.extend_from_slice(&address_bytes(len));
    let mut msg = vec![0xF0, MAKER_ID, 0x10, MODEL_MT32, CMD_RQ1];
    msg.extend_from_slice(&body);
    msg.push(checksum(&body));
    msg.push(0xF7);
    msg
}

#[test]
fn a_request_is_read_back_out_of_its_bytes() {
    let msg = request_bytes(linear(addr::PATCH_TEMP), 16);
    assert_eq!(
        parse_request(&msg),
        Some(Request {
            device: 0x10,
            addr: linear(addr::PATCH_TEMP),
            len: 16,
        })
    );
}

#[test]
fn a_request_that_does_not_add_up_is_not_answered() {
    let mut msg = request_bytes(linear(addr::PATCH_TEMP), 16);
    let last = msg.len() - 2;
    msg[last] ^= 0x01;
    assert_eq!(parse_request(&msg), None);
}

#[test]
fn other_makers_and_the_other_direction_are_left_alone() {
    let mut other = request_bytes(linear(addr::PATCH_TEMP), 16);
    other[1] = 0x43;
    assert_eq!(parse_request(&other), None);

    let mut write = request_bytes(linear(addr::PATCH_TEMP), 16);
    write[4] = CMD_DT1;
    assert_eq!(parse_request(&write), None);
}

#[test]
fn an_absurd_length_is_refused() {
    assert_eq!(parse_request(&request_bytes(0, MAX_DUMP_BYTES + 1)), None);
    assert_eq!(parse_request(&request_bytes(0, 0)), None);
    assert!(parse_request(&request_bytes(0, MAX_DUMP_BYTES)).is_some());
}

#[test]
fn a_block_carries_its_address_and_adds_up() {
    let block = data_block(0x10, address_bytes(linear(0x03_0000)), &[1, 2, 3]);
    assert_eq!(block[..5], [0xF0, MAKER_ID, 0x10, MODEL_MT32, CMD_DT1]);
    assert_eq!(block[5..8], [0x03, 0x00, 0x00]);
    assert_eq!(block[8..11], [1, 2, 3]);
    assert_eq!(*block.last().unwrap(), 0xF7);
    let sum: u32 = block[5..block.len() - 1]
        .iter()
        .map(|&b| u32::from(b))
        .sum();
    assert_eq!(sum % 128, 0);
}

#[test]
fn a_seven_bit_address_survives_the_round_trip() {
    for addr in [0, 0xC000, 0x40016, 0x1F_FFFF] {
        assert_eq!(address_value(&address_bytes(addr)), addr);
    }
}

#[test]
fn the_manual_s_addresses_convert_to_the_engine_s() {
    assert_eq!(linear(0x10_0016), (0x10 << 14) | 0x16);
    assert_eq!(linear(0x03_0000), 0x03 << 14);
    assert_eq!(address_bytes(linear(0x10_0016)), [0x10, 0x00, 0x16]);
    assert_eq!(printed(address_bytes(linear(0x10_0016))), 0x10_0016);
}

fn feed(responder: &mut Responder, bytes: &[u8]) -> Option<Request> {
    let mut request = None;
    for &b in bytes {
        if let Some(r) = responder.write_byte(b) {
            request = Some(r);
        }
    }
    request
}

#[test]
fn only_exclusive_traffic_is_gathered() {
    let mut responder = Responder::default();
    assert!(feed(&mut responder, &[0x91, 0x3C, 0x40, 0x81, 0x3C, 0x00]).is_none());
    assert!(responder.pending.is_empty());
}

#[test]
fn a_request_split_across_writes_still_arrives() {
    let msg = request_bytes(linear(addr::MASTER_VOLUME), 1);
    let mut responder = Responder::default();
    assert!(feed(&mut responder, &msg[..4]).is_none());
    assert!(feed(&mut responder, &msg[4..]).is_some());
}

#[test]
fn a_clock_byte_through_the_middle_does_not_break_it() {
    let msg = request_bytes(linear(addr::MASTER_VOLUME), 1);
    let mut responder = Responder::default();
    let mut with_clock = msg[..6].to_vec();
    with_clock.push(0xF8);
    with_clock.extend_from_slice(&msg[6..]);
    assert_eq!(feed(&mut responder, &with_clock), parse_request(&msg));
}

#[test]
fn a_status_byte_through_the_middle_abandons_the_message() {
    let msg = request_bytes(linear(addr::MASTER_VOLUME), 1);
    let mut responder = Responder::default();
    let mut interrupted = msg[..6].to_vec();
    interrupted.extend_from_slice(&[0x91, 0x3C, 0x40]);
    interrupted.extend_from_slice(&msg[6..]);
    assert_eq!(feed(&mut responder, &interrupted), None);
    assert!(responder.pending.is_empty());

    assert!(feed(&mut responder, &msg).is_some());
}

#[test]
fn a_message_that_never_ends_does_not_grow_without_bound() {
    let mut responder = Responder::default();
    responder.write_byte(0xF0);
    for _ in 0..MAX_MESSAGE_BYTES * 3 {
        responder.write_byte(0x00);
        assert!(responder.pending.len() <= MAX_MESSAGE_BYTES);
    }
}

#[test]
fn a_long_reply_comes_in_blocks_and_a_bad_address_in_silence() {
    let memory: Vec<u8> = (0..600u32).map(|i| (i % 128) as u8).collect();
    let request = Request { device: 0x10, addr: linear(0x08_0000), len: 600 };
    let mut dump = Dump::answer(request);
    let mut out = Vec::new();
    let mut at = 0;
    let mut sizes = Vec::new();
    while let Some(stretch) = dump.next_read() {
        sizes.push(stretch.len);
        assert_eq!(stretch.addr, printed(address_bytes(request.addr + at as u32)));
        out.extend(dump.give(&memory[at..at + stretch.len]));
        at += stretch.len;
    }
    assert_eq!(sizes, vec![256, 256, 88]);
    assert_eq!(out.len(), 600 + 3 * 10);
    assert_eq!(out[8..264], memory[..256]);
    // The second block begins one page on.
    assert_eq!(out[266 + 5..266 + 8], [0x08, 0x02, 0x00]);

    let mut nowhere = Dump::answer(request);
    nowhere.stop();
    assert!(nowhere.next_read().is_none());
}

#[test]
fn an_image_with_no_songs_in_it_has_none() {
    assert!(songs(&[0u8; 0x400]).is_empty(), "far too small");
    assert!(songs(&[]).is_empty(), "no image at all");
}

#[test]
fn a_message_is_built_with_its_address_and_checksum() {
    let msg = dt1(0x10_0001, &[1, 2, 3]);
    assert_eq!(msg[..5], [0xF0, 0x41, 0x10, 0x16, 0x12]);
    assert_eq!(msg[5..8], [0x10, 0x00, 0x01], "the address it is sent to");
    assert_eq!(*msg.last().unwrap(), 0xF7);
    let sum: u32 = msg[5..msg.len() - 1].iter().map(|&b| u32::from(b)).sum();
    assert_eq!(sum % 128, 0, "it adds up");
}

#[test]
fn the_performance_reads_wait_then_message() {
    let stream = [0, 0x91, 0x3C, 0x64, 24, 0x3E, 0x64, 12, 0xC1, 0x05, END];
    let events = read_stream(&stream);
    assert_eq!(events.len(), 3);
    assert_eq!(
        events[0],
        Event {
            wait: 0,
            message: vec![0x91, 0x3C, 0x64]
        }
    );
    assert_eq!(
        events[1],
        Event {
            wait: 24,
            message: vec![0x91, 0x3E, 0x64]
        },
        "carrying on with the last status"
    );
    assert_eq!(
        events[2],
        Event {
            wait: 12,
            message: vec![0xC1, 0x05]
        },
        "a program change carries one byte"
    );
    assert_eq!(read_stream(&[0, 0x91, 0x3C, 0x64, 5, STOP]).len(), 1);
    let timed = read_stream(&[SYNC, SYNC, 0, 0x91, 0x3C, 0x64, END]);
    assert_eq!(timed.len(), 3);
    assert!(timed[0].message.is_empty(), "nothing to play, only to wait");
    assert_eq!(timed[2].message, vec![0x91, 0x3C, 0x64]);
}

/// An image whose five songs are one and the same.
fn image() -> Vec<u8> {
    let mut image = vec![0u8; ROM_SIZE];
    let at = 0x1_0000;
    for n in 0..5 {
        let word = ((at - 0x8000) / 2) as u16;
        image[SONG_REFS + 2 * n..SONG_REFS + 2 * n + 2].copy_from_slice(&word.to_le_bytes());
    }
    image[at..at + 14].copy_from_slice(b" A song \xff     ");
    image[at + TICK..at + TICK + 2].copy_from_slice(&6250u16.to_le_bytes());
    image[at + STREAM..at + STREAM + 5].copy_from_slice(&[3, 0x91, 0x3C, 0x64, END]);
    // Two patches, one of a group that the unit has not got.
    image[0x8800] = 5;
    image[0x8801] = 5;
    // The first timbre, with its second and fourth partials flagged.
    image[0x8700..0x8702].copy_from_slice(&0x4000u16.to_le_bytes());
    image[0x4000 + 12] = 0b1010;
    for i in 0..3 {
        for k in 0..58 {
            image[0x4000 + 14 + 58 * i + k] = 10 + i as u8;
        }
    }
    image
}

#[test]
fn songs_come_with_their_settings() {
    let list = songs(&image());
    assert_eq!(list.len(), 5);
    let song = &list[0];
    assert_eq!(song.title, "A song \u{fffd}");
    assert_eq!(song.tick, 6250);
    assert_eq!(song.events.len(), 1);
    let reset = dt1(ADDR_RESET, &[]);
    assert!(song.setup.starts_with(&reset));
    // The first timbre is the fourth message.
    let at = reset.len() + (12 + 10) + (256 + 10);
    let timbre = &song.setup[at + 8..at + 8 + 14 + 4 * 58];
    assert_eq!(song.setup[at + 5..at + 8], [0x08, 0x00, 0x00]);
    let partials: Vec<u8> = (0..4).map(|i| timbre[14 + 58 * i]).collect();
    assert_eq!(partials, vec![10, 11, 11, 12]);
    // Behind the timbres come the patches.
    let patches = at + 22 * (14 + 4 * 58 + 10);
    assert_eq!(song.setup[patches + 5..patches + 10], [0x05, 0x00, 0x00, 2, 5]);

    // A song that is cut short takes all of them with it.
    let mut broken = image();
    broken[SONG_REFS..SONG_REFS + 2].copy_from_slice(&0xffffu16.to_le_bytes());
    assert!(songs(&broken).is_empty());
}

#[test]
fn a_player_sends_the_settings_once_and_then_the_messages() {
    let song: Song = songs(&image()).remove(0);
    let setup = song.setup.clone();
    let mut player = Player::new(song);
    let mut due = Vec::new();
    player.begin(&mut due);
    player.begin(&mut due);
    assert_eq!(due, setup);
    assert_eq!(player.next_wait(), Some(3));
    due.clear();
    player.play(&mut due);
    assert_eq!(due, vec![0x91, 0x3C, 0x64]);
    assert!(player.finished());
    assert_eq!(player.next_wait(), None);
}

#[test]
fn a_version_line_is_found_where_the_rom_writes_one() {
    let mut image = vec![0u8; 0x400];
    image[0x100..0x114].copy_from_slice(b"MT-32 v2.07 90-05-23");
    assert_eq!(
        version_line(&image).as_deref(),
        Some("MT-32 v2.07 90-05-23")
    );
}

#[test]
fn the_earlier_wording_is_found_too_and_comes_back_trimmed() {
    let mut image = vec![0u8; 0x400];
    image[0x80..0x94].copy_from_slice(b" ver1.07 10 Oct, 87 ");
    assert_eq!(version_line(&image).as_deref(), Some("ver1.07 10 Oct, 87"));
}

#[test]
fn an_unreleased_rom_with_its_number_left_blank_still_answers() {
    let mut image = vec![0u8; 0x400];
    image[0x80..0x94].copy_from_slice(b"verX.XX  30 Sep, 88 ");
    assert_eq!(version_line(&image).as_deref(), Some("verX.XX  30 Sep, 88"));
}

#[test]
fn text_without_a_version_in_it_is_not_mistaken_for_one() {
    let mut image = vec![0u8; 0x400];
    image[0x40..0x54].copy_from_slice(b"MIDI Verify Error   ");
    assert_eq!(version_line(&image), None);
}

#[test]
fn an_image_with_nothing_to_say_says_nothing() {
    assert_eq!(version_line(&[0u8; 0x400]), None);
    assert_eq!(version_line(&[]), None);
}

/// The pace part of the conversion: how many input frames some output frames
/// pull.
#[test]
fn the_ratio_is_exact() {
    let mut pace = Pace::new(32_000, 44_100);
    let mut pulled = TAPS as u64;
    for _ in 0..441 * 100 {
        if pace.advance() {
            pulled += 1;
        }
    }
    assert_eq!(pulled, TAPS as u64 + 320 * 100);
    assert_eq!(gcd(32_000, 44_100), 100);
    assert_eq!((pace.inputs, pace.outputs, pace.phase), (320, 441, 0));
}

#[test]
fn a_device_hands_over_what_was_written_before_each_block() {
    let mut device = Mt32Device::open();
    device.write_byte(0x91);
    device.write_byte(0x3C);
    assert!(device.needs_block());
    assert!(matches!(device.next_frame(), NextFrame::Render(b) if b == [0x91, 0x3C]));
    device.write_byte(0x40);
    for i in 1..BLOCK_FRAMES {
        assert!(matches!(device.next_frame(), NextFrame::Take(at) if at == i));
    }
    assert!(matches!(device.next_frame(), NextFrame::Render(b) if b == [0x40]));
    assert!(!device.demo_playing());
    device.play_demo(songs(&image()).pop());
    assert!(device.demo_playing());
    device.settle_demo();
    assert!(device.demo_playing());
    device.play_demo(None);
    assert!(!device.demo_playing());
}

#[test]
fn a_pair_takes_both_images() {
    let path = HostPath::parse("/roms/a.rom");
    assert!(!Mt32Roms::default().configured());
    let one = Mt32Roms { control: Some(path.clone()), pcm: None };
    assert!(one.pair().is_none());
    let both = Mt32Roms { control: Some(path.clone()), pcm: Some(path.clone()) };
    assert_eq!(both.pair(), Some((&path, &path)));
    assert!(both.configured());
}

#[test]
fn the_display_reads_as_its_cells_do() {
    assert_eq!(display(b"1 2 \x01 R |vol:100  "), "1 2 \u{1} R |vol:100");
    assert_eq!(display(b"    "), "");
}

#[test]
fn a_patch_field_has_its_address() {
    assert_eq!(addr::patch(0, addr::PATCH_TIMBRE_GROUP), 0x03_0000);
    assert_eq!(addr::patch(2, addr::PATCH_OUTPUT_LEVEL), 0x03_0028);
    assert_eq!(addr::patch(7, 15), 0x03_007f);
}

#[test]
fn the_ninth_part_s_patch_carries_into_the_next_byte() {
    assert_eq!(addr::patch(8, addr::PATCH_TIMBRE_GROUP), 0x03_0100);
    assert_eq!(addr::patch(8, addr::PATCH_OUTPUT_LEVEL), 0x03_0108);
    assert_eq!(linear(addr::patch(8, 0)), linear(addr::PATCH_TEMP) + 8 * addr::PATCH_STRIDE);
    assert_eq!(dt1(addr::patch(8, 1), &[5])[5..8], [0x03, 0x01, 0x01]);
}

#[test]
fn a_message_is_gathered_whole_whatever_interrupts_it() {
    let msg = request_bytes(linear(addr::MASTER_TUNE), 1);
    let mut responder = Responder::default();
    assert_eq!(feed(&mut responder, &[0xF0, 0x41, 0x10]), None);
    for (i, &b) in msg.iter().enumerate() {
        if i > 0 {
            assert_eq!(responder.write_byte(0xF8), None);
            assert_eq!(responder.write_byte(0xFE), None);
        }
        let found = responder.write_byte(b);
        assert_eq!(found.is_some(), i == msg.len() - 1);
    }
    let mut longest = vec![0xF0];
    longest.resize(MAX_MESSAGE_BYTES, 1);
    assert_eq!(feed(&mut responder, &longest), None);
    assert_eq!(responder.pending.len(), MAX_MESSAGE_BYTES);
    assert_eq!(responder.write_byte(0xF7), None, "it is no request");
    assert!(responder.pending.is_empty());
}
