//! The MIDI bridge.
use copperline::midi::endpoints::{
    caps_name, choose_endpoints, enumerate, find_named, next_endpoint, query_ports, Endpoint,
    InputControl, MidiEndpoints, OpenError, Opening, SequencerPort,
};
use copperline::midi::framer::{message_len, pack_short, unpack_short, MidiFramer};
use copperline::midi::input::{MidiInput, INPUT_RING_BYTES};
use copperline::midi::schedule::{host_timestamp, next_packet, Due, SchedQueue};
use copperline::midi::sink::MidiSerialSink;
use copperline::midi::trace::{describe, hex_bytes, MidiDebug};

fn frame(bytes: &[u8]) -> Vec<Vec<u8>> {
    let mut framer = MidiFramer::default();
    let mut out = Vec::new();
    for &b in bytes {
        out.extend(framer.push(b));
    }
    out
}

#[test]
fn frames_note_on_from_separate_bytes() {
    assert_eq!(frame(&[0x90, 0x3C, 0x64]), vec![vec![0x90, 0x3C, 0x64]]);
}

#[test]
fn running_status_reuses_last_status() {
    assert_eq!(
        frame(&[0x90, 0x3C, 0x64, 0x40, 0x50]),
        vec![vec![0x90, 0x3C, 0x64], vec![0x90, 0x40, 0x50]]
    );
}

#[test]
fn realtime_byte_interleaves_without_breaking_message() {
    assert_eq!(
        frame(&[0x90, 0x3C, 0xFE, 0x64]),
        vec![vec![0xFE], vec![0x90, 0x3C, 0x64]]
    );
}

#[test]
fn program_change_is_two_bytes() {
    assert_eq!(frame(&[0xC0, 0x05]), vec![vec![0xC0, 0x05]]);
}

#[test]
fn sysex_accumulates_until_eox() {
    assert_eq!(
        frame(&[0xF0, 0x7E, 0x00, 0x06, 0x01, 0xF7]),
        vec![vec![0xF0, 0x7E, 0x00, 0x06, 0x01, 0xF7]]
    );
}

#[test]
fn stray_data_byte_without_status_is_dropped() {
    assert!(frame(&[0x3C, 0x64]).is_empty());
}

#[test]
fn a_status_byte_ends_an_exclusive_message_and_begins_its_own() {
    assert_eq!(
        frame(&[0xF0, 0x01, 0xF6, 0x02, 0xF0, 0x03, 0x90, 0x04, 0x05]),
        vec![vec![0xF0, 0x01], vec![0xF6], vec![0xF0, 0x03], vec![0x90, 0x04, 0x05]]
    );
    // A system message ends running status.
    assert_eq!(
        frame(&[0x90, 1, 2, 0xF3, 9, 3, 4]),
        vec![vec![0x90, 1, 2], vec![0xF3, 9]]
    );
}

#[test]
fn lengths_go_by_the_status() {
    let lengths: Vec<usize> = [0x80, 0x9f, 0xa0, 0xb0, 0xc0, 0xd0, 0xe0, 0xf1, 0xf2, 0xf3, 0xf6]
        .iter()
        .map(|s| message_len(*s))
        .collect();
    assert_eq!(lengths, [3, 3, 3, 3, 2, 2, 3, 2, 3, 2, 1]);
}

#[test]
fn short_messages_survive_being_packed() {
    for m in [&[0x90u8, 0x3C, 0x64][..], &[0xC1, 0x05], &[0xF8]] {
        assert_eq!(unpack_short(pack_short(m)), m);
    }
    assert_eq!(pack_short(&[0x90, 0x3C, 0x64]), 0x64_3C_90);
}

#[test]
fn the_ring_hands_bytes_out_in_order_and_loses_the_tail() {
    let mut input = MidiInput::new(false);
    assert!(!input.has_pending_input());
    input.push_input(&[1, 0xFE, 2]);
    assert!(input.has_pending_input());
    assert_eq!(input.read_byte(), Some(1));
    assert_eq!(input.read_byte(), Some(0xFE));
    assert_eq!(input.read_byte(), Some(2));
    assert_eq!(input.read_byte(), None);

    let long: Vec<u8> = (0..INPUT_RING_BYTES + 100).map(|i| (i % 251) as u8).collect();
    input.push_input(&long);
    input.push_input(&[7]);
    let mut got = Vec::new();
    while let Some(b) = input.read_byte() {
        got.push(b);
    }
    assert_eq!(got, long[..INPUT_RING_BYTES]);
}

#[test]
fn active_sense_is_dropped_only_where_that_is_asked_for() {
    let mut input = MidiInput::new(true);
    input.push_input(&[0xFE, 1, 0xFE, 2]);
    assert_eq!((input.read_byte(), input.read_byte(), input.read_byte()), (Some(1), Some(2), None));

    let mut plain = MidiSerialSink::open(None, None, false);
    assert_eq!(plain.write_byte(0xFE), vec![vec![0xFE]]);
    let mut strip = MidiSerialSink::open(None, None, true);
    assert!(strip.write_byte(0xFE).is_empty());
    assert_eq!(strip.write_byte(0xF8), vec![vec![0xF8]]);
}

fn strings(list: &[&str]) -> Vec<String> {
    list.iter().map(|s| s.to_string()).collect()
}

#[test]
fn a_selection_steps_round_through_nothing() {
    let names = strings(&["A", "B"]);
    assert_eq!(next_endpoint(None, &names, true).as_deref(), Some("A"));
    assert_eq!(next_endpoint(Some("A"), &names, true).as_deref(), Some("B"));
    assert_eq!(next_endpoint(Some("B"), &names, true), None);
    assert_eq!(next_endpoint(None, &names, false).as_deref(), Some("B"));
    assert_eq!(next_endpoint(Some("gone"), &names, true).as_deref(), Some("A"));
    assert_eq!(next_endpoint(None, &strings(&[]), true), None);

    let mut sink = MidiSerialSink::open(Some("B".to_string()), None, false);
    assert_eq!(sink.cycle_output(&names, true), None);
    assert_eq!(sink.cycle_input(&names, false).as_deref(), Some("B"));
    assert_eq!(sink.output_label(), "B");
    assert_eq!(sink.input_label(), "None");
    sink.set_input_endpoint(Some("C".to_string()));
    sink.set_output_endpoint(None);
    assert_eq!((sink.output_label(), sink.input_label()), ("None".to_string(), "C".to_string()));
}

#[test]
fn endpoints_answer_to_a_part_of_their_names_in_any_case() {
    let names = strings(&["Midi Through:Port-0", "Synth \u{c4}:Port-1"]);
    assert_eq!(find_named(&names, "THROUGH"), Some(0));
    assert_eq!(find_named(&names, "\u{e4}"), Some(1));
    assert_eq!(find_named(&names, "port"), Some(0));
    assert_eq!(find_named(&names, "absent"), None);
    let ends: MidiEndpoints = enumerate(names.clone(), strings(&["Out"]));
    assert_eq!(ends.inputs[1].name, names[1]);
    assert_eq!(ends.outputs.len(), 1);
    assert!(MidiEndpoints::default().inputs.is_empty());
}

#[test]
fn an_endpoint_that_is_asked_for_and_not_there_is_an_error() {
    let outs = strings(&["Synth"]);
    let ins = strings(&["Keys"]);
    assert_eq!(
        choose_endpoints(Some("syn"), Some("key"), &outs, &ins),
        Ok(Opening { output: Some(0), input: Some(0) })
    );
    assert_eq!(choose_endpoints(Some("x"), Some("z"), &outs, &ins), Err(OpenError::NoOutput));
    assert_eq!(choose_endpoints(None, Some("z"), &outs, &ins), Err(OpenError::NoInput));
    assert!(choose_endpoints(None, None, &outs, &ins).unwrap().inert());
}

#[test]
fn only_foreign_ports_that_can_do_it_are_offered() {
    let port = |client: i32, capabilities: u32| SequencerPort {
        client,
        client_name: format!("c{client}"),
        port: 1,
        port_name: "p".to_string(),
        capabilities,
    };
    let ports = [port(0, 3), port(20, 3), port(21, 1), port(22, 7), port(128, 3)];
    let offered = query_ports(&ports, 3, &[128]);
    let names: Vec<String> = offered.iter().map(|e| e.name.clone()).collect();
    assert_eq!(names, ["c20:p", "c22:p"]);
}

#[test]
fn a_change_of_input_leaves_the_old_one_first() {
    let end = |client| Endpoint { client, port: 0, name: format!("e{client}") };
    let mut control = InputControl::new(Some(end(1)));
    assert!(control.take_request().is_none());
    control.set_input(Some(end(2)));
    let change = control.take_request().unwrap();
    assert_eq!(change.leave.unwrap().client, 1);
    assert!(control.current.is_none());
    control.joined(change.join.unwrap(), true);
    assert_eq!(control.current.as_ref().unwrap().client, 2);
    control.set_input(None);
    let change = control.take_request().unwrap();
    assert!(change.join.is_none());
    control.joined(end(3), false);
    assert!(control.current.is_none());
}

#[test]
fn a_device_name_ends_at_its_zero() {
    let units: Vec<u16> = "loop\u{e9}".encode_utf16().chain([0, 65, 66]).collect();
    assert_eq!(caps_name(&units), "loop\u{e9}");
    assert_eq!(caps_name(&[0xd800]), "\u{fffd}");
}

#[test]
fn messages_go_out_when_they_are_due_and_in_order() {
    let mut queue = SchedQueue::new();
    queue.send(&[], 1);
    assert!(matches!(queue.poll(0), Due::Idle));
    queue.send(&[3], 30);
    queue.send(&[1], 10);
    queue.send(&[2], 10);
    assert!(matches!(queue.poll(4), Due::Wait(6)));
    assert!(matches!(queue.poll(10), Due::Deliver(m) if m == [1]));
    assert!(matches!(queue.poll(10), Due::Deliver(m) if m == [2]));
    assert!(matches!(queue.poll(10), Due::Wait(20)));
    assert!(matches!(queue.poll(99), Due::Deliver(m) if m == [3]));
    queue.shut();
    assert!(matches!(queue.poll(99), Due::Stopped));
}

#[test]
fn moments_become_ticks() {
    assert_eq!(host_timestamp(None, 125, 3, 1000), 0);
    assert_eq!(host_timestamp(Some(125), 125, 3, 1000), 1003);
    assert_eq!(host_timestamp(Some(5), 0, 0, 10), 15);
    assert_eq!(host_timestamp(Some(10), 1, 1, u64::MAX), u64::MAX);
    assert_eq!((next_packet(0), next_packet(2), next_packet(3)), (12, 12, 16));
}

#[test]
fn messages_are_described() {
    for (msg, words) in [
        (&[][..], "(empty)"),
        (&[0x90, 60, 100], "Note On    ch1 note 60 vel 100"),
        (&[0x91, 60, 0], "Note Off   ch2 note 60 (vel 0)"),
        (&[0x80, 60], "Note Off   ch1 note 60 vel ?"),
        (&[0xa3, 1, 2], "Poly AT    ch4 note 1 press 2"),
        (&[0xbf, 7, 127], "Control    ch16 cc 7 val 127"),
        (&[0xc0, 5], "Program    ch1 5"),
        (&[0xd0, 5], "Chan AT    ch1 5"),
        (&[0xe0, 0, 64], "Pitch Bend ch1 lsb 0 msb 64"),
        (&[0xf0, 1, 0xf7], "SysEx (3 bytes)"),
        (&[0xf1, 9], "MTC Quarter Frame 9"),
        (&[0xf2, 1, 2], "Song Position"),
        (&[0xf3, 4], "Song Select 4"),
        (&[0xf6], "Tune Request"),
        (&[0xf8], "Clock"),
        (&[0xfa], "Start"),
        (&[0xfb], "Continue"),
        (&[0xfc], "Stop"),
        (&[0xfe], "Active Sense"),
        (&[0xff], "Reset"),
        (&[0xf4], "System 0xf4"),
        (&[0x01, 0xab], "data 01 ab"),
    ] {
        assert_eq!(describe(msg), words);
    }
    assert_eq!(hex_bytes(&[0, 255]), "00 ff");
    assert_eq!(hex_bytes(&[]), "");
}

#[test]
fn the_trace_keeps_the_last_bytes() {
    let mut debug = MidiDebug::new();
    let bytes: Vec<u8> = (0..30).collect();
    debug.record_sample(&bytes[..20]);
    debug.record_sample(&bytes[20..]);
    assert_eq!(debug.sample, bytes[6..]);
    let mut short = MidiDebug::new();
    short.tx_bytes = 2;
    short.record_sample(&[0x90]);
    assert_eq!(short.report(), "midi: tx 2 bytes, rx 0 bytes, first tx: [90]");
}

#[test]
fn realtime_bytes_may_stand_anywhere() {
    let plain = [0x90, 0x3C, 0x64, 0x40, 0x50, 0xF0, 0x41, 0x10, 0xF7, 0xC3, 0x07];
    let whole = frame(&plain);
    for at in 0..=plain.len() {
        let mut framer = MidiFramer::default();
        let mut rest = Vec::new();
        for (i, &b) in plain.iter().enumerate() {
            if i == at {
                assert_eq!(framer.push(0xF8), vec![vec![0xF8]]);
                assert_eq!(framer.push(0xFE), vec![vec![0xFE]]);
            }
            rest.extend(framer.push(b));
        }
        assert_eq!(rest, whole, "interrupted before byte {at}");
    }
}

#[test]
fn active_sensing_is_stripped_only_where_it_is_asked_for() {
    assert!(MidiSerialSink::open(None, None, true).strips(0xFE));
    assert!(!MidiSerialSink::open(None, None, true).strips(0xF8));
    assert!(!MidiSerialSink::open(None, None, false).strips(0xFE));
}
