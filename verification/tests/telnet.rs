//! The modem's telnet layer.
use copperline::modem::telnet::{
    TelnetNvt, DO, DONT, IAC, LOCATION, OPT_BINARY, OPT_ECHO, OPT_NAWS, OPT_SEND_LOCATION, OPT_SGA,
    OPT_TTYPE, SB, SE, TERM_TYPE, TTYPE_IS, TTYPE_SEND, WILL, WONT,
};

fn feed(nvt: &mut TelnetNvt, bytes: &[u8]) -> (Vec<u8>, Vec<u8>) {
    let mut data = Vec::new();
    let mut reply = Vec::new();
    for &b in bytes {
        nvt.receive(b, &mut data, &mut reply);
    }
    (data, reply)
}

fn send_all(nvt: &mut TelnetNvt, bytes: &[u8]) -> Vec<u8> {
    let mut out = Vec::new();
    for &b in bytes {
        nvt.send(b, &mut out);
    }
    out
}

#[test]
fn will_binary_echo_sga_are_accepted_with_do() {
    for opt in [OPT_BINARY, OPT_ECHO, OPT_SGA] {
        let mut nvt = TelnetNvt::new(false);
        let (data, reply) = feed(&mut nvt, &[IAC, WILL, opt]);
        assert!(data.is_empty());
        assert_eq!(reply, vec![IAC, DO, opt], "option {opt}");
    }
}

#[test]
fn will_other_options_are_refused_with_dont() {
    let mut nvt = TelnetNvt::new(false);
    let (data, reply) = feed(&mut nvt, &[IAC, WILL, 99]);
    assert!(data.is_empty());
    assert_eq!(reply, vec![IAC, DONT, 99]);
}

#[test]
fn do_binary_sga_ttype_are_accepted_with_will() {
    for opt in [OPT_BINARY, OPT_SGA, OPT_TTYPE] {
        let mut nvt = TelnetNvt::new(false);
        let (data, reply) = feed(&mut nvt, &[IAC, DO, opt]);
        assert!(data.is_empty());
        assert_eq!(reply, vec![IAC, WILL, opt], "option {opt}");
    }
}

#[test]
fn do_other_options_are_refused_with_wont() {
    let mut nvt = TelnetNvt::new(false);
    let (_, reply) = feed(&mut nvt, &[IAC, DO, 99]);
    assert_eq!(reply, vec![IAC, WONT, 99]);
}

#[test]
fn do_echo_is_refused_locally_even_though_will_echo_is_accepted() {
    let mut nvt = TelnetNvt::new(false);
    let (_, reply) = feed(&mut nvt, &[IAC, DO, OPT_ECHO]);
    assert_eq!(reply, vec![IAC, WONT, OPT_ECHO]);
}

#[test]
fn an_option_already_on_is_not_re_acked() {
    let mut nvt = TelnetNvt::new(false);
    let (_, reply1) = feed(&mut nvt, &[IAC, WILL, OPT_BINARY]);
    assert_eq!(reply1, vec![IAC, DO, OPT_BINARY]);
    let (_, reply2) = feed(&mut nvt, &[IAC, WILL, OPT_BINARY]);
    assert!(reply2.is_empty(), "re-acked an option already on");
}

#[test]
fn wont_only_answered_when_clearing_an_on_option() {
    let mut nvt = TelnetNvt::new(false);
    let (_, reply) = feed(&mut nvt, &[IAC, WONT, OPT_BINARY]);
    assert!(reply.is_empty());

    feed(&mut nvt, &[IAC, WILL, OPT_BINARY]);
    let (_, reply) = feed(&mut nvt, &[IAC, WONT, OPT_BINARY]);
    assert_eq!(reply, vec![IAC, DONT, OPT_BINARY]);

    let (_, reply) = feed(&mut nvt, &[IAC, WONT, OPT_BINARY]);
    assert!(reply.is_empty());
}

#[test]
fn dont_only_answered_when_clearing_an_on_option() {
    let mut nvt = TelnetNvt::new(false);
    feed(&mut nvt, &[IAC, DO, OPT_SGA]);
    let (_, reply) = feed(&mut nvt, &[IAC, DONT, OPT_SGA]);
    assert_eq!(reply, vec![IAC, WONT, OPT_SGA]);
    let (_, reply) = feed(&mut nvt, &[IAC, DONT, OPT_SGA]);
    assert!(reply.is_empty());
}

#[test]
fn doubled_iac_inbound_is_a_literal_0xff() {
    let mut nvt = TelnetNvt::new(false);
    let (data, reply) = feed(&mut nvt, &[b'a', IAC, IAC, b'b']);
    assert_eq!(data, vec![b'a', 0xFF, b'b']);
    assert!(reply.is_empty());
}

#[test]
fn iac_doubled_outbound() {
    let mut nvt = TelnetNvt::new(false);
    let out = send_all(&mut nvt, &[b'a', 0xFF, b'b']);
    assert_eq!(out, vec![b'a', IAC, IAC, b'b']);
}

#[test]
fn binary_heavy_blob_round_trips_through_send_and_receive() {
    let blob: Vec<u8> = (0..=255u8).chain(0..=255u8).collect();
    let mut sender = TelnetNvt::new(false);
    feed(&mut sender, &[IAC, WILL, OPT_BINARY]);
    feed(&mut sender, &[IAC, DO, OPT_BINARY]);
    let wire = send_all(&mut sender, &blob);

    let mut receiver = TelnetNvt::new(false);
    feed(&mut receiver, &[IAC, WILL, OPT_BINARY]);
    let (data, _) = feed(&mut receiver, &wire);
    assert_eq!(data, blob);
}

#[test]
fn text_round_trips_outside_binary_mode_too() {
    let blob: Vec<u8> = (0..=255u8).chain([13, 0, 13, 13, 0, 0, 255, 13]).collect();
    let mut sender = TelnetNvt::new(false);
    let wire = send_all(&mut sender, &blob);
    let mut receiver = TelnetNvt::new(false);
    let (data, reply) = feed(&mut receiver, &wire);
    assert_eq!(data, blob);
    assert!(reply.is_empty());
}

#[test]
fn inbound_cr_nul_collapses_to_cr_in_non_binary_mode() {
    let mut nvt = TelnetNvt::new(false);
    let (data, _) = feed(&mut nvt, &[b'a', 13, 0, b'b']);
    assert_eq!(data, vec![b'a', 13, b'b']);
}

#[test]
fn inbound_cr_nul_does_not_collapse_in_binary_mode() {
    let mut nvt = TelnetNvt::new(false);
    feed(&mut nvt, &[IAC, WILL, OPT_BINARY]);
    let (data, _) = feed(&mut nvt, &[b'a', 13, 0, b'b']);
    assert_eq!(data, vec![b'a', 13, 0, b'b']);
}

#[test]
fn outbound_bare_cr_becomes_cr_nul_in_non_binary_mode() {
    let mut nvt = TelnetNvt::new(false);
    let out = send_all(&mut nvt, &[b'a', 13, b'b']);
    assert_eq!(out, vec![b'a', 13, 0, b'b']);
}

#[test]
fn cr_then_iac_boundary_then_nul_does_not_swallow_the_nul() {
    let mut nvt = TelnetNvt::new(false);
    let (data, reply) = feed(&mut nvt, &[13, IAC, WILL, OPT_BINARY, 0, b'x']);
    assert_eq!(data, vec![13, 0, b'x']);
    assert_eq!(reply, vec![IAC, DO, OPT_BINARY]);
}

#[test]
fn ttype_send_is_answered_with_ansi() {
    let mut nvt = TelnetNvt::new(false);
    feed(&mut nvt, &[IAC, DO, OPT_TTYPE]);
    let (_, reply) = feed(&mut nvt, &[IAC, SB, OPT_TTYPE, TTYPE_SEND, IAC, SE]);
    let mut expected = vec![IAC, SB, OPT_TTYPE, TTYPE_IS];
    expected.extend("ANSI".bytes());
    expected.extend_from_slice(&[IAC, SE]);
    assert_eq!(reply, expected);
    assert_eq!(&TERM_TYPE, b"ANSI");
}

#[test]
fn subnegotiation_payload_unescapes_doubled_iac() {
    let mut nvt = TelnetNvt::new(false);
    let (_, reply) = feed(
        &mut nvt,
        &[IAC, SB, OPT_TTYPE, TTYPE_SEND, IAC, IAC, IAC, SE],
    );
    let mut expected = vec![IAC, SB, OPT_TTYPE, TTYPE_IS];
    expected.extend("ANSI".bytes());
    expected.extend_from_slice(&[IAC, SE]);
    assert_eq!(reply, expected);
    assert_eq!(nvt.sb, vec![OPT_TTYPE, TTYPE_SEND, 0xFF]);
}

#[test]
fn naws_and_location_refused_when_reporting_is_false() {
    let mut nvt = TelnetNvt::new(false);
    let (_, reply) = feed(&mut nvt, &[IAC, DO, OPT_NAWS]);
    assert_eq!(reply, vec![IAC, WONT, OPT_NAWS]);
    let (_, reply) = feed(&mut nvt, &[IAC, DO, OPT_SEND_LOCATION]);
    assert_eq!(reply, vec![IAC, WONT, OPT_SEND_LOCATION]);
}

#[test]
fn naws_accepted_and_volunteered_when_reporting_is_true() {
    let mut nvt = TelnetNvt::new(true);
    let (_, reply) = feed(&mut nvt, &[IAC, DO, OPT_NAWS]);
    assert_eq!(
        reply,
        vec![IAC, WILL, OPT_NAWS, IAC, SB, OPT_NAWS, 0, 80, 0, 24, IAC, SE]
    );
}

#[test]
fn send_location_accepted_and_answered_when_reporting_is_true() {
    let mut nvt = TelnetNvt::new(true);
    let (_, reply) = feed(&mut nvt, &[IAC, DO, OPT_SEND_LOCATION]);
    let mut expected = vec![IAC, WILL, OPT_SEND_LOCATION, IAC, SB, OPT_SEND_LOCATION];
    expected.extend("Copperline".bytes());
    expected.extend_from_slice(&[IAC, SE]);
    assert_eq!(reply, expected);
    assert_eq!(&LOCATION, b"Copperline");
}

#[test]
fn a_location_that_is_asked_for_is_answered_only_when_reporting() {
    let mut nvt = TelnetNvt::new(true);
    let (_, reply) = feed(&mut nvt, &[IAC, SB, OPT_SEND_LOCATION, IAC, SE]);
    let mut expected = vec![IAC, SB, OPT_SEND_LOCATION];
    expected.extend("Copperline".bytes());
    expected.extend_from_slice(&[IAC, SE]);
    assert_eq!(reply, expected);
    let mut plain = TelnetNvt::new(false);
    assert!(feed(&mut plain, &[IAC, SB, OPT_SEND_LOCATION, IAC, SE]).1.is_empty());
}

#[test]
fn other_commands_are_taken_and_forgotten() {
    let mut nvt = TelnetNvt::new(false);
    let (data, reply) = feed(&mut nvt, &[b'a', IAC, 241, b'b', IAC, SB, 99, 1, IAC, SE, b'c']);
    assert_eq!(data, b"abc");
    assert!(reply.is_empty());
}

#[test]
fn asking_again_is_answered_only_by_another_refusal() {
    for reporting in [false, true] {
        for opt in 0..=255u8 {
            for verb in [DO, DONT, WILL, WONT] {
                let mut nvt = TelnetNvt::new(reporting);
                feed(&mut nvt, &[IAC, verb, opt]);
                let local = [OPT_BINARY, OPT_SGA, OPT_TTYPE].contains(&opt)
                    || (reporting && [OPT_NAWS, OPT_SEND_LOCATION].contains(&opt));
                let remote = [OPT_BINARY, OPT_ECHO, OPT_SGA].contains(&opt);
                let expected = if verb == DO && !local {
                    vec![IAC, WONT, opt]
                } else if verb == WILL && !remote {
                    vec![IAC, DONT, opt]
                } else {
                    vec![]
                };
                assert_eq!(feed(&mut nvt, &[IAC, verb, opt]).1, expected, "{verb} {opt}");
                assert_eq!(feed(&mut nvt, &[IAC, verb, opt]).1, expected, "{verb} {opt}");
            }
        }
    }
}

#[test]
fn a_request_that_is_repeated_settles() {
    let mut nvt = TelnetNvt::new(true);
    let mut reply = Vec::new();
    nvt.negotiate(WILL, OPT_ECHO, &mut reply);
    nvt.negotiate(WILL, OPT_ECHO, &mut reply);
    assert_eq!(reply, vec![IAC, DO, OPT_ECHO]);
    reply.clear();
    nvt.negotiate(DO, 99, &mut reply);
    nvt.negotiate(DO, 99, &mut reply);
    assert_eq!(reply, vec![IAC, WONT, 99, IAC, WONT, 99]);
}
