//! End-to-end flows over the coordinator's decision pieces: the host's
//! event loop is played by the test, feeding frames in and dial or
//! resolver outcomes back.
use edge_tunnel::dial::{DialOutcome, DialStep};
use edge_tunnel::dns::take_frame;
use edge_tunnel::handshake::ParseResult;
use edge_tunnel::stream::ByteStream;
use edge_tunnel::tunnel::{
    close_signal, dispatch, response_frame, response_header, Dispatch, HandshakeDriver,
    TunnelError, ABNORMAL_CLOSE_CODE,
};

fn credential() -> Vec<u8> {
    vec![
        0xd3, 0x42, 0xd1, 0x1e, 0xd4, 0x24, 0x45, 0x83, 0xb3, 0x6e, 0x52, 0x4a, 0xb1, 0xf0, 0xaf,
        0xa4,
    ]
}

fn tcp_handshake_to_example_com(cred: &[u8]) -> Vec<u8> {
    let mut bytes = vec![0u8];
    bytes.extend_from_slice(cred);
    bytes.push(0); // addon length 0
    bytes.push(1); // TCP
    bytes.extend_from_slice(&[0x00, 0x50]); // port 80
    bytes.push(2); // domain
    bytes.push(11);
    bytes.extend_from_slice(b"example.com");
    bytes
}

#[test]
fn tcp_tunnel_opens_and_acknowledges() {
    // client sends the whole handshake; example.com is dialable
    let cred = credential();
    let mut stream = ByteStream::new(None);
    stream.push_frame(&tcp_handshake_to_example_com(&cred));
    let mut driver = HandshakeDriver::new(cred.clone());
    let header = match driver.pump(&mut stream) {
        ParseResult::Complete { header, .. } => header,
        _ => panic!("expected a complete handshake"),
    };
    let mut plan = match dispatch(&header, vec![]) {
        Ok(Dispatch::Tcp(plan)) => plan,
        _ => panic!("expected the TCP path"),
    };
    assert_eq!(plan.current(), Some(&String::from("example.com")));
    assert_eq!(plan.record(DialOutcome::Opened), DialStep::Forward);
    // the acknowledgment preceding any payload is exactly two zero bytes
    assert_eq!(response_header(), vec![0u8, 0u8]);
    assert_eq!(close_signal(&Ok(())), None);
}

#[test]
fn tcp_fallback_is_tried_after_a_reset() {
    let cred = credential();
    let mut stream = ByteStream::new(None);
    stream.push_frame(&tcp_handshake_to_example_com(&cred));
    let mut driver = HandshakeDriver::new(cred.clone());
    let header = match driver.pump(&mut stream) {
        ParseResult::Complete { header, .. } => header,
        _ => panic!("expected a complete handshake"),
    };
    let fallback = vec![String::from("198.51.100.1")];
    let mut plan = match dispatch(&header, fallback) {
        Ok(Dispatch::Tcp(plan)) => plan,
        _ => panic!("expected the TCP path"),
    };
    assert_eq!(plan.current(), Some(&String::from("example.com")));
    assert_eq!(plan.record(DialOutcome::Reset), DialStep::TryNext);
    assert_eq!(plan.current(), Some(&String::from("198.51.100.1")));
    assert_eq!(plan.record(DialOutcome::Opened), DialStep::Forward);
}

#[test]
fn tcp_fallback_exhaustion_names_no_target() {
    let cred = credential();
    let mut stream = ByteStream::new(None);
    stream.push_frame(&tcp_handshake_to_example_com(&cred));
    let mut driver = HandshakeDriver::new(cred.clone());
    let header = match driver.pump(&mut stream) {
        ParseResult::Complete { header, .. } => header,
        _ => panic!("expected a complete handshake"),
    };
    let mut plan = match dispatch(&header, vec![String::from("198.51.100.1")]) {
        Ok(Dispatch::Tcp(plan)) => plan,
        _ => panic!("expected the TCP path"),
    };
    assert_eq!(plan.record(DialOutcome::Reset), DialStep::TryNext);
    assert_eq!(plan.record(DialOutcome::Reset), DialStep::FailNoTarget);
    assert_eq!(plan.current(), None);
    assert_eq!(
        close_signal(&Err(TunnelError::NoTargetReachable)),
        Some(ABNORMAL_CLOSE_CODE)
    );
}

#[test]
fn non_reset_dial_failure_stops_the_plan() {
    let cred = credential();
    let mut stream = ByteStream::new(None);
    stream.push_frame(&tcp_handshake_to_example_com(&cred));
    let mut driver = HandshakeDriver::new(cred.clone());
    let header = match driver.pump(&mut stream) {
        ParseResult::Complete { header, .. } => header,
        _ => panic!("expected a complete handshake"),
    };
    let mut plan = match dispatch(&header, vec![String::from("198.51.100.1")]) {
        Ok(Dispatch::Tcp(plan)) => plan,
        _ => panic!("expected the TCP path"),
    };
    // the fallback candidate is never attempted after a non-reset failure
    assert_eq!(plan.record(DialOutcome::OtherFailure), DialStep::FailOther);
}

#[test]
fn udp_dns_exchange_frames_the_response() {
    // network_type=UDP, port=53; one query, one resolver response
    let cred = credential();
    let mut handshake = vec![0u8];
    handshake.extend_from_slice(&cred);
    handshake.extend_from_slice(&[0, 2, 0x00, 0x35, 1]); // UDP, port 53, IPv4
    handshake.extend_from_slice(&[1, 1, 1, 1]);
    let mut stream = ByteStream::new(None);
    stream.push_frame(&handshake);
    let mut driver = HandshakeDriver::new(cred.clone());
    let header = match driver.pump(&mut stream) {
        ParseResult::Complete { header, .. } => header,
        _ => panic!("expected a complete handshake"),
    };
    match dispatch(&header, vec![]) {
        Ok(Dispatch::UdpDns) => {}
        _ => panic!("expected the UDP path"),
    }
    assert_eq!(response_header(), vec![0u8, 0u8]);
    // client sends one DNS frame with payload [0xAB, 0xCD]
    stream.push_frame(&[0x00, 0x02, 0xAB, 0xCD]);
    let query = take_frame(&mut stream).expect("a full frame is buffered");
    assert_eq!(query, vec![0xAB, 0xCD]); // the one POST body
    // the resolver's body comes back framed with its exact length
    let frame = response_frame(&vec![0x12, 0x34, 0x56]).expect("the body fits a frame");
    assert_eq!(frame, vec![0x00, 0x03, 0x12, 0x34, 0x56]);
    // no further query: an empty, closed stream ends the loop gracefully
    assert_eq!(take_frame(&mut stream), None);
    assert_eq!(stream.buffered_len(), 0);
}

#[test]
fn udp_off_dns_port_fails_before_any_outbound_action() {
    let cred = credential();
    let mut handshake = vec![0u8];
    handshake.extend_from_slice(&cred);
    handshake.extend_from_slice(&[0, 2, 0x00, 0x36, 1]); // UDP, port 54
    handshake.extend_from_slice(&[1, 1, 1, 1]);
    let mut stream = ByteStream::new(None);
    stream.push_frame(&handshake);
    let mut driver = HandshakeDriver::new(cred.clone());
    let header = match driver.pump(&mut stream) {
        ParseResult::Complete { header, .. } => header,
        _ => panic!("expected a complete handshake"),
    };
    assert_eq!(
        dispatch(&header, vec![]).err(),
        Some(TunnelError::UnsupportedUdpPort)
    );
}

#[test]
fn credential_mismatch_consumes_only_the_authentication_bytes() {
    // one bit off in the credential: rejection after the 17 header
    // bytes, with no addon, network, port or address byte requested
    let cred = credential();
    let mut wrong = tcp_handshake_to_example_com(&cred);
    wrong[3] ^= 0x10;
    let mut stream = ByteStream::new(None);
    stream.push_frame(&wrong);
    let mut driver = HandshakeDriver::new(cred.clone());
    match driver.pump(&mut stream) {
        ParseResult::Reject { consumed, .. } => assert_eq!(consumed, 17),
        _ => panic!("expected a rejection"),
    }
    // everything past the 17 authentication bytes is still unread
    assert_eq!(stream.buffered_len(), wrong.len() - 17);
}

#[test]
fn handshake_arrives_across_many_frames() {
    let cred = credential();
    let bytes = tcp_handshake_to_example_com(&cred);
    let mut stream = ByteStream::new(Some(bytes[..1].to_vec()));
    let mut driver = HandshakeDriver::new(cred.clone());
    assert!(matches!(
        driver.pump(&mut stream),
        ParseResult::Incomplete { .. }
    ));
    stream.push_frame(&bytes[1..20]);
    assert!(matches!(
        driver.pump(&mut stream),
        ParseResult::Incomplete { .. }
    ));
    stream.push_frame(&bytes[20..]);
    match driver.pump(&mut stream) {
        ParseResult::Complete { consumed, .. } => assert_eq!(consumed, bytes.len()),
        _ => panic!("expected a complete handshake"),
    }
}
