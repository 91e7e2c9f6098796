use edge_tunnel::addr::{dial_target, format_ipv4, format_ipv6};
use edge_tunnel::dial::{DialOutcome, DialPlan, DialStep};
use edge_tunnel::dns::{encode_dns_frame, take_frame, udp_port_supported};
use edge_tunnel::handshake::Address;
use edge_tunnel::stream::ByteStream;
use edge_tunnel::tunnel::{response_frame, TunnelError};

#[test]
fn formats_ipv4_dotted_decimal() {
    assert_eq!(format_ipv4(0xC0000207), "192.0.2.7");
    assert_eq!(format_ipv4(0), "0.0.0.0");
    assert_eq!(format_ipv4(0xFFFFFFFF), "255.255.255.255");
    assert_eq!(format_ipv4(0x7F000001), "127.0.0.1");
}

#[test]
fn formats_ipv6_with_zero_compression() {
    assert_eq!(format_ipv6(0), "::");
    assert_eq!(format_ipv6(1), "::1");
    assert_eq!(
        format_ipv6(0x2001_0db8_0000_0000_0000_0000_0000_0001),
        "2001:db8::1"
    );
    // a single zero group is not compressed
    assert_eq!(
        format_ipv6(0x2001_0db8_0001_0000_0001_0001_0001_0001),
        "2001:db8:1:0:1:1:1:1"
    );
    // the leftmost of two equally long zero runs is compressed
    assert_eq!(
        format_ipv6(0x2001_0000_0000_0001_0000_0000_0001_0001),
        "2001::1:0:0:1:1"
    );
    assert_eq!(
        format_ipv6(0xFFFF_FFFF_FFFF_FFFF_FFFF_FFFF_FFFF_FFFF),
        "ffff:ffff:ffff:ffff:ffff:ffff:ffff:ffff"
    );
}

#[test]
fn dial_targets_take_the_textual_forms() {
    assert_eq!(
        dial_target(&Address::Domain(String::from("example.com"))),
        "example.com"
    );
    assert_eq!(dial_target(&Address::V4(0x0A000001)), "10.0.0.1");
    assert_eq!(
        dial_target(&Address::V6(0x2001_0db8_0000_0000_0000_0000_0000_0001)),
        "[2001:db8::1]"
    );
}

#[test]
fn only_the_dns_port_is_supported_for_udp() {
    assert!(udp_port_supported(53));
    assert!(!udp_port_supported(52));
    assert!(!udp_port_supported(443));
    assert!(!udp_port_supported(0));
}

#[test]
fn dns_frames_carry_the_exact_length() {
    assert_eq!(encode_dns_frame(&[0xAB, 0xCD]), vec![0x00, 0x02, 0xAB, 0xCD]);
    assert_eq!(encode_dns_frame(&[]), vec![0x00, 0x00]);
    let long = vec![7u8; 300];
    let frame = encode_dns_frame(&long);
    assert_eq!(frame[0], 0x01);
    assert_eq!(frame[1], 0x2C);
    assert_eq!(&frame[2..], &long[..]);
}

#[test]
fn dns_framing_round_trips_through_the_stream() {
    let query = vec![0x12, 0x34, 0x56, 0x78];
    let mut stream = ByteStream::new(None);
    stream.push_frame(&encode_dns_frame(&query));
    assert_eq!(take_frame(&mut stream), Some(query));
    assert_eq!(stream.buffered_len(), 0);
}

#[test]
fn partial_dns_frames_are_not_consumed() {
    let mut stream = ByteStream::new(None);
    stream.push_frame(&[0x00]);
    assert_eq!(take_frame(&mut stream), None);
    stream.push_frame(&[0x03, 0xAA]);
    assert_eq!(take_frame(&mut stream), None);
    assert_eq!(stream.buffered_len(), 3);
    stream.push_frame(&[0xBB, 0xCC]);
    assert_eq!(take_frame(&mut stream), Some(vec![0xAA, 0xBB, 0xCC]));
}

#[test]
fn oversized_resolver_bodies_fail_rather_than_lie() {
    let body = vec![0u8; 0x10000];
    assert_eq!(response_frame(&body), Err(TunnelError::Forward));
    let body = vec![0u8; 0xFFFF];
    assert!(response_frame(&body).is_ok());
}

#[test]
fn dial_plan_orders_destination_before_fallback() {
    let mut plan = DialPlan::new(
        String::from("example.com"),
        vec![String::from("198.51.100.1"), String::from("203.0.113.9")],
    );
    assert_eq!(plan.current(), Some(&String::from("example.com")));
    assert_eq!(plan.record(DialOutcome::Reset), DialStep::TryNext);
    assert_eq!(plan.current(), Some(&String::from("198.51.100.1")));
    assert_eq!(plan.record(DialOutcome::Reset), DialStep::TryNext);
    assert_eq!(plan.current(), Some(&String::from("203.0.113.9")));
    assert_eq!(plan.record(DialOutcome::Reset), DialStep::FailNoTarget);
    assert_eq!(plan.current(), None);
}
