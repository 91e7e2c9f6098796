use edge_tunnel::config::{parse_early_data, parse_user_id};
use edge_tunnel::handshake::{parse_handshake, ParseResult};

#[test]
fn decodes_hex_identifier_to_credential_bytes() {
    let bytes = parse_user_id("d342d11ed42445 83b36e524ab1f0afa4");
    assert_eq!(
        bytes,
        vec![
            0xd3, 0x42, 0xd1, 0x1e, 0xd4, 0x24, 0x45, 0x83, 0xb3, 0x6e, 0x52, 0x4a, 0xb1, 0xf0,
            0xaf, 0xa4
        ]
    );
}

#[test]
fn skips_non_hex_and_mixes_case() {
    assert_eq!(parse_user_id("0xAb-cD"), vec![0x0A, 0xBC]);
}

#[test]
fn drops_a_trailing_unpaired_digit() {
    assert_eq!(parse_user_id("abc"), vec![0xAB]);
    assert_eq!(parse_user_id("a"), Vec::<u8>::new());
    assert_eq!(parse_user_id(""), Vec::<u8>::new());
}

#[test]
fn decoded_identifier_authenticates_a_handshake() {
    let cred = parse_user_id("00112233-4455-6677-8899-aabbccddeeff");
    assert_eq!(cred.len(), 16);
    let mut bytes = vec![0u8];
    bytes.extend_from_slice(&cred);
    bytes.extend_from_slice(&[0, 1, 0, 80, 1, 127, 0, 0, 1]);
    assert!(matches!(
        parse_handshake(&bytes, &cred),
        ParseResult::Complete { .. }
    ));
}

#[test]
fn early_data_absent_or_empty_is_none() {
    assert_eq!(parse_early_data(None), Ok(None));
    assert_eq!(parse_early_data(Some(String::new())), Ok(None));
}

#[test]
fn early_data_decodes_url_safe_base64() {
    let decoded = parse_early_data(Some(String::from("AAEC")));
    assert_eq!(decoded, Ok(Some(vec![0, 1, 2])));
}

#[test]
fn early_data_normalizes_standard_alphabet_and_padding() {
    // '+' and '/' are mapped to the URL-safe alphabet, '=' stripped
    let decoded = parse_early_data(Some(String::from("+/8=")));
    assert_eq!(decoded, Ok(Some(vec![0xFB, 0xFF])));
}

#[test]
fn early_data_rejects_malformed_base64() {
    assert!(parse_early_data(Some(String::from("!!!"))).is_err());
}
