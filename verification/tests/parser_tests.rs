use base64::prelude::BASE64_STANDARD;
use base64::Engine;
use revolver_extract::parser::{extract_from_region, locate, User};
use revolver_extract::scanner::MemoryRegion;

/// The encrypted form of "secret": running the keyed cipher over these bytes
/// gives back the ASCII of "secret".
const SECRET_ENCRYPTED: [u8; 6] = [0x08, 0xEE, 0x8D, 0x2D, 0x22, 0x25];

fn standard_payload() -> Vec<u8> {
    let mut payload = b"AB".to_vec();
    payload.extend_from_slice(BASE64_STANDARD.encode(SECRET_ENCRYPTED).as_bytes());
    payload
}

fn record_bytes(payload: &[u8], tag: &[u8]) -> Vec<u8> {
    let mut data = payload.to_vec();
    data.extend_from_slice(tag);
    data.extend_from_slice(b"false");
    data
}

fn region_bytes(payload: &[u8], tag: &[u8]) -> Vec<u8> {
    let mut bytes = b"..pdfpath".to_vec();
    bytes.extend_from_slice(b"user");
    bytes.extend_from_slice(&record_bytes(payload, tag));
    bytes
}

fn region(bytes: Vec<u8>) -> MemoryRegion {
    let size = bytes.len();
    MemoryRegion { base_address: 0, size, bytes }
}

#[test]
fn standard_payload_recovers_secret() {
    let payload = standard_payload();
    assert_eq!(payload, b"ABCO6NLSIl");
    let u = User::parse_non_admin_data(&payload).unwrap();
    assert_eq!(u.username_initials, "AB");
    assert_eq!(u.plaintext_pw, "secret");
}

#[test]
fn standard_record_parses_through_tag_dispatch() {
    let data = record_bytes(&standard_payload(), b"0801");
    let u = User::try_from_parsed_data(&data).unwrap();
    assert_eq!(u.username_initials, "AB");
    assert_eq!(u.plaintext_pw, "secret");
}

#[test]
fn admin_payload_recovers_account_password_only() {
    let data = record_bytes(b"AB9uyaMg==9u2XKQ==", b"1801");
    let u = User::try_from_parsed_data(&data).unwrap();
    assert_eq!(u.username_initials, "AB");
    assert_eq!(u.plaintext_pw, "acpw");
}

#[test]
fn admin_payload_parses_directly() {
    let u = User::parse_admin_data(b"AB9uyaMg==9u2XKQ==").unwrap();
    assert_eq!(u.username_initials, "AB");
    assert_eq!(u.plaintext_pw, "acpw");
}

#[test]
fn other_admin_tag_is_recognized() {
    let data = record_bytes(b"AB9uyaMg==9u2XKQ==", b"0001");
    let u = User::try_from_parsed_data(&data).unwrap();
    assert_eq!(u.username_initials, "AB");
    assert_eq!(u.plaintext_pw, "acpw");
}

#[test]
fn ignorable_subfield_is_stripped() {
    let mut payload = standard_payload();
    payload.extend_from_slice(b"uwNSCO0Igow=");
    let data = record_bytes(&payload, b"0001");
    let u = User::try_from_parsed_data(&data).unwrap();
    assert_eq!(u.username_initials, "AB");
    assert_eq!(u.plaintext_pw, "secret");
}

#[test]
fn unknown_tag_yields_nothing() {
    let data = record_bytes(&standard_payload(), b"9999");
    assert!(User::try_from_parsed_data(&data).is_none());
}

#[test]
fn missing_terminator_yields_nothing() {
    let mut data = standard_payload();
    data.extend_from_slice(b"0801");
    assert!(User::try_from_parsed_data(&data).is_none());
}

#[test]
fn terminator_too_early_yields_nothing() {
    assert!(User::try_from_parsed_data(b"abfalse").is_none());
}

#[test]
fn undecodable_payload_yields_nothing() {
    assert!(User::parse_non_admin_data(b"AB%%%%%%%%").is_none());
}

#[test]
fn region_with_record_yields_credential() {
    let bytes = region_bytes(&standard_payload(), b"0801");
    let u = extract_from_region(&bytes).unwrap();
    assert_eq!(u.username_initials, "AB");
    assert_eq!(u.plaintext_pw, "secret");
}

#[test]
fn duplicate_region_content_yields_one_credential() {
    let bytes = region_bytes(&standard_payload(), b"0801");
    let regions = vec![region(bytes.clone()), region(bytes)];
    let users = locate(&regions);
    assert_eq!(users.len(), 1);
    assert_eq!(users[0].username_initials, "AB");
    assert_eq!(users[0].plaintext_pw, "secret");
}

#[test]
fn distinct_records_kept_in_discovery_order() {
    let mut second_payload = b"CD".to_vec();
    second_payload.extend_from_slice(BASE64_STANDARD.encode(SECRET_ENCRYPTED).as_bytes());
    let regions = vec![
        region(region_bytes(&standard_payload(), b"0801")),
        region(region_bytes(&second_payload, b"0801")),
    ];
    let users = locate(&regions);
    assert_eq!(users.len(), 2);
    assert_eq!(users[0].username_initials, "AB");
    assert_eq!(users[1].username_initials, "CD");
}

#[test]
fn truncated_region_misses_marker() {
    let bytes = region_bytes(&standard_payload(), b"0801");
    let cut = &bytes[..6];
    assert!(extract_from_region(cut).is_none());
}

#[test]
fn truncated_region_misses_record() {
    let bytes = region_bytes(&standard_payload(), b"0801");
    let cut = &bytes[..bytes.len() - 8];
    assert!(extract_from_region(cut).is_none());
}

#[test]
fn record_beyond_entry_window_is_not_found() {
    let mut bytes = b"pdfpath".to_vec();
    bytes.extend_from_slice(&[b'x'; 300]);
    bytes.extend_from_slice(b"user");
    bytes.extend_from_slice(&record_bytes(&standard_payload(), b"0801"));
    assert!(extract_from_region(&bytes).is_none());
}

#[test]
fn output_line_has_identifier_and_secret() {
    let u = User::parse_non_admin_data(&standard_payload()).unwrap();
    assert_eq!(u.render_line(), "AB: secret");
}

#[test]
fn equal_credentials_compare_equal() {
    let payload = standard_payload();
    let a = User::parse_non_admin_data(&payload).unwrap();
    let b = User::parse_non_admin_data(&payload).unwrap();
    assert_eq!(a, b);
}
