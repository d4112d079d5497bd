use revolver_extract::cipher::eh_decrypt_data;
use revolver_extract::decryption::{decrypt_password, Error};

const KEY: &[u8] = b"2pAuzgX9Ns";

#[test]
fn transform_is_deterministic() {
    let data: Vec<u8> = (0u8..=255).collect();
    let first = eh_decrypt_data(&data, KEY, 0);
    let second = eh_decrypt_data(&data, KEY, 0);
    assert_eq!(first, second);
}

#[test]
fn transform_known_vector() {
    let out = eh_decrypt_data(&[0, 1, 2, 3, 4], KEY, 0);
    assert_eq!(out, vec![107, 120, 216, 72, 71]);
}

#[test]
fn transform_known_vector_with_offset() {
    let out = eh_decrypt_data(&[0, 1, 2, 3, 4], KEY, 7);
    assert_eq!(out, vec![37, 50, 146, 2, 1]);
}

#[test]
fn transform_empty_data() {
    let out = eh_decrypt_data(&[], KEY, 0);
    assert!(out.is_empty());
}

#[test]
fn transform_empty_key_leaves_data_unchanged() {
    let out = eh_decrypt_data(&[9, 8, 7], &[], 0);
    assert_eq!(out, vec![9, 8, 7]);
}

#[test]
fn known_vector_decodes_to_fixture() {
    let out = decrypt_password("Ce6cKCYfs08cEA==").unwrap();
    assert_eq!(out, "terminal77");
}

#[test]
fn known_vector_decodes_twice_the_same() {
    let first = decrypt_password("Ce6cKCYfs08cEA==").unwrap();
    let second = decrypt_password("Ce6cKCYfs08cEA==").unwrap();
    assert_eq!(first, second);
}

#[test]
fn malformed_base64_is_a_base64_error() {
    match decrypt_password("%%%") {
        Err(Error::Base64Decode(_)) => {}
        other => panic!("expected a base64 decode error, got {:?}", other),
    }
}

#[test]
fn bad_padding_is_a_base64_error() {
    match decrypt_password("AB=A") {
        Err(Error::Base64Decode(_)) => {}
        other => panic!("expected a base64 decode error, got {:?}", other),
    }
}

#[test]
fn non_text_result_is_an_encoding_error() {
    match decrypt_password("AAAA") {
        Err(Error::UTF8Decode(_)) => {}
        other => panic!("expected a text decoding error, got {:?}", other),
    }
}

#[test]
fn short_field_decodes() {
    let out = decrypt_password("AAA=").unwrap();
    assert_eq!(out, "kw");
}
