use hc_bundle::codec::{decode_text, encode_bytes, CodecError};

#[test]
fn bytes_encode_to_padded_base64() {
    assert_eq!(encode_bytes(&b"hi".to_vec()), "aGk=");
    assert_eq!(encode_bytes(&vec![]), "");
    assert_eq!(encode_bytes(&vec![0, 97, 115, 109]), "AGFzbQ==");
}

#[test]
fn base64_decodes_to_bytes() {
    assert_eq!(decode_text(&"aGk=".to_string()), Ok(b"hi".to_vec()));
    assert_eq!(decode_text(&"".to_string()), Ok(vec![]));
    assert_eq!(decode_text(&"not base64!".to_string()), Err(CodecError::Malformed));
}

#[test]
fn decoding_inverts_encoding() {
    let bytes: Vec<u8> = (0..=255u8).collect();
    assert_eq!(decode_text(&encode_bytes(&bytes)), Ok(bytes));
}
