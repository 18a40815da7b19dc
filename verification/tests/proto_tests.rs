use antigravity_sdk::proto::{decode_output_config, encode_input_config};

#[test]
fn test_encode_decode() {
    let storage_dir = "/tmp/antigravity";
    let encoded = encode_input_config(storage_dir);
    assert_eq!(encoded[0], 0x0A);
    assert_eq!(encoded[1], storage_dir.len() as u8);
    assert_eq!(&encoded[2..], storage_dir.as_bytes());

    // port (field 1, varint 8080 = 0x90 0x3F), api_key (field 2, "secret")
    let out_bytes = vec![
        0x08, 0x90, 0x3F, 0x12, 0x06, b's', b'e', b'c', b'r', b'e', b't',
    ];
    let decoded = decode_output_config(&out_bytes).unwrap();
    assert_eq!(decoded.port, 8080);
    assert_eq!(decoded.api_key, "secret");
}

#[test]
fn encode_empty_directory_is_empty() {
    assert!(encode_input_config("").is_empty());
}

#[test]
fn encode_long_directory_uses_two_byte_length() {
    let dir = "d".repeat(200);
    let encoded = encode_input_config(&dir);
    assert_eq!(encoded[0], 0x0A);
    // 200 = 0xC8 -> varint 0xC8 0x01
    assert_eq!(encoded[1], 0xC8);
    assert_eq!(encoded[2], 0x01);
    assert_eq!(encoded.len(), 3 + 200);
}

#[test]
fn decode_empty_gives_defaults() {
    let decoded = decode_output_config(&[]).unwrap();
    assert_eq!(decoded.port, 0);
    assert_eq!(decoded.api_key, "");
}

#[test]
fn decode_skips_unknown_fields() {
    // field 3 varint, field 4 fixed64, field 5 length-delimited, field 6 fixed32, then port 7
    let bytes = vec![
        0x18, 0x05, 0x21, 1, 2, 3, 4, 5, 6, 7, 8, 0x2A, 0x02, b'x', b'y', 0x35, 1, 2, 3, 4, 0x08, 0x07,
    ];
    let decoded = decode_output_config(&bytes).unwrap();
    assert_eq!(decoded.port, 7);
}

#[test]
fn decode_truncated_varint_fails() {
    assert_eq!(
        decode_output_config(&[0x08, 0x90]).unwrap_err(),
        "Unexpected EOF reading varint"
    );
}

#[test]
fn decode_varint_overflow_fails() {
    let bytes = vec![0x08, 0xFF, 0xFF, 0xFF, 0xFF, 0xFF, 0xFF, 0xFF, 0xFF, 0xFF, 0xFF, 0x01];
    assert_eq!(decode_output_config(&bytes).unwrap_err(), "Varint overflow");
}

#[test]
fn decode_port_wrong_wire_type_fails() {
    assert_eq!(
        decode_output_config(&[0x0A, 0x00]).unwrap_err(),
        "Expected wire type 0 for port, got 2"
    );
}

#[test]
fn decode_api_key_wrong_wire_type_fails() {
    assert_eq!(
        decode_output_config(&[0x10, 0x00]).unwrap_err(),
        "Expected wire type 2 for api_key, got 0"
    );
}

#[test]
fn decode_api_key_eof_fails() {
    assert_eq!(
        decode_output_config(&[0x12, 0x05, b'a']).unwrap_err(),
        "Unexpected EOF reading api_key"
    );
}

#[test]
fn decode_api_key_invalid_utf8_fails() {
    let err = decode_output_config(&[0x12, 0x01, 0xFF]).unwrap_err();
    assert!(err.starts_with("Invalid UTF-8 in api_key: "));
    assert_eq!(
        err,
        format!("Invalid UTF-8 in api_key: {}", String::from_utf8(vec![0xFF]).unwrap_err())
    );
}

#[test]
fn decode_skip_errors() {
    assert_eq!(
        decode_output_config(&[0x19, 1, 2]).unwrap_err(),
        "Unexpected EOF skipping 64-bit field"
    );
    assert_eq!(
        decode_output_config(&[0x1A, 0x05, 1]).unwrap_err(),
        "Unexpected EOF skipping length-delimited field"
    );
    assert_eq!(
        decode_output_config(&[0x1D, 1]).unwrap_err(),
        "Unexpected EOF skipping 32-bit field"
    );
    assert_eq!(
        decode_output_config(&[0x1B]).unwrap_err(),
        "Unsupported wire type: 3"
    );
}

#[test]
fn decode_port_truncates_to_i32() {
    // 2^32 + 5 as varint: port keeps the low 32 bits
    let bytes = vec![0x08, 0x85, 0x80, 0x80, 0x80, 0x10];
    assert_eq!(decode_output_config(&bytes).unwrap().port, 5);
}

#[test]
fn decode_later_fields_win() {
    let bytes = vec![0x08, 0x01, 0x08, 0x02];
    assert_eq!(decode_output_config(&bytes).unwrap().port, 2);
}
