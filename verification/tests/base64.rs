use xmodem_transfer::protocol::{b64_decode, b64_encode};

#[test]
fn test_b64_roundtrip_various_lengths() {
    for len in 0..64usize {
        let data: Vec<u8> = (0..len).map(|i| (i * 7 + 3) as u8).collect();
        let encoded = b64_encode(&data);
        let decoded = b64_decode(&encoded).unwrap();
        assert_eq!(decoded, data, "长度 {len} 往返失败");
    }
}

#[test]
fn test_b64_known_values() {
    assert_eq!(b64_encode(b""), "");
    assert_eq!(b64_encode(b"f"), "Zg==");
    assert_eq!(b64_encode(b"fo"), "Zm8=");
    assert_eq!(b64_encode(b"foo"), "Zm9v");
    assert_eq!(b64_encode(b"foob"), "Zm9vYg==");
    assert_eq!(b64_encode(b"fooba"), "Zm9vYmE=");
    assert_eq!(b64_encode(b"foobar"), "Zm9vYmFy");
}

#[test]
fn test_b64_decode_ignores_whitespace() {
    assert_eq!(b64_decode("Zm9v\nYmFy").unwrap(), b"foobar");
}

#[test]
fn test_b64_decode_rejects_invalid() {
    assert!(b64_decode("!!!!").is_err());
}

#[test]
fn test_b64_decode_rejects_bad_length() {
    // A digit count of 4n + 1 is impossible.
    assert!(b64_decode("Zm9vY").is_err());
}

#[test]
fn b64_encode_reaches_every_digit() {
    let data: Vec<u8> = vec![
        0x00, 0x10, 0x83, 0x10, 0x51, 0x87, 0x20, 0x92, 0x8b, 0x30, 0xd3, 0x8f, 0x41, 0x14, 0x93,
        0x51, 0x55, 0x97, 0x61, 0x96, 0x9b, 0x71, 0xd7, 0x9f, 0x82, 0x18, 0xa3, 0x92, 0x59, 0xa7,
        0xa2, 0x9a, 0xab, 0xb2, 0xdb, 0xaf, 0xc3, 0x1c, 0xb3, 0xd3, 0x5d, 0xb7, 0xe3, 0x9e, 0xbb,
        0xf3, 0xdf, 0xbf,
    ];
    let alphabet = "ABCDEFGHIJKLMNOPQRSTUVWXYZabcdefghijklmnopqrstuvwxyz0123456789+/";
    assert_eq!(b64_encode(&data), alphabet);
    assert_eq!(b64_decode(alphabet).unwrap(), data);
}

#[test]
fn b64_decode_names_the_first_bad_byte() {
    assert_eq!(b64_decode("Zm9v*!").unwrap_err(), "非法 base64 字符: *");
    // The first byte of a character outside ASCII is named on its own.
    assert_eq!(b64_decode("é").unwrap_err(), "非法 base64 字符: \u{c3}");
}

#[test]
fn b64_decode_checks_the_length_first() {
    assert_eq!(b64_decode("Zm9v!").unwrap_err(), "base64 长度非法");
}

#[test]
fn b64_decode_skips_padding_and_space_anywhere() {
    assert_eq!(b64_decode(" Z=m\t9\r\nv=Y\u{c}g ==").unwrap(), b"foob");
    assert_eq!(b64_decode("Zg").unwrap(), b"f");
    assert_eq!(b64_decode("====").unwrap(), b"");
}
