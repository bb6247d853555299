use xmodem_transfer::xmodem::{
    build_packet, checksum8, crc16_xmodem, parse_packet, split_into_payloads, verify_frame,
    verify_packet, ChecksumMode, PAYLOAD_1024, PAYLOAD_128, SOH, STX, SUB,
};

#[test]
fn test_crc16_xmodem_known_vector() {
    // The standard check value for "123456789" is 0x31C3.
    assert_eq!(crc16_xmodem(b"123456789"), 0x31C3);
}

#[test]
fn test_checksum8() {
    assert_eq!(checksum8(&[0x01, 0x02, 0x03]), 0x06);
    // Carries are dropped.
    assert_eq!(checksum8(&[0xFF, 0x02]), 0x01);
}

#[test]
fn test_build_packet_128_crc() {
    let payload = vec![0xAAu8; PAYLOAD_128];
    let pkt = build_packet(1, &payload, ChecksumMode::Crc);
    assert_eq!(pkt.len(), 128 + 5);
    assert_eq!(pkt[0], SOH);
    assert_eq!(pkt[1], 1);
    assert_eq!(pkt[2], 254);
    assert!(verify_packet(&pkt[3..131], &pkt[131..133], ChecksumMode::Crc));
}

#[test]
fn test_build_packet_1024_checksum() {
    let payload = vec![0x55u8; PAYLOAD_1024];
    let pkt = build_packet(7, &payload, ChecksumMode::Checksum);
    assert_eq!(pkt.len(), 1024 + 4);
    assert_eq!(pkt[0], STX);
    assert_eq!(pkt[1], 7);
    assert_eq!(pkt[2], 248);
    assert!(verify_packet(&pkt[3..1027], &pkt[1027..1028], ChecksumMode::Checksum));
}

#[test]
fn test_verify_packet_rejects_corruption() {
    let payload = vec![0x00u8; PAYLOAD_128];
    let mut pkt = build_packet(1, &payload, ChecksumMode::Crc);
    let last = pkt.len() - 1;
    pkt[last] ^= 0xFF;
    assert!(!verify_packet(&pkt[3..131], &pkt[131..133], ChecksumMode::Crc));
}

#[test]
fn test_split_into_payloads_pads_with_sub() {
    let data = vec![1u8, 2, 3];
    let blocks = split_into_payloads(&data, PAYLOAD_128);
    assert_eq!(blocks.len(), 1);
    assert_eq!(blocks[0].len(), PAYLOAD_128);
    assert_eq!(&blocks[0][..3], &[1, 2, 3]);
    assert!(blocks[0][3..].iter().all(|&b| b == SUB));
}

#[test]
fn test_split_into_payloads_empty() {
    assert!(split_into_payloads(&[], PAYLOAD_128).is_empty());
}

#[test]
fn test_parse_packet_roundtrip() {
    // SOH with CRC: a check field of 2 bytes, 133 bytes in all.
    let payload = vec![0x11u8; PAYLOAD_128];
    let frame = build_packet(3, &payload, ChecksumMode::Crc);
    let (no, parsed_payload, checksum) = parse_packet(&frame).unwrap();
    assert_eq!(no, 3);
    assert_eq!(parsed_payload, &payload[..]);
    assert_eq!(checksum.len(), 2);
    assert!(verify_frame(&frame));
}

#[test]
fn test_parse_packet_128_checksum_mode() {
    // SOH with a sum: a check field of 1 byte, 132 bytes in all.
    let payload = vec![0x22u8; PAYLOAD_128];
    let frame = build_packet(5, &payload, ChecksumMode::Checksum);
    let (no, parsed_payload, checksum) = parse_packet(&frame).unwrap();
    assert_eq!(no, 5);
    assert_eq!(parsed_payload.len(), PAYLOAD_128);
    assert_eq!(checksum.len(), 1);
    assert!(verify_frame(&frame));
}

#[test]
fn test_parse_packet_rejects_bad_sequence() {
    let payload = vec![0u8; PAYLOAD_128];
    let mut frame = build_packet(3, &payload, ChecksumMode::Crc);
    frame[2] = 0x00;
    assert!(parse_packet(&frame).is_none());
}

#[test]
fn test_parse_packet_rejects_bad_header() {
    let payload = vec![0u8; PAYLOAD_128];
    let mut frame = build_packet(3, &payload, ChecksumMode::Crc);
    frame[0] = 0xFF;
    assert!(parse_packet(&frame).is_none());
}

#[test]
fn test_verify_frame_detects_corruption() {
    let payload = vec![0x77u8; PAYLOAD_128];
    let mut frame = build_packet(1, &payload, ChecksumMode::Checksum);
    let last = frame.len() - 1;
    frame[last] = frame[last].wrapping_add(1);
    assert!(!verify_frame(&frame));
}

#[test]
fn crc_of_message_and_check_field_is_zero() {
    let mut message = b"123456789".to_vec();
    message.push(0x31);
    message.push(0xC3);
    assert_eq!(crc16_xmodem(&message), 0);
    assert_eq!(crc16_xmodem(&[]), 0);
}

#[test]
fn any_single_damaged_byte_is_refused() {
    let payload: Vec<u8> = (0..PAYLOAD_128).map(|i| i as u8).collect();
    for mode in [ChecksumMode::Checksum, ChecksumMode::Crc] {
        let frame = build_packet(200, &payload, mode);
        for at in 0..frame.len() {
            let mut damaged = frame.clone();
            damaged[at] ^= 0x20;
            assert!(!verify_frame(&damaged), "byte {at}");
        }
    }
}

#[test]
fn parse_packet_rejects_wrong_lengths() {
    let payload = vec![0u8; PAYLOAD_128];
    let frame = build_packet(1, &payload, ChecksumMode::Crc);
    assert!(parse_packet(&[]).is_none());
    assert!(parse_packet(&frame[..4]).is_none());
    assert!(parse_packet(&frame[..131]).is_none());
    let mut long = frame.clone();
    long.push(0);
    assert!(parse_packet(&long).is_none());
}

#[test]
fn split_into_payloads_cuts_at_the_block_size() {
    let data: Vec<u8> = (0..7u8).collect();
    let blocks = split_into_payloads(&data, 3);
    assert_eq!(blocks, vec![vec![0, 1, 2], vec![3, 4, 5], vec![6, SUB, SUB]]);
    assert_eq!(split_into_payloads(&data[..6], 3).len(), 2);
    assert!(split_into_payloads(&[], 0).is_empty());
}
