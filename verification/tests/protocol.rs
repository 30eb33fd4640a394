use mc_status_probe::protocol::{
    build_handshake_packet, build_status_request_packet,
    parse_status_response, DEFAULT_PROTOCOL_VERSION,
};
use mc_status_probe::varint::{decode_string, decode_varint, encode_string, encode_varint};
use mc_status_probe::{PingError, ProtocolError};

fn status_packet(json: &str) -> Vec<u8> {
    let mut body = Vec::new();
    encode_varint(0x00, &mut body);
    encode_string(json, &mut body);
    let mut packet = Vec::new();
    encode_varint(body.len() as i32, &mut packet);
    packet.extend_from_slice(&body);
    packet
}

#[test]
fn test_handshake_packet_format() {
    let packet = build_handshake_packet(767, "localhost", 25565, 1);
    assert!(!packet.is_empty());
}

#[test]
fn test_empty_response() {
    let result = parse_status_response(&[]);
    assert!(result.is_err());
}

#[test]
fn handshake_packet_exact_bytes() {
    let packet = build_handshake_packet(767, "localhost", 25565, 1);
    let mut expected = vec![16, 0x00, 0xFF, 0x05, 9];
    expected.extend_from_slice(b"localhost");
    expected.extend_from_slice(&[0x63, 0xDD, 0x01]);
    assert_eq!(packet, expected);
}

#[test]
fn handshake_fields_read_back() {
    let packet = build_handshake_packet(-5, "mc.example.org", 1, 2);
    let (len, off) = decode_varint(&packet).unwrap();
    assert_eq!(len as usize + off, packet.len());
    let body = &packet[off..];
    assert_eq!(decode_varint(body).unwrap(), (0, 1));
    let (pv, k1) = decode_varint(&body[1..]).unwrap();
    assert_eq!(pv, -5);
    let (addr, k2) = decode_string(&body[1 + k1..]).unwrap();
    assert_eq!(addr, "mc.example.org");
    let at = 1 + k1 + k2;
    assert_eq!(body[at] as u16 * 256 + body[at + 1] as u16, 1);
    assert_eq!(decode_varint(&body[at + 2..]).unwrap(), (2, 1));
    assert_eq!(at + 3, body.len());
}

#[test]
fn status_request_packet_bytes() {
    assert_eq!(build_status_request_packet(), vec![0x01, 0x00]);
}

#[test]
fn default_protocol_version_is_1_21() {
    assert_eq!(DEFAULT_PROTOCOL_VERSION, 767);
}

#[test]
fn status_response_roundtrip() {
    let json = r#"{"version":{"name":"Mock 1.21","protocol":767},"players":{"max":20,"online":3}}"#;
    let mut packet = status_packet(json);
    let total = packet.len();
    packet.extend_from_slice(&[0x09, 0x01]);
    let (text, consumed) = parse_status_response(&packet).unwrap();
    assert_eq!(text, json);
    assert_eq!(consumed, total);
}

#[test]
fn status_response_errors() {
    assert!(matches!(
        parse_status_response(&[]),
        Err(PingError::Protocol(ProtocolError::EmptyResponse))
    ));
    assert!(matches!(
        parse_status_response(&[0x00, 0x00]),
        Err(PingError::Protocol(ProtocolError::InvalidPacketLength(0)))
    ));
    assert!(matches!(
        parse_status_response(&[0x05, 0x00, 0x00]),
        Err(PingError::Protocol(ProtocolError::BodyTooShort { expected: 5, got: 2 }))
    ));
    assert!(matches!(
        parse_status_response(&[0x02, 0x01, 0x00]),
        Err(PingError::Protocol(ProtocolError::UnexpectedPacketId(1)))
    ));
    assert!(matches!(
        parse_status_response(&[0xFF]),
        Err(PingError::Protocol(ProtocolError::VarIntTruncated))
    ));
    assert!(matches!(
        parse_status_response(&[0x03, 0x00, 0x07, b'x']),
        Err(PingError::Protocol(ProtocolError::StringTooLong { len: 7, available: 1 }))
    ));
    assert!(matches!(
        parse_status_response(&[0x03, 0x00, 0x01, 0xFF]),
        Err(PingError::Protocol(ProtocolError::InvalidUtf8 { valid_up_to: 0, error_len: Some(1) }))
    ));
}

#[test]
fn status_json_may_run_past_announced_length() {
    // The JSON string is read from all bytes after the packet ID.
    let (text, consumed) = parse_status_response(&[0x01, 0x00, 0x02, b'{', b'}']).unwrap();
    assert_eq!(text, "{}");
    assert_eq!(consumed, 5);
}

#[test]
fn negative_json_length_is_refused() {
    let data = [0x06, 0x00, 0xFF, 0xFF, 0xFF, 0xFF, 0x0F];
    assert!(matches!(
        parse_status_response(&data),
        Err(PingError::Protocol(ProtocolError::NegativeStringLength { declared: -1, available: 0 }))
    ));
}

#[test]
fn appended_bytes_change_nothing() {
    let mut packet = status_packet("{}");
    let first = parse_status_response(&packet).unwrap();
    packet.extend_from_slice(&[0x00, 0xFF, 0x80]);
    assert_eq!(parse_status_response(&packet).unwrap(), first);
}
