use mc_status_probe::varint::{decode_string, decode_varint, encode_string, encode_varint};
use mc_status_probe::{PingError, ProtocolError};

#[test]
fn test_encode_varint_zero() {
    let mut buf = Vec::new();
    encode_varint(0, &mut buf);
    assert_eq!(buf, vec![0x00]);
}

#[test]
fn test_encode_varint_one() {
    let mut buf = Vec::new();
    encode_varint(1, &mut buf);
    assert_eq!(buf, vec![0x01]);
}

#[test]
fn test_encode_varint_127() {
    let mut buf = Vec::new();
    encode_varint(127, &mut buf);
    assert_eq!(buf, vec![0x7F]);
}

#[test]
fn test_encode_varint_128() {
    let mut buf = Vec::new();
    encode_varint(128, &mut buf);
    assert_eq!(buf, vec![0x80, 0x01]);
}

#[test]
fn test_encode_varint_25565() {
    let mut buf = Vec::new();
    encode_varint(25565, &mut buf);
    assert_eq!(buf, vec![0xDD, 0xC7, 0x01]);
}

#[test]
fn test_decode_varint_roundtrip() {
    for val in &[0, 1, 127, 128, 255, 25565, 2147483647] {
        let mut buf = Vec::new();
        encode_varint(*val, &mut buf);
        let (decoded, consumed) = decode_varint(&buf).unwrap();
        assert_eq!(decoded, *val, "roundtrip for {}", val);
        assert_eq!(consumed, buf.len(), "all bytes consumed for {}", val);
    }
}

#[test]
fn test_encode_string() {
    let mut buf = Vec::new();
    encode_string("hello", &mut buf);
    // length 5 as VarInt -> 0x05, then "hello"
    let expected: &[u8] = &[0x05, b'h', b'e', b'l', b'l', b'o'];
    assert_eq!(buf, expected);
}

#[test]
fn test_string_roundtrip() {
    for s in &["", "a", "hello world", "Minecraft 1.21"] {
        let mut buf = Vec::new();
        encode_string(s, &mut buf);
        let (decoded, consumed) = decode_string(&buf).unwrap();
        assert_eq!(decoded, *s, "roundtrip for '{}'", s);
        assert_eq!(consumed, buf.len(), "all bytes consumed for '{}'", s);
    }
}

#[test]
fn encode_varint_appends_to_existing_bytes() {
    let mut buf = vec![0xAA, 0xBB];
    encode_varint(300, &mut buf);
    assert_eq!(buf, vec![0xAA, 0xBB, 0xAC, 0x02]);
}

#[test]
fn encode_varint_negative_values_take_five_bytes() {
    let mut buf = Vec::new();
    encode_varint(-1, &mut buf);
    assert_eq!(buf, vec![0xFF, 0xFF, 0xFF, 0xFF, 0x0F]);
    let mut buf = Vec::new();
    encode_varint(i32::MIN, &mut buf);
    assert_eq!(buf, vec![0x80, 0x80, 0x80, 0x80, 0x08]);
}

#[test]
fn varint_roundtrip_with_trailing_bytes() {
    for val in &[i32::MIN, -25565, -1, 0, 1, 127, 128, 16383, 16384, 2097151, 268435455, i32::MAX] {
        let mut buf = Vec::new();
        encode_varint(*val, &mut buf);
        let len = buf.len();
        assert!(1 <= len && len <= 5);
        buf.extend_from_slice(&[0x81, 0x82, 0x00]);
        let (decoded, consumed) = decode_varint(&buf).unwrap();
        assert_eq!(decoded, *val);
        assert_eq!(consumed, len);
    }
}

#[test]
fn decode_varint_reads_the_maximum() {
    assert_eq!(decode_varint(&[0xFF, 0xFF, 0xFF, 0xFF, 0x07]).unwrap(), (i32::MAX, 5));
}

#[test]
fn decode_varint_drops_bits_beyond_32() {
    // The fifth byte's upper data bits fall outside the 32-bit value.
    assert_eq!(decode_varint(&[0x80, 0x80, 0x80, 0x80, 0x7F]).unwrap(), (-268435456, 5));
}

#[test]
fn decode_varint_too_large() {
    let r = decode_varint(&[0x80, 0x80, 0x80, 0x80, 0x80, 0x01]);
    assert!(matches!(r, Err(PingError::Protocol(ProtocolError::VarIntTooLarge))));
}

#[test]
fn decode_varint_truncated() {
    assert!(matches!(
        decode_varint(&[]),
        Err(PingError::Protocol(ProtocolError::VarIntTruncated))
    ));
    assert!(matches!(
        decode_varint(&[0x80, 0x80]),
        Err(PingError::Protocol(ProtocolError::VarIntTruncated))
    ));
}

#[test]
fn decode_string_non_ascii_roundtrip() {
    let mut buf = Vec::new();
    encode_string("Grüße, 世界 🎮", &mut buf);
    assert_eq!(buf[0] as usize, "Grüße, 世界 🎮".len());
    buf.push(0x42);
    let (decoded, consumed) = decode_string(&buf).unwrap();
    assert_eq!(decoded, "Grüße, 世界 🎮");
    assert_eq!(consumed, buf.len() - 1);
}

#[test]
fn decode_string_too_long() {
    let r = decode_string(&[0x05, b'a', b'b']);
    assert!(matches!(
        r,
        Err(PingError::Protocol(ProtocolError::StringTooLong { len: 5, available: 2 }))
    ));
}

#[test]
fn decode_string_invalid_utf8() {
    let r = decode_string(&[0x02, 0xC3, 0x28]);
    assert!(matches!(
        r,
        Err(PingError::Protocol(ProtocolError::InvalidUtf8 { valid_up_to: 0, error_len: Some(1) }))
    ));
    let r = decode_string(&[0x02, 0x41, 0xE2]);
    assert!(matches!(
        r,
        Err(PingError::Protocol(ProtocolError::InvalidUtf8 { valid_up_to: 1, error_len: None }))
    ));
}

#[test]
fn decode_string_bad_length_prefix() {
    let r = decode_string(&[0x85]);
    assert!(matches!(r, Err(PingError::Protocol(ProtocolError::VarIntTruncated))));
}

#[test]
fn decode_string_negative_length() {
    assert!(matches!(
        decode_string(&[0xFF, 0xFF, 0xFF, 0xFF, 0x0F]),
        Err(PingError::Protocol(ProtocolError::NegativeStringLength { declared: -1, available: 0 }))
    ));
    assert!(matches!(
        decode_string(&[0xF9, 0xFF, 0xFF, 0xFF, 0x0F, 0x41]),
        Err(PingError::Protocol(ProtocolError::NegativeStringLength { declared: -7, available: 1 }))
    ));
}
