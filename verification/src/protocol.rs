//! Minecraft protocol packet construction and reading for Server List Ping.
//!
//! Handshake packet (packet ID 0x00, state = handshake): VarInt packet ID,
//! VarInt protocol version, string server address, big-endian u16 port,
//! VarInt next state (1 = status).
//!
//! Status Request packet (packet ID 0x00, state = status): the packet ID only.
//!
//! Status Response packet (packet ID 0x00, state = status): VarInt packet
//! length, VarInt packet ID, string holding the JSON response.
use vstd::prelude::*;
use vstd::slice::slice_subrange;
use vstd::utf8::encode_utf8;

use crate::error::{PingError, ProtocolError};
use crate::varint::{
    decode_string, decode_varint, encode_string, encode_varint, lemma_decode_varint_bounds,
    lemma_decode_string_extend, lemma_decode_varint_extend, lemma_string_roundtrip,
    lemma_varint_bytes_decode, lemma_varint_roundtrip,
    spec_decode_string, spec_decode_varint, string_encoding, StringRead,
    string_outcome, varint_bytes, varint_encoding,
};

verus! {

/// Default protocol version for Minecraft 1.21.x.
pub const DEFAULT_PROTOCOL_VERSION: i32 = 767;

/// A packet on the wire: the body's length (its low 32 bits) as a VarInt,
/// then the body.
pub open spec fn frame(body: Seq<u8>) -> Seq<u8> {
    varint_bytes(body.len() % 0x1_0000_0000) + body
}

/// The fields of a Handshake packet, in order.
pub open spec fn handshake_body(
    protocol_version: i32,
    address: Seq<char>,
    port: u16,
    next_state: i32,
) -> Seq<u8> {
    varint_encoding(0) + varint_encoding(protocol_version) + string_encoding(address) + seq![
        (port / 256) as u8,
        (port % 256) as u8,
    ] + varint_encoding(next_state)
}

/// A whole Handshake packet.
pub open spec fn handshake_packet(
    protocol_version: i32,
    address: Seq<char>,
    port: u16,
    next_state: i32,
) -> Seq<u8> {
    frame(handshake_body(protocol_version, address, port, next_state))
}

/// Build the Handshake packet.
/// state = 1 means "status" (as opposed to 2 = login).
pub fn build_handshake_packet(protocol_version: i32, address: &str, port: u16, next_state: i32) -> (r:
    Vec<u8>)
    ensures
        r@ == handshake_packet(protocol_version, address@, port, next_state),
{
    let mut buf: Vec<u8> = Vec::new();
    // Packet ID for handshake
    encode_varint(0x00, &mut buf);
    // Protocol version
    encode_varint(protocol_version, &mut buf);
    // Server address (string)
    encode_string(address, &mut buf);
    // Server port (u16 big-endian)
    buf.push((port / 256) as u8);
    buf.push((port % 256) as u8);
    // Next state (1 = status)
    encode_varint(next_state, &mut buf);
    assert(buf@ =~= handshake_body(protocol_version, address@, port, next_state));

    // Prepend packet length
    let mut framed: Vec<u8> = Vec::new();
    proof {
        crate::varint::lemma_usize_as_i32(buf.len());
    }
    encode_varint(buf.len() as i32, &mut framed);
    let ghost prefix = framed@;
    let mut i: usize = 0;
    while i < buf.len()
        invariant
            i <= buf@.len(),
            framed@ == prefix + buf@.take(i as int),
        decreases buf.len() - i,
    {
        framed.push(buf[i]);
        assert(buf@.take(i + 1) =~= buf@.take(i as int).push(buf@[i as int]));
        i = i + 1;
    }
    assert(buf@.take(i as int) =~= buf@);
    framed
}

/// Build the Status Request packet (no payload, just packet ID).
pub fn build_status_request_packet() -> (r: Vec<u8>)
    ensures
        r@ == frame(varint_encoding(0)),
        r@ == seq![1u8, 0u8],
{
    let mut buf: Vec<u8> = Vec::new();
    // Packet length = 1 (just the packet ID byte)
    encode_varint(1, &mut buf);
    // Packet ID for status request
    encode_varint(0x00, &mut buf);
    assert(varint_encoding(0) =~= seq![0u8]);
    assert(varint_encoding(1) =~= seq![1u8]);
    assert(buf@ =~= seq![1u8, 0u8]);
    buf
}

} // verus!

verus! {

/// The header of a Status Response packet, checked: where the JSON string
/// begins, or why the packet is refused before it.
pub open spec fn status_header(data: Seq<u8>) -> Result<usize, ProtocolError> {
    if data.len() == 0 {
        Err(ProtocolError::EmptyResponse)
    } else {
        match spec_decode_varint(data) {
            Err(e) => Err(e),
            Ok((packet_len, offset)) => {
                if packet_len < 1 {
                    Err(ProtocolError::InvalidPacketLength(packet_len))
                } else if data.len() - offset < packet_len {
                    Err(
                        ProtocolError::BodyTooShort {
                            expected: packet_len,
                            got: (data.len() - offset) as usize,
                        },
                    )
                } else {
                    match spec_decode_varint(data.skip(offset as int)) {
                        Err(e) => Err(e),
                        Ok((packet_id, id_len)) => {
                            if packet_id != 0 {
                                Err(ProtocolError::UnexpectedPacketId(packet_id))
                            } else {
                                Ok((offset + id_len) as usize)
                            }
                        },
                    }
                }
            },
        }
    }
}

/// A Status Response read from raw bytes: the JSON text and the number of
/// bytes up to its end, or why it cannot be read. The JSON string is read
/// from whatever follows the packet ID, within the announced length or
/// beyond it.
pub open spec fn spec_parse_status_response(data: Seq<u8>) -> StringRead {
    match status_header(data) {
        Err(e) => StringRead::Refused(e),
        Ok(start) => match spec_decode_string(data.skip(start as int)) {
            StringRead::Read(json, consumed) => StringRead::Read(json, (start + consumed) as usize),
            other => other,
        },
    }
}

/// Parse a full Status Response from raw bytes.
///
/// The Minecraft protocol wraps each packet as:
///   [VarInt: total_length][VarInt: packet_id][data...]
///
/// This function consumes the length prefix, validates the packet ID,
/// and extracts the JSON string.
pub fn parse_status_response(data: &[u8]) -> (res: Result<(String, usize), PingError>)
    ensures
        string_outcome(spec_parse_status_response(data@), res),
{
    if data.len() == 0 {
        return Err(PingError::Protocol(ProtocolError::EmptyResponse));
    }
    // Read packet length VarInt

    let (packet_len, offset) = match decode_varint(data) {
        Ok(pair) => pair,
        Err(e) => return Err(e),
    };
    proof {
        lemma_decode_varint_bounds(data@);
    }
    if packet_len < 1 {
        return Err(PingError::Protocol(ProtocolError::InvalidPacketLength(packet_len)));
    }
    let body = slice_subrange(data, offset, data.len());
    if body.len() < (packet_len as usize) {
        return Err(
            PingError::Protocol(
                ProtocolError::BodyTooShort { expected: packet_len, got: body.len() },
            ),
        );
    }
    assert(body@ =~= data@.skip(offset as int));
    // Read packet ID from body
    let (packet_id, pid_offset) = match decode_varint(body) {
        Ok(pair) => pair,
        Err(e) => return Err(e),
    };
    proof {
        lemma_decode_varint_bounds(body@);
    }
    if packet_id != 0x00 {
        return Err(PingError::Protocol(ProtocolError::UnexpectedPacketId(packet_id)));
    }
    // Read JSON string from remaining body

    let json_data = slice_subrange(body, pid_offset, body.len());
    assert(json_data@ =~= data@.skip(offset + pid_offset));
    let (json_str, consumed) = match decode_string(json_data) {
        Ok(pair) => pair,
        Err(e) => return Err(e),
    };
    let total_consumed = offset + pid_offset + consumed;
    Ok((json_str, total_consumed))
}

} // verus!

verus! {

/// A Status Response packet carrying `json`: packet ID 0x00 and the JSON
/// string, framed by their length.
pub open spec fn status_response_packet(json: Seq<char>) -> Seq<u8> {
    frame(varint_encoding(0) + string_encoding(json))
}

proof fn lemma_frame_prefix(body: Seq<u8>, rest: Seq<u8>)
    requires
        body.len() <= 0x7fff_ffff,
    ensures
        frame(body).len() - body.len() <= 5,
        spec_decode_varint(frame(body) + rest) == Ok::<(i32, usize), ProtocolError>(
            (body.len() as i32, (frame(body).len() - body.len()) as usize),
        ),
        (frame(body) + rest).skip(frame(body).len() - body.len()) == body + rest,
{
    let blen = body.len();
    assert(blen % 0x1_0000_0000 == blen);
    lemma_varint_bytes_decode(blen, body + rest);
    assert(frame(body) + rest =~= varint_bytes(blen) + (body + rest));
    assert((frame(body) + rest).skip(frame(body).len() - blen) =~= body + rest);
}

proof fn lemma_string_encoding_len(text: Seq<char>)
    requires
        encode_utf8(text).len() <= 0x7fff_ffff,
    ensures
        string_encoding(text).len() <= 5 + encode_utf8(text).len(),
{
    let text_len = encode_utf8(text).len();
    lemma_varint_bytes_decode(text_len, encode_utf8(text));
    assert(text_len % 0x1_0000_0000 == text_len);
}

proof fn lemma_status_header_of_packet(json: Seq<char>, rest: Seq<u8>)
    requires
        encode_utf8(json).len() + 6 <= 0x7fff_ffff,
    ensures
        ({
            let data = status_response_packet(json) + rest;
            let start = status_response_packet(json).len() - string_encoding(json).len();
            &&& status_header(data) == Ok::<usize, ProtocolError>(start as usize)
            &&& data.skip(start) == string_encoding(json) + rest
        }),
{
    let s = string_encoding(json);
    let body = varint_encoding(0) + s;
    let data = status_response_packet(json) + rest;
    assert(varint_encoding(0) =~= seq![0u8]);
    lemma_string_encoding_len(json);
    lemma_frame_prefix(body, rest);
    let offset = frame(body).len() - body.len();
    lemma_varint_roundtrip(0, s + rest);
    assert(body + rest =~= varint_encoding(0) + (s + rest));
    assert(data.skip(offset + 1) =~= s + rest);
}

/// Reading a Status Response packet, whatever follows it, gives back its JSON
/// text and consumes the whole packet, for every JSON text whose packet length
/// fits in an `i32`.
pub proof fn lemma_status_response_roundtrip(json: Seq<char>, rest: Seq<u8>)
    requires
        encode_utf8(json).len() + 6 <= 0x7fff_ffff,
    ensures
        spec_parse_status_response(status_response_packet(json) + rest) == StringRead::Read(
            json,
            status_response_packet(json).len() as usize,
        ),
{
    lemma_status_header_of_packet(json, rest);
    lemma_string_roundtrip(json, rest);
    lemma_string_encoding_len(json);
    lemma_frame_prefix(varint_encoding(0) + string_encoding(json), rest);
}

proof fn lemma_handshake_body_fields(
    protocol_version: i32,
    address: Seq<char>,
    port: u16,
    next_state: i32,
)
    requires
        encode_utf8(address).len() + 20 <= 0x7fff_ffff,
    ensures
        ({
            let body = handshake_body(protocol_version, address, port, next_state);
            let k1 = varint_encoding(protocol_version).len() as int;
            let k2 = string_encoding(address).len() as int;
            let k3 = varint_encoding(next_state).len() as int;
            &&& spec_decode_varint(body) == Ok::<(i32, usize), ProtocolError>((0i32, 1usize))
            &&& spec_decode_varint(body.skip(1)) == Ok::<(i32, usize), ProtocolError>(
                (protocol_version, k1 as usize),
            )
            &&& spec_decode_string(body.skip(1 + k1)) == StringRead::Read(address, k2 as usize)
            &&& body[1 + k1 + k2] as nat * 256 + body[1 + k1 + k2 + 1] as nat == port as nat
            &&& spec_decode_varint(body.skip(1 + k1 + k2 + 2)) == Ok::<(i32, usize), ProtocolError>(
                (next_state, k3 as usize),
            )
            &&& body.len() == 1 + k1 + k2 + 2 + k3
            &&& body.len() <= 0x7fff_ffff
        }),
{
    let body = handshake_body(protocol_version, address, port, next_state);
    let e0 = varint_encoding(0);
    let e1 = varint_encoding(protocol_version);
    let s = string_encoding(address);
    let pb = seq![(port / 256) as u8, (port % 256) as u8];
    let e3 = varint_encoding(next_state);
    let k1 = e1.len() as int;
    let k2 = s.len() as int;
    assert(e0 =~= seq![0u8]);
    lemma_string_encoding_len(address);
    lemma_varint_roundtrip(protocol_version, s + (pb + e3));
    lemma_varint_roundtrip(next_state, Seq::<u8>::empty());
    assert(body =~= e0 + (e1 + (s + (pb + e3))));
    lemma_varint_roundtrip(0, e1 + (s + (pb + e3)));
    assert(body.skip(1) =~= e1 + (s + (pb + e3)));
    assert(body.skip(1 + k1) =~= s + (pb + e3));
    lemma_string_roundtrip(address, pb + e3);
    assert(body[1 + k1 + k2] == pb[0]);
    assert(body[1 + k1 + k2 + 1] == pb[1]);
    assert(body.skip(1 + k1 + k2 + 2) =~= e3 + Seq::<u8>::empty());
}

/// Reading a Handshake packet field by field with the library's readers
/// gives back the length of its body, packet ID 0x00, the protocol version,
/// the address, the port in big-endian order and the next state, and the
/// fields fill the body exactly; this holds for every address whose packet
/// length fits in an `i32`.
pub proof fn lemma_handshake_fields(
    protocol_version: i32,
    address: Seq<char>,
    port: u16,
    next_state: i32,
)
    requires
        encode_utf8(address).len() + 20 <= 0x7fff_ffff,
    ensures
        ({
            let packet = handshake_packet(protocol_version, address, port, next_state);
            let body = handshake_body(protocol_version, address, port, next_state);
            let k1 = varint_encoding(protocol_version).len() as int;
            let k2 = string_encoding(address).len() as int;
            let k3 = varint_encoding(next_state).len() as int;
            &&& spec_decode_varint(packet) == Ok::<(i32, usize), ProtocolError>(
                (body.len() as i32, (packet.len() - body.len()) as usize),
            )
            &&& packet.skip(packet.len() - body.len()) == body
            &&& spec_decode_varint(body) == Ok::<(i32, usize), ProtocolError>((0i32, 1usize))
            &&& spec_decode_varint(body.skip(1)) == Ok::<(i32, usize), ProtocolError>(
                (protocol_version, k1 as usize),
            )
            &&& spec_decode_string(body.skip(1 + k1)) == StringRead::Read(address, k2 as usize)
            &&& body[1 + k1 + k2] as nat * 256 + body[1 + k1 + k2 + 1] as nat == port as nat
            &&& spec_decode_varint(body.skip(1 + k1 + k2 + 2)) == Ok::<(i32, usize), ProtocolError>(
                (next_state, k3 as usize),
            )
            &&& body.len() == 1 + k1 + k2 + 2 + k3
        }),
{
    let body = handshake_body(protocol_version, address, port, next_state);
    lemma_handshake_body_fields(protocol_version, address, port, next_state);
    lemma_frame_prefix(body, Seq::<u8>::empty());
    assert(frame(body) + Seq::<u8>::empty() =~= frame(body));
    assert(body + Seq::<u8>::empty() =~= body);
}

/// A Status Response that is read is read the same, with the same number of
/// bytes consumed, whatever bytes are appended after it.
pub proof fn lemma_parse_status_response_extend(data: Seq<u8>, rest: Seq<u8>)
    ensures
        spec_parse_status_response(data) matches StringRead::Read(json, n)
            ==> spec_parse_status_response(data + rest) == StringRead::Read(json, n),
{
    if let StringRead::Read(json, n) = spec_parse_status_response(data) {
        let ext = data + rest;
        lemma_decode_varint_extend(data, rest);
        lemma_decode_varint_bounds(data);
        let (packet_len, offset) = spec_decode_varint(data).unwrap();
        assert(ext.skip(offset as int) =~= data.skip(offset as int) + rest);
        lemma_decode_varint_extend(data.skip(offset as int), rest);
        lemma_decode_varint_bounds(data.skip(offset as int));
        let start = status_header(data).unwrap();
        assert(status_header(ext) == Ok::<usize, ProtocolError>(start));
        assert(ext.skip(start as int) =~= data.skip(start as int) + rest);
        lemma_decode_string_extend(data.skip(start as int), rest);
    }
}

} // verus!
