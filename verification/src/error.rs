use vstd::prelude::*;

verus! {

/// `std::io::Error`, carried through the library unread.
#[verifier::external_type_specification]
#[verifier::external_body]
pub struct ExIoError(std::io::Error);

/// `serde_json::Error`, carried through the library unread.
#[verifier::external_type_specification]
#[verifier::external_body]
pub struct ExJsonError(serde_json::Error);

/// Why bytes received from a server were refused.
#[derive(Debug, Clone, Copy, PartialEq, Eq, Structural)]
pub enum ProtocolError {
    /// The response held no bytes at all.
    EmptyResponse,
    /// The connection closed before the server sent anything.
    NoResponse,
    /// The packet length prefix was below one.
    InvalidPacketLength(i32),
    /// Fewer bytes followed the length prefix than it announced.
    BodyTooShort { expected: i32, got: usize },
    /// The packet carried an identifier other than `0x00`.
    UnexpectedPacketId(i32),
    /// Five VarInt bytes all had their continuation bit set.
    VarIntTooLarge,
    /// The bytes ended inside a VarInt.
    VarIntTruncated,
    /// A string announced more bytes than the buffer holds.
    StringTooLong { len: usize, available: usize },
    /// A string announced a negative length.
    NegativeStringLength { declared: i32, available: usize },
    /// A string's bytes were not UTF-8: they are valid up to `valid_up_to`;
    /// `error_len` is the length of the invalid sequence there, or `None`
    /// where the bytes end within a character.
    InvalidUtf8 { valid_up_to: usize, error_len: Option<usize> },
}

/// Errors that can occur during a Minecraft server ping.
#[derive(Debug)]
pub enum PingError {
    /// TCP connection failed or timed out.
    Connection(std::io::Error),
    /// Connection timed out before handshake could complete.
    Timeout,
    /// Received invalid or malformed data from the server.
    Protocol(ProtocolError),
    /// Failed to parse the JSON response from the server.
    Json(serde_json::Error),
    /// The server returned a response with unexpected structure.
    UnexpectedResponse(String),
}

/// A protocol-level outcome as the library's callers see it.
pub open spec fn lift_protocol<T>(r: Result<T, ProtocolError>) -> Result<T, PingError> {
    match r {
        Ok(v) => Ok(v),
        Err(e) => Err(PingError::Protocol(e)),
    }
}

} // verus!
