//! Status probe for Minecraft Java servers: the Server List Ping wire format
//! (VarInts, length-prefixed strings, packet framing) and the interpretation
//! of a server's status reply, each function with its contract.

pub mod error;
pub mod protocol;
pub mod status;
pub mod varint;

pub use error::{PingError, ProtocolError};
pub use protocol::DEFAULT_PROTOCOL_VERSION;
pub use status::PingResult;
