//! What a ping makes of a server's reply: the request it sends, the JSON text
//! it reads back, and the structured result, with the message of the day
//! flattened to plain text.
use vstd::prelude::*;
use vstd::std_specs::option::spec_unwrap_or;
use vstd::string::StringExecFns;

use crate::error::{PingError, ProtocolError};
use crate::protocol::{
    build_handshake_packet, handshake_packet, lemma_status_response_roundtrip,
    parse_status_response, spec_parse_status_response, status_response_packet,
    DEFAULT_PROTOCOL_VERSION,
};
use vstd::utf8::encode_utf8;
use crate::varint::{utf8_fault, StringRead};

verus! {

/// A server description (a Minecraft chat component) as the status JSON gives
/// it, holding what the text extraction reads.
pub enum Description {
    /// A plain JSON string.
    Text(String),
    /// A JSON object. `extra` holds, when the object's `"extra"` member is an
    /// array, the `"text"` string of each element (`None` where an element has
    /// none); `text` holds the object's own `"text"` string; `json` is the
    /// object serialised as JSON.
    Object { extra: Option<Vec<Option<String>>>, text: Option<String>, json: String },
    /// Any other JSON value, serialised as JSON.
    Other { json: String },
}

/// The `version` member of a status reply.
pub struct VersionInfo {
    pub name: String,
    pub protocol: i32,
}

/// The `players` member of a status reply.
pub struct PlayersInfo {
    pub max: i32,
    pub online: i32,
}

/// Minecraft Server List Ping JSON response structure, as far as a ping reads it.
pub struct StatusResponse {
    pub version: VersionInfo,
    pub players: PlayersInfo,
    pub description: Description,
}

/// Structured result of a successful Minecraft server ping.
#[derive(Debug, Clone)]
pub struct PingResult {
    /// Clean text representation of the MOTD / server description.
    pub description: String,
    /// Number of players currently online.
    pub players_online: i32,
    /// Maximum number of players allowed.
    pub players_max: i32,
    /// Server version name string (e.g. "1.21").
    pub version_name: String,
    /// Server protocol version number (e.g. 767 for 1.21).
    pub version_protocol: i32,
    /// Round-trip latency in milliseconds.
    pub latency_ms: u64,
    /// Raw JSON response from the server (useful for debugging).
    pub raw_json: String,
}

/// The text of one `"extra"` element: empty where it has none.
pub open spec fn part_text(part: Option<String>) -> Seq<char> {
    match part {
        Some(s) => s@,
        None => Seq::empty(),
    }
}

/// The texts of the `"extra"` elements, joined in order.
pub open spec fn joined_texts(parts: Seq<Option<String>>) -> Seq<char>
    decreases parts.len(),
{
    if parts.len() == 0 {
        Seq::empty()
    } else {
        joined_texts(parts.drop_last()) + part_text(parts.last())
    }
}

/// Some `"extra"` element has a text.
pub open spec fn has_text(parts: Seq<Option<String>>) -> bool {
    exists|i: int| 0 <= i < parts.len() && #[trigger] parts[i] is Some
}

/// The readable text of a description: a plain string as it is; for an
/// object whose `"extra"` array has an element with text, its own `"text"`
/// (empty where it has none) followed by the joined texts of `"extra"`, else
/// its own `"text"`, else its JSON; for any other value, its JSON.
pub open spec fn motd_text(description: Description) -> Seq<char> {
    match description {
        Description::Text(s) => s@,
        Description::Object { extra, text, json } => {
            let fallback = match text {
                Some(t) => t@,
                None => json@,
            };
            match extra {
                Some(parts) => if has_text(parts@) {
                    part_text(text) + joined_texts(parts@)
                } else {
                    fallback
                },
                None => fallback,
            }
        },
        Description::Other { json } => json@,
    }
}

/// Extract a human-readable string from a Minecraft chat component JSON value.
/// Handles: plain strings, {"text": "..."}, and {"extra": [{"text": "..."}, ...]}
pub fn extract_motd_text(description: &Description) -> (r: String)
    ensures
        r@ == motd_text(*description),
{
    match description {
        Description::Text(s) => s.clone(),
        Description::Object { extra, text, json } => {
            // Try "extra" array (modern servers)
            if let Some(arr) = extra {
                // The object's own "text" comes first, then the parts.
                let mut joined = match text {
                    Some(t) => t.clone(),
                    None => String::new(),
                };
                let mut found = false;
                let mut i: usize = 0;
                while i < arr.len()
                    invariant
                        i <= arr@.len(),
                        joined@ == part_text(*text) + joined_texts(arr@.take(i as int)),
                        found <==> has_text(arr@.take(i as int)),
                    decreases arr.len() - i,
                {
                    let ghost before = arr@.take(i as int);
                    assert(arr@.take(i + 1).drop_last() =~= before);
                    assert(arr@.take(i + 1).last() == arr@[i as int]);
                    match &arr[i] {
                        Some(t) => {
                            joined.append(t.as_str());
                            found = true;
                        },
                        None => {},
                    }
                    assert(has_text(arr@.take(i + 1)) <==> has_text(before) || arr@[i as int] is Some)
                        by {
                        if arr@[i as int] is Some {
                            assert(arr@.take(i + 1)[i as int] is Some);
                        }
                        if has_text(before) {
                            let k = choose|k: int| 0 <= k < before.len() && #[trigger] before[k] is Some;
                            assert(arr@.take(i + 1)[k] is Some);
                        }
                        if has_text(arr@.take(i + 1)) {
                            let upto = arr@.take(i + 1);
                            let k = choose|k: int| 0 <= k < upto.len() && #[trigger] upto[k] is Some;
                            if k < i {
                                assert(before[k] is Some);
                            }
                        }
                    }
                    i = i + 1;
                }
                assert(arr@.take(i as int) =~= arr@);
                if found {
                    return joined;
                }
            }
            // Fall back to "text"

            match text {
                Some(t) => t.clone(),
                None => json.clone(),
            }
        },
        Description::Other { json } => json.clone(),
    }
}

/// The Handshake packet of a ping: the given protocol version, or the default
/// one, and next state 1 (status).
pub fn build_ping_handshake(address: &str, port: u16, protocol_version: Option<i32>) -> (r: Vec<u8>)
    ensures
        r@ == handshake_packet(
            spec_unwrap_or(protocol_version, DEFAULT_PROTOCOL_VERSION),
            address@,
            port,
            1,
        ),
{
    let protocol_ver = protocol_version.unwrap_or(DEFAULT_PROTOCOL_VERSION);
    build_handshake_packet(protocol_ver, address, port, 1)
}

/// The JSON text of a server's reply, as a ping reads it from the bytes
/// received: none at all means the connection closed without a response.
pub open spec fn spec_read_status_json(response: Seq<u8>) -> StringRead {
    if response.len() == 0 {
        StringRead::Refused(ProtocolError::NoResponse)
    } else {
        spec_parse_status_response(response)
    }
}

/// Read the JSON text of a server's reply from the bytes received.
pub fn read_status_json(response: &[u8]) -> (res: Result<String, PingError>)
    ensures
        match spec_read_status_json(response@) {
            StringRead::Read(json, _) => res matches Ok(s) && s@ == json,
            StringRead::Refused(e) => res == Err::<String, PingError>(PingError::Protocol(e)),
            StringRead::NotUtf8(bytes) => res matches Err(
                PingError::Protocol(ProtocolError::InvalidUtf8 { valid_up_to, error_len }),
            ) && utf8_fault(bytes, valid_up_to, error_len),
        },
{
    if response.len() == 0 {
        return Err(PingError::Protocol(ProtocolError::NoResponse));
    }
    // Parse the full status response (including packet length prefix)

    match parse_status_response(response) {
        Ok((json_str, _consumed)) => Ok(json_str),
        Err(e) => Err(e),
    }
}

/// The result of a ping from the server's parsed reply, the measured latency
/// and the reply's JSON text.
pub fn ping_result(status: StatusResponse, latency_ms: u64, raw_json: String) -> (r: PingResult)
    ensures
        r.description@ == motd_text(status.description),
        r.players_online == status.players.online,
        r.players_max == status.players.max,
        r.version_name == status.version.name,
        r.version_protocol == status.version.protocol,
        r.latency_ms == latency_ms,
        r.raw_json == raw_json,
{
    let description = extract_motd_text(&status.description);
    PingResult {
        description,
        players_online: status.players.online,
        players_max: status.players.max,
        version_name: status.version.name,
        version_protocol: status.version.protocol,
        latency_ms,
        raw_json,
    }
}

/// Reading the JSON text of a server's reply that is a Status Response packet
/// carrying `json`, whatever bytes follow it, gives back exactly `json` and
/// accounts for the whole packet, for every JSON text whose packet length
/// fits in an `i32` (so also where the length prefix takes several bytes).
pub proof fn lemma_read_status_json_roundtrip(json: Seq<char>, rest: Seq<u8>)
    requires
        encode_utf8(json).len() + 6 <= 0x7fff_ffff,
    ensures
        spec_read_status_json(status_response_packet(json) + rest) == StringRead::Read(
            json,
            status_response_packet(json).len() as usize,
        ),
{
    lemma_status_response_roundtrip(json, rest);
    assert((status_response_packet(json) + rest).len() > 0);
}

proof fn lemma_joined_texts_flatten(parts: Seq<Option<String>>)
    ensures
        joined_texts(parts) == parts.map_values(
            |p: Option<String>|
                match p {
                    Some(s) => s@,
                    None => Seq::<char>::empty(),
                },
        ).flatten(),
    decreases parts.len(),
{
    let texts = parts.map_values(
        |p: Option<String>|
            match p {
                Some(s) => s@,
                None => Seq::<char>::empty(),
            },
    );
    if parts.len() > 0 {
        lemma_joined_texts_flatten(parts.drop_last());
        assert(texts.drop_last() =~= parts.drop_last().map_values(
            |p: Option<String>|
                match p {
                    Some(s) => s@,
                    None => Seq::<char>::empty(),
                },
        ));
        texts.drop_last().lemma_flatten_and_flatten_alt_are_equivalent();
    }
    texts.lemma_flatten_and_flatten_alt_are_equivalent();
}

/// The text of an object description whose `"extra"` array has an element
/// with text, at any position, is its own `"text"` (nothing where it has
/// none) followed by the texts of all `"extra"` elements in order, those
/// without text contributing nothing.
pub proof fn lemma_motd_with_extra_text(
    extra: Vec<Option<String>>,
    text: Option<String>,
    json: String,
    k: int,
)
    requires
        0 <= k < extra@.len(),
        extra@[k] is Some,
    ensures
        motd_text(Description::Object { extra: Some(extra), text, json }) == (match text {
            Some(t) => t@,
            None => Seq::<char>::empty(),
        }) + extra@.map_values(
            |p: Option<String>|
                match p {
                    Some(s) => s@,
                    None => Seq::<char>::empty(),
                },
        ).flatten(),
{
    lemma_joined_texts_flatten(extra@);
    assert(has_text(extra@));
}

/// Where no `"extra"` element has text, or there is no `"extra"` array, the
/// text of an object description is its own `"text"`, and its JSON where it
/// has none.
pub proof fn lemma_motd_without_extra_text(
    extra: Option<Vec<Option<String>>>,
    text: Option<String>,
    json: String,
)
    requires
        extra is Some ==> forall|i: int|
            0 <= i < extra.unwrap()@.len() ==> #[trigger] extra.unwrap()@[i] is None,
    ensures
        motd_text(Description::Object { extra, text, json }) == match text {
            Some(t) => t@,
            None => json@,
        },
{
}

} // verus!
