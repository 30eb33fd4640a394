use mc_status_probe::protocol::build_handshake_packet;
use mc_status_probe::status::{
    build_ping_handshake, extract_motd_text, ping_result, read_status_json, Description,
    PlayersInfo, StatusResponse, VersionInfo,
};
use mc_status_probe::varint::{encode_string, encode_varint};
use mc_status_probe::{PingError, ProtocolError};

fn object(extra: Option<Vec<Option<&str>>>, text: Option<&str>, json: &str) -> Description {
    Description::Object {
        extra: extra.map(|v| v.into_iter().map(|p| p.map(|s| s.to_string())).collect()),
        text: text.map(|s| s.to_string()),
        json: json.to_string(),
    }
}

#[test]
fn motd_plain_string() {
    assert_eq!(extract_motd_text(&Description::Text("A Minecraft Server".to_string())), "A Minecraft Server");
}

#[test]
fn motd_text_member() {
    let d = object(None, Some("A Mock Server"), r#"{"text":"A Mock Server"}"#);
    assert_eq!(extract_motd_text(&d), "A Mock Server");
}

#[test]
fn motd_extra_parts_joined() {
    let d = object(Some(vec![Some("Hello "), None, Some("World")]), None, "{}");
    assert_eq!(extract_motd_text(&d), "Hello World");
    let d = object(Some(vec![Some("B")]), Some("A "), r#"{"text":"A ","extra":[{"text":"B"}]}"#);
    assert_eq!(extract_motd_text(&d), "A B");
}

#[test]
fn motd_extra_without_texts_falls_back_to_text() {
    let d = object(Some(vec![None, None]), Some("fallback"), "{}");
    assert_eq!(extract_motd_text(&d), "fallback");
    let d = object(Some(vec![]), Some("fallback"), "{}");
    assert_eq!(extract_motd_text(&d), "fallback");
}

#[test]
fn motd_extra_with_empty_texts_is_empty() {
    let d = object(Some(vec![Some(""), Some("")]), None, "{}");
    assert_eq!(extract_motd_text(&d), "");
    let d = object(Some(vec![Some("")]), Some("Lobby"), "{}");
    assert_eq!(extract_motd_text(&d), "Lobby");
}

#[test]
fn motd_object_without_text_is_its_json() {
    let d = object(None, None, r#"{"color":"red"}"#);
    assert_eq!(extract_motd_text(&d), r#"{"color":"red"}"#);
}

#[test]
fn motd_other_value_is_its_json() {
    let d = Description::Other { json: "42".to_string() };
    assert_eq!(extract_motd_text(&d), "42");
}

#[test]
fn ping_result_fields() {
    let status = StatusResponse {
        version: VersionInfo { name: "Mock 1.21".to_string(), protocol: 767 },
        players: PlayersInfo { max: 20, online: 3 },
        description: object(None, Some("A Mock Server"), "{}"),
    };
    let r = ping_result(status, 12, "{raw}".to_string());
    assert_eq!(r.version_name, "Mock 1.21");
    assert_eq!(r.version_protocol, 767);
    assert_eq!(r.players_online, 3);
    assert_eq!(r.players_max, 20);
    assert!(r.description.contains("Mock Server"));
    assert_eq!(r.latency_ms, 12);
    assert_eq!(r.raw_json, "{raw}");
}

#[test]
fn ping_handshake_uses_default_version_and_status_state() {
    assert_eq!(build_ping_handshake("localhost", 25565, None), build_handshake_packet(767, "localhost", 25565, 1));
    assert_eq!(build_ping_handshake("localhost", 25565, Some(47)), build_handshake_packet(47, "localhost", 25565, 1));
}

#[test]
fn read_status_json_from_reply() {
    let json = r#"{"description":{"text":"A Mock Server"}}"#;
    let mut body = Vec::new();
    encode_varint(0, &mut body);
    encode_string(json, &mut body);
    let mut reply = Vec::new();
    encode_varint(body.len() as i32, &mut reply);
    reply.extend_from_slice(&body);
    assert_eq!(read_status_json(&reply).unwrap(), json);
}

#[test]
fn read_status_json_no_response() {
    assert!(matches!(read_status_json(&[]), Err(PingError::Protocol(ProtocolError::NoResponse))));
    assert!(matches!(
        read_status_json(&[0x02, 0x07, 0x00]),
        Err(PingError::Protocol(ProtocolError::UnexpectedPacketId(7)))
    ));
}
