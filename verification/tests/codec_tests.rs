use godotserver::codec::decode_packet;
use godotserver::codec::decode_player_info;
use godotserver::codec::decode_udp_packet;
use godotserver::codec::encode_packet;
use godotserver::codec::encode_player_info;
use godotserver::codec::DecodeError;
use godotserver::packet::Packet;
use godotserver::packet::PacketType;
use godotserver::packet::Player;
use godotserver::packet::PlayerState;

#[test]
fn encode_packet_is_exact() {
    let p = Packet { packet_type: PacketType::Chat, content: "hello".to_string() };
    assert_eq!(encode_packet(&p), "{\"packet_type\":\"Chat\",\"content\":\"hello\"}");
}

#[test]
fn encode_packet_escapes_quotes_and_backslashes() {
    let p = Packet { packet_type: PacketType::Misc, content: "a\"b\\c".to_string() };
    assert_eq!(encode_packet(&p), "{\"packet_type\":\"Misc\",\"content\":\"a\\\"b\\\\c\"}");
}

#[test]
fn encode_packet_escapes_control_characters() {
    let p = Packet { packet_type: PacketType::Chat, content: "a\nb\u{1}".to_string() };
    assert_eq!(encode_packet(&p), "{\"packet_type\":\"Chat\",\"content\":\"a\\nb\\u0001\"}");
}

#[test]
fn packet_roundtrip_all_kinds() {
    for kind in [PacketType::Chat, PacketType::Sync, PacketType::Misc] {
        let p = Packet { packet_type: kind, content: "x \"quoted\" \\ \t end".to_string() };
        let decoded = decode_packet(&encode_packet(&p)).unwrap();
        assert_eq!(decoded, Packet { packet_type: kind, content: p.content.clone() });
    }
}

#[test]
fn packet_roundtrip_through_bytes() {
    let p = Packet { packet_type: PacketType::Sync, content: "PlayerInfo".to_string() };
    let bytes = encode_packet(&p).into_bytes();
    let decoded = decode_udp_packet(&bytes).unwrap();
    assert_eq!(decoded, p);
}

#[test]
fn decode_rejects_invalid_utf8() {
    assert_eq!(decode_udp_packet(&[0xff, 0xfe, 0x80]), Err(DecodeError::MalformedEnvelope));
}

#[test]
fn decode_rejects_garbage_text() {
    assert!(decode_packet("nonsense").is_none());
    assert!(decode_packet("{\"packet_type\":\"Nope\",\"content\":\"x\"}").is_none());
    assert!(decode_packet("{\"packet_type\":\"Chat\",\"content\":\"unterminated").is_none());
    assert!(decode_packet("{\"packet_type\":\"Chat\",\"content\":\"x\"}trailing").is_none());
}

#[test]
fn decoder_recovers_after_garbage() {
    // a malformed datagram fails in isolation; the next one still decodes
    assert!(decode_udp_packet(b"\x00\x01garbage").is_err());
    let p = Packet { packet_type: PacketType::Chat, content: "still fine".to_string() };
    let bytes = encode_packet(&p).into_bytes();
    assert_eq!(decode_udp_packet(&bytes).unwrap(), p);
}

#[test]
fn decode_accepts_escape_codes() {
    let decoded = decode_packet("{\"packet_type\":\"Chat\",\"content\":\"a\\/b\\u0041\"}").unwrap();
    assert_eq!(decoded.content, "a/bA");
}

#[test]
fn encode_player_is_exact() {
    let p = Player {
        name: "alice".to_string(),
        health: 100,
        session_id: "12345678-1234-1234-1234-123456789abc".to_string(),
        state: PlayerState::Alive,
        last_ping_time: 12345,
    };
    assert_eq!(
        encode_player_info(&p),
        "{\"name\":\"alice\",\"health\":100,\"session_id\":\"12345678-1234-1234-1234-123456789abc\",\"state\":\"Alive\",\"last_ping_time\":12345}"
    );
}

#[test]
fn player_roundtrip() {
    for state in [PlayerState::Loading, PlayerState::Dead, PlayerState::Alive, PlayerState::Error]
    {
        let p = Player {
            name: "bob \"the\" builder".to_string(),
            health: 0,
            session_id: "{12345678-1234-1234-1234-123456789abc}".to_string(),
            state,
            last_ping_time: u64::MAX,
        };
        let decoded = decode_player_info(&encode_player_info(&p));
        assert_eq!(decoded, p);
    }
}

#[test]
fn garbled_player_payload_degrades_to_sentinel() {
    let p = decode_player_info("this is not a player");
    assert_eq!(p.name, "");
    assert_eq!(p.session_id, "");
    assert_eq!(p.health, 0);
    assert_eq!(p.last_ping_time, 0);
    assert!(matches!(p.state, PlayerState::Error));
}

#[test]
fn player_decode_rejects_out_of_range_health() {
    let text = "{\"name\":\"x\",\"health\":256,\"session_id\":\"y\",\"state\":\"Alive\",\"last_ping_time\":0}";
    let p = decode_player_info(text);
    assert!(matches!(p.state, PlayerState::Error));
}

#[test]
fn packet_encoding_matches_reference_json() {
    // the canonical envelope encoding denotes the same JSON object a
    // reference serializer builds
    let p = Packet { packet_type: PacketType::Sync, content: "He said \"hi\"\n".to_string() };
    let mut m = serde_json::Map::new();
    m.insert(
        "packet_type".to_string(),
        serde_json::Value::String("Sync".to_string()),
    );
    m.insert(
        "content".to_string(),
        serde_json::Value::String("He said \"hi\"\n".to_string()),
    );
    let reference = serde_json::Value::Object(m);
    let parsed: serde_json::Value = serde_json::from_str(&encode_packet(&p)).unwrap();
    assert_eq!(parsed, reference);
}

#[test]
fn player_encoding_matches_reference_json() {
    let p = Player {
        name: "carol".to_string(),
        health: 42,
        session_id: "12345678-1234-1234-1234-123456789abc".to_string(),
        state: PlayerState::Loading,
        last_ping_time: 987654321,
    };
    let mut m = serde_json::Map::new();
    m.insert("name".to_string(), serde_json::Value::String("carol".to_string()));
    m.insert(
        "health".to_string(),
        serde_json::Value::Number(serde_json::Number::from(42u64)),
    );
    m.insert(
        "session_id".to_string(),
        serde_json::Value::String("12345678-1234-1234-1234-123456789abc".to_string()),
    );
    m.insert("state".to_string(), serde_json::Value::String("Loading".to_string()));
    m.insert(
        "last_ping_time".to_string(),
        serde_json::Value::Number(serde_json::Number::from(987654321u64)),
    );
    let reference = serde_json::Value::Object(m);
    let parsed: serde_json::Value = serde_json::from_str(&encode_player_info(&p)).unwrap();
    assert_eq!(parsed, reference);
}

#[test]
fn reference_parser_reads_our_encoding() {
    let p = Packet { packet_type: PacketType::Chat, content: "tab\there".to_string() };
    let parsed: serde_json::Value = serde_json::from_str(&encode_packet(&p)).unwrap();
    assert_eq!(parsed["packet_type"], serde_json::Value::String("Chat".to_string()));
    assert_eq!(parsed["content"], serde_json::Value::String("tab\there".to_string()));
}

#[test]
fn decode_kind_tag_is_case_sensitive() {
    assert!(decode_packet("{\"packet_type\":\"chat\",\"content\":\"x\"}").is_none());
}

#[test]
fn decode_rejects_noncanonical_numbers() {
    // leading zeros are not the canonical digit string
    let text = "{\"name\":\"x\",\"health\":007,\"session_id\":\"y\",\"state\":\"Alive\",\"last_ping_time\":0}";
    assert!(matches!(decode_player_info(text).state, PlayerState::Error));
}
