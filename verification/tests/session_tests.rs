use godotserver::codec::encode_player_info;
use godotserver::dispatch::handle_new_connection;
use godotserver::dispatch::handle_packet;
use godotserver::liveness::sweep_plan;
use godotserver::packet::Packet;
use godotserver::packet::PacketType;
use godotserver::packet::Player;
use godotserver::packet::PlayerState;
use godotserver::registry::PlayerList;

fn token() -> String {
    "12345678-1234-1234-1234-123456789abc".to_string()
}

fn other_token() -> String {
    "87654321-4321-4321-4321-cba987654321".to_string()
}

fn register(list: &mut PlayerList, addr: u64, now: u64) {
    let pkt = Packet { packet_type: PacketType::Misc, content: token() };
    let out = handle_new_connection(list, addr, &pkt, now);
    assert_eq!(out.len(), 1);
}

fn sync(list: &mut PlayerList, addr: u64, name: &str, session_id: String) {
    let inner = Player {
        name: name.to_string(),
        health: 1,
        session_id,
        state: PlayerState::Loading,
        last_ping_time: 0,
    };
    let pkt = Packet { packet_type: PacketType::Sync, content: encode_player_info(&inner) };
    handle_packet(list, addr, &pkt, 0);
}

#[test]
fn new_address_handshake_creates_loading_session() {
    let mut list = PlayerList::new();
    let pkt = Packet { packet_type: PacketType::Misc, content: token() };
    let out = handle_new_connection(&mut list, 7, &pkt, 5);
    assert_eq!(out.len(), 1);
    assert_eq!(out[0].to, 7);
    assert!(matches!(out[0].packet.packet_type, PacketType::Sync));
    assert_eq!(out[0].packet.content, "PlayerInfo");
    assert_eq!(list.len(), 1);
    let p = list.get_player(7).unwrap();
    assert_eq!(p.name, "");
    assert_eq!(p.session_id, token());
    assert_eq!(p.health, 0);
    assert_eq!(p.last_ping_time, 5);
    assert!(matches!(p.state, PlayerState::Loading));
}

#[test]
fn invalid_token_creates_no_session() {
    let mut list = PlayerList::new();
    let pkt = Packet { packet_type: PacketType::Misc, content: "hello".to_string() };
    let out = handle_new_connection(&mut list, 7, &pkt, 5);
    assert_eq!(out.len(), 0);
    assert_eq!(list.len(), 0);
    assert!(!list.contains_player(7));
}

#[test]
fn second_send_does_not_create_duplicate_entry() {
    let mut list = PlayerList::new();
    register(&mut list, 7, 0);
    // a non-matching follow-up from the same, now known, address
    let pkt = Packet { packet_type: PacketType::Misc, content: "noise".to_string() };
    let out = handle_packet(&mut list, 7, &pkt, 0);
    assert_eq!(out.len(), 0);
    assert_eq!(list.len(), 1);
    let p = list.get_player(7).unwrap();
    assert_eq!(p.session_id, token());
    assert!(matches!(p.state, PlayerState::Loading));
}

#[test]
fn successful_sync_promotes_to_alive() {
    let mut list = PlayerList::new();
    register(&mut list, 7, 0);
    let inner = Player {
        name: "alice".to_string(),
        health: 3,
        session_id: token(),
        state: PlayerState::Loading,
        last_ping_time: 0,
    };
    let pkt = Packet { packet_type: PacketType::Sync, content: encode_player_info(&inner) };
    let out = handle_packet(&mut list, 7, &pkt, 0);
    assert_eq!(list.len(), 1);
    let p = list.get_player(7).unwrap();
    assert_eq!(p.name, "alice");
    assert_eq!(p.health, 100);
    assert_eq!(p.session_id, token());
    assert!(matches!(p.state, PlayerState::Alive));
    assert_eq!(out.len(), 2);
    assert_eq!(out[0].to, 7);
    assert!(matches!(out[0].packet.packet_type, PacketType::Sync));
    assert_eq!(out[0].packet.content, encode_player_info(&p));
    assert_eq!(out[1].to, 7);
    assert!(matches!(out[1].packet.packet_type, PacketType::Chat));
    assert_eq!(out[1].packet.content, "Welcome to the server");
}

#[test]
fn token_mismatch_evicts_with_one_kick() {
    let mut list = PlayerList::new();
    register(&mut list, 7, 0);
    let inner = Player {
        name: "mallory".to_string(),
        health: 3,
        session_id: other_token(),
        state: PlayerState::Loading,
        last_ping_time: 0,
    };
    let pkt = Packet { packet_type: PacketType::Sync, content: encode_player_info(&inner) };
    let out = handle_packet(&mut list, 7, &pkt, 0);
    assert!(!list.contains_player(7));
    assert_eq!(list.len(), 0);
    assert_eq!(out.len(), 1);
    assert_eq!(out[0].to, 7);
    assert!(matches!(out[0].packet.packet_type, PacketType::Misc));
    assert_eq!(out[0].packet.content, "Session Mismatch, Kicked");
}

#[test]
fn mismatch_from_alive_session_also_evicts() {
    let mut list = PlayerList::new();
    register(&mut list, 7, 0);
    sync(&mut list, 7, "alice", token());
    let inner = Player {
        name: "mallory".to_string(),
        health: 3,
        session_id: other_token(),
        state: PlayerState::Alive,
        last_ping_time: 0,
    };
    let pkt = Packet { packet_type: PacketType::Sync, content: encode_player_info(&inner) };
    let out = handle_packet(&mut list, 7, &pkt, 0);
    assert!(!list.contains_player(7));
    assert_eq!(out.len(), 1);
}

#[test]
fn garbled_sync_payload_counts_as_mismatch() {
    let mut list = PlayerList::new();
    register(&mut list, 7, 0);
    let pkt = Packet { packet_type: PacketType::Sync, content: "not a record".to_string() };
    let out = handle_packet(&mut list, 7, &pkt, 0);
    assert!(!list.contains_player(7));
    assert_eq!(out.len(), 1);
    assert_eq!(out[0].packet.content, "Session Mismatch, Kicked");
}

#[test]
fn chat_fans_out_to_all_sessions() {
    let mut list = PlayerList::new();
    for (addr, name) in [(1u64, "a"), (2u64, "b"), (3u64, "c")] {
        register(&mut list, addr, 0);
        sync(&mut list, addr, name, token());
    }
    let pkt = Packet { packet_type: PacketType::Chat, content: "hello all".to_string() };
    let out = handle_packet(&mut list, 1, &pkt, 0);
    assert_eq!(out.len(), 3);
    let mut tos: Vec<u64> = out.iter().map(|o| o.to).collect();
    tos.sort();
    assert_eq!(tos, vec![1, 2, 3]);
    for o in &out {
        assert!(matches!(o.packet.packet_type, PacketType::Chat));
        assert_eq!(o.packet.content, "a: hello all");
    }
    assert_eq!(list.len(), 3);
}

#[test]
fn chat_from_unknown_sender_is_dropped() {
    let mut list = PlayerList::new();
    register(&mut list, 1, 0);
    let pkt = Packet { packet_type: PacketType::Chat, content: "hi".to_string() };
    let out = handle_packet(&mut list, 99, &pkt, 0);
    assert_eq!(out.len(), 0);
    assert_eq!(list.len(), 1);
}

#[test]
fn pong_advances_liveness_clock() {
    let mut list = PlayerList::new();
    register(&mut list, 7, 0);
    sync(&mut list, 7, "alice", token());
    let pkt = Packet { packet_type: PacketType::Misc, content: "Pong".to_string() };
    let out = handle_packet(&mut list, 7, &pkt, 500);
    assert_eq!(out.len(), 0);
    assert_eq!(list.get_player(7).unwrap().last_ping_time, 500);
}

#[test]
fn other_misc_payload_is_ignored() {
    let mut list = PlayerList::new();
    register(&mut list, 7, 4);
    let pkt = Packet { packet_type: PacketType::Misc, content: "Ping".to_string() };
    let out = handle_packet(&mut list, 7, &pkt, 500);
    assert_eq!(out.len(), 0);
    assert_eq!(list.get_player(7).unwrap().last_ping_time, 4);
}

#[test]
fn sweep_evicts_stale_and_pings_fresh() {
    let mk = |addr: u64, last: u64| {
        (
            addr,
            Player {
                name: "p".to_string(),
                health: 100,
                session_id: token(),
                state: PlayerState::Alive,
                last_ping_time: last,
            },
        )
    };
    // at now = 100 with timeout 10: elapsed 100 is out, elapsed 10 and 5 are not
    let snapshot = vec![mk(1, 0), mk(2, 90), mk(3, 95)];
    let plan = sweep_plan(&snapshot, 100, 10);
    assert_eq!(plan.evict, vec![1]);
    assert_eq!(plan.ping, vec![2, 3]);
}

#[test]
fn sweep_of_future_timestamps_pings() {
    // a session stamped ahead of the sweep's clock is not stale
    let snapshot = vec![(
        9u64,
        Player {
            name: "p".to_string(),
            health: 1,
            session_id: token(),
            state: PlayerState::Loading,
            last_ping_time: 1000,
        },
    )];
    let plan = sweep_plan(&snapshot, 5, 10);
    assert_eq!(plan.evict.len(), 0);
    assert_eq!(plan.ping, vec![9]);
}

#[test]
fn registry_upsert_and_remove() {
    let mut list = PlayerList::new();
    let mk = |name: &str| Player {
        name: name.to_string(),
        health: 1,
        session_id: token(),
        state: PlayerState::Loading,
        last_ping_time: 0,
    };
    list.add_player(1, mk("first"));
    list.add_player(2, mk("second"));
    assert_eq!(list.len(), 2);
    list.add_player(1, mk("replaced"));
    assert_eq!(list.len(), 2);
    assert_eq!(list.get_player(1).unwrap().name, "replaced");
    list.update_player(3, mk("ghost"));
    assert_eq!(list.len(), 2);
    assert!(list.get_player(3).is_none());
    list.remove_player(1);
    assert_eq!(list.len(), 1);
    assert!(!list.contains_player(1));
    assert_eq!(list.get_player(2).unwrap().name, "second");
    let snapshot = list.get_all_players();
    assert_eq!(snapshot.len(), 1);
    assert_eq!(snapshot[0].0, 2);
}

#[test]
fn sync_from_unknown_address_is_ignored() {
    let mut list = PlayerList::new();
    register(&mut list, 1, 0);
    let pkt = Packet { packet_type: PacketType::Sync, content: "anything".to_string() };
    let out = handle_packet(&mut list, 99, &pkt, 0);
    assert_eq!(out.len(), 0);
    assert_eq!(list.len(), 1);
}
