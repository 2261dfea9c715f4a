//! The dispatcher and session state machine: how one received envelope
//! from one address changes the registry and which envelopes go back out.
//!
//! The caller (the receive loop) routes a datagram here after decoding:
//! to [`handle_new_connection`] when the sender is unknown, to
//! [`handle_packet`] when it is registered.  Both are pure state
//! transitions; actually sending the returned envelopes is the caller's
//! business, performed after the registry has been released.

use vstd::prelude::*;
use crate::codec::encode_player_info;
use crate::codec::encode_player_spec;
use crate::codec::decode_player_info;
use crate::codec::parse_player_spec;
use crate::codec::sentinel_player;
use crate::guid::is_valid_guid;
use crate::guid::is_valid_guid_spec;
use crate::packet::Outbound;
use crate::packet::Packet;
use crate::packet::PacketType;
use crate::packet::Player;
use crate::packet::PlayerModel;
use crate::packet::PlayerState;
use crate::registry::PlayerList;
use crate::registry::reg_contains;
use crate::registry::reg_get;
use crate::registry::lemma_reg_get_contains;
use vstd::string::StringExecFns;

verus! {

/// The session created for a first contact carrying `token`: empty name,
/// placeholder health, state `Loading`.
pub open spec fn fresh_session(token: Seq<char>, now: u64) -> PlayerModel {
    PlayerModel {
        name: Seq::empty(),
        health: 0,
        session_id: token,
        state: PlayerState::Loading,
        last_ping_time: now,
    }
}

/// The lenient reading of a Sync payload: the parsed record, or the
/// `Error`-state sentinel whose empty token can match no real session.
pub open spec fn parsed_or_sentinel(content: Seq<char>) -> PlayerModel {
    match parse_player_spec(content) {
        Some(p) => p,
        None => sentinel_player(),
    }
}

/// The record after a successful sync: the client's name adopted, health
/// forced to 100, state `Alive`; token and liveness clock unchanged.
pub open spec fn synced_model(stored: PlayerModel, np: PlayerModel) -> PlayerModel {
    PlayerModel {
        name: np.name,
        health: 100,
        session_id: stored.session_id,
        state: PlayerState::Alive,
        last_ping_time: stored.last_ping_time,
    }
}

/// The record after a Pong: only the liveness clock moves.
pub open spec fn pong_model(stored: PlayerModel, now: u64) -> PlayerModel {
    PlayerModel {
        name: stored.name,
        health: stored.health,
        session_id: stored.session_id,
        state: stored.state,
        last_ping_time: now,
    }
}

/// The broadcast chat line for a sender named `name` saying `content`.
pub open spec fn chat_line(name: Seq<char>, content: Seq<char>) -> Seq<char> {
    name + ": "@ + content
}

/// Handles the first envelope from an unregistered address.  A valid
/// session token creates exactly one `Loading` session holding that token
/// and asks the client for its player info; anything else is dropped
/// without a trace.
pub fn handle_new_connection(
    player_list: &mut PlayerList,
    addr: u64,
    packet: &Packet,
    current_time: u64,
) -> (r: Vec<Outbound>)
    requires
        old(player_list).wf(),
        !reg_contains(old(player_list)@, addr),
    ensures
        final(player_list).wf(),
        is_valid_guid_spec(packet@.content) ==> {
            &&& final(player_list)@ == old(player_list)@.push(
                (addr, fresh_session(packet@.content, current_time)),
            )
            &&& r@.len() == 1
            &&& r@[0].to == addr
            &&& r@[0].packet@.packet_type == PacketType::Sync
            &&& r@[0].packet@.content == "PlayerInfo"@
        },
        !is_valid_guid_spec(packet@.content) ==> final(player_list)@ == old(player_list)@
            && r@.len() == 0,
{
    if is_valid_guid(packet.content.as_str()) {
        let mut r: Vec<Outbound> = Vec::new();
        r.push(
            Outbound {
                to: addr,
                packet: Packet {
                    packet_type: PacketType::Sync,
                    content: String::from_str("PlayerInfo"),
                },
            },
        );
        player_list.add_player(
            addr,
            Player {
                name: String::new(),
                health: 0,
                session_id: packet.content.clone(),
                state: PlayerState::Loading,
                last_ping_time: current_time,
            },
        );
        r
    } else {
        Vec::new()
    }
}

/// Handles one envelope from a registered address.
///
/// - `Chat`: broadcast `"<name>: <content>"` to every registered address,
///   sender included, from a point-in-time snapshot; no state change.
/// - `Sync`: promote the session to `Alive` when the payload's token
///   matches the stored one; evict it, with exactly one kick notification,
///   when it does not (a garbled payload counts as a mismatch).
/// - `Misc` `"Pong"`: advance the sender's liveness clock; any other
///   control payload is ignored.
///
/// No branch ever creates a session, so a registered address stays unique.
pub fn handle_packet(
    player_list: &mut PlayerList,
    addr: u64,
    packet: &Packet,
    current_time: u64,
) -> (r: Vec<Outbound>)
    requires
        old(player_list).wf(),
    ensures
        final(player_list).wf(),
        forall|b: u64| reg_contains(final(player_list)@, b) ==> reg_contains(old(player_list)@, b),
        packet@.packet_type == PacketType::Chat ==> final(player_list)@ == old(player_list)@,
        (packet@.packet_type == PacketType::Chat && reg_get(old(player_list)@, addr) is Some)
            ==> ({
            let p = reg_get(old(player_list)@, addr)->Some_0;
            &&& r@.len() == old(player_list)@.len()
            &&& forall|i: int|
                0 <= i < r@.len() ==> (#[trigger] r@[i]).to == old(player_list)@[i].0
                    && r@[i].packet@.packet_type == PacketType::Chat && r@[i].packet@.content
                    == chat_line(p.name, packet@.content)
        }),
        (packet@.packet_type == PacketType::Chat && reg_get(old(player_list)@, addr) is None)
            ==> r@.len() == 0,
        (packet@.packet_type == PacketType::Sync && reg_get(old(player_list)@, addr) is None)
            ==> final(player_list)@ == old(player_list)@ && r@.len() == 0,
        (packet@.packet_type == PacketType::Sync && reg_get(old(player_list)@, addr) is Some
            && parsed_or_sentinel(packet@.content).session_id != reg_get(
            old(player_list)@,
            addr,
        )->Some_0.session_id) ==> ({
            &&& !reg_contains(final(player_list)@, addr)
            &&& final(player_list)@.len() + 1 == old(player_list)@.len()
            &&& exists|k: int|
                0 <= k < old(player_list)@.len() && old(player_list)@[k].0 == addr
                    && final(player_list)@ == old(player_list)@.remove(k)
            &&& forall|b: u64|
                b != addr ==> reg_get(final(player_list)@, b) == reg_get(old(player_list)@, b)
            &&& r@.len() == 1
            &&& r@[0].to == addr
            &&& r@[0].packet@.packet_type == PacketType::Misc
            &&& r@[0].packet@.content == "Session Mismatch, Kicked"@
        }),
        (packet@.packet_type == PacketType::Sync && reg_get(old(player_list)@, addr) is Some
            && parsed_or_sentinel(packet@.content).session_id == reg_get(
            old(player_list)@,
            addr,
        )->Some_0.session_id) ==> ({
            let p = reg_get(old(player_list)@, addr)->Some_0;
            let np = parsed_or_sentinel(packet@.content);
            &&& reg_get(final(player_list)@, addr) == Some(synced_model(p, np))
            &&& final(player_list)@ == Seq::new(
                old(player_list)@.len(),
                |i: int|
                    if old(player_list)@[i].0 == addr {
                        (addr, synced_model(p, np))
                    } else {
                        old(player_list)@[i]
                    },
            )
            &&& final(player_list)@.len() == old(player_list)@.len()
            &&& forall|b: u64|
                b != addr ==> reg_get(final(player_list)@, b) == reg_get(old(player_list)@, b)
            &&& r@.len() == 2
            &&& r@[0].to == addr
            &&& r@[0].packet@.packet_type == PacketType::Sync
            &&& r@[0].packet@.content == encode_player_spec(synced_model(p, np))
            &&& r@[1].to == addr
            &&& r@[1].packet@.packet_type == PacketType::Chat
            &&& r@[1].packet@.content == "Welcome to the server"@
        }),
        packet@.packet_type == PacketType::Misc ==> r@.len() == 0,
        (packet@.packet_type == PacketType::Misc && packet@.content == "Pong"@ && reg_get(
            old(player_list)@,
            addr,
        ) is Some) ==> ({
            let p = reg_get(old(player_list)@, addr)->Some_0;
            &&& reg_get(final(player_list)@, addr) == Some(pong_model(p, current_time))
            &&& final(player_list)@ == Seq::new(
                old(player_list)@.len(),
                |i: int|
                    if old(player_list)@[i].0 == addr {
                        (addr, pong_model(p, current_time))
                    } else {
                        old(player_list)@[i]
                    },
            )
            &&& final(player_list)@.len() == old(player_list)@.len()
            &&& forall|b: u64|
                b != addr ==> reg_get(final(player_list)@, b) == reg_get(old(player_list)@, b)
        }),
        (packet@.packet_type == PacketType::Misc && !(packet@.content == "Pong"@ && reg_get(
            old(player_list)@,
            addr,
        ) is Some)) ==> final(player_list)@ == old(player_list)@,
{
    match packet.packet_type {
        PacketType::Chat => {
            match player_list.get_player(addr) {
                Some(player) => {
                    let mut message = player.name;
                    message.append(": ");
                    message.append(packet.content.as_str());
                    let r = player_list.broadcast(
                        &Packet { packet_type: PacketType::Chat, content: message },
                    );
                    r
                },
                None => Vec::new(),
            }
        },
        PacketType::Sync => {
            match player_list.get_player(addr) {
                Some(player) => {
                    let new_player = decode_player_info(packet.content.as_str());
                    if !(new_player.session_id == player.session_id) {
                        let mut r: Vec<Outbound> = Vec::new();
                        r.push(
                            Outbound {
                                to: addr,
                                packet: Packet {
                                    packet_type: PacketType::Misc,
                                    content: String::from_str("Session Mismatch, Kicked"),
                                },
                            },
                        );
                        proof {
                            lemma_reg_get_contains(player_list@, addr);
                        }
                        player_list.remove_player(addr);
                        r
                    } else {
                        let updated = Player {
                            name: new_player.name,
                            health: 100,
                            session_id: player.session_id,
                            state: PlayerState::Alive,
                            last_ping_time: player.last_ping_time,
                        };
                        let reply = encode_player_info(&updated);
                        proof {
                            lemma_reg_get_contains(player_list@, addr);
                        }
                        player_list.update_player(addr, updated);
                        let mut r: Vec<Outbound> = Vec::new();
                        r.push(
                            Outbound {
                                to: addr,
                                packet: Packet { packet_type: PacketType::Sync, content: reply },
                            },
                        );
                        r.push(
                            Outbound {
                                to: addr,
                                packet: Packet {
                                    packet_type: PacketType::Chat,
                                    content: String::from_str("Welcome to the server"),
                                },
                            },
                        );
                        r
                    }
                },
                None => Vec::new(),
            }
        },
        PacketType::Misc => {
            if packet.content == String::from_str("Pong") {
                match player_list.get_player(addr) {
                    Some(player) => {
                        let updated = Player {
                            name: player.name,
                            health: player.health,
                            session_id: player.session_id,
                            state: player.state,
                            last_ping_time: current_time,
                        };
                        proof {
                            lemma_reg_get_contains(player_list@, addr);
                        }
                        player_list.update_player(addr, updated);
                    },
                    None => {},
                }
                Vec::new()
            } else {
                Vec::new()
            }
        },
    }
}

} // verus!
