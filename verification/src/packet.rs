//! The wire data model: envelopes and per-session player records.

use vstd::prelude::*;

verus! {

/// The utility of an envelope: chat text, a state-sync payload, or a short
/// control token such as "Ping"/"Pong".
#[derive(Clone, Copy, PartialEq, Eq, Structural, Debug)]
pub enum PacketType {
    Chat,
    Sync,
    Misc,
}

/// The lifecycle state of one session.  `Dead` and `Error` are reserved: no
/// transition in this crate drives a session into `Dead`, and `Error` only
/// marks the sentinel record produced by a failed payload decode.
#[derive(Clone, Copy, PartialEq, Eq, Structural, Debug)]
pub enum PlayerState {
    Loading,
    Dead,
    Alive,
    Error,
}

/// The wire envelope: one per datagram, a kind tag plus an opaque string.
#[derive(Debug, PartialEq, Eq)]
pub struct Packet {
    pub packet_type: PacketType,
    pub content: String,
}

/// One player's session record, keyed in the registry by peer address.
#[derive(Debug, PartialEq, Eq)]
pub struct Player {
    pub name: String,
    pub health: u8,
    pub session_id: String,
    pub state: PlayerState,
    pub last_ping_time: u64,
}

/// The mathematical value of a [`Packet`]: its strings as character
/// sequences.
pub struct PacketModel {
    pub packet_type: PacketType,
    pub content: Seq<char>,
}

/// The mathematical value of a [`Player`].
pub struct PlayerModel {
    pub name: Seq<char>,
    pub health: u8,
    pub session_id: Seq<char>,
    pub state: PlayerState,
    pub last_ping_time: u64,
}

/// One envelope addressed to one peer, ready to hand to the transport.
pub struct Outbound {
    pub to: u64,
    pub packet: Packet,
}

impl View for Packet {
    type V = PacketModel;

    open spec fn view(&self) -> PacketModel {
        PacketModel { packet_type: self.packet_type, content: self.content@ }
    }
}

impl View for Player {
    type V = PlayerModel;

    open spec fn view(&self) -> PlayerModel {
        PlayerModel {
            name: self.name@,
            health: self.health,
            session_id: self.session_id@,
            state: self.state,
            last_ping_time: self.last_ping_time,
        }
    }
}

impl Clone for Packet {
    fn clone(&self) -> (r: Self)
        ensures
            r@ == self@,
    {
        Packet { packet_type: self.packet_type, content: self.content.clone() }
    }
}

impl Clone for Player {
    fn clone(&self) -> (r: Self)
        ensures
            r@ == self@,
    {
        Player {
            name: self.name.clone(),
            health: self.health,
            session_id: self.session_id.clone(),
            state: self.state,
            last_ping_time: self.last_ping_time,
        }
    }
}

} // verus!
