//! The envelope codec: a JSON-shaped canonical encoding of [`Packet`] and
//! [`Player`] values, with a total encoder and recoverable decoders.

use vstd::prelude::*;
use crate::json::match_lit;
use crate::json::is_dec_digit;
use crate::json::match_lit_at;
use crate::json::escape_string;
use crate::json::dec_digits;
use crate::json::parse_str_spec;
use crate::json::parse_dec_spec;
use crate::json::parse_string_body;
use crate::json::parse_dec;
use crate::json::push_escaped;
use crate::json::push_dec;
use crate::json::lemma_parse_str_of_escaped;
use crate::json::lemma_parse_dec_of_digits;
use crate::packet::Packet;
use crate::packet::PacketModel;
use crate::packet::PacketType;
use crate::packet::Player;
use crate::packet::PlayerModel;
use crate::packet::PlayerState;
use crate::strutil::bytes_to_str;
use vstd::string::StringExecFns;

verus! {

/// Decoding an envelope from raw bytes failed: the bytes are not UTF-8, or
/// they are not a canonical envelope.
#[derive(Clone, Copy, Debug, PartialEq, Eq, Structural)]
pub enum DecodeError {
    MalformedEnvelope,
}

pub open spec fn kind_lit(k: PacketType) -> Seq<char> {
    match k {
        PacketType::Chat => "Chat"@,
        PacketType::Sync => "Sync"@,
        PacketType::Misc => "Misc"@,
    }
}

pub open spec fn state_lit(st: PlayerState) -> Seq<char> {
    match st {
        PlayerState::Loading => "Loading"@,
        PlayerState::Dead => "Dead"@,
        PlayerState::Alive => "Alive"@,
        PlayerState::Error => "Error"@,
    }
}

/// Everything of an encoded envelope before the content's characters.
pub open spec fn packet_header(k: PacketType) -> Seq<char> {
    "{\"packet_type\":\""@ + kind_lit(k) + "\",\"content\":\""@
}

/// The canonical encoding of an envelope.
pub open spec fn encode_packet_spec(p: PacketModel) -> Seq<char> {
    packet_header(p.packet_type) + escape_string(p.content) + "\""@ + "}"@
}

/// The state literal together with the text that follows it, up to the
/// start of the timestamp digits.
pub open spec fn state_tail(st: PlayerState) -> Seq<char> {
    state_lit(st) + "\",\"last_ping_time\":"@
}

/// The canonical encoding of a player record.
pub open spec fn encode_player_spec(p: PlayerModel) -> Seq<char> {
    "{\"name\":\""@ + escape_string(p.name) + "\""@ + ",\"health\":"@ + dec_digits(p.health as nat)
        + ",\"session_id\":\""@ + escape_string(p.session_id) + "\""@ + ",\"state\":\""@
        + state_tail(p.state) + dec_digits(p.last_ping_time as nat) + "}"@
}

/// Parses what follows an envelope header of kind `k`.
pub open spec fn parse_packet_tail(s: Seq<char>, k: PacketType) -> Option<PacketModel> {
    match parse_str_spec(s, packet_header(k).len() as int) {
        Some((content, j)) => if j + 1 == s.len() && s[j] == '}' {
            Some(PacketModel { packet_type: k, content })
        } else {
            None
        },
        None => None,
    }
}

/// Parses a canonical envelope: fixed field order and spelling, with only
/// the escape-code freedom of [`parse_str_spec`] inside the content
/// string.
pub open spec fn parse_packet_spec(s: Seq<char>) -> Option<PacketModel> {
    if match_lit(s, 0, packet_header(PacketType::Chat)) {
        parse_packet_tail(s, PacketType::Chat)
    } else if match_lit(s, 0, packet_header(PacketType::Sync)) {
        parse_packet_tail(s, PacketType::Sync)
    } else if match_lit(s, 0, packet_header(PacketType::Misc)) {
        parse_packet_tail(s, PacketType::Misc)
    } else {
        None
    }
}

/// Parses the state and timestamp fields of a player record.
pub open spec fn parse_player_state_part(
    s: Seq<char>,
    i: int,
    name: Seq<char>,
    health: u8,
    session_id: Seq<char>,
) -> Option<PlayerModel> {
    if match_lit(s, i, state_tail(PlayerState::Loading)) {
        parse_player_time_part(
            s,
            i + state_tail(PlayerState::Loading).len(),
            name,
            health,
            session_id,
            PlayerState::Loading,
        )
    } else if match_lit(s, i, state_tail(PlayerState::Dead)) {
        parse_player_time_part(
            s,
            i + state_tail(PlayerState::Dead).len(),
            name,
            health,
            session_id,
            PlayerState::Dead,
        )
    } else if match_lit(s, i, state_tail(PlayerState::Alive)) {
        parse_player_time_part(
            s,
            i + state_tail(PlayerState::Alive).len(),
            name,
            health,
            session_id,
            PlayerState::Alive,
        )
    } else if match_lit(s, i, state_tail(PlayerState::Error)) {
        parse_player_time_part(
            s,
            i + state_tail(PlayerState::Error).len(),
            name,
            health,
            session_id,
            PlayerState::Error,
        )
    } else {
        None
    }
}

pub open spec fn parse_player_time_part(
    s: Seq<char>,
    i: int,
    name: Seq<char>,
    health: u8,
    session_id: Seq<char>,
    st: PlayerState,
) -> Option<PlayerModel> {
    match parse_dec_spec(s, i) {
        Some((t, j)) => if j + 1 == s.len() && s[j] == '}' {
            Some(
                PlayerModel {
                    name,
                    health,
                    session_id,
                    state: st,
                    last_ping_time: t,
                },
            )
        } else {
            None
        },
        None => None,
    }
}

/// Parses a canonical player record.
pub open spec fn parse_player_spec(s: Seq<char>) -> Option<PlayerModel> {
    if !match_lit(s, 0, "{\"name\":\""@) {
        None
    } else {
        match parse_str_spec(s, "{\"name\":\""@.len() as int) {
            None => None,
            Some((name, i1)) => if !match_lit(s, i1, ",\"health\":"@) {
                None
            } else {
                match parse_dec_spec(s, i1 + ",\"health\":"@.len()) {
                    None => None,
                    Some((h, i2)) => if h > 255 || !match_lit(s, i2, ",\"session_id\":\""@) {
                        None
                    } else {
                        match parse_str_spec(s, i2 + ",\"session_id\":\""@.len()) {
                            None => None,
                            Some((sid, i3)) => if !match_lit(s, i3, ",\"state\":\""@) {
                                None
                            } else {
                                parse_player_state_part(
                                    s,
                                    i3 + ",\"state\":\""@.len(),
                                    name,
                                    h as u8,
                                    sid,
                                )
                            },
                        }
                    },
                }
            },
        }
    }
}

/// The record a failed player decode degrades to: empty identity, state
/// [`PlayerState::Error`].
pub open spec fn sentinel_player() -> PlayerModel {
    PlayerModel {
        name: Seq::empty(),
        health: 0,
        session_id: Seq::empty(),
        state: PlayerState::Error,
        last_ping_time: 0,
    }
}

/// Encodes an envelope; total, and exact down to the character.
pub fn encode_packet(packet: &Packet) -> (r: String)
    ensures
        r@ == encode_packet_spec(packet@),
{
    let mut out = String::new();
    out.append("{\"packet_type\":\"");
    match packet.packet_type {
        PacketType::Chat => out.append("Chat"),
        PacketType::Sync => out.append("Sync"),
        PacketType::Misc => out.append("Misc"),
    }
    out.append("\",\"content\":\"");
    push_escaped(&mut out, packet.content.as_str(), 0);
    out.append("\"}");
    proof {
        reveal_strlit("\"}");
        reveal_strlit("\"");
        reveal_strlit("}");
        assert(packet.content@.skip(0) =~= packet.content@);
        assert(out@ =~= encode_packet_spec(packet@));
    }
    out
}

/// Encodes a player record for the content of a Sync envelope.
pub fn encode_player_info(player: &Player) -> (r: String)
    ensures
        r@ == encode_player_spec(player@),
{
    let mut out = String::new();
    out.append("{\"name\":\"");
    push_escaped(&mut out, player.name.as_str(), 0);
    out.append("\",\"health\":");
    push_dec(&mut out, player.health as u64);
    out.append(",\"session_id\":\"");
    push_escaped(&mut out, player.session_id.as_str(), 0);
    out.append("\",\"state\":\"");
    match player.state {
        PlayerState::Loading => out.append("Loading"),
        PlayerState::Dead => out.append("Dead"),
        PlayerState::Alive => out.append("Alive"),
        PlayerState::Error => out.append("Error"),
    }
    out.append("\",\"last_ping_time\":");
    push_dec(&mut out, player.last_ping_time);
    out.append("}");
    proof {
        reveal_strlit("\",\"health\":");
        reveal_strlit(",\"health\":");
        reveal_strlit("\",\"state\":\"");
        reveal_strlit(",\"state\":\"");
        reveal_strlit("\",\"last_ping_time\":");
        reveal_strlit("\"");
        assert(player.name@.skip(0) =~= player.name@);
        assert(player.session_id@.skip(0) =~= player.session_id@);
        assert(out@ =~= encode_player_spec(player@));
    }
    out
}

fn decode_packet_tail(s: &str, i0: usize, kind: PacketType) -> (r: Option<Packet>)
    requires
        i0 <= s@.len(),
        i0 as int == packet_header(kind).len(),
    ensures
        match r {
            Some(p) => parse_packet_tail(s@, kind) == Some(p@),
            None => parse_packet_tail(s@, kind) is None,
        },
{
    let mut content = String::new();
    let parsed = parse_string_body(s, i0, &mut content);
    match parsed {
        None => None,
        Some(j) => {
            let n = s.unicode_len();
            if j < n && n - j == 1 && s.get_char(j) == '}' {
                Some(Packet { packet_type: kind, content })
            } else {
                None
            }
        },
    }
}

/// Decodes a canonical envelope from text.
pub fn decode_packet(s: &str) -> (r: Option<Packet>)
    ensures
        match r {
            Some(p) => parse_packet_spec(s@) == Some(p@),
            None => parse_packet_spec(s@) is None,
        },
{
    proof {
        reveal_strlit("{\"packet_type\":\"Chat\",\"content\":\"");
        reveal_strlit("{\"packet_type\":\"Sync\",\"content\":\"");
        reveal_strlit("{\"packet_type\":\"Misc\",\"content\":\"");
        reveal_strlit("{\"packet_type\":\"");
        reveal_strlit("Chat");
        reveal_strlit("Sync");
        reveal_strlit("Misc");
        reveal_strlit("\",\"content\":\"");
        assert("{\"packet_type\":\"Chat\",\"content\":\""@ =~= packet_header(PacketType::Chat));
        assert("{\"packet_type\":\"Sync\",\"content\":\""@ =~= packet_header(PacketType::Sync));
        assert("{\"packet_type\":\"Misc\",\"content\":\""@ =~= packet_header(PacketType::Misc));
    }
    if match_lit_at(s, 0, "{\"packet_type\":\"Chat\",\"content\":\"") {
        let i0 = "{\"packet_type\":\"Chat\",\"content\":\"".unicode_len();
        decode_packet_tail(s, i0, PacketType::Chat)
    } else if match_lit_at(s, 0, "{\"packet_type\":\"Sync\",\"content\":\"") {
        let i0 = "{\"packet_type\":\"Sync\",\"content\":\"".unicode_len();
        decode_packet_tail(s, i0, PacketType::Sync)
    } else if match_lit_at(s, 0, "{\"packet_type\":\"Misc\",\"content\":\"") {
        let i0 = "{\"packet_type\":\"Misc\",\"content\":\"".unicode_len();
        decode_packet_tail(s, i0, PacketType::Misc)
    } else {
        None
    }
}

/// Decodes an envelope from raw datagram bytes.  Never panics: malformed
/// bytes, UTF-8 or otherwise, come back as [`DecodeError`].
pub fn decode_udp_packet(bytes: &[u8]) -> (r: Result<Packet, DecodeError>)
    ensures
        match r {
            Ok(p) => vstd::utf8::valid_utf8(bytes@) && parse_packet_spec(
                vstd::utf8::decode_utf8(bytes@),
            ) == Some(p@),
            Err(e) => e == DecodeError::MalformedEnvelope && (!vstd::utf8::valid_utf8(bytes@)
                || parse_packet_spec(vstd::utf8::decode_utf8(bytes@)) is None),
        },
{
    match bytes_to_str(bytes) {
        None => Err(DecodeError::MalformedEnvelope),
        Some(text) => {
            proof {
                // the str's bytes are the datagram, so its characters are
                // the datagram's UTF-8 decoding
                vstd::utf8::encode_utf8_decode_utf8(text@);
            }
            match decode_packet(text) {
                Some(p) => Ok(p),
                None => Err(DecodeError::MalformedEnvelope),
            }
        },
    }
}

fn try_decode_player(s: &str) -> (r: Option<Player>)
    ensures
        match r {
            Some(p) => parse_player_spec(s@) == Some(p@),
            None => parse_player_spec(s@) is None,
        },
{
    let n = s.unicode_len();
    if !match_lit_at(s, 0, "{\"name\":\"") {
        return None;
    }
    let i0 = "{\"name\":\"".unicode_len();
    let mut name = String::new();
    let i1 = match parse_string_body(s, i0, &mut name) {
        None => {
            return None;
        },
        Some(j) => j,
    };
    if !match_lit_at(s, i1, ",\"health\":") {
        return None;
    }
    let i1b = i1 + ",\"health\":".unicode_len();
    let (h, i2) = match parse_dec(s, i1b) {
        None => {
            return None;
        },
        Some(p) => p,
    };
    if h > 255 {
        return None;
    }
    if !match_lit_at(s, i2, ",\"session_id\":\"") {
        return None;
    }
    let i2b = i2 + ",\"session_id\":\"".unicode_len();
    let mut session_id = String::new();
    let i3 = match parse_string_body(s, i2b, &mut session_id) {
        None => {
            return None;
        },
        Some(j) => j,
    };
    if !match_lit_at(s, i3, ",\"state\":\"") {
        return None;
    }
    let i3b = i3 + ",\"state\":\"".unicode_len();
    let state: PlayerState;
    let i4: usize;
    if match_lit_at(s, i3b, "Loading\",\"last_ping_time\":") {
        state = PlayerState::Loading;
        i4 = i3b + "Loading\",\"last_ping_time\":".unicode_len();
    } else if match_lit_at(s, i3b, "Dead\",\"last_ping_time\":") {
        state = PlayerState::Dead;
        i4 = i3b + "Dead\",\"last_ping_time\":".unicode_len();
    } else if match_lit_at(s, i3b, "Alive\",\"last_ping_time\":") {
        state = PlayerState::Alive;
        i4 = i3b + "Alive\",\"last_ping_time\":".unicode_len();
    } else if match_lit_at(s, i3b, "Error\",\"last_ping_time\":") {
        state = PlayerState::Error;
        i4 = i3b + "Error\",\"last_ping_time\":".unicode_len();
    } else {
        proof {
            lemma_state_tail_lits();
        }
        return None;
    }
    proof {
        lemma_state_tail_lits();
    }
    let (t, i5) = match parse_dec(s, i4) {
        None => {
            return None;
        },
        Some(p) => p,
    };
    if i5 < n && n - i5 == 1 && s.get_char(i5) == '}' {
        Some(Player { name, health: h as u8, session_id, state, last_ping_time: t })
    } else {
        None
    }
}

/// The four combined state-and-tail literals are the spec's `state_tail`
/// sequences.
proof fn lemma_state_tail_lits()
    ensures
        "Loading\",\"last_ping_time\":"@ == state_tail(PlayerState::Loading),
        "Dead\",\"last_ping_time\":"@ == state_tail(PlayerState::Dead),
        "Alive\",\"last_ping_time\":"@ == state_tail(PlayerState::Alive),
        "Error\",\"last_ping_time\":"@ == state_tail(PlayerState::Error),
{
    reveal_strlit("Loading\",\"last_ping_time\":");
    reveal_strlit("Dead\",\"last_ping_time\":");
    reveal_strlit("Alive\",\"last_ping_time\":");
    reveal_strlit("Error\",\"last_ping_time\":");
    reveal_strlit("Loading");
    reveal_strlit("Dead");
    reveal_strlit("Alive");
    reveal_strlit("Error");
    reveal_strlit("\",\"last_ping_time\":");
    assert("Loading\",\"last_ping_time\":"@ =~= state_tail(PlayerState::Loading));
    assert("Dead\",\"last_ping_time\":"@ =~= state_tail(PlayerState::Dead));
    assert("Alive\",\"last_ping_time\":"@ =~= state_tail(PlayerState::Alive));
    assert("Error\",\"last_ping_time\":"@ =~= state_tail(PlayerState::Error));
}

/// Decodes a player record leniently: a malformed payload degrades to the
/// sentinel record rather than an error, so a garbled Sync payload becomes
/// a token mismatch downstream instead of a fault.
pub fn decode_player_info(json_player: &str) -> (r: Player)
    ensures
        r@ == match parse_player_spec(json_player@) {
            Some(p) => p,
            None => sentinel_player(),
        },
{
    match try_decode_player(json_player) {
        Some(p) => p,
        None => {
            let r = Player {
                name: String::new(),
                health: 0,
                session_id: String::new(),
                state: PlayerState::Error,
                last_ping_time: 0,
            };
            r
        },
    }
}


/// Law: decoding an encoded envelope gives back exactly that envelope.
pub proof fn lemma_packet_roundtrip(p: PacketModel)
    ensures
        parse_packet_spec(encode_packet_spec(p)) == Some(p),
{
    reveal_strlit("{\"packet_type\":\"");
    reveal_strlit("\",\"content\":\"");
    reveal_strlit("Chat");
    reveal_strlit("Sync");
    reveal_strlit("Misc");
    reveal_strlit("\"");
    reveal_strlit("}");
    let s = encode_packet_spec(p);
    let hdr = packet_header(p.packet_type);
    let e = escape_string(p.content);
    let h = hdr.len() as int;
    assert(s.len() == h + e.len() + 2);
    assert(s.subrange(0, h) =~= hdr);
    assert(match_lit(s, 0, hdr));
    assert(hdr[16] == kind_lit(p.packet_type)[0]);
    assert(s.subrange(0, h)[16] == hdr[16]);
    assert(s[16] == kind_lit(p.packet_type)[0]);
    if p.packet_type != PacketType::Chat {
        let h2 = packet_header(PacketType::Chat);
        if match_lit(s, 0, h2) {
            assert(s.subrange(0, h2.len() as int)[16] == h2[16]);
            assert(h2[16] == kind_lit(PacketType::Chat)[0]);
            assert(false);
        }
    }
    if p.packet_type == PacketType::Misc {
        let h2 = packet_header(PacketType::Sync);
        if match_lit(s, 0, h2) {
            assert(s.subrange(0, h2.len() as int)[16] == h2[16]);
            assert(h2[16] == kind_lit(PacketType::Sync)[0]);
            assert(false);
        }
    }
    assert(s.subrange(h, h + e.len() as int) =~= e);
    assert(s[h + e.len()] == '\"');
    lemma_parse_str_of_escaped(s, h, p.content);
    let j = h + e.len() + 1;
    assert(parse_str_spec(s, h) == Some((p.content, j)));
    assert(s[j] == '}');
    assert(j + 1 == s.len());
    assert(parse_packet_tail(s, p.packet_type) == Some(
        PacketModel { packet_type: p.packet_type, content: p.content },
    ));
    assert(PacketModel { packet_type: p.packet_type, content: p.content } == p);
}

/// Law: an encoded envelope, carried as UTF-8 bytes through the transport,
/// decodes back to exactly that envelope.
pub proof fn lemma_packet_bytes_roundtrip(p: PacketModel)
    ensures
        vstd::utf8::valid_utf8(vstd::utf8::encode_utf8(encode_packet_spec(p))),
        parse_packet_spec(
            vstd::utf8::decode_utf8(vstd::utf8::encode_utf8(encode_packet_spec(p))),
        ) == Some(p),
{
    vstd::utf8::encode_utf8_valid_utf8(encode_packet_spec(p));
    vstd::utf8::encode_utf8_decode_utf8(encode_packet_spec(p));
    lemma_packet_roundtrip(p);
}

/// Law: decoding an encoded player record gives back exactly that record.
pub proof fn lemma_player_roundtrip(p: PlayerModel)
    ensures
        parse_player_spec(encode_player_spec(p)) == Some(p),
{
    reveal_strlit("{\"name\":\"");
    reveal_strlit(",\"health\":");
    reveal_strlit(",\"session_id\":\"");
    reveal_strlit(",\"state\":\"");
    reveal_strlit("\",\"last_ping_time\":");
    reveal_strlit("Loading");
    reveal_strlit("Dead");
    reveal_strlit("Alive");
    reveal_strlit("Error");
    reveal_strlit("\"");
    reveal_strlit("}");
    let s = encode_player_spec(p);
    let e1 = escape_string(p.name);
    let d1 = dec_digits(p.health as nat);
    let e2 = escape_string(p.session_id);
    let stl = state_tail(p.state);
    let d2 = dec_digits(p.last_ping_time as nat);
    let i1: int = 9 + e1.len() as int + 1;
    let i1b: int = i1 + 10;
    let i2: int = i1b + d1.len() as int;
    let i2b: int = i2 + 15;
    let i3: int = i2b + e2.len() as int + 1;
    let i3b: int = i3 + 10;
    let i4: int = i3b + stl.len() as int;
    let i5: int = i4 + d2.len() as int;
    assert(state_lit(p.state).len() > 0);
    assert(stl.len() == state_lit(p.state).len() + 19);
    assert(s.len() == i5 + 1);
    assert(s.subrange(0, 9) =~= "{\"name\":\""@);
    assert(match_lit(s, 0, "{\"name\":\""@));
    assert(s.subrange(9, 9 + e1.len() as int) =~= e1);
    assert(s[9 + e1.len() as int] == '\"');
    lemma_parse_str_of_escaped(s, 9, p.name);
    assert(parse_str_spec(s, 9) == Some((p.name, i1)));
    assert(s.subrange(i1, i1b) =~= ",\"health\":"@);
    assert(match_lit(s, i1, ",\"health\":"@));
    assert(s.subrange(i1b, i2) =~= d1);
    assert(s[i2] == ',');
    assert(!is_dec_digit(','));
    lemma_parse_dec_of_digits(s, i1b, p.health as nat);
    assert(parse_dec_spec(s, i1b) == Some((p.health as u64, i2)));
    assert(p.health as u64 <= 255);
    assert(s.subrange(i2, i2b) =~= ",\"session_id\":\""@);
    assert(match_lit(s, i2, ",\"session_id\":\""@));
    assert(s.subrange(i2b, i2b + e2.len() as int) =~= e2);
    assert(s[i2b + e2.len() as int] == '\"');
    lemma_parse_str_of_escaped(s, i2b, p.session_id);
    assert(parse_str_spec(s, i2b) == Some((p.session_id, i3)));
    assert(s.subrange(i3, i3b) =~= ",\"state\":\""@);
    assert(match_lit(s, i3, ",\"state\":\""@));
    assert(s.subrange(i3b, i4) =~= stl);
    assert(match_lit(s, i3b, stl));
    assert(stl[0] == state_lit(p.state)[0]);
    assert(s.subrange(i3b, i4)[0] == stl[0]);
    assert(s[i3b] == state_lit(p.state)[0]);
    if p.state != PlayerState::Loading {
        let t2 = state_tail(PlayerState::Loading);
        if match_lit(s, i3b, t2) {
            assert(s.subrange(i3b, i3b + t2.len() as int)[0] == t2[0]);
            assert(t2[0] == state_lit(PlayerState::Loading)[0]);
            assert(false);
        }
    }
    if p.state == PlayerState::Alive || p.state == PlayerState::Error {
        let t2 = state_tail(PlayerState::Dead);
        if match_lit(s, i3b, t2) {
            assert(s.subrange(i3b, i3b + t2.len() as int)[0] == t2[0]);
            assert(t2[0] == state_lit(PlayerState::Dead)[0]);
            assert(false);
        }
    }
    if p.state == PlayerState::Error {
        let t2 = state_tail(PlayerState::Alive);
        if match_lit(s, i3b, t2) {
            assert(s.subrange(i3b, i3b + t2.len() as int)[0] == t2[0]);
            assert(t2[0] == state_lit(PlayerState::Alive)[0]);
            assert(false);
        }
    }
    assert(s.subrange(i4, i5) =~= d2);
    assert(s[i5] == '}');
    assert(!is_dec_digit('}'));
    lemma_parse_dec_of_digits(s, i4, p.last_ping_time as nat);
    assert(parse_dec_spec(s, i4) == Some((p.last_ping_time, i5)));
    assert(i5 + 1 == s.len());
    assert(parse_player_time_part(s, i4, p.name, p.health, p.session_id, p.state) == Some(
        PlayerModel {
            name: p.name,
            health: p.health,
            session_id: p.session_id,
            state: p.state,
            last_ping_time: p.last_ping_time,
        },
    ));
    assert(PlayerModel {
        name: p.name,
        health: p.health,
        session_id: p.session_id,
        state: p.state,
        last_ping_time: p.last_ping_time,
    } == p);
}

} // verus!
