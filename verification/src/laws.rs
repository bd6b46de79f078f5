use vstd::prelude::*;
use crate::fields::{lemma_fields_parse_bytes, lemma_fields_parse_ok, lemma_fields_parse_unique};
use crate::game::{GameClientBoundPacket, GameServerBoundPacket};
use crate::packets::{
    BossBar, ChunkData, ClientBoundChatMessage, ClientBoundKeepAlive, ClientBoundPluginMessage,
    EntityAction, GameDisconnect, JoinGame, NamedSoundEffect, PlayerPositionAndLook, Respawn,
    ServerBoundAbilities, ServerBoundChatMessage, ServerBoundKeepAlive, ServerBoundPluginMessage,
    SetTitleSubtitle, SetTitleText, SetTitleTimes, SpawnPosition, TimeUpdate,
};
use crate::registry::{lookup, Direction, Epoch, PacketKind};

verus! {

proof fn lemma_parse_case(
    b: Seq<u8>,
    end: int,
    ks: Seq<crate::fields::FieldKind>,
    vs: Seq<crate::fields::FieldValue>,
)
    requires
        crate::fields::fields_parse(b, 0, end, ks, vs),
    ensures
        0 <= end <= b.len(),
        crate::fields::fields_bytes(vs) == b.subrange(0, end),
        crate::fields::fields_ok(ks, vs),
{
    lemma_fields_parse_bytes(b, 0, end, ks, vs);
    lemma_fields_parse_ok(b, 0, end, ks, vs);
}

/// Canonical round trip, server bound: a packet decoded from the front of a
/// payload satisfies every field bound, so it encodes, and its encoding is
/// exactly the bytes it was decoded from.
pub proof fn lemma_server_bound_round_trip(b: Seq<u8>, end: int, v: GameServerBoundPacket)
    requires
        v.parses(b, end),
    ensures
        v.enc_ok(),
        0 <= end <= b.len(),
        v.spec_bytes() == b.subrange(0, end),
{
    match v {
        GameServerBoundPacket::ServerBoundChatMessage(p) => {
            lemma_parse_case(b, end, ServerBoundChatMessage::spec_kinds(), p.spec_fields());
        },
        GameServerBoundPacket::ServerBoundPluginMessage(p) => {
            lemma_parse_case(b, end, ServerBoundPluginMessage::spec_kinds(), p.spec_fields());
        },
        GameServerBoundPacket::ServerBoundKeepAlive(p) => {
            lemma_parse_case(b, end, ServerBoundKeepAlive::spec_kinds(), p.spec_fields());
        },
        GameServerBoundPacket::ServerBoundAbilities(p) => {
            lemma_parse_case(b, end, ServerBoundAbilities::spec_kinds(), p.spec_fields());
        },
    }
}

/// Canonical round trip, client bound: as for the server-bound direction.
pub proof fn lemma_client_bound_round_trip(b: Seq<u8>, end: int, v: GameClientBoundPacket)
    requires
        v.parses(b, end),
    ensures
        v.enc_ok(),
        0 <= end <= b.len(),
        v.spec_bytes() == b.subrange(0, end),
{
    match v {
        GameClientBoundPacket::ClientBoundChatMessage(p) => {
            lemma_parse_case(b, end, ClientBoundChatMessage::spec_kinds(), p.spec_fields());
        },
        GameClientBoundPacket::ClientBoundPluginMessage(p) => {
            lemma_parse_case(b, end, ClientBoundPluginMessage::spec_kinds(), p.spec_fields());
        },
        GameClientBoundPacket::NamedSoundEffect(p) => {
            lemma_parse_case(b, end, NamedSoundEffect::spec_kinds(), p.spec_fields());
        },
        GameClientBoundPacket::GameDisconnect(p) => {
            lemma_parse_case(b, end, GameDisconnect::spec_kinds(), p.spec_fields());
        },
        GameClientBoundPacket::ClientBoundKeepAlive(p) => {
            lemma_parse_case(b, end, ClientBoundKeepAlive::spec_kinds(), p.spec_fields());
        },
        GameClientBoundPacket::ChunkData(p) => {
            lemma_parse_case(b, end, ChunkData::spec_kinds(), p.spec_fields());
        },
        GameClientBoundPacket::JoinGame(p) => {
            lemma_parse_case(b, end, JoinGame::spec_kinds(), p.spec_fields());
        },
        GameClientBoundPacket::BossBar(p) => {
            lemma_parse_case(b, end, BossBar::spec_kinds(), p.spec_fields());
        },
        GameClientBoundPacket::EntityAction(p) => {
            lemma_parse_case(b, end, EntityAction::spec_kinds(), p.spec_fields());
        },
        GameClientBoundPacket::PlayerPositionAndLook(p) => {
            lemma_parse_case(b, end, PlayerPositionAndLook::spec_kinds(), p.spec_fields());
        },
        GameClientBoundPacket::Respawn(p) => {
            lemma_parse_case(b, end, Respawn::spec_kinds(), p.spec_fields());
        },
        GameClientBoundPacket::SpawnPosition(p) => {
            lemma_parse_case(b, end, SpawnPosition::spec_kinds(), p.spec_fields());
        },
        GameClientBoundPacket::SetTitleSubtitle(p) => {
            lemma_parse_case(b, end, SetTitleSubtitle::spec_kinds(), p.spec_fields());
        },
        GameClientBoundPacket::TimeUpdate(p) => {
            lemma_parse_case(b, end, TimeUpdate::spec_kinds(), p.spec_fields());
        },
        GameClientBoundPacket::SetTitleText(p) => {
            lemma_parse_case(b, end, SetTitleText::spec_kinds(), p.spec_fields());
        },
        GameClientBoundPacket::SetTitleTimes(p) => {
            lemma_parse_case(b, end, SetTitleTimes::spec_kinds(), p.spec_fields());
        },
    }
}

/// One payload, one packet image: two packets of one kind that both decode
/// from the front of a payload consume the same count of bytes and have the
/// same canonical encoding, so decode under a fixed opcode is deterministic
/// at the byte level.
pub proof fn lemma_decode_deterministic(
    b: Seq<u8>,
    e1: int,
    e2: int,
    v1: GameClientBoundPacket,
    v2: GameClientBoundPacket,
)
    requires
        v1.parses(b, e1),
        v2.parses(b, e2),
        v1.kind() == v2.kind(),
    ensures
        e1 == e2,
        v1.spec_bytes() == v2.spec_bytes(),
{
    match (v1, v2) {
        (GameClientBoundPacket::ClientBoundChatMessage(p1), GameClientBoundPacket::ClientBoundChatMessage(p2)) => {
            lemma_fields_parse_unique(
                b,
                0,
                e1,
                e2,
                ClientBoundChatMessage::spec_kinds(),
                p1.spec_fields(),
                p2.spec_fields(),
            );
        },
        (GameClientBoundPacket::ClientBoundPluginMessage(p1), GameClientBoundPacket::ClientBoundPluginMessage(p2)) => {
            lemma_fields_parse_unique(
                b,
                0,
                e1,
                e2,
                ClientBoundPluginMessage::spec_kinds(),
                p1.spec_fields(),
                p2.spec_fields(),
            );
        },
        (GameClientBoundPacket::NamedSoundEffect(p1), GameClientBoundPacket::NamedSoundEffect(p2)) => {
            lemma_fields_parse_unique(
                b,
                0,
                e1,
                e2,
                NamedSoundEffect::spec_kinds(),
                p1.spec_fields(),
                p2.spec_fields(),
            );
        },
        (GameClientBoundPacket::GameDisconnect(p1), GameClientBoundPacket::GameDisconnect(p2)) => {
            lemma_fields_parse_unique(
                b,
                0,
                e1,
                e2,
                GameDisconnect::spec_kinds(),
                p1.spec_fields(),
                p2.spec_fields(),
            );
        },
        (GameClientBoundPacket::ClientBoundKeepAlive(p1), GameClientBoundPacket::ClientBoundKeepAlive(p2)) => {
            lemma_fields_parse_unique(
                b,
                0,
                e1,
                e2,
                ClientBoundKeepAlive::spec_kinds(),
                p1.spec_fields(),
                p2.spec_fields(),
            );
        },
        (GameClientBoundPacket::ChunkData(p1), GameClientBoundPacket::ChunkData(p2)) => {
            lemma_fields_parse_unique(
                b,
                0,
                e1,
                e2,
                ChunkData::spec_kinds(),
                p1.spec_fields(),
                p2.spec_fields(),
            );
        },
        (GameClientBoundPacket::JoinGame(p1), GameClientBoundPacket::JoinGame(p2)) => {
            lemma_fields_parse_unique(
                b,
                0,
                e1,
                e2,
                JoinGame::spec_kinds(),
                p1.spec_fields(),
                p2.spec_fields(),
            );
        },
        (GameClientBoundPacket::BossBar(p1), GameClientBoundPacket::BossBar(p2)) => {
            lemma_fields_parse_unique(
                b,
                0,
                e1,
                e2,
                BossBar::spec_kinds(),
                p1.spec_fields(),
                p2.spec_fields(),
            );
        },
        (GameClientBoundPacket::EntityAction(p1), GameClientBoundPacket::EntityAction(p2)) => {
            lemma_fields_parse_unique(
                b,
                0,
                e1,
                e2,
                EntityAction::spec_kinds(),
                p1.spec_fields(),
                p2.spec_fields(),
            );
        },
        (GameClientBoundPacket::PlayerPositionAndLook(p1), GameClientBoundPacket::PlayerPositionAndLook(p2)) => {
            lemma_fields_parse_unique(
                b,
                0,
                e1,
                e2,
                PlayerPositionAndLook::spec_kinds(),
                p1.spec_fields(),
                p2.spec_fields(),
            );
        },
        (GameClientBoundPacket::Respawn(p1), GameClientBoundPacket::Respawn(p2)) => {
            lemma_fields_parse_unique(
                b,
                0,
                e1,
                e2,
                Respawn::spec_kinds(),
                p1.spec_fields(),
                p2.spec_fields(),
            );
        },
        (GameClientBoundPacket::SpawnPosition(p1), GameClientBoundPacket::SpawnPosition(p2)) => {
            lemma_fields_parse_unique(
                b,
                0,
                e1,
                e2,
                SpawnPosition::spec_kinds(),
                p1.spec_fields(),
                p2.spec_fields(),
            );
        },
        (GameClientBoundPacket::SetTitleSubtitle(p1), GameClientBoundPacket::SetTitleSubtitle(p2)) => {
            lemma_fields_parse_unique(
                b,
                0,
                e1,
                e2,
                SetTitleSubtitle::spec_kinds(),
                p1.spec_fields(),
                p2.spec_fields(),
            );
        },
        (GameClientBoundPacket::TimeUpdate(p1), GameClientBoundPacket::TimeUpdate(p2)) => {
            lemma_fields_parse_unique(
                b,
                0,
                e1,
                e2,
                TimeUpdate::spec_kinds(),
                p1.spec_fields(),
                p2.spec_fields(),
            );
        },
        (GameClientBoundPacket::SetTitleText(p1), GameClientBoundPacket::SetTitleText(p2)) => {
            lemma_fields_parse_unique(
                b,
                0,
                e1,
                e2,
                SetTitleText::spec_kinds(),
                p1.spec_fields(),
                p2.spec_fields(),
            );
        },
        (GameClientBoundPacket::SetTitleTimes(p1), GameClientBoundPacket::SetTitleTimes(p2)) => {
            lemma_fields_parse_unique(
                b,
                0,
                e1,
                e2,
                SetTitleTimes::spec_kinds(),
                p1.spec_fields(),
                p2.spec_fields(),
            );
        },
        _ => {
            assert(false);
        },
    }
}

/// Within one epoch and direction the registry is a bijection: no two
/// opcodes select one packet kind, and an opcode selects at most one kind.
/// With `get_type_id`'s contract this says a decoded packet's type id is
/// exactly the opcode it was decoded under.
pub proof fn lemma_registry_bijective(
    epoch: Epoch,
    direction: Direction,
    op1: u8,
    op2: u8,
    k: PacketKind,
)
    requires
        lookup(epoch, direction, op1) == Some(k),
        lookup(epoch, direction, op2) == Some(k),
    ensures
        op1 == op2,
{
}

/// No field decodes from an exhausted source: a parse never runs past the
/// end of the buffer, so a source cut off mid-field admits no packet and
/// decode fails rather than substituting a default.
pub proof fn lemma_no_parse_past_end(
    b: Seq<u8>,
    pos: int,
    end: int,
    k: crate::fields::FieldKind,
    v: crate::fields::FieldValue,
)
    requires
        crate::fields::field_parses(b, pos, end, k, v),
    ensures
        end <= b.len(),
{
}

/// The string bound is enforced at decode time: a string field only ever
/// decodes to a string whose UTF-8 byte length is within the schema's
/// declared maximum.
pub proof fn lemma_string_bound_enforced(
    b: Seq<u8>,
    pos: int,
    end: int,
    max: u32,
    v: crate::fields::FieldValue,
)
    requires
        crate::fields::field_parses(b, pos, end, crate::fields::FieldKind::Str { max }, v),
    ensures
        v matches crate::fields::FieldValue::Str(s) && vstd::utf8::encode_utf8(s@).len() <= max,
{
}

} // verus!
