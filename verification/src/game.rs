use vstd::prelude::*;
use crate::error::{DecodeError, EncodeError};
use crate::fields::{fields_err, FieldKind};
use crate::packets::{
    BossBar, ChunkData, ClientBoundChatMessage, ClientBoundKeepAlive, ClientBoundPluginMessage,
    EntityAction, GameDisconnect, JoinGame, NamedSoundEffect, PlayerPositionAndLook, Respawn,
    ServerBoundAbilities, ServerBoundChatMessage, ServerBoundKeepAlive, ServerBoundPluginMessage,
    SetTitleSubtitle, SetTitleText, SetTitleTimes, SpawnPosition, TimeUpdate,
};
use crate::registry::{lookup, Direction, Epoch, PacketKind};

verus! {

/// The field schema of each packet kind, in wire order.
pub open spec fn schema_of(k: PacketKind) -> Seq<FieldKind> {
    match k {
        PacketKind::SbChatMessage => ServerBoundChatMessage::spec_kinds(),
        PacketKind::SbPluginMessage => ServerBoundPluginMessage::spec_kinds(),
        PacketKind::SbKeepAlive => ServerBoundKeepAlive::spec_kinds(),
        PacketKind::SbAbilities => ServerBoundAbilities::spec_kinds(),
        PacketKind::CbChatMessage => ClientBoundChatMessage::spec_kinds(),
        PacketKind::CbPluginMessage => ClientBoundPluginMessage::spec_kinds(),
        PacketKind::CbNamedSoundEffect => NamedSoundEffect::spec_kinds(),
        PacketKind::CbGameDisconnect => GameDisconnect::spec_kinds(),
        PacketKind::CbKeepAlive => ClientBoundKeepAlive::spec_kinds(),
        PacketKind::CbChunkData => ChunkData::spec_kinds(),
        PacketKind::CbJoinGame => JoinGame::spec_kinds(),
        PacketKind::CbBossBar => BossBar::spec_kinds(),
        PacketKind::CbEntityAction => EntityAction::spec_kinds(),
        PacketKind::CbRespawn => Respawn::spec_kinds(),
        PacketKind::CbPlayerPositionAndLook => PlayerPositionAndLook::spec_kinds(),
        PacketKind::CbSpawnPosition => SpawnPosition::spec_kinds(),
        PacketKind::CbSetTitleText => SetTitleText::spec_kinds(),
        PacketKind::CbSetTitleSubtitle => SetTitleSubtitle::spec_kinds(),
        PacketKind::CbSetTitleTimes => SetTitleTimes::spec_kinds(),
        PacketKind::CbTimeUpdate => TimeUpdate::spec_kinds(),
    }
}

/// A play-phase packet sent by the client, one case per registered kind.
#[derive(Debug, Clone, PartialEq)]
pub enum GameServerBoundPacket {
    ServerBoundChatMessage(ServerBoundChatMessage),
    ServerBoundPluginMessage(ServerBoundPluginMessage),
    ServerBoundKeepAlive(ServerBoundKeepAlive),
    ServerBoundAbilities(ServerBoundAbilities),
}

impl GameServerBoundPacket {
    /// The packet kind of this variant.
    pub open spec fn kind(self) -> PacketKind {
        match self {
            GameServerBoundPacket::ServerBoundChatMessage(_) => PacketKind::SbChatMessage,
            GameServerBoundPacket::ServerBoundPluginMessage(_) => PacketKind::SbPluginMessage,
            GameServerBoundPacket::ServerBoundKeepAlive(_) => PacketKind::SbKeepAlive,
            GameServerBoundPacket::ServerBoundAbilities(_) => PacketKind::SbAbilities,
        }
    }

    /// The first `end` bytes of `b` decode, in whole, to this packet.
    pub open spec fn parses(self, b: Seq<u8>, end: int) -> bool {
        match self {
            GameServerBoundPacket::ServerBoundChatMessage(p) => p.parses(b, end),
            GameServerBoundPacket::ServerBoundPluginMessage(p) => p.parses(b, end),
            GameServerBoundPacket::ServerBoundKeepAlive(p) => p.parses(b, end),
            GameServerBoundPacket::ServerBoundAbilities(p) => p.parses(b, end),
        }
    }

    /// The exact payload encoding of this packet.
    pub open spec fn spec_bytes(self) -> Seq<u8> {
        match self {
            GameServerBoundPacket::ServerBoundChatMessage(p) => p.spec_bytes(),
            GameServerBoundPacket::ServerBoundPluginMessage(p) => p.spec_bytes(),
            GameServerBoundPacket::ServerBoundKeepAlive(p) => p.spec_bytes(),
            GameServerBoundPacket::ServerBoundAbilities(p) => p.spec_bytes(),
        }
    }

    /// Every field bound holds, so the packet encodes.
    pub open spec fn enc_ok(self) -> bool {
        match self {
            GameServerBoundPacket::ServerBoundChatMessage(p) => p.enc_ok(),
            GameServerBoundPacket::ServerBoundPluginMessage(p) => p.enc_ok(),
            GameServerBoundPacket::ServerBoundKeepAlive(p) => p.enc_ok(),
            GameServerBoundPacket::ServerBoundAbilities(p) => p.enc_ok(),
        }
    }

    /// The opcode under which this epoch's registry lists this packet.
    pub fn get_type_id(&self) -> (r: u8)
        ensures
            lookup(Epoch::V1_17_1, Direction::ServerBound, r) == Some(self.kind()),
    {
        match self {
            GameServerBoundPacket::ServerBoundChatMessage(_) => 0x03,
            GameServerBoundPacket::ServerBoundPluginMessage(_) => 0x0A,
            GameServerBoundPacket::ServerBoundKeepAlive(_) => 0x0F,
            GameServerBoundPacket::ServerBoundAbilities(_) => 0x19,
        }
    }

    /// Look `type_id` up in this epoch's registry and decode the payload
    /// under the matching schema, leaving any bytes past the packet to the
    /// caller. An unregistered opcode fails with `UnknownPacketType`
    /// carrying that opcode; under a registered one the matched schema's
    /// decode either succeeds or its field error is handed through
    /// unchanged: the error is exactly the one the schema's field-by-field
    /// decode determines on these bytes.
    pub fn decode(type_id: u8, bytes: &[u8]) -> (r: Result<Self, DecodeError>)
        ensures
            match r {
                Ok(v) => lookup(Epoch::V1_17_1, Direction::ServerBound, type_id) == Some(v.kind())
                    && exists|end: int| v.parses(bytes@, end),
                Err(e) => {
                    &&& (e matches DecodeError::UnknownPacketType { type_id: t } ==> t
                        == type_id)
                    &&& ((e matches DecodeError::UnknownPacketType { .. }) <==> lookup(
                        Epoch::V1_17_1,
                        Direction::ServerBound,
                        type_id,
                    ) is None)
                    &&& forall|k: PacketKind|
                        lookup(Epoch::V1_17_1, Direction::ServerBound, type_id) == Some(k)
                            ==> fields_err(bytes@, 0, #[trigger] schema_of(k)) == Some(e)
                    &&& forall|v: Self, end: int|
                        lookup(Epoch::V1_17_1, Direction::ServerBound, type_id) == Some(v.kind())
                            ==> !v.parses(bytes@, end)
                },
            },
    {
        match type_id {
            0x03 => match ServerBoundChatMessage::decode(bytes) {
                Ok((p, n)) => {
                    proof {
                        assert((GameServerBoundPacket::ServerBoundChatMessage(p)).parses(bytes@, n as int));
                    }
                    Ok(GameServerBoundPacket::ServerBoundChatMessage(p))
                },
                Err(e) => {
                    proof {
                        assert(schema_of(PacketKind::SbChatMessage) == ServerBoundChatMessage::spec_kinds());
                        assert forall|v: GameServerBoundPacket, end: int|
                            lookup(Epoch::V1_17_1, Direction::ServerBound, type_id) == Some(v.kind())
                                implies !v.parses(bytes@, end) by {}
                    }
                    Err(e)
                },
            },
            0x0A => match ServerBoundPluginMessage::decode(bytes) {
                Ok((p, n)) => {
                    proof {
                        assert((GameServerBoundPacket::ServerBoundPluginMessage(p)).parses(bytes@, n as int));
                    }
                    Ok(GameServerBoundPacket::ServerBoundPluginMessage(p))
                },
                Err(e) => {
                    proof {
                        assert(schema_of(PacketKind::SbPluginMessage) == ServerBoundPluginMessage::spec_kinds());
                        assert forall|v: GameServerBoundPacket, end: int|
                            lookup(Epoch::V1_17_1, Direction::ServerBound, type_id) == Some(v.kind())
                                implies !v.parses(bytes@, end) by {}
                    }
                    Err(e)
                },
            },
            0x0F => match ServerBoundKeepAlive::decode(bytes) {
                Ok((p, n)) => {
                    proof {
                        assert((GameServerBoundPacket::ServerBoundKeepAlive(p)).parses(bytes@, n as int));
                    }
                    Ok(GameServerBoundPacket::ServerBoundKeepAlive(p))
                },
                Err(e) => {
                    proof {
                        assert(schema_of(PacketKind::SbKeepAlive) == ServerBoundKeepAlive::spec_kinds());
                        assert forall|v: GameServerBoundPacket, end: int|
                            lookup(Epoch::V1_17_1, Direction::ServerBound, type_id) == Some(v.kind())
                                implies !v.parses(bytes@, end) by {}
                    }
                    Err(e)
                },
            },
            0x19 => match ServerBoundAbilities::decode(bytes) {
                Ok((p, n)) => {
                    proof {
                        assert((GameServerBoundPacket::ServerBoundAbilities(p)).parses(bytes@, n as int));
                    }
                    Ok(GameServerBoundPacket::ServerBoundAbilities(p))
                },
                Err(e) => {
                    proof {
                        assert(schema_of(PacketKind::SbAbilities) == ServerBoundAbilities::spec_kinds());
                        assert forall|v: GameServerBoundPacket, end: int|
                            lookup(Epoch::V1_17_1, Direction::ServerBound, type_id) == Some(v.kind())
                                implies !v.parses(bytes@, end) by {}
                    }
                    Err(e)
                },
            },
            _ => Err(DecodeError::UnknownPacketType { type_id }),
        }
    }

    /// Encode the packet's payload, refusing a value that breaks a field
    /// bound and then leaving the output untouched.
    pub fn encode(&self, out: &mut Vec<u8>) -> (r: Result<(), EncodeError>)
        ensures
            match r {
                Ok(()) => final(out)@ == old(out)@ + self.spec_bytes() && self.enc_ok(),
                Err(_) => final(out)@ == old(out)@ && !self.enc_ok(),
            },
    {
        match self {
            GameServerBoundPacket::ServerBoundChatMessage(p) => p.encode(out),
            GameServerBoundPacket::ServerBoundPluginMessage(p) => p.encode(out),
            GameServerBoundPacket::ServerBoundKeepAlive(p) => p.encode(out),
            GameServerBoundPacket::ServerBoundAbilities(p) => p.encode(out),
        }
    }
}

/// A play-phase packet sent by the server, one case per registered kind.
#[derive(Debug, Clone, PartialEq)]
pub enum GameClientBoundPacket {
    ClientBoundChatMessage(ClientBoundChatMessage),
    ClientBoundPluginMessage(ClientBoundPluginMessage),
    NamedSoundEffect(NamedSoundEffect),
    GameDisconnect(GameDisconnect),
    ClientBoundKeepAlive(ClientBoundKeepAlive),
    ChunkData(ChunkData),
    JoinGame(JoinGame),
    BossBar(BossBar),
    EntityAction(EntityAction),
    PlayerPositionAndLook(PlayerPositionAndLook),
    Respawn(Respawn),
    SpawnPosition(SpawnPosition),
    SetTitleSubtitle(SetTitleSubtitle),
    TimeUpdate(TimeUpdate),
    SetTitleText(SetTitleText),
    SetTitleTimes(SetTitleTimes),
}

impl GameClientBoundPacket {
    /// The packet kind of this variant.
    pub open spec fn kind(self) -> PacketKind {
        match self {
            GameClientBoundPacket::ClientBoundChatMessage(_) => PacketKind::CbChatMessage,
            GameClientBoundPacket::ClientBoundPluginMessage(_) => PacketKind::CbPluginMessage,
            GameClientBoundPacket::NamedSoundEffect(_) => PacketKind::CbNamedSoundEffect,
            GameClientBoundPacket::GameDisconnect(_) => PacketKind::CbGameDisconnect,
            GameClientBoundPacket::ClientBoundKeepAlive(_) => PacketKind::CbKeepAlive,
            GameClientBoundPacket::ChunkData(_) => PacketKind::CbChunkData,
            GameClientBoundPacket::JoinGame(_) => PacketKind::CbJoinGame,
            GameClientBoundPacket::BossBar(_) => PacketKind::CbBossBar,
            GameClientBoundPacket::EntityAction(_) => PacketKind::CbEntityAction,
            GameClientBoundPacket::PlayerPositionAndLook(_) => PacketKind::CbPlayerPositionAndLook,
            GameClientBoundPacket::Respawn(_) => PacketKind::CbRespawn,
            GameClientBoundPacket::SpawnPosition(_) => PacketKind::CbSpawnPosition,
            GameClientBoundPacket::SetTitleSubtitle(_) => PacketKind::CbSetTitleSubtitle,
            GameClientBoundPacket::TimeUpdate(_) => PacketKind::CbTimeUpdate,
            GameClientBoundPacket::SetTitleText(_) => PacketKind::CbSetTitleText,
            GameClientBoundPacket::SetTitleTimes(_) => PacketKind::CbSetTitleTimes,
        }
    }

    /// The first `end` bytes of `b` decode, in whole, to this packet.
    pub open spec fn parses(self, b: Seq<u8>, end: int) -> bool {
        match self {
            GameClientBoundPacket::ClientBoundChatMessage(p) => p.parses(b, end),
            GameClientBoundPacket::ClientBoundPluginMessage(p) => p.parses(b, end),
            GameClientBoundPacket::NamedSoundEffect(p) => p.parses(b, end),
            GameClientBoundPacket::GameDisconnect(p) => p.parses(b, end),
            GameClientBoundPacket::ClientBoundKeepAlive(p) => p.parses(b, end),
            GameClientBoundPacket::ChunkData(p) => p.parses(b, end),
            GameClientBoundPacket::JoinGame(p) => p.parses(b, end),
            GameClientBoundPacket::BossBar(p) => p.parses(b, end),
            GameClientBoundPacket::EntityAction(p) => p.parses(b, end),
            GameClientBoundPacket::PlayerPositionAndLook(p) => p.parses(b, end),
            GameClientBoundPacket::Respawn(p) => p.parses(b, end),
            GameClientBoundPacket::SpawnPosition(p) => p.parses(b, end),
            GameClientBoundPacket::SetTitleSubtitle(p) => p.parses(b, end),
            GameClientBoundPacket::TimeUpdate(p) => p.parses(b, end),
            GameClientBoundPacket::SetTitleText(p) => p.parses(b, end),
            GameClientBoundPacket::SetTitleTimes(p) => p.parses(b, end),
        }
    }

    /// The exact payload encoding of this packet.
    pub open spec fn spec_bytes(self) -> Seq<u8> {
        match self {
            GameClientBoundPacket::ClientBoundChatMessage(p) => p.spec_bytes(),
            GameClientBoundPacket::ClientBoundPluginMessage(p) => p.spec_bytes(),
            GameClientBoundPacket::NamedSoundEffect(p) => p.spec_bytes(),
            GameClientBoundPacket::GameDisconnect(p) => p.spec_bytes(),
            GameClientBoundPacket::ClientBoundKeepAlive(p) => p.spec_bytes(),
            GameClientBoundPacket::ChunkData(p) => p.spec_bytes(),
            GameClientBoundPacket::JoinGame(p) => p.spec_bytes(),
            GameClientBoundPacket::BossBar(p) => p.spec_bytes(),
            GameClientBoundPacket::EntityAction(p) => p.spec_bytes(),
            GameClientBoundPacket::PlayerPositionAndLook(p) => p.spec_bytes(),
            GameClientBoundPacket::Respawn(p) => p.spec_bytes(),
            GameClientBoundPacket::SpawnPosition(p) => p.spec_bytes(),
            GameClientBoundPacket::SetTitleSubtitle(p) => p.spec_bytes(),
            GameClientBoundPacket::TimeUpdate(p) => p.spec_bytes(),
            GameClientBoundPacket::SetTitleText(p) => p.spec_bytes(),
            GameClientBoundPacket::SetTitleTimes(p) => p.spec_bytes(),
        }
    }

    /// Every field bound holds, so the packet encodes.
    pub open spec fn enc_ok(self) -> bool {
        match self {
            GameClientBoundPacket::ClientBoundChatMessage(p) => p.enc_ok(),
            GameClientBoundPacket::ClientBoundPluginMessage(p) => p.enc_ok(),
            GameClientBoundPacket::NamedSoundEffect(p) => p.enc_ok(),
            GameClientBoundPacket::GameDisconnect(p) => p.enc_ok(),
            GameClientBoundPacket::ClientBoundKeepAlive(p) => p.enc_ok(),
            GameClientBoundPacket::ChunkData(p) => p.enc_ok(),
            GameClientBoundPacket::JoinGame(p) => p.enc_ok(),
            GameClientBoundPacket::BossBar(p) => p.enc_ok(),
            GameClientBoundPacket::EntityAction(p) => p.enc_ok(),
            GameClientBoundPacket::PlayerPositionAndLook(p) => p.enc_ok(),
            GameClientBoundPacket::Respawn(p) => p.enc_ok(),
            GameClientBoundPacket::SpawnPosition(p) => p.enc_ok(),
            GameClientBoundPacket::SetTitleSubtitle(p) => p.enc_ok(),
            GameClientBoundPacket::TimeUpdate(p) => p.enc_ok(),
            GameClientBoundPacket::SetTitleText(p) => p.enc_ok(),
            GameClientBoundPacket::SetTitleTimes(p) => p.enc_ok(),
        }
    }

    /// The opcode under which this epoch's registry lists this packet.
    pub fn get_type_id(&self) -> (r: u8)
        ensures
            lookup(Epoch::V1_17_1, Direction::ClientBound, r) == Some(self.kind()),
    {
        match self {
            GameClientBoundPacket::ClientBoundChatMessage(_) => 0x0E,
            GameClientBoundPacket::ClientBoundPluginMessage(_) => 0x18,
            GameClientBoundPacket::NamedSoundEffect(_) => 0x19,
            GameClientBoundPacket::GameDisconnect(_) => 0x1A,
            GameClientBoundPacket::ClientBoundKeepAlive(_) => 0x20,
            GameClientBoundPacket::ChunkData(_) => 0x21,
            GameClientBoundPacket::JoinGame(_) => 0x26,
            GameClientBoundPacket::BossBar(_) => 0x0D,
            GameClientBoundPacket::EntityAction(_) => 0x1B,
            GameClientBoundPacket::PlayerPositionAndLook(_) => 0x38,
            GameClientBoundPacket::Respawn(_) => 0x3D,
            GameClientBoundPacket::SpawnPosition(_) => 0x4B,
            GameClientBoundPacket::SetTitleSubtitle(_) => 0x57,
            GameClientBoundPacket::TimeUpdate(_) => 0x58,
            GameClientBoundPacket::SetTitleText(_) => 0x59,
            GameClientBoundPacket::SetTitleTimes(_) => 0x5A,
        }
    }

    /// Look `type_id` up in this epoch's registry and decode the payload
    /// under the matching schema, leaving any bytes past the packet to the
    /// caller. An unregistered opcode fails with `UnknownPacketType`
    /// carrying that opcode; under a registered one the matched schema's
    /// decode either succeeds or its field error is handed through
    /// unchanged: the error is exactly the one the schema's field-by-field
    /// decode determines on these bytes.
    pub fn decode(type_id: u8, bytes: &[u8]) -> (r: Result<Self, DecodeError>)
        ensures
            match r {
                Ok(v) => lookup(Epoch::V1_17_1, Direction::ClientBound, type_id) == Some(v.kind())
                    && exists|end: int| v.parses(bytes@, end),
                Err(e) => {
                    &&& (e matches DecodeError::UnknownPacketType { type_id: t } ==> t
                        == type_id)
                    &&& ((e matches DecodeError::UnknownPacketType { .. }) <==> lookup(
                        Epoch::V1_17_1,
                        Direction::ClientBound,
                        type_id,
                    ) is None)
                    &&& forall|k: PacketKind|
                        lookup(Epoch::V1_17_1, Direction::ClientBound, type_id) == Some(k)
                            ==> fields_err(bytes@, 0, #[trigger] schema_of(k)) == Some(e)
                    &&& forall|v: Self, end: int|
                        lookup(Epoch::V1_17_1, Direction::ClientBound, type_id) == Some(v.kind())
                            ==> !v.parses(bytes@, end)
                },
            },
    {
        match type_id {
            0x0E => match ClientBoundChatMessage::decode(bytes) {
                Ok((p, n)) => {
                    proof {
                        assert((GameClientBoundPacket::ClientBoundChatMessage(p)).parses(bytes@, n as int));
                    }
                    Ok(GameClientBoundPacket::ClientBoundChatMessage(p))
                },
                Err(e) => {
                    proof {
                        assert(schema_of(PacketKind::CbChatMessage) == ClientBoundChatMessage::spec_kinds());
                        assert forall|v: GameClientBoundPacket, end: int|
                            lookup(Epoch::V1_17_1, Direction::ClientBound, type_id) == Some(v.kind())
                                implies !v.parses(bytes@, end) by {}
                    }
                    Err(e)
                },
            },
            0x18 => match ClientBoundPluginMessage::decode(bytes) {
                Ok((p, n)) => {
                    proof {
                        assert((GameClientBoundPacket::ClientBoundPluginMessage(p)).parses(bytes@, n as int));
                    }
                    Ok(GameClientBoundPacket::ClientBoundPluginMessage(p))
                },
                Err(e) => {
                    proof {
                        assert(schema_of(PacketKind::CbPluginMessage) == ClientBoundPluginMessage::spec_kinds());
                        assert forall|v: GameClientBoundPacket, end: int|
                            lookup(Epoch::V1_17_1, Direction::ClientBound, type_id) == Some(v.kind())
                                implies !v.parses(bytes@, end) by {}
                    }
                    Err(e)
                },
            },
            0x19 => match NamedSoundEffect::decode(bytes) {
                Ok((p, n)) => {
                    proof {
                        assert((GameClientBoundPacket::NamedSoundEffect(p)).parses(bytes@, n as int));
                    }
                    Ok(GameClientBoundPacket::NamedSoundEffect(p))
                },
                Err(e) => {
                    proof {
                        assert(schema_of(PacketKind::CbNamedSoundEffect) == NamedSoundEffect::spec_kinds());
                        assert forall|v: GameClientBoundPacket, end: int|
                            lookup(Epoch::V1_17_1, Direction::ClientBound, type_id) == Some(v.kind())
                                implies !v.parses(bytes@, end) by {}
                    }
                    Err(e)
                },
            },
            0x1A => match GameDisconnect::decode(bytes) {
                Ok((p, n)) => {
                    proof {
                        assert((GameClientBoundPacket::GameDisconnect(p)).parses(bytes@, n as int));
                    }
                    Ok(GameClientBoundPacket::GameDisconnect(p))
                },
                Err(e) => {
                    proof {
                        assert(schema_of(PacketKind::CbGameDisconnect) == GameDisconnect::spec_kinds());
                        assert forall|v: GameClientBoundPacket, end: int|
                            lookup(Epoch::V1_17_1, Direction::ClientBound, type_id) == Some(v.kind())
                                implies !v.parses(bytes@, end) by {}
                    }
                    Err(e)
                },
            },
            0x20 => match ClientBoundKeepAlive::decode(bytes) {
                Ok((p, n)) => {
                    proof {
                        assert((GameClientBoundPacket::ClientBoundKeepAlive(p)).parses(bytes@, n as int));
                    }
                    Ok(GameClientBoundPacket::ClientBoundKeepAlive(p))
                },
                Err(e) => {
                    proof {
                        assert(schema_of(PacketKind::CbKeepAlive) == ClientBoundKeepAlive::spec_kinds());
                        assert forall|v: GameClientBoundPacket, end: int|
                            lookup(Epoch::V1_17_1, Direction::ClientBound, type_id) == Some(v.kind())
                                implies !v.parses(bytes@, end) by {}
                    }
                    Err(e)
                },
            },
            0x21 => match ChunkData::decode(bytes) {
                Ok((p, n)) => {
                    proof {
                        assert((GameClientBoundPacket::ChunkData(p)).parses(bytes@, n as int));
                    }
                    Ok(GameClientBoundPacket::ChunkData(p))
                },
                Err(e) => {
                    proof {
                        assert(schema_of(PacketKind::CbChunkData) == ChunkData::spec_kinds());
                        assert forall|v: GameClientBoundPacket, end: int|
                            lookup(Epoch::V1_17_1, Direction::ClientBound, type_id) == Some(v.kind())
                                implies !v.parses(bytes@, end) by {}
                    }
                    Err(e)
                },
            },
            0x26 => match JoinGame::decode(bytes) {
                Ok((p, n)) => {
                    proof {
                        assert((GameClientBoundPacket::JoinGame(p)).parses(bytes@, n as int));
                    }
                    Ok(GameClientBoundPacket::JoinGame(p))
                },
                Err(e) => {
                    proof {
                        assert(schema_of(PacketKind::CbJoinGame) == JoinGame::spec_kinds());
                        assert forall|v: GameClientBoundPacket, end: int|
                            lookup(Epoch::V1_17_1, Direction::ClientBound, type_id) == Some(v.kind())
                                implies !v.parses(bytes@, end) by {}
                    }
                    Err(e)
                },
            },
            0x0D => match BossBar::decode(bytes) {
                Ok((p, n)) => {
                    proof {
                        assert((GameClientBoundPacket::BossBar(p)).parses(bytes@, n as int));
                    }
                    Ok(GameClientBoundPacket::BossBar(p))
                },
                Err(e) => {
                    proof {
                        assert(schema_of(PacketKind::CbBossBar) == BossBar::spec_kinds());
                        assert forall|v: GameClientBoundPacket, end: int|
                            lookup(Epoch::V1_17_1, Direction::ClientBound, type_id) == Some(v.kind())
                                implies !v.parses(bytes@, end) by {}
                    }
                    Err(e)
                },
            },
            0x1B => match EntityAction::decode(bytes) {
                Ok((p, n)) => {
                    proof {
                        assert((GameClientBoundPacket::EntityAction(p)).parses(bytes@, n as int));
                    }
                    Ok(GameClientBoundPacket::EntityAction(p))
                },
                Err(e) => {
                    proof {
                        assert(schema_of(PacketKind::CbEntityAction) == EntityAction::spec_kinds());
                        assert forall|v: GameClientBoundPacket, end: int|
                            lookup(Epoch::V1_17_1, Direction::ClientBound, type_id) == Some(v.kind())
                                implies !v.parses(bytes@, end) by {}
                    }
                    Err(e)
                },
            },
            0x38 => match PlayerPositionAndLook::decode(bytes) {
                Ok((p, n)) => {
                    proof {
                        assert((GameClientBoundPacket::PlayerPositionAndLook(p)).parses(bytes@, n as int));
                    }
                    Ok(GameClientBoundPacket::PlayerPositionAndLook(p))
                },
                Err(e) => {
                    proof {
                        assert(schema_of(PacketKind::CbPlayerPositionAndLook) == PlayerPositionAndLook::spec_kinds());
                        assert forall|v: GameClientBoundPacket, end: int|
                            lookup(Epoch::V1_17_1, Direction::ClientBound, type_id) == Some(v.kind())
                                implies !v.parses(bytes@, end) by {}
                    }
                    Err(e)
                },
            },
            0x3D => match Respawn::decode(bytes) {
                Ok((p, n)) => {
                    proof {
                        assert((GameClientBoundPacket::Respawn(p)).parses(bytes@, n as int));
                    }
                    Ok(GameClientBoundPacket::Respawn(p))
                },
                Err(e) => {
                    proof {
                        assert(schema_of(PacketKind::CbRespawn) == Respawn::spec_kinds());
                        assert forall|v: GameClientBoundPacket, end: int|
                            lookup(Epoch::V1_17_1, Direction::ClientBound, type_id) == Some(v.kind())
                                implies !v.parses(bytes@, end) by {}
                    }
                    Err(e)
                },
            },
            0x4B => match SpawnPosition::decode(bytes) {
                Ok((p, n)) => {
                    proof {
                        assert((GameClientBoundPacket::SpawnPosition(p)).parses(bytes@, n as int));
                    }
                    Ok(GameClientBoundPacket::SpawnPosition(p))
                },
                Err(e) => {
                    proof {
                        assert(schema_of(PacketKind::CbSpawnPosition) == SpawnPosition::spec_kinds());
                        assert forall|v: GameClientBoundPacket, end: int|
                            lookup(Epoch::V1_17_1, Direction::ClientBound, type_id) == Some(v.kind())
                                implies !v.parses(bytes@, end) by {}
                    }
                    Err(e)
                },
            },
            0x57 => match SetTitleSubtitle::decode(bytes) {
                Ok((p, n)) => {
                    proof {
                        assert((GameClientBoundPacket::SetTitleSubtitle(p)).parses(bytes@, n as int));
                    }
                    Ok(GameClientBoundPacket::SetTitleSubtitle(p))
                },
                Err(e) => {
                    proof {
                        assert(schema_of(PacketKind::CbSetTitleSubtitle) == SetTitleSubtitle::spec_kinds());
                        assert forall|v: GameClientBoundPacket, end: int|
                            lookup(Epoch::V1_17_1, Direction::ClientBound, type_id) == Some(v.kind())
                                implies !v.parses(bytes@, end) by {}
                    }
                    Err(e)
                },
            },
            0x58 => match TimeUpdate::decode(bytes) {
                Ok((p, n)) => {
                    proof {
                        assert((GameClientBoundPacket::TimeUpdate(p)).parses(bytes@, n as int));
                    }
                    Ok(GameClientBoundPacket::TimeUpdate(p))
                },
                Err(e) => {
                    proof {
                        assert(schema_of(PacketKind::CbTimeUpdate) == TimeUpdate::spec_kinds());
                        assert forall|v: GameClientBoundPacket, end: int|
                            lookup(Epoch::V1_17_1, Direction::ClientBound, type_id) == Some(v.kind())
                                implies !v.parses(bytes@, end) by {}
                    }
                    Err(e)
                },
            },
            0x59 => match SetTitleText::decode(bytes) {
                Ok((p, n)) => {
                    proof {
                        assert((GameClientBoundPacket::SetTitleText(p)).parses(bytes@, n as int));
                    }
                    Ok(GameClientBoundPacket::SetTitleText(p))
                },
                Err(e) => {
                    proof {
                        assert(schema_of(PacketKind::CbSetTitleText) == SetTitleText::spec_kinds());
                        assert forall|v: GameClientBoundPacket, end: int|
                            lookup(Epoch::V1_17_1, Direction::ClientBound, type_id) == Some(v.kind())
                                implies !v.parses(bytes@, end) by {}
                    }
                    Err(e)
                },
            },
            0x5A => match SetTitleTimes::decode(bytes) {
                Ok((p, n)) => {
                    proof {
                        assert((GameClientBoundPacket::SetTitleTimes(p)).parses(bytes@, n as int));
                    }
                    Ok(GameClientBoundPacket::SetTitleTimes(p))
                },
                Err(e) => {
                    proof {
                        assert(schema_of(PacketKind::CbSetTitleTimes) == SetTitleTimes::spec_kinds());
                        assert forall|v: GameClientBoundPacket, end: int|
                            lookup(Epoch::V1_17_1, Direction::ClientBound, type_id) == Some(v.kind())
                                implies !v.parses(bytes@, end) by {}
                    }
                    Err(e)
                },
            },
            _ => Err(DecodeError::UnknownPacketType { type_id }),
        }
    }

    /// Encode the packet's payload, refusing a value that breaks a field
    /// bound and then leaving the output untouched.
    pub fn encode(&self, out: &mut Vec<u8>) -> (r: Result<(), EncodeError>)
        ensures
            match r {
                Ok(()) => final(out)@ == old(out)@ + self.spec_bytes() && self.enc_ok(),
                Err(_) => final(out)@ == old(out)@ && !self.enc_ok(),
            },
    {
        match self {
            GameClientBoundPacket::ClientBoundChatMessage(p) => p.encode(out),
            GameClientBoundPacket::ClientBoundPluginMessage(p) => p.encode(out),
            GameClientBoundPacket::NamedSoundEffect(p) => p.encode(out),
            GameClientBoundPacket::GameDisconnect(p) => p.encode(out),
            GameClientBoundPacket::ClientBoundKeepAlive(p) => p.encode(out),
            GameClientBoundPacket::ChunkData(p) => p.encode(out),
            GameClientBoundPacket::JoinGame(p) => p.encode(out),
            GameClientBoundPacket::BossBar(p) => p.encode(out),
            GameClientBoundPacket::EntityAction(p) => p.encode(out),
            GameClientBoundPacket::PlayerPositionAndLook(p) => p.encode(out),
            GameClientBoundPacket::Respawn(p) => p.encode(out),
            GameClientBoundPacket::SpawnPosition(p) => p.encode(out),
            GameClientBoundPacket::SetTitleSubtitle(p) => p.encode(out),
            GameClientBoundPacket::TimeUpdate(p) => p.encode(out),
            GameClientBoundPacket::SetTitleText(p) => p.encode(out),
            GameClientBoundPacket::SetTitleTimes(p) => p.encode(out),
        }
    }
}

} // verus!
