use minecraft_protocol::error::{DecodeError, EncodeError};
use minecraft_protocol::game::{GameClientBoundPacket, GameServerBoundPacket};
use minecraft_protocol::packets::{ChunkData, ServerBoundChatMessage, SpawnPosition, TimeUpdate};

fn push_varint(out: &mut Vec<u8>, mut v: u32) {
    loop {
        if v < 128 {
            out.push(v as u8);
            return;
        }
        out.push(128 + (v % 128) as u8);
        v /= 128;
    }
}

fn push_str(out: &mut Vec<u8>, s: &str) {
    push_varint(out, s.len() as u32);
    out.extend_from_slice(s.as_bytes());
}

fn nbt_bytes() -> Vec<u8> {
    let mut tag = nbt::CompoundTag::new();
    tag.insert_i32("level", 7);
    tag.insert_str("name", "plains");
    let mut out = Vec::new();
    nbt::encode::write_compound_tag(&mut out, &tag).unwrap();
    out
}

#[test]
fn server_bound_chat_message_decodes_one_string() {
    let mut payload = Vec::new();
    push_str(&mut payload, "hello");
    let p = GameServerBoundPacket::decode(0x03, &payload).unwrap();
    match &p {
        GameServerBoundPacket::ServerBoundChatMessage(m) => assert_eq!(m.message, "hello"),
        other => panic!("wrong variant: {:?}", other),
    }
    assert_eq!(p.get_type_id(), 0x03);
    let mut out = Vec::new();
    p.encode(&mut out).unwrap();
    assert_eq!(out, payload);
}

#[test]
fn unknown_server_bound_opcode_is_reported() {
    let r = GameServerBoundPacket::decode(0xFF, &[1, 2, 3]);
    assert_eq!(r.unwrap_err(), DecodeError::UnknownPacketType { type_id: 0xFF });
}

#[test]
fn unknown_client_bound_opcode_is_reported() {
    let r = GameClientBoundPacket::decode(0x0C, &[]);
    assert_eq!(r.unwrap_err(), DecodeError::UnknownPacketType { type_id: 0x0C });
}

#[test]
fn spawn_position_round_trips_twelve_bytes() {
    let mut payload = Vec::new();
    payload.extend_from_slice(&0x0123_4567_89AB_CDEFu64.to_be_bytes());
    payload.extend_from_slice(&90.0f32.to_bits().to_be_bytes());
    assert_eq!(payload.len(), 12);
    let p = GameClientBoundPacket::decode(0x4B, &payload).unwrap();
    match &p {
        GameClientBoundPacket::SpawnPosition(sp) => {
            assert_eq!(sp.position, 0x0123_4567_89AB_CDEF);
            assert_eq!(f32::from_bits(sp.angle), 90.0);
        }
        other => panic!("wrong variant: {:?}", other),
    }
    assert_eq!(p.get_type_id(), 0x4B);
    let mut out = Vec::new();
    p.encode(&mut out).unwrap();
    assert_eq!(out, payload);
}

fn join_game_payload() -> Vec<u8> {
    let tag = nbt_bytes();
    let mut payload = Vec::new();
    payload.extend_from_slice(&27u32.to_be_bytes());
    payload.push(0); // hardcore: false
    payload.push(1); // game_mode
    payload.push(255); // previous_game_mode
    push_varint(&mut payload, 2);
    push_str(&mut payload, "world");
    push_str(&mut payload, "world_nether");
    payload.extend_from_slice(&tag); // dimension_codec
    payload.extend_from_slice(&tag); // dimension
    push_str(&mut payload, "world");
    payload.extend_from_slice(&(-42i64).to_be_bytes());
    push_varint(&mut payload, 20); // max_players
    push_varint(&mut payload, 10); // view_distance
    payload.push(0); // reduced_debug_info
    payload.push(1); // enable_respawn_screen
    payload.push(0); // is_debug
    payload.push(1); // is_flat
    payload
}

#[test]
fn join_game_decodes_and_round_trips() {
    let payload = join_game_payload();
    let p = GameClientBoundPacket::decode(0x26, &payload).unwrap();
    match &p {
        GameClientBoundPacket::JoinGame(j) => {
            assert_eq!(j.entity_id, 27);
            assert!(!j.hardcore);
            assert_eq!(j.game_mode, 1);
            assert_eq!(j.previous_game_mode, 255);
            assert_eq!(j.world_names, vec!["world".to_string(), "world_nether".to_string()]);
            assert_eq!(j.dimension_codec, nbt_bytes());
            assert_eq!(j.dimension, nbt_bytes());
            assert_eq!(j.world_name, "world");
            assert_eq!(j.hashed_seed, -42);
            assert_eq!(j.max_players, 20);
            assert_eq!(j.view_distance, 10);
            assert!(!j.reduced_debug_info);
            assert!(j.enable_respawn_screen);
            assert!(!j.is_debug);
            assert!(j.is_flat);
            // the embedded tree bytes parse back with the nbt crate
            let mut cur: &[u8] = &j.dimension;
            let parsed = nbt::decode::read_compound_tag(&mut cur).unwrap();
            assert_eq!(parsed.get_i32("level").unwrap(), 7);
            assert_eq!(parsed.get_str("name").unwrap(), "plains");
        }
        other => panic!("wrong variant: {:?}", other),
    }
    assert_eq!(p.get_type_id(), 0x26);
    let mut out = Vec::new();
    p.encode(&mut out).unwrap();
    assert_eq!(out, payload);
}

#[test]
fn join_game_truncated_fails_with_field_error() {
    let payload = join_game_payload();
    let cut = &payload[..payload.len() - 2]; // missing trailing booleans
    let r = GameClientBoundPacket::decode(0x26, cut);
    assert_eq!(r.unwrap_err(), DecodeError::Truncated);
}

#[test]
fn join_game_with_malformed_tree_fails() {
    let payload = join_game_payload();
    // corrupt the first dimension_codec byte: 0xC0 is no tag type
    let tag_start = {
        let mut probe = Vec::new();
        probe.extend_from_slice(&27u32.to_be_bytes());
        probe.push(0);
        probe.push(1);
        probe.push(255);
        push_varint(&mut probe, 2);
        push_str(&mut probe, "world");
        push_str(&mut probe, "world_nether");
        probe.len()
    };
    let mut bad = payload.clone();
    bad[tag_start] = 0xC0;
    let r = GameClientBoundPacket::decode(0x26, &bad);
    assert_eq!(r.unwrap_err(), DecodeError::MalformedTag);
}

#[test]
fn time_update_round_trips_and_reports_bytes_consumed() {
    let mut payload = Vec::new();
    payload.extend_from_slice(&123456789i64.to_be_bytes());
    payload.extend_from_slice(&(-1i64).to_be_bytes());
    let p = GameClientBoundPacket::decode(0x58, &payload).unwrap();
    match &p {
        GameClientBoundPacket::TimeUpdate(t) => {
            assert_eq!(t.world_age, 123456789);
            assert_eq!(t.time_of_day, -1);
        }
        other => panic!("wrong variant: {:?}", other),
    }
    let mut out = Vec::new();
    p.encode(&mut out).unwrap();
    assert_eq!(out, payload);

    // bytes past the packet are left to the caller, as a streaming source would
    payload.push(0x77);
    let (t, consumed) = TimeUpdate::decode(&payload).unwrap();
    assert_eq!(consumed, 16);
    assert_eq!(t.world_age, 123456789);
    let q = GameClientBoundPacket::decode(0x58, &payload).unwrap();
    assert_eq!(q, p);
}

#[test]
fn spawn_position_with_trailing_bytes_consumes_exactly_twelve() {
    let mut payload = Vec::new();
    payload.extend_from_slice(&5u64.to_be_bytes());
    payload.extend_from_slice(&1.0f32.to_bits().to_be_bytes());
    payload.extend_from_slice(&[0xAA, 0xBB, 0xCC]);
    let (sp, consumed) = SpawnPosition::decode(&payload).unwrap();
    assert_eq!(consumed, 12);
    assert_eq!(sp.position, 5);
    assert_eq!(f32::from_bits(sp.angle), 1.0);
    let mut out = Vec::new();
    sp.encode(&mut out).unwrap();
    assert_eq!(out, payload[..12]);
    let p = GameClientBoundPacket::decode(0x4B, &payload).unwrap();
    match &p {
        GameClientBoundPacket::SpawnPosition(v) => assert_eq!(v.position, 5),
        other => panic!("wrong variant: {:?}", other),
    }
}

#[test]
fn encode_refuses_a_malformed_tree_blob() {
    let c = ChunkData {
        x: 0,
        z: 0,
        full: false,
        primary_mask: 0,
        heights: vec![0xC0, 0x01],  // no well-formed compound tag
        data: vec![],
    };
    let p = GameClientBoundPacket::ChunkData(c);
    let mut out = Vec::new();
    assert_eq!(p.encode(&mut out).unwrap_err(), EncodeError::MalformedTag);
    assert!(out.is_empty());
}

#[test]
fn keep_alive_truncated_mid_field_fails() {
    let r = GameServerBoundPacket::decode(0x0F, &[0, 1, 2, 3]);
    assert_eq!(r.unwrap_err(), DecodeError::Truncated);
}

#[test]
fn bool_field_rejects_other_bytes() {
    // PlayerPositionAndLook: 3 doubles, 2 floats, flags, varint, bool
    let mut payload = Vec::new();
    payload.extend_from_slice(&1.5f64.to_bits().to_be_bytes());
    payload.extend_from_slice(&2.5f64.to_bits().to_be_bytes());
    payload.extend_from_slice(&3.5f64.to_bits().to_be_bytes());
    payload.extend_from_slice(&0.0f32.to_bits().to_be_bytes());
    payload.extend_from_slice(&0.0f32.to_bits().to_be_bytes());
    payload.push(0); // flags
    push_varint(&mut payload, 7); // teleport_id
    payload.push(2); // not a boolean byte
    let r = GameClientBoundPacket::decode(0x38, &payload);
    assert_eq!(r.unwrap_err(), DecodeError::InvalidBool { value: 2 });

    *payload.last_mut().unwrap() = 1;
    let p = GameClientBoundPacket::decode(0x38, &payload).unwrap();
    match &p {
        GameClientBoundPacket::PlayerPositionAndLook(l) => {
            assert_eq!(f64::from_bits(l.x), 1.5);
            assert_eq!(l.teleport_id, 7);
            assert!(l.dismount_vehicle);
        }
        other => panic!("wrong variant: {:?}", other),
    }
}

#[test]
fn varint_rejects_non_canonical_encoding() {
    // BossBar: two u64 halves, then a varint action
    let mut payload = Vec::new();
    payload.extend_from_slice(&1u64.to_be_bytes());
    payload.extend_from_slice(&2u64.to_be_bytes());
    payload.extend_from_slice(&[0x80, 0x00]); // over-long encoding of zero
    let r = GameClientBoundPacket::decode(0x0D, &payload);
    assert_eq!(r.unwrap_err(), DecodeError::NonCanonicalVarInt);

    let mut good = Vec::new();
    good.extend_from_slice(&1u64.to_be_bytes());
    good.extend_from_slice(&2u64.to_be_bytes());
    good.push(0x00);
    let p = GameClientBoundPacket::decode(0x0D, &good).unwrap();
    match &p {
        GameClientBoundPacket::BossBar(bb) => assert_eq!(bb.action, 0),
        other => panic!("wrong variant: {:?}", other),
    }
}

#[test]
fn negative_varint_uses_five_bytes() {
    let mut payload = Vec::new();
    payload.extend_from_slice(&1u64.to_be_bytes());
    payload.extend_from_slice(&2u64.to_be_bytes());
    push_varint(&mut payload, (-1i32) as u32);
    let p = GameClientBoundPacket::decode(0x0D, &payload).unwrap();
    match &p {
        GameClientBoundPacket::BossBar(bb) => assert_eq!(bb.action, -1),
        other => panic!("wrong variant: {:?}", other),
    }
    let mut out = Vec::new();
    p.encode(&mut out).unwrap();
    assert_eq!(out, payload);
}

#[test]
fn string_succeeds_at_exactly_the_maximum() {
    let long = "a".repeat(256);
    let mut payload = Vec::new();
    push_str(&mut payload, &long);
    let p = GameServerBoundPacket::decode(0x03, &payload).unwrap();
    match &p {
        GameServerBoundPacket::ServerBoundChatMessage(m) => assert_eq!(m.message, long),
        other => panic!("wrong variant: {:?}", other),
    }
}

#[test]
fn string_fails_just_over_the_maximum() {
    let long = "a".repeat(257);
    let mut payload = Vec::new();
    push_str(&mut payload, &long);
    let r = GameServerBoundPacket::decode(0x03, &payload);
    assert_eq!(r.unwrap_err(), DecodeError::StringTooLong { length: 257, max_length: 256 });
}

#[test]
fn string_maximum_counts_utf8_bytes_not_chars() {
    // 130 two-byte characters: 130 chars but 260 bytes, over the 256 bound
    let s = "\u{00FC}".repeat(130);
    assert_eq!(s.as_bytes().len(), 260);
    let mut payload = Vec::new();
    push_str(&mut payload, &s);
    let r = GameServerBoundPacket::decode(0x03, &payload);
    assert_eq!(r.unwrap_err(), DecodeError::StringTooLong { length: 260, max_length: 256 });
}

#[test]
fn string_rejects_invalid_utf8() {
    let mut payload = Vec::new();
    push_varint(&mut payload, 2);
    payload.extend_from_slice(&[0xFF, 0xFE]);
    let r = GameServerBoundPacket::decode(0x03, &payload);
    assert_eq!(r.unwrap_err(), DecodeError::InvalidUtf8);
}

#[test]
fn encode_refuses_string_over_bound() {
    let p = GameServerBoundPacket::ServerBoundChatMessage(ServerBoundChatMessage {
        message: "x".repeat(300),
    });
    let mut out = Vec::new();
    let r = p.encode(&mut out);
    assert_eq!(r.unwrap_err(), EncodeError::StringTooLong { length: 300, max_length: 256 });
    assert!(out.is_empty());
}

#[test]
fn plugin_message_takes_the_rest_of_the_buffer() {
    let mut payload = Vec::new();
    push_str(&mut payload, "minecraft:brand");
    payload.extend_from_slice(&[9, 8, 7, 0x80, 0xFF]);
    let p = GameServerBoundPacket::decode(0x0A, &payload).unwrap();
    match &p {
        GameServerBoundPacket::ServerBoundPluginMessage(m) => {
            assert_eq!(m.channel, "minecraft:brand");
            assert_eq!(m.data, vec![9, 8, 7, 0x80, 0xFF]);
        }
        other => panic!("wrong variant: {:?}", other),
    }
    assert_eq!(p.get_type_id(), 0x0A);
    let mut out = Vec::new();
    p.encode(&mut out).unwrap();
    assert_eq!(out, payload);
}

#[test]
fn respawn_reads_tree_blob_then_following_fields() {
    let tag = nbt_bytes();
    let mut payload = Vec::new();
    payload.extend_from_slice(&tag);
    push_str(&mut payload, "world_the_end");
    payload.extend_from_slice(&7i64.to_be_bytes());
    payload.push(3); // game_mode
    payload.push(255); // previous_game_mode
    payload.push(0); // is_debug
    payload.push(1); // is_flat
    payload.push(1); // copy_metadata
    let p = GameClientBoundPacket::decode(0x3D, &payload).unwrap();
    match &p {
        GameClientBoundPacket::Respawn(r) => {
            assert_eq!(r.dimension, tag);
            assert_eq!(r.world_name, "world_the_end");
            assert_eq!(r.hashed_seed, 7);
            assert_eq!(r.game_mode, 3);
            assert!(r.copy_metadata);
        }
        other => panic!("wrong variant: {:?}", other),
    }
    let mut out = Vec::new();
    p.encode(&mut out).unwrap();
    assert_eq!(out, payload);
}

#[test]
fn every_client_bound_type_id_round_trips_through_decode() {
    // opcode 0x20: keep-alive, the smallest packet: check id -> decode -> id
    let mut payload = Vec::new();
    payload.extend_from_slice(&99u64.to_be_bytes());
    let p = GameClientBoundPacket::decode(0x20, &payload).unwrap();
    assert_eq!(p.get_type_id(), 0x20);
    match &p {
        GameClientBoundPacket::ClientBoundKeepAlive(k) => assert_eq!(k.id, 99),
        other => panic!("wrong variant: {:?}", other),
    }
}

#[test]
fn named_sound_effect_mixes_strings_varints_and_float_bits() {
    let mut payload = Vec::new();
    push_str(&mut payload, "minecraft:block.note_block.pling");
    push_varint(&mut payload, 3); // sound_category
    payload.extend_from_slice(&(8i32 * 100).to_be_bytes());
    payload.extend_from_slice(&(8i32 * -5).to_be_bytes());
    payload.extend_from_slice(&(8i32 * 64).to_be_bytes());
    payload.extend_from_slice(&1.0f32.to_bits().to_be_bytes());
    payload.extend_from_slice(&0.5f32.to_bits().to_be_bytes());
    let p = GameClientBoundPacket::decode(0x19, &payload).unwrap();
    match &p {
        GameClientBoundPacket::NamedSoundEffect(s) => {
            assert_eq!(s.sound_name, "minecraft:block.note_block.pling");
            assert_eq!(s.sound_category, 3);
            assert_eq!(s.effect_pos_x, 800);
            assert_eq!(s.effect_pos_y, -40);
            assert_eq!(s.effect_pos_z, 512);
            assert_eq!(f32::from_bits(s.volume), 1.0);
            assert_eq!(f32::from_bits(s.pitch), 0.5);
        }
        other => panic!("wrong variant: {:?}", other),
    }
    assert_eq!(p.get_type_id(), 0x19);
    let mut out = Vec::new();
    p.encode(&mut out).unwrap();
    assert_eq!(out, payload);
}

#[test]
fn chunk_data_reads_tree_then_length_prefixed_blob() {
    let tag = nbt_bytes();
    let mut payload = Vec::new();
    payload.extend_from_slice(&5i32.to_be_bytes());
    payload.extend_from_slice(&(-3i32).to_be_bytes());
    payload.push(1); // full
    push_varint(&mut payload, 0b1111); // primary_mask
    payload.extend_from_slice(&tag); // heights
    push_varint(&mut payload, 4);
    payload.extend_from_slice(&[0xDE, 0xAD, 0xBE, 0xEF]);
    let p = GameClientBoundPacket::decode(0x21, &payload).unwrap();
    match &p {
        GameClientBoundPacket::ChunkData(c) => {
            assert_eq!(c.x, 5);
            assert_eq!(c.z, -3);
            assert!(c.full);
            assert_eq!(c.primary_mask, 0b1111);
            assert_eq!(c.heights, tag);
            assert_eq!(c.data, vec![0xDE, 0xAD, 0xBE, 0xEF]);
        }
        other => panic!("wrong variant: {:?}", other),
    }
    let mut out = Vec::new();
    p.encode(&mut out).unwrap();
    assert_eq!(out, payload);
}

#[test]
fn title_packets_carry_their_text_and_times() {
    let mut payload = Vec::new();
    push_str(&mut payload, "{\"text\":\"hi\"}");
    let p = GameClientBoundPacket::decode(0x59, &payload).unwrap();
    match &p {
        GameClientBoundPacket::SetTitleText(t) => assert_eq!(t.text, "{\"text\":\"hi\"}"),
        other => panic!("wrong variant: {:?}", other),
    }
    assert_eq!(p.get_type_id(), 0x59);

    let mut times = Vec::new();
    times.extend_from_slice(&10i32.to_be_bytes());
    times.extend_from_slice(&70i32.to_be_bytes());
    times.extend_from_slice(&20i32.to_be_bytes());
    let q = GameClientBoundPacket::decode(0x5A, &times).unwrap();
    match &q {
        GameClientBoundPacket::SetTitleTimes(t) => {
            assert_eq!((t.fade_in, t.stay, t.fade_out), (10, 70, 20));
        }
        other => panic!("wrong variant: {:?}", other),
    }
    let mut out = Vec::new();
    q.encode(&mut out).unwrap();
    assert_eq!(out, times);
}

#[test]
fn empty_world_list_is_valid() {
    let tag = nbt_bytes();
    let mut payload = Vec::new();
    payload.extend_from_slice(&1u32.to_be_bytes());
    payload.push(0);
    payload.push(0);
    payload.push(0);
    push_varint(&mut payload, 0); // no world names
    payload.extend_from_slice(&tag);
    payload.extend_from_slice(&tag);
    push_str(&mut payload, "w");
    payload.extend_from_slice(&0i64.to_be_bytes());
    push_varint(&mut payload, 1);
    push_varint(&mut payload, 2);
    payload.extend_from_slice(&[0, 0, 0, 0]);
    let p = GameClientBoundPacket::decode(0x26, &payload).unwrap();
    match &p {
        GameClientBoundPacket::JoinGame(j) => assert!(j.world_names.is_empty()),
        other => panic!("wrong variant: {:?}", other),
    }
}
