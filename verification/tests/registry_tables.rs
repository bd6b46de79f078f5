use minecraft_protocol::error::RegistryError;
use minecraft_protocol::registry::{
    compose, registry, Direction, Epoch, PacketKind, RegEntry,
};

#[test]
fn newer_epoch_client_bound_table_builds_and_is_bijective() {
    let t = registry(Epoch::V1_17_1, Direction::ClientBound).unwrap();
    assert_eq!(t.len(), 16);
    // no two entries share an opcode or a kind
    for i in 0..t.len() {
        for j in i + 1..t.len() {
            assert_ne!(t[i].opcode, t[j].opcode);
            assert_ne!(t[i].kind, t[j].kind);
        }
    }
    // moved opcodes: the schema is inherited, the opcode is overridden
    assert!(t.contains(&RegEntry { opcode: 0x26, kind: PacketKind::CbJoinGame }));
    assert!(t.contains(&RegEntry { opcode: 0x0D, kind: PacketKind::CbBossBar }));
    assert!(!t.contains(&RegEntry { opcode: 0x25, kind: PacketKind::CbJoinGame }));
    assert!(!t.contains(&RegEntry { opcode: 0x0C, kind: PacketKind::CbBossBar }));
    // unchanged entries are inherited as they were
    assert!(t.contains(&RegEntry { opcode: 0x0E, kind: PacketKind::CbChatMessage }));
    assert!(t.contains(&RegEntry { opcode: 0x21, kind: PacketKind::CbChunkData }));
}

#[test]
fn base_epoch_tables_build() {
    let sb = registry(Epoch::V1_14_4, Direction::ServerBound).unwrap();
    assert_eq!(sb.len(), 3);
    assert!(sb.contains(&RegEntry { opcode: 0x03, kind: PacketKind::SbChatMessage }));
    let cb = registry(Epoch::V1_14_4, Direction::ClientBound).unwrap();
    assert_eq!(cb.len(), 7);
    assert!(cb.contains(&RegEntry { opcode: 0x25, kind: PacketKind::CbJoinGame }));
}

#[test]
fn newer_epoch_server_bound_adds_plugin_message() {
    let t = registry(Epoch::V1_17_1, Direction::ServerBound).unwrap();
    assert_eq!(t.len(), 4);
    assert!(t.contains(&RegEntry { opcode: 0x0A, kind: PacketKind::SbPluginMessage }));
    assert!(t.contains(&RegEntry { opcode: 0x03, kind: PacketKind::SbChatMessage }));
}

#[test]
fn composition_fails_fast_on_an_opcode_collision() {
    let base = vec![
        RegEntry { opcode: 0x01, kind: PacketKind::SbChatMessage },
        RegEntry { opcode: 0x02, kind: PacketKind::SbKeepAlive },
    ];
    // the override keeps its own kind but lands on an inherited opcode
    let overrides = vec![RegEntry { opcode: 0x02, kind: PacketKind::SbAbilities }];
    let r = compose(&base, &overrides, &vec![]);
    assert_eq!(r.unwrap_err(), RegistryError::DuplicateOpcode { opcode: 0x02 });
}

#[test]
fn composition_applies_overrides_and_removals() {
    let base = vec![
        RegEntry { opcode: 0x01, kind: PacketKind::SbChatMessage },
        RegEntry { opcode: 0x02, kind: PacketKind::SbKeepAlive },
        RegEntry { opcode: 0x03, kind: PacketKind::SbAbilities },
    ];
    let overrides = vec![RegEntry { opcode: 0x07, kind: PacketKind::SbKeepAlive }];
    let removed = vec![PacketKind::SbAbilities];
    let t = compose(&base, &overrides, &removed).unwrap();
    assert_eq!(t.len(), 2);
    assert!(t.contains(&RegEntry { opcode: 0x01, kind: PacketKind::SbChatMessage }));
    assert!(t.contains(&RegEntry { opcode: 0x07, kind: PacketKind::SbKeepAlive }));
}
