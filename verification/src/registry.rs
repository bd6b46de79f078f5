use vstd::prelude::*;
use crate::error::RegistryError;

verus! {

/// A protocol revision. Each revision but the first derives from the one
/// before it.
#[derive(Clone, Copy, Debug, PartialEq, Eq, Structural)]
pub enum Epoch {
    V1_14_4,
    V1_17_1,
}

/// Who sends the packet; opcode spaces are independent per direction.
#[derive(Clone, Copy, Debug, PartialEq, Eq, Structural)]
pub enum Direction {
    ServerBound,
    ClientBound,
}

/// Every packet kind of the play phase, both directions.
#[derive(Clone, Copy, Debug, PartialEq, Eq, Structural)]
pub enum PacketKind {
    SbChatMessage,
    SbPluginMessage,
    SbKeepAlive,
    SbAbilities,
    CbChatMessage,
    CbPluginMessage,
    CbNamedSoundEffect,
    CbGameDisconnect,
    CbKeepAlive,
    CbChunkData,
    CbJoinGame,
    CbBossBar,
    CbEntityAction,
    CbRespawn,
    CbPlayerPositionAndLook,
    CbSpawnPosition,
    CbSetTitleText,
    CbSetTitleSubtitle,
    CbSetTitleTimes,
    CbTimeUpdate,
}

/// One registry entry: an opcode and the packet kind it selects.
#[derive(Clone, Copy, Debug, PartialEq, Eq, Structural)]
pub struct RegEntry {
    pub opcode: u8,
    pub kind: PacketKind,
}

/// The opcode table of each (epoch, direction).
pub open spec fn lookup(epoch: Epoch, direction: Direction, op: u8) -> Option<PacketKind> {
    match (epoch, direction) {
        (Epoch::V1_14_4, Direction::ServerBound) => if op == 0x03 {
            Some(PacketKind::SbChatMessage)
        } else if op == 0x0F {
            Some(PacketKind::SbKeepAlive)
        } else if op == 0x19 {
            Some(PacketKind::SbAbilities)
        } else {
            None
        },
        (Epoch::V1_14_4, Direction::ClientBound) => if op == 0x0C {
            Some(PacketKind::CbBossBar)
        } else if op == 0x0E {
            Some(PacketKind::CbChatMessage)
        } else if op == 0x1A {
            Some(PacketKind::CbGameDisconnect)
        } else if op == 0x1B {
            Some(PacketKind::CbEntityAction)
        } else if op == 0x20 {
            Some(PacketKind::CbKeepAlive)
        } else if op == 0x21 {
            Some(PacketKind::CbChunkData)
        } else if op == 0x25 {
            Some(PacketKind::CbJoinGame)
        } else {
            None
        },
        (Epoch::V1_17_1, Direction::ServerBound) => if op == 0x03 {
            Some(PacketKind::SbChatMessage)
        } else if op == 0x0A {
            Some(PacketKind::SbPluginMessage)
        } else if op == 0x0F {
            Some(PacketKind::SbKeepAlive)
        } else if op == 0x19 {
            Some(PacketKind::SbAbilities)
        } else {
            None
        },
        (Epoch::V1_17_1, Direction::ClientBound) => if op == 0x0D {
            Some(PacketKind::CbBossBar)
        } else if op == 0x0E {
            Some(PacketKind::CbChatMessage)
        } else if op == 0x18 {
            Some(PacketKind::CbPluginMessage)
        } else if op == 0x19 {
            Some(PacketKind::CbNamedSoundEffect)
        } else if op == 0x1A {
            Some(PacketKind::CbGameDisconnect)
        } else if op == 0x1B {
            Some(PacketKind::CbEntityAction)
        } else if op == 0x20 {
            Some(PacketKind::CbKeepAlive)
        } else if op == 0x21 {
            Some(PacketKind::CbChunkData)
        } else if op == 0x26 {
            Some(PacketKind::CbJoinGame)
        } else if op == 0x38 {
            Some(PacketKind::CbPlayerPositionAndLook)
        } else if op == 0x3D {
            Some(PacketKind::CbRespawn)
        } else if op == 0x4B {
            Some(PacketKind::CbSpawnPosition)
        } else if op == 0x57 {
            Some(PacketKind::CbSetTitleSubtitle)
        } else if op == 0x58 {
            Some(PacketKind::CbTimeUpdate)
        } else if op == 0x59 {
            Some(PacketKind::CbSetTitleText)
        } else if op == 0x5A {
            Some(PacketKind::CbSetTitleTimes)
        } else {
            None
        },
    }
}

pub open spec fn opcodes_unique(es: Seq<RegEntry>) -> bool {
    forall|i: int, j: int| 0 <= i < j < es.len() ==> es[i].opcode != es[j].opcode
}

pub open spec fn kinds_unique(es: Seq<RegEntry>) -> bool {
    forall|i: int, j: int| 0 <= i < j < es.len() ==> es[i].kind != es[j].kind
}

pub open spec fn has_kind(es: Seq<RegEntry>, k: PacketKind) -> bool {
    exists|i: int| 0 <= i < es.len() && es[i].kind == k
}

/// The composition rule: an entry of the new epoch is an inherited entry of
/// the base whose kind is neither removed nor overridden, or an override.
pub open spec fn in_composed(
    base: Seq<RegEntry>,
    ov: Seq<RegEntry>,
    rm: Seq<PacketKind>,
    e: RegEntry,
) -> bool {
    (base.contains(e) && !rm.contains(e.kind) && !has_kind(ov, e.kind)) || ov.contains(e)
}

fn kind_listed(ks: &Vec<PacketKind>, k: PacketKind) -> (r: bool)
    ensures
        r == ks@.contains(k),
{
    let mut i: usize = 0;
    while i < ks.len()
        invariant
            i <= ks@.len(),
            forall|j: int| 0 <= j < i as int ==> ks@[j] != k,
        decreases ks@.len() - i,
    {
        if ks[i] == k {
            return true;
        }
        i = i + 1;
    }
    false
}

fn kind_overridden(es: &Vec<RegEntry>, k: PacketKind) -> (r: bool)
    ensures
        r == has_kind(es@, k),
{
    let mut i: usize = 0;
    while i < es.len()
        invariant
            i <= es@.len(),
            forall|j: int| 0 <= j < i as int ==> es@[j].kind != k,
        decreases es@.len() - i,
    {
        if es[i].kind == k {
            return true;
        }
        i = i + 1;
    }
    false
}

/// Build one epoch's table from its predecessor's: inherited entries are
/// copied unchanged unless their kind is overridden or removed; an override
/// may change the opcode, the schema kind, or both. Fails fast exactly when
/// two entries of the composed table would share an opcode.
pub fn compose(base: &Vec<RegEntry>, overrides: &Vec<RegEntry>, removed: &Vec<PacketKind>) -> (r:
    Result<Vec<RegEntry>, RegistryError>)
    requires
        kinds_unique(base@),
        kinds_unique(overrides@),
    ensures
        match r {
            Ok(t) => opcodes_unique(t@) && kinds_unique(t@) && forall|e: RegEntry|
                #[trigger] t@.contains(e) <==> in_composed(base@, overrides@, removed@, e),
            Err(_) => exists|e1: RegEntry, e2: RegEntry|
                in_composed(base@, overrides@, removed@, e1) && in_composed(
                    base@,
                    overrides@,
                    removed@,
                    e2,
                ) && e1 != e2 && e1.opcode == e2.opcode,
        },
{
    let ghost bs = base@;
    let ghost os = overrides@;
    let ghost rs = removed@;
    let mut t: Vec<RegEntry> = Vec::new();
    let mut i: usize = 0;
    while i < base.len()
        invariant
            i <= bs.len(),
            bs == base@,
            os == overrides@,
            rs == removed@,
            kinds_unique(bs),
            kinds_unique(os),
            forall|e: RegEntry| #[trigger]
                t@.contains(e) <==> (bs.take(i as int).contains(e) && !rs.contains(e.kind)
                    && !has_kind(os, e.kind)),
            kinds_unique(t@),
        decreases bs.len() - i,
    {
        let e = base[i];
        if !kind_listed(removed, e.kind) && !kind_overridden(overrides, e.kind) {
            proof {
                assert forall|a: int| 0 <= a < t@.len() implies t@[a].kind != e.kind by {
                    if t@[a].kind == e.kind {
                        assert(t@.contains(t@[a]));
                        let x = choose|x: int|
                            0 <= x < i as int && bs.take(i as int)[x] == t@[a];
                        assert(bs[x] == t@[a]);
                        assert(bs[x].kind == bs[i as int].kind && x < i as int);
                    }
                }
            }
            let ghost tp = t@;
            t.push(e);
            proof {
                assert(t@ =~= tp.push(e));
                assert forall|x: RegEntry| #[trigger]
                    t@.contains(x) <==> (bs.take(i + 1).contains(x) && !rs.contains(x.kind)
                        && !has_kind(os, x.kind)) by {
                    assert(bs.take(i + 1) =~= bs.take(i as int).push(e));
                    if t@.contains(x) {
                        let a = choose|a: int| 0 <= a < t@.len() && #[trigger] t@[a] == x;
                        if a < t@.len() - 1 {
                            assert(tp[a] == x);
                            assert(tp.contains(x));
                            assert(bs.take(i as int).contains(x));
                            let c = choose|c: int|
                                0 <= c < i as int && #[trigger] bs.take(i as int)[c] == x;
                            assert(bs.take(i + 1)[c] == x);
                        } else {
                            assert(x == e);
                            assert(bs.take(i + 1)[i as int] == e);
                        }
                    }
                    if bs.take(i + 1).contains(x) && !rs.contains(x.kind) && !has_kind(
                        os,
                        x.kind,
                    ) {
                        let a = choose|a: int| 0 <= a < i + 1 && #[trigger] bs.take(i + 1)[a] == x;
                        if a < i as int {
                            assert(bs.take(i as int)[a] == x);
                            assert(bs.take(i as int).contains(x));
                            assert(tp.contains(x));
                            let c = choose|c: int| 0 <= c < tp.len() && #[trigger] tp[c] == x;
                            assert(t@[c] == x);
                        } else {
                            assert(x == e);
                            assert(t@[t@.len() - 1] == e);
                        }
                    }
                }
            }
        } else {
            proof {
                assert forall|x: RegEntry| #[trigger]
                    t@.contains(x) <==> (bs.take(i + 1).contains(x) && !rs.contains(x.kind)
                        && !has_kind(os, x.kind)) by {
                    assert(bs.take(i + 1) =~= bs.take(i as int).push(e));
                    if bs.take(i + 1).contains(x) && !rs.contains(x.kind) && !has_kind(
                        os,
                        x.kind,
                    ) {
                        let a = choose|a: int| 0 <= a < i + 1 && #[trigger] bs.take(i + 1)[a] == x;
                        assert(a < i as int);
                        assert(bs.take(i as int)[a] == x);
                        assert(bs.take(i as int).contains(x));
                    }
                }
            }
        }
        i = i + 1;
    }
    proof {
        assert(bs.take(bs.len() as int) =~= bs);
    }
    let ghost t0 = t@;
    let mut j: usize = 0;
    while j < overrides.len()
        invariant
            j <= os.len(),
            bs == base@,
            os == overrides@,
            rs == removed@,
            kinds_unique(os),
            forall|e: RegEntry| #[trigger]
                t0.contains(e) <==> (bs.contains(e) && !rs.contains(e.kind) && !has_kind(
                    os,
                    e.kind,
                )),
            kinds_unique(t0),
            t@.len() == t0.len() + j,
            forall|a: int| 0 <= a < t0.len() ==> t@[a] == t0[a],
            forall|a: int| 0 <= a < j as int ==> t@[t0.len() + a] == os[a],
            kinds_unique(t@),
        decreases os.len() - j,
    {
        proof {
            let e = os[j as int];
            assert forall|a: int| 0 <= a < t@.len() implies t@[a].kind != e.kind by {
                if t@[a].kind == e.kind {
                    if a < t0.len() {
                        assert(t0.contains(t0[a]));
                        assert(has_kind(os, t0[a].kind));
                    } else {
                        assert(t@[a] == os[a - t0.len()]);
                        assert(a - t0.len() < j as int);
                    }
                }
            }
        }
        t.push(overrides[j]);
        j = j + 1;
    }
    let ghost tf = t@;
    proof {
        assert forall|e: RegEntry| #[trigger]
            tf.contains(e) <==> in_composed(bs, os, rs, e) by {
            if tf.contains(e) {
                let a = choose|a: int| 0 <= a < tf.len() && tf[a] == e;
                if a < t0.len() {
                    assert(t0[a] == e);
                    assert(t0.contains(e));
                } else {
                    assert(os[a - t0.len()] == e);
                    assert(os.contains(e));
                }
            }
            if in_composed(bs, os, rs, e) {
                if os.contains(e) {
                    let a = choose|a: int| 0 <= a < os.len() && os[a] == e;
                    assert(tf[t0.len() + a] == e);
                } else {
                    assert(t0.contains(e));
                    let a = choose|a: int| 0 <= a < t0.len() && t0[a] == e;
                    assert(tf[a] == e);
                }
            }
        }
    }
    let mut a: usize = 0;
    while a < t.len()
        invariant
            a <= t@.len(),
            t@ == tf,
            bs == base@,
            os == overrides@,
            rs == removed@,
            kinds_unique(tf),
            forall|e: RegEntry| #[trigger] tf.contains(e) <==> in_composed(bs, os, rs, e),
            forall|x: int, y: int|
                0 <= x < y < tf.len() && x < a as int ==> tf[x].opcode != tf[y].opcode,
        decreases t@.len() - a,
    {
        let mut b: usize = a + 1;
        while b < t.len()
            invariant
                a < b <= t@.len() || (a as int + 1 == b as int && b as int >= t@.len()),
                a < t@.len(),
                t@ == tf,
                bs == base@,
                os == overrides@,
                rs == removed@,
                kinds_unique(tf),
                forall|e: RegEntry| #[trigger] tf.contains(e) <==> in_composed(bs, os, rs, e),
                forall|y: int| a < y < b as int ==> tf[a as int].opcode != tf[y].opcode,
            decreases t@.len() - b,
        {
            if t[a].opcode == t[b].opcode {
                proof {
                    let e1 = tf[a as int];
                    let e2 = tf[b as int];
                    assert(tf.contains(e1) && tf.contains(e2));
                    assert(in_composed(bs, os, rs, e1));
                    assert(in_composed(bs, os, rs, e2));
                    assert(e1.kind != e2.kind);
                    assert(e1 != e2);
                }
                return Err(RegistryError::DuplicateOpcode { opcode: t[a].opcode });
            }
            b = b + 1;
        }
        a = a + 1;
    }
    Ok(t)
}

/// The base epoch's server-bound entries.
pub open spec fn sb_base_entries() -> Seq<RegEntry> {
    seq![
        (RegEntry { opcode: 0x03, kind: PacketKind::SbChatMessage }),
        (RegEntry { opcode: 0x0F, kind: PacketKind::SbKeepAlive }),
        (RegEntry { opcode: 0x19, kind: PacketKind::SbAbilities }),
    ]
}

/// The base epoch's client-bound entries.
pub open spec fn cb_base_entries() -> Seq<RegEntry> {
    seq![
        (RegEntry { opcode: 0x0C, kind: PacketKind::CbBossBar }),
        (RegEntry { opcode: 0x0E, kind: PacketKind::CbChatMessage }),
        (RegEntry { opcode: 0x1A, kind: PacketKind::CbGameDisconnect }),
        (RegEntry { opcode: 0x1B, kind: PacketKind::CbEntityAction }),
        (RegEntry { opcode: 0x20, kind: PacketKind::CbKeepAlive }),
        (RegEntry { opcode: 0x21, kind: PacketKind::CbChunkData }),
        (RegEntry { opcode: 0x25, kind: PacketKind::CbJoinGame }),
    ]
}

/// The newer epoch's server-bound override set: one added packet.
pub open spec fn sb_override_entries() -> Seq<RegEntry> {
    seq![(RegEntry { opcode: 0x0A, kind: PacketKind::SbPluginMessage })]
}

/// The newer epoch's client-bound override set: two packets keep their
/// schema and move opcode, the rest are newly added.
pub open spec fn cb_override_entries() -> Seq<RegEntry> {
    seq![
        (RegEntry { opcode: 0x0D, kind: PacketKind::CbBossBar }),
        (RegEntry { opcode: 0x26, kind: PacketKind::CbJoinGame }),
        (RegEntry { opcode: 0x18, kind: PacketKind::CbPluginMessage }),
        (RegEntry { opcode: 0x19, kind: PacketKind::CbNamedSoundEffect }),
        (RegEntry { opcode: 0x38, kind: PacketKind::CbPlayerPositionAndLook }),
        (RegEntry { opcode: 0x3D, kind: PacketKind::CbRespawn }),
        (RegEntry { opcode: 0x4B, kind: PacketKind::CbSpawnPosition }),
        (RegEntry { opcode: 0x57, kind: PacketKind::CbSetTitleSubtitle }),
        (RegEntry { opcode: 0x58, kind: PacketKind::CbTimeUpdate }),
        (RegEntry { opcode: 0x59, kind: PacketKind::CbSetTitleText }),
        (RegEntry { opcode: 0x5A, kind: PacketKind::CbSetTitleTimes }),
    ]
}

fn sb_base() -> (r: Vec<RegEntry>)
    ensures
        r@ == sb_base_entries(),
{
    let mut v: Vec<RegEntry> = Vec::new();
    v.push(RegEntry { opcode: 0x03, kind: PacketKind::SbChatMessage });
    v.push(RegEntry { opcode: 0x0F, kind: PacketKind::SbKeepAlive });
    v.push(RegEntry { opcode: 0x19, kind: PacketKind::SbAbilities });
    proof {
        assert(v@ =~= sb_base_entries());
    }
    v
}

fn cb_base() -> (r: Vec<RegEntry>)
    ensures
        r@ == cb_base_entries(),
{
    let mut v: Vec<RegEntry> = Vec::new();
    v.push(RegEntry { opcode: 0x0C, kind: PacketKind::CbBossBar });
    v.push(RegEntry { opcode: 0x0E, kind: PacketKind::CbChatMessage });
    v.push(RegEntry { opcode: 0x1A, kind: PacketKind::CbGameDisconnect });
    v.push(RegEntry { opcode: 0x1B, kind: PacketKind::CbEntityAction });
    v.push(RegEntry { opcode: 0x20, kind: PacketKind::CbKeepAlive });
    v.push(RegEntry { opcode: 0x21, kind: PacketKind::CbChunkData });
    v.push(RegEntry { opcode: 0x25, kind: PacketKind::CbJoinGame });
    proof {
        assert(v@ =~= cb_base_entries());
    }
    v
}

fn sb_overrides() -> (r: Vec<RegEntry>)
    ensures
        r@ == sb_override_entries(),
{
    let mut v: Vec<RegEntry> = Vec::new();
    v.push(RegEntry { opcode: 0x0A, kind: PacketKind::SbPluginMessage });
    proof {
        assert(v@ =~= sb_override_entries());
    }
    v
}

fn cb_overrides() -> (r: Vec<RegEntry>)
    ensures
        r@ == cb_override_entries(),
{
    let mut v: Vec<RegEntry> = Vec::new();
    v.push(RegEntry { opcode: 0x0D, kind: PacketKind::CbBossBar });
    v.push(RegEntry { opcode: 0x26, kind: PacketKind::CbJoinGame });
    v.push(RegEntry { opcode: 0x18, kind: PacketKind::CbPluginMessage });
    v.push(RegEntry { opcode: 0x19, kind: PacketKind::CbNamedSoundEffect });
    v.push(RegEntry { opcode: 0x38, kind: PacketKind::CbPlayerPositionAndLook });
    v.push(RegEntry { opcode: 0x3D, kind: PacketKind::CbRespawn });
    v.push(RegEntry { opcode: 0x4B, kind: PacketKind::CbSpawnPosition });
    v.push(RegEntry { opcode: 0x57, kind: PacketKind::CbSetTitleSubtitle });
    v.push(RegEntry { opcode: 0x58, kind: PacketKind::CbTimeUpdate });
    v.push(RegEntry { opcode: 0x59, kind: PacketKind::CbSetTitleText });
    v.push(RegEntry { opcode: 0x5A, kind: PacketKind::CbSetTitleTimes });
    proof {
        assert(v@ =~= cb_override_entries());
    }
    v
}

/// The registry of one (epoch, direction): the first epoch is composed onto
/// an empty base, the next onto its predecessor's table. A successful build
/// is a bijection matching `lookup`.
#[verifier::rlimit(100)]
pub fn registry(epoch: Epoch, direction: Direction) -> (r: Result<Vec<RegEntry>, RegistryError>)
    ensures
        match r {
            Ok(t) => opcodes_unique(t@) && kinds_unique(t@) && forall|e: RegEntry|
                #[trigger] t@.contains(e) <==> lookup(epoch, direction, e.opcode) == Some(e.kind),
            Err(_) => false,
        },
{
    let empty: Vec<RegEntry> = Vec::new();
    let no_removals: Vec<PacketKind> = Vec::new();
    match (epoch, direction) {
        (Epoch::V1_14_4, Direction::ServerBound) => {
            let r = compose(&empty, &sb_base(), &no_removals);
            proof {
                lemma_sb_base_lookup();
                lemma_composed_conflict_free(
                    Epoch::V1_14_4,
                    Direction::ServerBound,
                    Seq::<RegEntry>::empty(),
                    sb_base_entries(),
                );
                if r is Err {
                    let (e1, e2) = choose|e1: RegEntry, e2: RegEntry|
                        in_composed(Seq::<RegEntry>::empty(), sb_base_entries(), Seq::<PacketKind>::empty(), e1) && in_composed(
                            Seq::<RegEntry>::empty(),
                            sb_base_entries(),
                            Seq::<PacketKind>::empty(),
                            e2,
                        ) && e1 != e2 && e1.opcode == e2.opcode;
                    assert(false);
                }
            }
            r
        },
        (Epoch::V1_14_4, Direction::ClientBound) => {
            let r = compose(&empty, &cb_base(), &no_removals);
            proof {
                lemma_cb_base_lookup();
                lemma_composed_conflict_free(
                    Epoch::V1_14_4,
                    Direction::ClientBound,
                    Seq::<RegEntry>::empty(),
                    cb_base_entries(),
                );
                if r is Err {
                    let (e1, e2) = choose|e1: RegEntry, e2: RegEntry|
                        in_composed(Seq::<RegEntry>::empty(), cb_base_entries(), Seq::<PacketKind>::empty(), e1) && in_composed(
                            Seq::<RegEntry>::empty(),
                            cb_base_entries(),
                            Seq::<PacketKind>::empty(),
                            e2,
                        ) && e1 != e2 && e1.opcode == e2.opcode;
                    assert(false);
                }
            }
            r
        },
        (Epoch::V1_17_1, Direction::ServerBound) => {
            let r = compose(&sb_base(), &sb_overrides(), &no_removals);
            proof {
                lemma_sb_v17_lookup();
                lemma_composed_conflict_free(
                    Epoch::V1_17_1,
                    Direction::ServerBound,
                    sb_base_entries(),
                    sb_override_entries(),
                );
                if r is Err {
                    let (e1, e2) = choose|e1: RegEntry, e2: RegEntry|
                        in_composed(sb_base_entries(), sb_override_entries(), Seq::<PacketKind>::empty(), e1) && in_composed(
                            sb_base_entries(),
                            sb_override_entries(),
                            Seq::<PacketKind>::empty(),
                            e2,
                        ) && e1 != e2 && e1.opcode == e2.opcode;
                    assert(false);
                }
            }
            r
        },
        (Epoch::V1_17_1, Direction::ClientBound) => {
            let r = compose(&cb_base(), &cb_overrides(), &no_removals);
            proof {
                lemma_cb_v17_lookup();
                lemma_composed_conflict_free(
                    Epoch::V1_17_1,
                    Direction::ClientBound,
                    cb_base_entries(),
                    cb_override_entries(),
                );
                if r is Err {
                    let (e1, e2) = choose|e1: RegEntry, e2: RegEntry|
                        in_composed(cb_base_entries(), cb_override_entries(), Seq::<PacketKind>::empty(), e1) && in_composed(
                            cb_base_entries(),
                            cb_override_entries(),
                            Seq::<PacketKind>::empty(),
                            e2,
                        ) && e1 != e2 && e1.opcode == e2.opcode;
                    assert(false);
                }
            }
            r
        },
    }
}

/// Tables matching a `lookup` function cannot conflict: one opcode in the
/// composition determines one entry.
proof fn lemma_composed_conflict_free(
    epoch: Epoch,
    direction: Direction,
    base: Seq<RegEntry>,
    ov: Seq<RegEntry>,
)
    requires
        forall|e: RegEntry|
            in_composed(base, ov, Seq::<PacketKind>::empty(), e) <==> lookup(
                epoch,
                direction,
                e.opcode,
            ) == Some(e.kind),
    ensures
        forall|e1: RegEntry, e2: RegEntry|
            (in_composed(base, ov, Seq::<PacketKind>::empty(), e1) && in_composed(
                base,
                ov,
                Seq::<PacketKind>::empty(),
                e2,
            ) && e1.opcode == e2.opcode) ==> e1 == e2,
{
    assert forall|e1: RegEntry, e2: RegEntry|
        (in_composed(base, ov, Seq::<PacketKind>::empty(), e1) && in_composed(
            base,
            ov,
            Seq::<PacketKind>::empty(),
            e2,
        ) && e1.opcode == e2.opcode) implies e1 == e2 by {
        assert(lookup(epoch, direction, e1.opcode) == Some(e1.kind));
        assert(lookup(epoch, direction, e2.opcode) == Some(e2.kind));
        assert(e1.kind == e2.kind);
    }
}

/// The composition rule on these tables agrees with `lookup`.
#[verifier::rlimit(100)]
proof fn lemma_sb_base_lookup()
    ensures
        forall|e: RegEntry|
            in_composed(Seq::<RegEntry>::empty(), sb_base_entries(), Seq::<PacketKind>::empty(), e) <==> lookup(
                Epoch::V1_14_4,
                Direction::ServerBound,
                e.opcode,
            ) == Some(e.kind),
{
    let base = Seq::<RegEntry>::empty();
    let ov = sb_base_entries();
    assert forall|e: RegEntry|
        in_composed(base, ov, Seq::<PacketKind>::empty(), e) <==> lookup(
            Epoch::V1_14_4,
            Direction::ServerBound,
            e.opcode,
        ) == Some(e.kind) by {
        if in_composed(base, ov, Seq::<PacketKind>::empty(), e) {
            if ov.contains(e) {
                let a = choose|a: int| 0 <= a < ov.len() && #[trigger] ov[a] == e;
                    if a == 0 {
                        assert(ov[0] == e);
                    }
                    if a == 1 {
                        assert(ov[1] == e);
                    }
                    if a == 2 {
                        assert(ov[2] == e);
                    }
            } else {
                let a = choose|a: int| 0 <= a < base.len() && #[trigger] base[a] == e;

            }
        }
        if lookup(Epoch::V1_14_4, Direction::ServerBound, e.opcode) == Some(e.kind) {
                if e.opcode == 0x03 {
                    assert(e == (RegEntry { opcode: 0x03, kind: PacketKind::SbChatMessage }));
                    assert(ov[0] == e);
                    assert(ov.contains(e));
                }
                if e.opcode == 0x0F {
                    assert(e == (RegEntry { opcode: 0x0F, kind: PacketKind::SbKeepAlive }));
                    assert(ov[1] == e);
                    assert(ov.contains(e));
                }
                if e.opcode == 0x19 {
                    assert(e == (RegEntry { opcode: 0x19, kind: PacketKind::SbAbilities }));
                    assert(ov[2] == e);
                    assert(ov.contains(e));
                }
        }
    }
}

/// The composition rule on these tables agrees with `lookup`.
#[verifier::rlimit(100)]
proof fn lemma_cb_base_lookup()
    ensures
        forall|e: RegEntry|
            in_composed(Seq::<RegEntry>::empty(), cb_base_entries(), Seq::<PacketKind>::empty(), e) <==> lookup(
                Epoch::V1_14_4,
                Direction::ClientBound,
                e.opcode,
            ) == Some(e.kind),
{
    let base = Seq::<RegEntry>::empty();
    let ov = cb_base_entries();
    assert forall|e: RegEntry|
        in_composed(base, ov, Seq::<PacketKind>::empty(), e) <==> lookup(
            Epoch::V1_14_4,
            Direction::ClientBound,
            e.opcode,
        ) == Some(e.kind) by {
        if in_composed(base, ov, Seq::<PacketKind>::empty(), e) {
            if ov.contains(e) {
                let a = choose|a: int| 0 <= a < ov.len() && #[trigger] ov[a] == e;
                    if a == 0 {
                        assert(ov[0] == e);
                    }
                    if a == 1 {
                        assert(ov[1] == e);
                    }
                    if a == 2 {
                        assert(ov[2] == e);
                    }
                    if a == 3 {
                        assert(ov[3] == e);
                    }
                    if a == 4 {
                        assert(ov[4] == e);
                    }
                    if a == 5 {
                        assert(ov[5] == e);
                    }
                    if a == 6 {
                        assert(ov[6] == e);
                    }
            } else {
                let a = choose|a: int| 0 <= a < base.len() && #[trigger] base[a] == e;

            }
        }
        if lookup(Epoch::V1_14_4, Direction::ClientBound, e.opcode) == Some(e.kind) {
                if e.opcode == 0x0C {
                    assert(e == (RegEntry { opcode: 0x0C, kind: PacketKind::CbBossBar }));
                    assert(ov[0] == e);
                    assert(ov.contains(e));
                }
                if e.opcode == 0x0E {
                    assert(e == (RegEntry { opcode: 0x0E, kind: PacketKind::CbChatMessage }));
                    assert(ov[1] == e);
                    assert(ov.contains(e));
                }
                if e.opcode == 0x1A {
                    assert(e == (RegEntry { opcode: 0x1A, kind: PacketKind::CbGameDisconnect }));
                    assert(ov[2] == e);
                    assert(ov.contains(e));
                }
                if e.opcode == 0x1B {
                    assert(e == (RegEntry { opcode: 0x1B, kind: PacketKind::CbEntityAction }));
                    assert(ov[3] == e);
                    assert(ov.contains(e));
                }
                if e.opcode == 0x20 {
                    assert(e == (RegEntry { opcode: 0x20, kind: PacketKind::CbKeepAlive }));
                    assert(ov[4] == e);
                    assert(ov.contains(e));
                }
                if e.opcode == 0x21 {
                    assert(e == (RegEntry { opcode: 0x21, kind: PacketKind::CbChunkData }));
                    assert(ov[5] == e);
                    assert(ov.contains(e));
                }
                if e.opcode == 0x25 {
                    assert(e == (RegEntry { opcode: 0x25, kind: PacketKind::CbJoinGame }));
                    assert(ov[6] == e);
                    assert(ov.contains(e));
                }
        }
    }
}

/// The composition rule on these tables agrees with `lookup`.
#[verifier::rlimit(100)]
proof fn lemma_sb_v17_lookup()
    ensures
        forall|e: RegEntry|
            in_composed(sb_base_entries(), sb_override_entries(), Seq::<PacketKind>::empty(), e) <==> lookup(
                Epoch::V1_17_1,
                Direction::ServerBound,
                e.opcode,
            ) == Some(e.kind),
{
    let base = sb_base_entries();
    let ov = sb_override_entries();
    assert forall|e: RegEntry|
        in_composed(base, ov, Seq::<PacketKind>::empty(), e) <==> lookup(
            Epoch::V1_17_1,
            Direction::ServerBound,
            e.opcode,
        ) == Some(e.kind) by {
        if in_composed(base, ov, Seq::<PacketKind>::empty(), e) {
            if ov.contains(e) {
                let a = choose|a: int| 0 <= a < ov.len() && #[trigger] ov[a] == e;
                    if a == 0 {
                        assert(ov[0] == e);
                    }
            } else {
                let a = choose|a: int| 0 <= a < base.len() && #[trigger] base[a] == e;
                    if a == 0 {
                        assert(base[0] == e);
                    }
                    if a == 1 {
                        assert(base[1] == e);
                    }
                    if a == 2 {
                        assert(base[2] == e);
                    }
            }
        }
        if lookup(Epoch::V1_17_1, Direction::ServerBound, e.opcode) == Some(e.kind) {
                if e.opcode == 0x0A {
                    assert(e == (RegEntry { opcode: 0x0A, kind: PacketKind::SbPluginMessage }));
                    assert(ov[0] == e);
                    assert(ov.contains(e));
                }
                if e.opcode == 0x03 {
                    assert(e == (RegEntry { opcode: 0x03, kind: PacketKind::SbChatMessage }));
                    assert(base[0] == e);
                    assert(base.contains(e));
                    assert(ov[0].kind != PacketKind::SbChatMessage);
                    assert(forall|i: int| 0 <= i < ov.len() ==> (#[trigger] ov[i]).kind != e.kind);
                    assert(!has_kind(ov, e.kind));
                }
                if e.opcode == 0x0F {
                    assert(e == (RegEntry { opcode: 0x0F, kind: PacketKind::SbKeepAlive }));
                    assert(base[1] == e);
                    assert(base.contains(e));
                    assert(ov[0].kind != PacketKind::SbKeepAlive);
                    assert(forall|i: int| 0 <= i < ov.len() ==> (#[trigger] ov[i]).kind != e.kind);
                    assert(!has_kind(ov, e.kind));
                }
                if e.opcode == 0x19 {
                    assert(e == (RegEntry { opcode: 0x19, kind: PacketKind::SbAbilities }));
                    assert(base[2] == e);
                    assert(base.contains(e));
                    assert(ov[0].kind != PacketKind::SbAbilities);
                    assert(forall|i: int| 0 <= i < ov.len() ==> (#[trigger] ov[i]).kind != e.kind);
                    assert(!has_kind(ov, e.kind));
                }
        }
    }
}

/// The composition rule on these tables agrees with `lookup`.
#[verifier::rlimit(100)]
proof fn lemma_cb_v17_lookup()
    ensures
        forall|e: RegEntry|
            in_composed(cb_base_entries(), cb_override_entries(), Seq::<PacketKind>::empty(), e) <==> lookup(
                Epoch::V1_17_1,
                Direction::ClientBound,
                e.opcode,
            ) == Some(e.kind),
{
    let base = cb_base_entries();
    let ov = cb_override_entries();
    assert forall|e: RegEntry|
        in_composed(base, ov, Seq::<PacketKind>::empty(), e) <==> lookup(
            Epoch::V1_17_1,
            Direction::ClientBound,
            e.opcode,
        ) == Some(e.kind) by {
        if in_composed(base, ov, Seq::<PacketKind>::empty(), e) {
            if ov.contains(e) {
                let a = choose|a: int| 0 <= a < ov.len() && #[trigger] ov[a] == e;
                    if a == 0 {
                        assert(ov[0] == e);
                    }
                    if a == 1 {
                        assert(ov[1] == e);
                    }
                    if a == 2 {
                        assert(ov[2] == e);
                    }
                    if a == 3 {
                        assert(ov[3] == e);
                    }
                    if a == 4 {
                        assert(ov[4] == e);
                    }
                    if a == 5 {
                        assert(ov[5] == e);
                    }
                    if a == 6 {
                        assert(ov[6] == e);
                    }
                    if a == 7 {
                        assert(ov[7] == e);
                    }
                    if a == 8 {
                        assert(ov[8] == e);
                    }
                    if a == 9 {
                        assert(ov[9] == e);
                    }
                    if a == 10 {
                        assert(ov[10] == e);
                    }
            } else {
                let a = choose|a: int| 0 <= a < base.len() && #[trigger] base[a] == e;
                    if a == 0 {
                        assert(ov[0].kind == e.kind);
                        assert(has_kind(ov, e.kind));
                        assert(false);
                    }
                    if a == 1 {
                        assert(base[1] == e);
                    }
                    if a == 2 {
                        assert(base[2] == e);
                    }
                    if a == 3 {
                        assert(base[3] == e);
                    }
                    if a == 4 {
                        assert(base[4] == e);
                    }
                    if a == 5 {
                        assert(base[5] == e);
                    }
                    if a == 6 {
                        assert(ov[1].kind == e.kind);
                        assert(has_kind(ov, e.kind));
                        assert(false);
                    }
            }
        }
        if lookup(Epoch::V1_17_1, Direction::ClientBound, e.opcode) == Some(e.kind) {
                if e.opcode == 0x0D {
                    assert(e == (RegEntry { opcode: 0x0D, kind: PacketKind::CbBossBar }));
                    assert(ov[0] == e);
                    assert(ov.contains(e));
                }
                if e.opcode == 0x26 {
                    assert(e == (RegEntry { opcode: 0x26, kind: PacketKind::CbJoinGame }));
                    assert(ov[1] == e);
                    assert(ov.contains(e));
                }
                if e.opcode == 0x18 {
                    assert(e == (RegEntry { opcode: 0x18, kind: PacketKind::CbPluginMessage }));
                    assert(ov[2] == e);
                    assert(ov.contains(e));
                }
                if e.opcode == 0x19 {
                    assert(e == (RegEntry { opcode: 0x19, kind: PacketKind::CbNamedSoundEffect }));
                    assert(ov[3] == e);
                    assert(ov.contains(e));
                }
                if e.opcode == 0x38 {
                    assert(e == (RegEntry { opcode: 0x38, kind: PacketKind::CbPlayerPositionAndLook }));
                    assert(ov[4] == e);
                    assert(ov.contains(e));
                }
                if e.opcode == 0x3D {
                    assert(e == (RegEntry { opcode: 0x3D, kind: PacketKind::CbRespawn }));
                    assert(ov[5] == e);
                    assert(ov.contains(e));
                }
                if e.opcode == 0x4B {
                    assert(e == (RegEntry { opcode: 0x4B, kind: PacketKind::CbSpawnPosition }));
                    assert(ov[6] == e);
                    assert(ov.contains(e));
                }
                if e.opcode == 0x57 {
                    assert(e == (RegEntry { opcode: 0x57, kind: PacketKind::CbSetTitleSubtitle }));
                    assert(ov[7] == e);
                    assert(ov.contains(e));
                }
                if e.opcode == 0x58 {
                    assert(e == (RegEntry { opcode: 0x58, kind: PacketKind::CbTimeUpdate }));
                    assert(ov[8] == e);
                    assert(ov.contains(e));
                }
                if e.opcode == 0x59 {
                    assert(e == (RegEntry { opcode: 0x59, kind: PacketKind::CbSetTitleText }));
                    assert(ov[9] == e);
                    assert(ov.contains(e));
                }
                if e.opcode == 0x5A {
                    assert(e == (RegEntry { opcode: 0x5A, kind: PacketKind::CbSetTitleTimes }));
                    assert(ov[10] == e);
                    assert(ov.contains(e));
                }
                if e.opcode == 0x0E {
                    assert(e == (RegEntry { opcode: 0x0E, kind: PacketKind::CbChatMessage }));
                    assert(base[1] == e);
                    assert(base.contains(e));
                    assert(ov[0].kind != PacketKind::CbChatMessage);
                    assert(ov[1].kind != PacketKind::CbChatMessage);
                    assert(ov[2].kind != PacketKind::CbChatMessage);
                    assert(ov[3].kind != PacketKind::CbChatMessage);
                    assert(ov[4].kind != PacketKind::CbChatMessage);
                    assert(ov[5].kind != PacketKind::CbChatMessage);
                    assert(ov[6].kind != PacketKind::CbChatMessage);
                    assert(ov[7].kind != PacketKind::CbChatMessage);
                    assert(ov[8].kind != PacketKind::CbChatMessage);
                    assert(ov[9].kind != PacketKind::CbChatMessage);
                    assert(ov[10].kind != PacketKind::CbChatMessage);
                    assert(forall|i: int| 0 <= i < ov.len() ==> (#[trigger] ov[i]).kind != e.kind);
                    assert(!has_kind(ov, e.kind));
                }
                if e.opcode == 0x1A {
                    assert(e == (RegEntry { opcode: 0x1A, kind: PacketKind::CbGameDisconnect }));
                    assert(base[2] == e);
                    assert(base.contains(e));
                    assert(ov[0].kind != PacketKind::CbGameDisconnect);
                    assert(ov[1].kind != PacketKind::CbGameDisconnect);
                    assert(ov[2].kind != PacketKind::CbGameDisconnect);
                    assert(ov[3].kind != PacketKind::CbGameDisconnect);
                    assert(ov[4].kind != PacketKind::CbGameDisconnect);
                    assert(ov[5].kind != PacketKind::CbGameDisconnect);
                    assert(ov[6].kind != PacketKind::CbGameDisconnect);
                    assert(ov[7].kind != PacketKind::CbGameDisconnect);
                    assert(ov[8].kind != PacketKind::CbGameDisconnect);
                    assert(ov[9].kind != PacketKind::CbGameDisconnect);
                    assert(ov[10].kind != PacketKind::CbGameDisconnect);
                    assert(forall|i: int| 0 <= i < ov.len() ==> (#[trigger] ov[i]).kind != e.kind);
                    assert(!has_kind(ov, e.kind));
                }
                if e.opcode == 0x1B {
                    assert(e == (RegEntry { opcode: 0x1B, kind: PacketKind::CbEntityAction }));
                    assert(base[3] == e);
                    assert(base.contains(e));
                    assert(ov[0].kind != PacketKind::CbEntityAction);
                    assert(ov[1].kind != PacketKind::CbEntityAction);
                    assert(ov[2].kind != PacketKind::CbEntityAction);
                    assert(ov[3].kind != PacketKind::CbEntityAction);
                    assert(ov[4].kind != PacketKind::CbEntityAction);
                    assert(ov[5].kind != PacketKind::CbEntityAction);
                    assert(ov[6].kind != PacketKind::CbEntityAction);
                    assert(ov[7].kind != PacketKind::CbEntityAction);
                    assert(ov[8].kind != PacketKind::CbEntityAction);
                    assert(ov[9].kind != PacketKind::CbEntityAction);
                    assert(ov[10].kind != PacketKind::CbEntityAction);
                    assert(forall|i: int| 0 <= i < ov.len() ==> (#[trigger] ov[i]).kind != e.kind);
                    assert(!has_kind(ov, e.kind));
                }
                if e.opcode == 0x20 {
                    assert(e == (RegEntry { opcode: 0x20, kind: PacketKind::CbKeepAlive }));
                    assert(base[4] == e);
                    assert(base.contains(e));
                    assert(ov[0].kind != PacketKind::CbKeepAlive);
                    assert(ov[1].kind != PacketKind::CbKeepAlive);
                    assert(ov[2].kind != PacketKind::CbKeepAlive);
                    assert(ov[3].kind != PacketKind::CbKeepAlive);
                    assert(ov[4].kind != PacketKind::CbKeepAlive);
                    assert(ov[5].kind != PacketKind::CbKeepAlive);
                    assert(ov[6].kind != PacketKind::CbKeepAlive);
                    assert(ov[7].kind != PacketKind::CbKeepAlive);
                    assert(ov[8].kind != PacketKind::CbKeepAlive);
                    assert(ov[9].kind != PacketKind::CbKeepAlive);
                    assert(ov[10].kind != PacketKind::CbKeepAlive);
                    assert(forall|i: int| 0 <= i < ov.len() ==> (#[trigger] ov[i]).kind != e.kind);
                    assert(!has_kind(ov, e.kind));
                }
                if e.opcode == 0x21 {
                    assert(e == (RegEntry { opcode: 0x21, kind: PacketKind::CbChunkData }));
                    assert(base[5] == e);
                    assert(base.contains(e));
                    assert(ov[0].kind != PacketKind::CbChunkData);
                    assert(ov[1].kind != PacketKind::CbChunkData);
                    assert(ov[2].kind != PacketKind::CbChunkData);
                    assert(ov[3].kind != PacketKind::CbChunkData);
                    assert(ov[4].kind != PacketKind::CbChunkData);
                    assert(ov[5].kind != PacketKind::CbChunkData);
                    assert(ov[6].kind != PacketKind::CbChunkData);
                    assert(ov[7].kind != PacketKind::CbChunkData);
                    assert(ov[8].kind != PacketKind::CbChunkData);
                    assert(ov[9].kind != PacketKind::CbChunkData);
                    assert(ov[10].kind != PacketKind::CbChunkData);
                    assert(forall|i: int| 0 <= i < ov.len() ==> (#[trigger] ov[i]).kind != e.kind);
                    assert(!has_kind(ov, e.kind));
                }
        }
    }
}

} // verus!
