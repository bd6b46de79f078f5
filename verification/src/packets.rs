use vstd::prelude::*;
use crate::error::{DecodeError, EncodeError};
use crate::fields::{
    decode_fields, encode_fields, fields_bytes, fields_err, fields_ok, fields_parse, fv_like,
    kind_matches, lemma_fields_parse_ok, lemma_fvs_like, FieldKind, FieldValue,
};
use vstd::pervasive::unreached;

verus! {

/// A chat line sent by the client: one bounded string.
#[derive(Debug, Clone, PartialEq)]
pub struct ServerBoundChatMessage {
    pub message: String,
}

impl ServerBoundChatMessage {
    /// The field schema, in wire order.
    pub open spec fn spec_kinds() -> Seq<FieldKind> {
        seq![FieldKind::Str { max: 256 }]
    }

    /// The packet's field values, in wire order.
    pub open spec fn spec_fields(self) -> Seq<FieldValue> {
        seq![FieldValue::Str(self.message)]
    }

    /// The packet's exact payload encoding.
    pub open spec fn spec_bytes(self) -> Seq<u8> {
        fields_bytes(self.spec_fields())
    }

    /// Every field bound holds, so the packet encodes.
    pub open spec fn enc_ok(self) -> bool {
        fields_ok(Self::spec_kinds(), self.spec_fields())
    }

    /// This packet is what the first `end` bytes of `b` hold.
    pub open spec fn parses(self, b: Seq<u8>, end: int) -> bool {
        fields_parse(b, 0, end, Self::spec_kinds(), self.spec_fields())
    }

    fn kinds() -> (r: Vec<FieldKind>)
        ensures
            r@ == Self::spec_kinds(),
    {
        let mut v: Vec<FieldKind> = Vec::new();
        v.push(FieldKind::Str { max: 256 });
        proof {
            assert(v@ =~= Self::spec_kinds());
        }
        v
    }

    /// Decode one payload, strictly in declared field order, returning the
    /// packet and the count of bytes it consumed; bytes past the packet are
    /// left to the caller. Succeeds exactly when a well-formed payload
    /// stands at the front of the buffer, and otherwise returns the exact
    /// failure of the first field that does not stand.
    pub fn decode(bytes: &[u8]) -> (r: Result<(Self, usize), DecodeError>)
        ensures
            match r {
                Ok((p, n)) => n <= bytes@.len() && p.parses(bytes@, n as int),
                Err(e) => fields_err(bytes@, 0, Self::spec_kinds()) == Some(e) && !(e matches
                    DecodeError::UnknownPacketType { .. }) && forall|p: Self, end: int|
                    !p.parses(bytes@, end),
            },
    {
        let kinds = Self::kinds();
        let (mut vs, end) = match decode_fields(bytes, &kinds, 0) {
            Ok(x) => x,
            Err(e) => {
                return Err(e);
            },
        };
        proof {
            lemma_fields_parse_ok(bytes@, 0, end as int, kinds@, vs@);
        }
        let ghost all = vs@;
        let message: String = match vs.pop().unwrap() {
            FieldValue::Str(x) => x,
            _ => unreached(),
        };
        let p = ServerBoundChatMessage { message };
        proof {
            assert(p.spec_fields() =~= all);
        }
        Ok((p, end))
    }

    /// Encode the payload, refusing a value that breaks a field bound and
    /// then leaving the output untouched.
    pub fn encode(&self, out: &mut Vec<u8>) -> (r: Result<(), EncodeError>)
        ensures
            match r {
                Ok(()) => final(out)@ == old(out)@ + self.spec_bytes() && self.enc_ok(),
                Err(_) => final(out)@ == old(out)@ && !self.enc_ok(),
            },
    {
        let kinds = Self::kinds();
        let mut vals: Vec<FieldValue> = Vec::new();
        vals.push(FieldValue::Str(self.message.clone()));
        proof {
            assert forall|i: int|
                0 <= i < vals@.len() implies fv_like(#[trigger] vals@[i], self.spec_fields()[i]) by {}
            lemma_fvs_like(kinds@, vals@, self.spec_fields());
        }
        encode_fields(&kinds, &vals, out)
    }
}

/// A named channel and its raw payload, the payload running to the end of the buffer.
#[derive(Debug, Clone, PartialEq)]
pub struct ServerBoundPluginMessage {
    pub channel: String,
    pub data: Vec<u8>,
}

impl ServerBoundPluginMessage {
    /// The field schema, in wire order.
    pub open spec fn spec_kinds() -> Seq<FieldKind> {
        seq![FieldKind::Str { max: 32767 }, FieldKind::RemBlob]
    }

    /// The packet's field values, in wire order.
    pub open spec fn spec_fields(self) -> Seq<FieldValue> {
        seq![FieldValue::Str(self.channel), FieldValue::RemBlob(self.data)]
    }

    /// The packet's exact payload encoding.
    pub open spec fn spec_bytes(self) -> Seq<u8> {
        fields_bytes(self.spec_fields())
    }

    /// Every field bound holds, so the packet encodes.
    pub open spec fn enc_ok(self) -> bool {
        fields_ok(Self::spec_kinds(), self.spec_fields())
    }

    /// This packet is what the first `end` bytes of `b` hold.
    pub open spec fn parses(self, b: Seq<u8>, end: int) -> bool {
        fields_parse(b, 0, end, Self::spec_kinds(), self.spec_fields())
    }

    fn kinds() -> (r: Vec<FieldKind>)
        ensures
            r@ == Self::spec_kinds(),
    {
        let mut v: Vec<FieldKind> = Vec::new();
        v.push(FieldKind::Str { max: 32767 });
        v.push(FieldKind::RemBlob);
        proof {
            assert(v@ =~= Self::spec_kinds());
        }
        v
    }

    /// Decode one payload, strictly in declared field order, returning the
    /// packet and the count of bytes it consumed; bytes past the packet are
    /// left to the caller. Succeeds exactly when a well-formed payload
    /// stands at the front of the buffer, and otherwise returns the exact
    /// failure of the first field that does not stand.
    pub fn decode(bytes: &[u8]) -> (r: Result<(Self, usize), DecodeError>)
        ensures
            match r {
                Ok((p, n)) => n <= bytes@.len() && p.parses(bytes@, n as int),
                Err(e) => fields_err(bytes@, 0, Self::spec_kinds()) == Some(e) && !(e matches
                    DecodeError::UnknownPacketType { .. }) && forall|p: Self, end: int|
                    !p.parses(bytes@, end),
            },
    {
        let kinds = Self::kinds();
        let (mut vs, end) = match decode_fields(bytes, &kinds, 0) {
            Ok(x) => x,
            Err(e) => {
                return Err(e);
            },
        };
        proof {
            lemma_fields_parse_ok(bytes@, 0, end as int, kinds@, vs@);
        }
        let ghost all = vs@;
        let data: Vec<u8> = match vs.pop().unwrap() {
            FieldValue::RemBlob(x) => x,
            _ => unreached(),
        };
        let channel: String = match vs.pop().unwrap() {
            FieldValue::Str(x) => x,
            _ => unreached(),
        };
        let p = ServerBoundPluginMessage { channel, data };
        proof {
            assert(p.spec_fields() =~= all);
        }
        Ok((p, end))
    }

    /// Encode the payload, refusing a value that breaks a field bound and
    /// then leaving the output untouched.
    pub fn encode(&self, out: &mut Vec<u8>) -> (r: Result<(), EncodeError>)
        ensures
            match r {
                Ok(()) => final(out)@ == old(out)@ + self.spec_bytes() && self.enc_ok(),
                Err(_) => final(out)@ == old(out)@ && !self.enc_ok(),
            },
    {
        let kinds = Self::kinds();
        let mut vals: Vec<FieldValue> = Vec::new();
        vals.push(FieldValue::Str(self.channel.clone()));
        vals.push(FieldValue::RemBlob(self.data.clone()));
        proof {
            assert forall|i: int|
                0 <= i < vals@.len() implies fv_like(#[trigger] vals@[i], self.spec_fields()[i]) by {}
            lemma_fvs_like(kinds@, vals@, self.spec_fields());
        }
        encode_fields(&kinds, &vals, out)
    }
}

/// The keep-alive token echoed by the client.
#[derive(Debug, Clone, PartialEq)]
pub struct ServerBoundKeepAlive {
    pub id: u64,
}

impl ServerBoundKeepAlive {
    /// The field schema, in wire order.
    pub open spec fn spec_kinds() -> Seq<FieldKind> {
        seq![FieldKind::U64]
    }

    /// The packet's field values, in wire order.
    pub open spec fn spec_fields(self) -> Seq<FieldValue> {
        seq![FieldValue::U64(self.id)]
    }

    /// The packet's exact payload encoding.
    pub open spec fn spec_bytes(self) -> Seq<u8> {
        fields_bytes(self.spec_fields())
    }

    /// Every field bound holds, so the packet encodes.
    pub open spec fn enc_ok(self) -> bool {
        fields_ok(Self::spec_kinds(), self.spec_fields())
    }

    /// This packet is what the first `end` bytes of `b` hold.
    pub open spec fn parses(self, b: Seq<u8>, end: int) -> bool {
        fields_parse(b, 0, end, Self::spec_kinds(), self.spec_fields())
    }

    fn kinds() -> (r: Vec<FieldKind>)
        ensures
            r@ == Self::spec_kinds(),
    {
        let mut v: Vec<FieldKind> = Vec::new();
        v.push(FieldKind::U64);
        proof {
            assert(v@ =~= Self::spec_kinds());
        }
        v
    }

    /// Decode one payload, strictly in declared field order, returning the
    /// packet and the count of bytes it consumed; bytes past the packet are
    /// left to the caller. Succeeds exactly when a well-formed payload
    /// stands at the front of the buffer, and otherwise returns the exact
    /// failure of the first field that does not stand.
    pub fn decode(bytes: &[u8]) -> (r: Result<(Self, usize), DecodeError>)
        ensures
            match r {
                Ok((p, n)) => n <= bytes@.len() && p.parses(bytes@, n as int),
                Err(e) => fields_err(bytes@, 0, Self::spec_kinds()) == Some(e) && !(e matches
                    DecodeError::UnknownPacketType { .. }) && forall|p: Self, end: int|
                    !p.parses(bytes@, end),
            },
    {
        let kinds = Self::kinds();
        let (mut vs, end) = match decode_fields(bytes, &kinds, 0) {
            Ok(x) => x,
            Err(e) => {
                return Err(e);
            },
        };
        proof {
            lemma_fields_parse_ok(bytes@, 0, end as int, kinds@, vs@);
        }
        let ghost all = vs@;
        let id: u64 = match vs.pop().unwrap() {
            FieldValue::U64(x) => x,
            _ => unreached(),
        };
        let p = ServerBoundKeepAlive { id };
        proof {
            assert(p.spec_fields() =~= all);
        }
        Ok((p, end))
    }

    /// Encode the payload, refusing a value that breaks a field bound and
    /// then leaving the output untouched.
    pub fn encode(&self, out: &mut Vec<u8>) -> (r: Result<(), EncodeError>)
        ensures
            match r {
                Ok(()) => final(out)@ == old(out)@ + self.spec_bytes() && self.enc_ok(),
                Err(_) => final(out)@ == old(out)@ && !self.enc_ok(),
            },
    {
        let kinds = Self::kinds();
        let mut vals: Vec<FieldValue> = Vec::new();
        vals.push(FieldValue::U64(self.id));
        proof {
            assert forall|i: int|
                0 <= i < vals@.len() implies fv_like(#[trigger] vals@[i], self.spec_fields()[i]) by {}
            lemma_fvs_like(kinds@, vals@, self.spec_fields());
        }
        encode_fields(&kinds, &vals, out)
    }
}

/// The client's ability flags.
#[derive(Debug, Clone, PartialEq)]
pub struct ServerBoundAbilities {
    pub flags: u8,
}

impl ServerBoundAbilities {
    /// The field schema, in wire order.
    pub open spec fn spec_kinds() -> Seq<FieldKind> {
        seq![FieldKind::U8]
    }

    /// The packet's field values, in wire order.
    pub open spec fn spec_fields(self) -> Seq<FieldValue> {
        seq![FieldValue::U8(self.flags)]
    }

    /// The packet's exact payload encoding.
    pub open spec fn spec_bytes(self) -> Seq<u8> {
        fields_bytes(self.spec_fields())
    }

    /// Every field bound holds, so the packet encodes.
    pub open spec fn enc_ok(self) -> bool {
        fields_ok(Self::spec_kinds(), self.spec_fields())
    }

    /// This packet is what the first `end` bytes of `b` hold.
    pub open spec fn parses(self, b: Seq<u8>, end: int) -> bool {
        fields_parse(b, 0, end, Self::spec_kinds(), self.spec_fields())
    }

    fn kinds() -> (r: Vec<FieldKind>)
        ensures
            r@ == Self::spec_kinds(),
    {
        let mut v: Vec<FieldKind> = Vec::new();
        v.push(FieldKind::U8);
        proof {
            assert(v@ =~= Self::spec_kinds());
        }
        v
    }

    /// Decode one payload, strictly in declared field order, returning the
    /// packet and the count of bytes it consumed; bytes past the packet are
    /// left to the caller. Succeeds exactly when a well-formed payload
    /// stands at the front of the buffer, and otherwise returns the exact
    /// failure of the first field that does not stand.
    pub fn decode(bytes: &[u8]) -> (r: Result<(Self, usize), DecodeError>)
        ensures
            match r {
                Ok((p, n)) => n <= bytes@.len() && p.parses(bytes@, n as int),
                Err(e) => fields_err(bytes@, 0, Self::spec_kinds()) == Some(e) && !(e matches
                    DecodeError::UnknownPacketType { .. }) && forall|p: Self, end: int|
                    !p.parses(bytes@, end),
            },
    {
        let kinds = Self::kinds();
        let (mut vs, end) = match decode_fields(bytes, &kinds, 0) {
            Ok(x) => x,
            Err(e) => {
                return Err(e);
            },
        };
        proof {
            lemma_fields_parse_ok(bytes@, 0, end as int, kinds@, vs@);
        }
        let ghost all = vs@;
        let flags: u8 = match vs.pop().unwrap() {
            FieldValue::U8(x) => x,
            _ => unreached(),
        };
        let p = ServerBoundAbilities { flags };
        proof {
            assert(p.spec_fields() =~= all);
        }
        Ok((p, end))
    }

    /// Encode the payload, refusing a value that breaks a field bound and
    /// then leaving the output untouched.
    pub fn encode(&self, out: &mut Vec<u8>) -> (r: Result<(), EncodeError>)
        ensures
            match r {
                Ok(()) => final(out)@ == old(out)@ + self.spec_bytes() && self.enc_ok(),
                Err(_) => final(out)@ == old(out)@ && !self.enc_ok(),
            },
    {
        let kinds = Self::kinds();
        let mut vals: Vec<FieldValue> = Vec::new();
        vals.push(FieldValue::U8(self.flags));
        proof {
            assert forall|i: int|
                0 <= i < vals@.len() implies fv_like(#[trigger] vals@[i], self.spec_fields()[i]) by {}
            lemma_fvs_like(kinds@, vals@, self.spec_fields());
        }
        encode_fields(&kinds, &vals, out)
    }
}

/// A chat message pushed to the client: its text and the display position byte.
#[derive(Debug, Clone, PartialEq)]
pub struct ClientBoundChatMessage {
    pub message: String,
    pub position: u8,
}

impl ClientBoundChatMessage {
    /// The field schema, in wire order.
    pub open spec fn spec_kinds() -> Seq<FieldKind> {
        seq![FieldKind::Str { max: 32767 }, FieldKind::U8]
    }

    /// The packet's field values, in wire order.
    pub open spec fn spec_fields(self) -> Seq<FieldValue> {
        seq![FieldValue::Str(self.message), FieldValue::U8(self.position)]
    }

    /// The packet's exact payload encoding.
    pub open spec fn spec_bytes(self) -> Seq<u8> {
        fields_bytes(self.spec_fields())
    }

    /// Every field bound holds, so the packet encodes.
    pub open spec fn enc_ok(self) -> bool {
        fields_ok(Self::spec_kinds(), self.spec_fields())
    }

    /// This packet is what the first `end` bytes of `b` hold.
    pub open spec fn parses(self, b: Seq<u8>, end: int) -> bool {
        fields_parse(b, 0, end, Self::spec_kinds(), self.spec_fields())
    }

    fn kinds() -> (r: Vec<FieldKind>)
        ensures
            r@ == Self::spec_kinds(),
    {
        let mut v: Vec<FieldKind> = Vec::new();
        v.push(FieldKind::Str { max: 32767 });
        v.push(FieldKind::U8);
        proof {
            assert(v@ =~= Self::spec_kinds());
        }
        v
    }

    /// Decode one payload, strictly in declared field order, returning the
    /// packet and the count of bytes it consumed; bytes past the packet are
    /// left to the caller. Succeeds exactly when a well-formed payload
    /// stands at the front of the buffer, and otherwise returns the exact
    /// failure of the first field that does not stand.
    pub fn decode(bytes: &[u8]) -> (r: Result<(Self, usize), DecodeError>)
        ensures
            match r {
                Ok((p, n)) => n <= bytes@.len() && p.parses(bytes@, n as int),
                Err(e) => fields_err(bytes@, 0, Self::spec_kinds()) == Some(e) && !(e matches
                    DecodeError::UnknownPacketType { .. }) && forall|p: Self, end: int|
                    !p.parses(bytes@, end),
            },
    {
        let kinds = Self::kinds();
        let (mut vs, end) = match decode_fields(bytes, &kinds, 0) {
            Ok(x) => x,
            Err(e) => {
                return Err(e);
            },
        };
        proof {
            lemma_fields_parse_ok(bytes@, 0, end as int, kinds@, vs@);
        }
        let ghost all = vs@;
        let position: u8 = match vs.pop().unwrap() {
            FieldValue::U8(x) => x,
            _ => unreached(),
        };
        let message: String = match vs.pop().unwrap() {
            FieldValue::Str(x) => x,
            _ => unreached(),
        };
        let p = ClientBoundChatMessage { message, position };
        proof {
            assert(p.spec_fields() =~= all);
        }
        Ok((p, end))
    }

    /// Encode the payload, refusing a value that breaks a field bound and
    /// then leaving the output untouched.
    pub fn encode(&self, out: &mut Vec<u8>) -> (r: Result<(), EncodeError>)
        ensures
            match r {
                Ok(()) => final(out)@ == old(out)@ + self.spec_bytes() && self.enc_ok(),
                Err(_) => final(out)@ == old(out)@ && !self.enc_ok(),
            },
    {
        let kinds = Self::kinds();
        let mut vals: Vec<FieldValue> = Vec::new();
        vals.push(FieldValue::Str(self.message.clone()));
        vals.push(FieldValue::U8(self.position));
        proof {
            assert forall|i: int|
                0 <= i < vals@.len() implies fv_like(#[trigger] vals@[i], self.spec_fields()[i]) by {}
            lemma_fvs_like(kinds@, vals@, self.spec_fields());
        }
        encode_fields(&kinds, &vals, out)
    }
}

/// A named channel and its raw payload, the payload running to the end of the buffer.
#[derive(Debug, Clone, PartialEq)]
pub struct ClientBoundPluginMessage {
    pub channel: String,
    pub data: Vec<u8>,
}

impl ClientBoundPluginMessage {
    /// The field schema, in wire order.
    pub open spec fn spec_kinds() -> Seq<FieldKind> {
        seq![FieldKind::Str { max: 32767 }, FieldKind::RemBlob]
    }

    /// The packet's field values, in wire order.
    pub open spec fn spec_fields(self) -> Seq<FieldValue> {
        seq![FieldValue::Str(self.channel), FieldValue::RemBlob(self.data)]
    }

    /// The packet's exact payload encoding.
    pub open spec fn spec_bytes(self) -> Seq<u8> {
        fields_bytes(self.spec_fields())
    }

    /// Every field bound holds, so the packet encodes.
    pub open spec fn enc_ok(self) -> bool {
        fields_ok(Self::spec_kinds(), self.spec_fields())
    }

    /// This packet is what the first `end` bytes of `b` hold.
    pub open spec fn parses(self, b: Seq<u8>, end: int) -> bool {
        fields_parse(b, 0, end, Self::spec_kinds(), self.spec_fields())
    }

    fn kinds() -> (r: Vec<FieldKind>)
        ensures
            r@ == Self::spec_kinds(),
    {
        let mut v: Vec<FieldKind> = Vec::new();
        v.push(FieldKind::Str { max: 32767 });
        v.push(FieldKind::RemBlob);
        proof {
            assert(v@ =~= Self::spec_kinds());
        }
        v
    }

    /// Decode one payload, strictly in declared field order, returning the
    /// packet and the count of bytes it consumed; bytes past the packet are
    /// left to the caller. Succeeds exactly when a well-formed payload
    /// stands at the front of the buffer, and otherwise returns the exact
    /// failure of the first field that does not stand.
    pub fn decode(bytes: &[u8]) -> (r: Result<(Self, usize), DecodeError>)
        ensures
            match r {
                Ok((p, n)) => n <= bytes@.len() && p.parses(bytes@, n as int),
                Err(e) => fields_err(bytes@, 0, Self::spec_kinds()) == Some(e) && !(e matches
                    DecodeError::UnknownPacketType { .. }) && forall|p: Self, end: int|
                    !p.parses(bytes@, end),
            },
    {
        let kinds = Self::kinds();
        let (mut vs, end) = match decode_fields(bytes, &kinds, 0) {
            Ok(x) => x,
            Err(e) => {
                return Err(e);
            },
        };
        proof {
            lemma_fields_parse_ok(bytes@, 0, end as int, kinds@, vs@);
        }
        let ghost all = vs@;
        let data: Vec<u8> = match vs.pop().unwrap() {
            FieldValue::RemBlob(x) => x,
            _ => unreached(),
        };
        let channel: String = match vs.pop().unwrap() {
            FieldValue::Str(x) => x,
            _ => unreached(),
        };
        let p = ClientBoundPluginMessage { channel, data };
        proof {
            assert(p.spec_fields() =~= all);
        }
        Ok((p, end))
    }

    /// Encode the payload, refusing a value that breaks a field bound and
    /// then leaving the output untouched.
    pub fn encode(&self, out: &mut Vec<u8>) -> (r: Result<(), EncodeError>)
        ensures
            match r {
                Ok(()) => final(out)@ == old(out)@ + self.spec_bytes() && self.enc_ok(),
                Err(_) => final(out)@ == old(out)@ && !self.enc_ok(),
            },
    {
        let kinds = Self::kinds();
        let mut vals: Vec<FieldValue> = Vec::new();
        vals.push(FieldValue::Str(self.channel.clone()));
        vals.push(FieldValue::RemBlob(self.data.clone()));
        proof {
            assert forall|i: int|
                0 <= i < vals@.len() implies fv_like(#[trigger] vals@[i], self.spec_fields()[i]) by {}
            lemma_fvs_like(kinds@, vals@, self.spec_fields());
        }
        encode_fields(&kinds, &vals, out)
    }
}

/// A named sound with its category, fixed-point position (eighths of a block), and float volume and pitch carried as bit patterns.
#[derive(Debug, Clone, PartialEq)]
pub struct NamedSoundEffect {
    pub sound_name: String,
    pub sound_category: i32,
    pub effect_pos_x: i32,
    pub effect_pos_y: i32,
    pub effect_pos_z: i32,
    pub volume: u32,
    pub pitch: u32,
}

impl NamedSoundEffect {
    /// The field schema, in wire order.
    pub open spec fn spec_kinds() -> Seq<FieldKind> {
        seq![FieldKind::Str { max: 32767 }, FieldKind::VarInt, FieldKind::I32, FieldKind::I32, FieldKind::I32, FieldKind::F32Bits, FieldKind::F32Bits]
    }

    /// The packet's field values, in wire order.
    pub open spec fn spec_fields(self) -> Seq<FieldValue> {
        seq![FieldValue::Str(self.sound_name), FieldValue::VarInt(self.sound_category), FieldValue::I32(self.effect_pos_x), FieldValue::I32(self.effect_pos_y), FieldValue::I32(self.effect_pos_z), FieldValue::F32Bits(self.volume), FieldValue::F32Bits(self.pitch)]
    }

    /// The packet's exact payload encoding.
    pub open spec fn spec_bytes(self) -> Seq<u8> {
        fields_bytes(self.spec_fields())
    }

    /// Every field bound holds, so the packet encodes.
    pub open spec fn enc_ok(self) -> bool {
        fields_ok(Self::spec_kinds(), self.spec_fields())
    }

    /// This packet is what the first `end` bytes of `b` hold.
    pub open spec fn parses(self, b: Seq<u8>, end: int) -> bool {
        fields_parse(b, 0, end, Self::spec_kinds(), self.spec_fields())
    }

    fn kinds() -> (r: Vec<FieldKind>)
        ensures
            r@ == Self::spec_kinds(),
    {
        let mut v: Vec<FieldKind> = Vec::new();
        v.push(FieldKind::Str { max: 32767 });
        v.push(FieldKind::VarInt);
        v.push(FieldKind::I32);
        v.push(FieldKind::I32);
        v.push(FieldKind::I32);
        v.push(FieldKind::F32Bits);
        v.push(FieldKind::F32Bits);
        proof {
            assert(v@ =~= Self::spec_kinds());
        }
        v
    }

    /// Decode one payload, strictly in declared field order, returning the
    /// packet and the count of bytes it consumed; bytes past the packet are
    /// left to the caller. Succeeds exactly when a well-formed payload
    /// stands at the front of the buffer, and otherwise returns the exact
    /// failure of the first field that does not stand.
    pub fn decode(bytes: &[u8]) -> (r: Result<(Self, usize), DecodeError>)
        ensures
            match r {
                Ok((p, n)) => n <= bytes@.len() && p.parses(bytes@, n as int),
                Err(e) => fields_err(bytes@, 0, Self::spec_kinds()) == Some(e) && !(e matches
                    DecodeError::UnknownPacketType { .. }) && forall|p: Self, end: int|
                    !p.parses(bytes@, end),
            },
    {
        let kinds = Self::kinds();
        let (mut vs, end) = match decode_fields(bytes, &kinds, 0) {
            Ok(x) => x,
            Err(e) => {
                return Err(e);
            },
        };
        proof {
            lemma_fields_parse_ok(bytes@, 0, end as int, kinds@, vs@);
        }
        let ghost all = vs@;
        let pitch: u32 = match vs.pop().unwrap() {
            FieldValue::F32Bits(x) => x,
            _ => unreached(),
        };
        let volume: u32 = match vs.pop().unwrap() {
            FieldValue::F32Bits(x) => x,
            _ => unreached(),
        };
        let effect_pos_z: i32 = match vs.pop().unwrap() {
            FieldValue::I32(x) => x,
            _ => unreached(),
        };
        let effect_pos_y: i32 = match vs.pop().unwrap() {
            FieldValue::I32(x) => x,
            _ => unreached(),
        };
        let effect_pos_x: i32 = match vs.pop().unwrap() {
            FieldValue::I32(x) => x,
            _ => unreached(),
        };
        let sound_category: i32 = match vs.pop().unwrap() {
            FieldValue::VarInt(x) => x,
            _ => unreached(),
        };
        let sound_name: String = match vs.pop().unwrap() {
            FieldValue::Str(x) => x,
            _ => unreached(),
        };
        let p = NamedSoundEffect { sound_name, sound_category, effect_pos_x, effect_pos_y, effect_pos_z, volume, pitch };
        proof {
            assert(p.spec_fields() =~= all);
        }
        Ok((p, end))
    }

    /// Encode the payload, refusing a value that breaks a field bound and
    /// then leaving the output untouched.
    pub fn encode(&self, out: &mut Vec<u8>) -> (r: Result<(), EncodeError>)
        ensures
            match r {
                Ok(()) => final(out)@ == old(out)@ + self.spec_bytes() && self.enc_ok(),
                Err(_) => final(out)@ == old(out)@ && !self.enc_ok(),
            },
    {
        let kinds = Self::kinds();
        let mut vals: Vec<FieldValue> = Vec::new();
        vals.push(FieldValue::Str(self.sound_name.clone()));
        vals.push(FieldValue::VarInt(self.sound_category));
        vals.push(FieldValue::I32(self.effect_pos_x));
        vals.push(FieldValue::I32(self.effect_pos_y));
        vals.push(FieldValue::I32(self.effect_pos_z));
        vals.push(FieldValue::F32Bits(self.volume));
        vals.push(FieldValue::F32Bits(self.pitch));
        proof {
            assert forall|i: int|
                0 <= i < vals@.len() implies fv_like(#[trigger] vals@[i], self.spec_fields()[i]) by {}
            lemma_fvs_like(kinds@, vals@, self.spec_fields());
        }
        encode_fields(&kinds, &vals, out)
    }
}

/// The reason the server closes the session.
#[derive(Debug, Clone, PartialEq)]
pub struct GameDisconnect {
    pub reason: String,
}

impl GameDisconnect {
    /// The field schema, in wire order.
    pub open spec fn spec_kinds() -> Seq<FieldKind> {
        seq![FieldKind::Str { max: 32767 }]
    }

    /// The packet's field values, in wire order.
    pub open spec fn spec_fields(self) -> Seq<FieldValue> {
        seq![FieldValue::Str(self.reason)]
    }

    /// The packet's exact payload encoding.
    pub open spec fn spec_bytes(self) -> Seq<u8> {
        fields_bytes(self.spec_fields())
    }

    /// Every field bound holds, so the packet encodes.
    pub open spec fn enc_ok(self) -> bool {
        fields_ok(Self::spec_kinds(), self.spec_fields())
    }

    /// This packet is what the first `end` bytes of `b` hold.
    pub open spec fn parses(self, b: Seq<u8>, end: int) -> bool {
        fields_parse(b, 0, end, Self::spec_kinds(), self.spec_fields())
    }

    fn kinds() -> (r: Vec<FieldKind>)
        ensures
            r@ == Self::spec_kinds(),
    {
        let mut v: Vec<FieldKind> = Vec::new();
        v.push(FieldKind::Str { max: 32767 });
        proof {
            assert(v@ =~= Self::spec_kinds());
        }
        v
    }

    /// Decode one payload, strictly in declared field order, returning the
    /// packet and the count of bytes it consumed; bytes past the packet are
    /// left to the caller. Succeeds exactly when a well-formed payload
    /// stands at the front of the buffer, and otherwise returns the exact
    /// failure of the first field that does not stand.
    pub fn decode(bytes: &[u8]) -> (r: Result<(Self, usize), DecodeError>)
        ensures
            match r {
                Ok((p, n)) => n <= bytes@.len() && p.parses(bytes@, n as int),
                Err(e) => fields_err(bytes@, 0, Self::spec_kinds()) == Some(e) && !(e matches
                    DecodeError::UnknownPacketType { .. }) && forall|p: Self, end: int|
                    !p.parses(bytes@, end),
            },
    {
        let kinds = Self::kinds();
        let (mut vs, end) = match decode_fields(bytes, &kinds, 0) {
            Ok(x) => x,
            Err(e) => {
                return Err(e);
            },
        };
        proof {
            lemma_fields_parse_ok(bytes@, 0, end as int, kinds@, vs@);
        }
        let ghost all = vs@;
        let reason: String = match vs.pop().unwrap() {
            FieldValue::Str(x) => x,
            _ => unreached(),
        };
        let p = GameDisconnect { reason };
        proof {
            assert(p.spec_fields() =~= all);
        }
        Ok((p, end))
    }

    /// Encode the payload, refusing a value that breaks a field bound and
    /// then leaving the output untouched.
    pub fn encode(&self, out: &mut Vec<u8>) -> (r: Result<(), EncodeError>)
        ensures
            match r {
                Ok(()) => final(out)@ == old(out)@ + self.spec_bytes() && self.enc_ok(),
                Err(_) => final(out)@ == old(out)@ && !self.enc_ok(),
            },
    {
        let kinds = Self::kinds();
        let mut vals: Vec<FieldValue> = Vec::new();
        vals.push(FieldValue::Str(self.reason.clone()));
        proof {
            assert forall|i: int|
                0 <= i < vals@.len() implies fv_like(#[trigger] vals@[i], self.spec_fields()[i]) by {}
            lemma_fvs_like(kinds@, vals@, self.spec_fields());
        }
        encode_fields(&kinds, &vals, out)
    }
}

/// The keep-alive token sent by the server.
#[derive(Debug, Clone, PartialEq)]
pub struct ClientBoundKeepAlive {
    pub id: u64,
}

impl ClientBoundKeepAlive {
    /// The field schema, in wire order.
    pub open spec fn spec_kinds() -> Seq<FieldKind> {
        seq![FieldKind::U64]
    }

    /// The packet's field values, in wire order.
    pub open spec fn spec_fields(self) -> Seq<FieldValue> {
        seq![FieldValue::U64(self.id)]
    }

    /// The packet's exact payload encoding.
    pub open spec fn spec_bytes(self) -> Seq<u8> {
        fields_bytes(self.spec_fields())
    }

    /// Every field bound holds, so the packet encodes.
    pub open spec fn enc_ok(self) -> bool {
        fields_ok(Self::spec_kinds(), self.spec_fields())
    }

    /// This packet is what the first `end` bytes of `b` hold.
    pub open spec fn parses(self, b: Seq<u8>, end: int) -> bool {
        fields_parse(b, 0, end, Self::spec_kinds(), self.spec_fields())
    }

    fn kinds() -> (r: Vec<FieldKind>)
        ensures
            r@ == Self::spec_kinds(),
    {
        let mut v: Vec<FieldKind> = Vec::new();
        v.push(FieldKind::U64);
        proof {
            assert(v@ =~= Self::spec_kinds());
        }
        v
    }

    /// Decode one payload, strictly in declared field order, returning the
    /// packet and the count of bytes it consumed; bytes past the packet are
    /// left to the caller. Succeeds exactly when a well-formed payload
    /// stands at the front of the buffer, and otherwise returns the exact
    /// failure of the first field that does not stand.
    pub fn decode(bytes: &[u8]) -> (r: Result<(Self, usize), DecodeError>)
        ensures
            match r {
                Ok((p, n)) => n <= bytes@.len() && p.parses(bytes@, n as int),
                Err(e) => fields_err(bytes@, 0, Self::spec_kinds()) == Some(e) && !(e matches
                    DecodeError::UnknownPacketType { .. }) && forall|p: Self, end: int|
                    !p.parses(bytes@, end),
            },
    {
        let kinds = Self::kinds();
        let (mut vs, end) = match decode_fields(bytes, &kinds, 0) {
            Ok(x) => x,
            Err(e) => {
                return Err(e);
            },
        };
        proof {
            lemma_fields_parse_ok(bytes@, 0, end as int, kinds@, vs@);
        }
        let ghost all = vs@;
        let id: u64 = match vs.pop().unwrap() {
            FieldValue::U64(x) => x,
            _ => unreached(),
        };
        let p = ClientBoundKeepAlive { id };
        proof {
            assert(p.spec_fields() =~= all);
        }
        Ok((p, end))
    }

    /// Encode the payload, refusing a value that breaks a field bound and
    /// then leaving the output untouched.
    pub fn encode(&self, out: &mut Vec<u8>) -> (r: Result<(), EncodeError>)
        ensures
            match r {
                Ok(()) => final(out)@ == old(out)@ + self.spec_bytes() && self.enc_ok(),
                Err(_) => final(out)@ == old(out)@ && !self.enc_ok(),
            },
    {
        let kinds = Self::kinds();
        let mut vals: Vec<FieldValue> = Vec::new();
        vals.push(FieldValue::U64(self.id));
        proof {
            assert forall|i: int|
                0 <= i < vals@.len() implies fv_like(#[trigger] vals@[i], self.spec_fields()[i]) by {}
            lemma_fvs_like(kinds@, vals@, self.spec_fields());
        }
        encode_fields(&kinds, &vals, out)
    }
}

/// One chunk column: its coordinates, whether it is full, the section mask, the height maps as an embedded tree, and the section data.
#[derive(Debug, Clone, PartialEq)]
pub struct ChunkData {
    pub x: i32,
    pub z: i32,
    pub full: bool,
    pub primary_mask: i32,
    pub heights: Vec<u8>,
    pub data: Vec<u8>,
}

impl ChunkData {
    /// The field schema, in wire order.
    pub open spec fn spec_kinds() -> Seq<FieldKind> {
        seq![FieldKind::I32, FieldKind::I32, FieldKind::Bool, FieldKind::VarInt, FieldKind::Nbt, FieldKind::LenBlob]
    }

    /// The packet's field values, in wire order.
    pub open spec fn spec_fields(self) -> Seq<FieldValue> {
        seq![FieldValue::I32(self.x), FieldValue::I32(self.z), FieldValue::Bool(self.full), FieldValue::VarInt(self.primary_mask), FieldValue::Nbt(self.heights), FieldValue::LenBlob(self.data)]
    }

    /// The packet's exact payload encoding.
    pub open spec fn spec_bytes(self) -> Seq<u8> {
        fields_bytes(self.spec_fields())
    }

    /// Every field bound holds, so the packet encodes.
    pub open spec fn enc_ok(self) -> bool {
        fields_ok(Self::spec_kinds(), self.spec_fields())
    }

    /// This packet is what the first `end` bytes of `b` hold.
    pub open spec fn parses(self, b: Seq<u8>, end: int) -> bool {
        fields_parse(b, 0, end, Self::spec_kinds(), self.spec_fields())
    }

    fn kinds() -> (r: Vec<FieldKind>)
        ensures
            r@ == Self::spec_kinds(),
    {
        let mut v: Vec<FieldKind> = Vec::new();
        v.push(FieldKind::I32);
        v.push(FieldKind::I32);
        v.push(FieldKind::Bool);
        v.push(FieldKind::VarInt);
        v.push(FieldKind::Nbt);
        v.push(FieldKind::LenBlob);
        proof {
            assert(v@ =~= Self::spec_kinds());
        }
        v
    }

    /// Decode one payload, strictly in declared field order, returning the
    /// packet and the count of bytes it consumed; bytes past the packet are
    /// left to the caller. Succeeds exactly when a well-formed payload
    /// stands at the front of the buffer, and otherwise returns the exact
    /// failure of the first field that does not stand.
    pub fn decode(bytes: &[u8]) -> (r: Result<(Self, usize), DecodeError>)
        ensures
            match r {
                Ok((p, n)) => n <= bytes@.len() && p.parses(bytes@, n as int),
                Err(e) => fields_err(bytes@, 0, Self::spec_kinds()) == Some(e) && !(e matches
                    DecodeError::UnknownPacketType { .. }) && forall|p: Self, end: int|
                    !p.parses(bytes@, end),
            },
    {
        let kinds = Self::kinds();
        let (mut vs, end) = match decode_fields(bytes, &kinds, 0) {
            Ok(x) => x,
            Err(e) => {
                return Err(e);
            },
        };
        proof {
            lemma_fields_parse_ok(bytes@, 0, end as int, kinds@, vs@);
        }
        let ghost all = vs@;
        let data: Vec<u8> = match vs.pop().unwrap() {
            FieldValue::LenBlob(x) => x,
            _ => unreached(),
        };
        let heights: Vec<u8> = match vs.pop().unwrap() {
            FieldValue::Nbt(x) => x,
            _ => unreached(),
        };
        let primary_mask: i32 = match vs.pop().unwrap() {
            FieldValue::VarInt(x) => x,
            _ => unreached(),
        };
        let full: bool = match vs.pop().unwrap() {
            FieldValue::Bool(x) => x,
            _ => unreached(),
        };
        let z: i32 = match vs.pop().unwrap() {
            FieldValue::I32(x) => x,
            _ => unreached(),
        };
        let x: i32 = match vs.pop().unwrap() {
            FieldValue::I32(x) => x,
            _ => unreached(),
        };
        let p = ChunkData { x, z, full, primary_mask, heights, data };
        proof {
            assert(p.spec_fields() =~= all);
        }
        Ok((p, end))
    }

    /// Encode the payload, refusing a value that breaks a field bound and
    /// then leaving the output untouched.
    pub fn encode(&self, out: &mut Vec<u8>) -> (r: Result<(), EncodeError>)
        ensures
            match r {
                Ok(()) => final(out)@ == old(out)@ + self.spec_bytes() && self.enc_ok(),
                Err(_) => final(out)@ == old(out)@ && !self.enc_ok(),
            },
    {
        let kinds = Self::kinds();
        let mut vals: Vec<FieldValue> = Vec::new();
        vals.push(FieldValue::I32(self.x));
        vals.push(FieldValue::I32(self.z));
        vals.push(FieldValue::Bool(self.full));
        vals.push(FieldValue::VarInt(self.primary_mask));
        vals.push(FieldValue::Nbt(self.heights.clone()));
        vals.push(FieldValue::LenBlob(self.data.clone()));
        proof {
            assert forall|i: int|
                0 <= i < vals@.len() implies fv_like(#[trigger] vals@[i], self.spec_fields()[i]) by {}
            lemma_fvs_like(kinds@, vals@, self.spec_fields());
        }
        encode_fields(&kinds, &vals, out)
    }
}

/// The state handed to a client entering play: identity, mode, the world list, the dimension codec and dimension as embedded trees, and the world parameters.
#[derive(Debug, Clone, PartialEq)]
pub struct JoinGame {
    pub entity_id: u32,
    pub hardcore: bool,
    pub game_mode: u8,
    pub previous_game_mode: u8,
    pub world_names: Vec<String>,
    pub dimension_codec: Vec<u8>,
    pub dimension: Vec<u8>,
    pub world_name: String,
    pub hashed_seed: i64,
    pub max_players: i32,
    pub view_distance: i32,
    pub reduced_debug_info: bool,
    pub enable_respawn_screen: bool,
    pub is_debug: bool,
    pub is_flat: bool,
}

impl JoinGame {
    /// The field schema, in wire order.
    pub open spec fn spec_kinds() -> Seq<FieldKind> {
        seq![FieldKind::U32, FieldKind::Bool, FieldKind::U8, FieldKind::U8, FieldKind::StrSeq { max: 32767 }, FieldKind::Nbt, FieldKind::Nbt, FieldKind::Str { max: 32767 }, FieldKind::I64, FieldKind::VarInt, FieldKind::VarInt, FieldKind::Bool, FieldKind::Bool, FieldKind::Bool, FieldKind::Bool]
    }

    /// The packet's field values, in wire order.
    pub open spec fn spec_fields(self) -> Seq<FieldValue> {
        seq![FieldValue::U32(self.entity_id), FieldValue::Bool(self.hardcore), FieldValue::U8(self.game_mode), FieldValue::U8(self.previous_game_mode), FieldValue::StrSeq(self.world_names), FieldValue::Nbt(self.dimension_codec), FieldValue::Nbt(self.dimension), FieldValue::Str(self.world_name), FieldValue::I64(self.hashed_seed), FieldValue::VarInt(self.max_players), FieldValue::VarInt(self.view_distance), FieldValue::Bool(self.reduced_debug_info), FieldValue::Bool(self.enable_respawn_screen), FieldValue::Bool(self.is_debug), FieldValue::Bool(self.is_flat)]
    }

    /// The packet's exact payload encoding.
    pub open spec fn spec_bytes(self) -> Seq<u8> {
        fields_bytes(self.spec_fields())
    }

    /// Every field bound holds, so the packet encodes.
    pub open spec fn enc_ok(self) -> bool {
        fields_ok(Self::spec_kinds(), self.spec_fields())
    }

    /// This packet is what the first `end` bytes of `b` hold.
    pub open spec fn parses(self, b: Seq<u8>, end: int) -> bool {
        fields_parse(b, 0, end, Self::spec_kinds(), self.spec_fields())
    }

    fn kinds() -> (r: Vec<FieldKind>)
        ensures
            r@ == Self::spec_kinds(),
    {
        let mut v: Vec<FieldKind> = Vec::new();
        v.push(FieldKind::U32);
        v.push(FieldKind::Bool);
        v.push(FieldKind::U8);
        v.push(FieldKind::U8);
        v.push(FieldKind::StrSeq { max: 32767 });
        v.push(FieldKind::Nbt);
        v.push(FieldKind::Nbt);
        v.push(FieldKind::Str { max: 32767 });
        v.push(FieldKind::I64);
        v.push(FieldKind::VarInt);
        v.push(FieldKind::VarInt);
        v.push(FieldKind::Bool);
        v.push(FieldKind::Bool);
        v.push(FieldKind::Bool);
        v.push(FieldKind::Bool);
        proof {
            assert(v@ =~= Self::spec_kinds());
        }
        v
    }

    /// Decode one payload, strictly in declared field order, returning the
    /// packet and the count of bytes it consumed; bytes past the packet are
    /// left to the caller. Succeeds exactly when a well-formed payload
    /// stands at the front of the buffer, and otherwise returns the exact
    /// failure of the first field that does not stand.
    pub fn decode(bytes: &[u8]) -> (r: Result<(Self, usize), DecodeError>)
        ensures
            match r {
                Ok((p, n)) => n <= bytes@.len() && p.parses(bytes@, n as int),
                Err(e) => fields_err(bytes@, 0, Self::spec_kinds()) == Some(e) && !(e matches
                    DecodeError::UnknownPacketType { .. }) && forall|p: Self, end: int|
                    !p.parses(bytes@, end),
            },
    {
        let kinds = Self::kinds();
        let (mut vs, end) = match decode_fields(bytes, &kinds, 0) {
            Ok(x) => x,
            Err(e) => {
                return Err(e);
            },
        };
        proof {
            lemma_fields_parse_ok(bytes@, 0, end as int, kinds@, vs@);
        }
        let ghost all = vs@;
        let is_flat: bool = match vs.pop().unwrap() {
            FieldValue::Bool(x) => x,
            _ => unreached(),
        };
        let is_debug: bool = match vs.pop().unwrap() {
            FieldValue::Bool(x) => x,
            _ => unreached(),
        };
        let enable_respawn_screen: bool = match vs.pop().unwrap() {
            FieldValue::Bool(x) => x,
            _ => unreached(),
        };
        let reduced_debug_info: bool = match vs.pop().unwrap() {
            FieldValue::Bool(x) => x,
            _ => unreached(),
        };
        let view_distance: i32 = match vs.pop().unwrap() {
            FieldValue::VarInt(x) => x,
            _ => unreached(),
        };
        let max_players: i32 = match vs.pop().unwrap() {
            FieldValue::VarInt(x) => x,
            _ => unreached(),
        };
        let hashed_seed: i64 = match vs.pop().unwrap() {
            FieldValue::I64(x) => x,
            _ => unreached(),
        };
        let world_name: String = match vs.pop().unwrap() {
            FieldValue::Str(x) => x,
            _ => unreached(),
        };
        let dimension: Vec<u8> = match vs.pop().unwrap() {
            FieldValue::Nbt(x) => x,
            _ => unreached(),
        };
        let dimension_codec: Vec<u8> = match vs.pop().unwrap() {
            FieldValue::Nbt(x) => x,
            _ => unreached(),
        };
        let world_names: Vec<String> = match vs.pop().unwrap() {
            FieldValue::StrSeq(x) => x,
            _ => unreached(),
        };
        let previous_game_mode: u8 = match vs.pop().unwrap() {
            FieldValue::U8(x) => x,
            _ => unreached(),
        };
        let game_mode: u8 = match vs.pop().unwrap() {
            FieldValue::U8(x) => x,
            _ => unreached(),
        };
        let hardcore: bool = match vs.pop().unwrap() {
            FieldValue::Bool(x) => x,
            _ => unreached(),
        };
        let entity_id: u32 = match vs.pop().unwrap() {
            FieldValue::U32(x) => x,
            _ => unreached(),
        };
        let p = JoinGame { entity_id, hardcore, game_mode, previous_game_mode, world_names, dimension_codec, dimension, world_name, hashed_seed, max_players, view_distance, reduced_debug_info, enable_respawn_screen, is_debug, is_flat };
        proof {
            assert(p.spec_fields() =~= all);
        }
        Ok((p, end))
    }

    /// Encode the payload, refusing a value that breaks a field bound and
    /// then leaving the output untouched.
    pub fn encode(&self, out: &mut Vec<u8>) -> (r: Result<(), EncodeError>)
        ensures
            match r {
                Ok(()) => final(out)@ == old(out)@ + self.spec_bytes() && self.enc_ok(),
                Err(_) => final(out)@ == old(out)@ && !self.enc_ok(),
            },
    {
        let kinds = Self::kinds();
        let mut vals: Vec<FieldValue> = Vec::new();
        vals.push(FieldValue::U32(self.entity_id));
        vals.push(FieldValue::Bool(self.hardcore));
        vals.push(FieldValue::U8(self.game_mode));
        vals.push(FieldValue::U8(self.previous_game_mode));
        vals.push(FieldValue::StrSeq(self.world_names.clone()));
        vals.push(FieldValue::Nbt(self.dimension_codec.clone()));
        vals.push(FieldValue::Nbt(self.dimension.clone()));
        vals.push(FieldValue::Str(self.world_name.clone()));
        vals.push(FieldValue::I64(self.hashed_seed));
        vals.push(FieldValue::VarInt(self.max_players));
        vals.push(FieldValue::VarInt(self.view_distance));
        vals.push(FieldValue::Bool(self.reduced_debug_info));
        vals.push(FieldValue::Bool(self.enable_respawn_screen));
        vals.push(FieldValue::Bool(self.is_debug));
        vals.push(FieldValue::Bool(self.is_flat));
        proof {
            assert forall|i: int|
                0 <= i < vals@.len() implies fv_like(#[trigger] vals@[i], self.spec_fields()[i]) by {}
            lemma_fvs_like(kinds@, vals@, self.spec_fields());
        }
        encode_fields(&kinds, &vals, out)
    }
}

/// A boss bar update: the bar's identifier as two halves of its 128-bit id, and the action tag.
#[derive(Debug, Clone, PartialEq)]
pub struct BossBar {
    pub id_high: u64,
    pub id_low: u64,
    pub action: i32,
}

impl BossBar {
    /// The field schema, in wire order.
    pub open spec fn spec_kinds() -> Seq<FieldKind> {
        seq![FieldKind::U64, FieldKind::U64, FieldKind::VarInt]
    }

    /// The packet's field values, in wire order.
    pub open spec fn spec_fields(self) -> Seq<FieldValue> {
        seq![FieldValue::U64(self.id_high), FieldValue::U64(self.id_low), FieldValue::VarInt(self.action)]
    }

    /// The packet's exact payload encoding.
    pub open spec fn spec_bytes(self) -> Seq<u8> {
        fields_bytes(self.spec_fields())
    }

    /// Every field bound holds, so the packet encodes.
    pub open spec fn enc_ok(self) -> bool {
        fields_ok(Self::spec_kinds(), self.spec_fields())
    }

    /// This packet is what the first `end` bytes of `b` hold.
    pub open spec fn parses(self, b: Seq<u8>, end: int) -> bool {
        fields_parse(b, 0, end, Self::spec_kinds(), self.spec_fields())
    }

    fn kinds() -> (r: Vec<FieldKind>)
        ensures
            r@ == Self::spec_kinds(),
    {
        let mut v: Vec<FieldKind> = Vec::new();
        v.push(FieldKind::U64);
        v.push(FieldKind::U64);
        v.push(FieldKind::VarInt);
        proof {
            assert(v@ =~= Self::spec_kinds());
        }
        v
    }

    /// Decode one payload, strictly in declared field order, returning the
    /// packet and the count of bytes it consumed; bytes past the packet are
    /// left to the caller. Succeeds exactly when a well-formed payload
    /// stands at the front of the buffer, and otherwise returns the exact
    /// failure of the first field that does not stand.
    pub fn decode(bytes: &[u8]) -> (r: Result<(Self, usize), DecodeError>)
        ensures
            match r {
                Ok((p, n)) => n <= bytes@.len() && p.parses(bytes@, n as int),
                Err(e) => fields_err(bytes@, 0, Self::spec_kinds()) == Some(e) && !(e matches
                    DecodeError::UnknownPacketType { .. }) && forall|p: Self, end: int|
                    !p.parses(bytes@, end),
            },
    {
        let kinds = Self::kinds();
        let (mut vs, end) = match decode_fields(bytes, &kinds, 0) {
            Ok(x) => x,
            Err(e) => {
                return Err(e);
            },
        };
        proof {
            lemma_fields_parse_ok(bytes@, 0, end as int, kinds@, vs@);
        }
        let ghost all = vs@;
        let action: i32 = match vs.pop().unwrap() {
            FieldValue::VarInt(x) => x,
            _ => unreached(),
        };
        let id_low: u64 = match vs.pop().unwrap() {
            FieldValue::U64(x) => x,
            _ => unreached(),
        };
        let id_high: u64 = match vs.pop().unwrap() {
            FieldValue::U64(x) => x,
            _ => unreached(),
        };
        let p = BossBar { id_high, id_low, action };
        proof {
            assert(p.spec_fields() =~= all);
        }
        Ok((p, end))
    }

    /// Encode the payload, refusing a value that breaks a field bound and
    /// then leaving the output untouched.
    pub fn encode(&self, out: &mut Vec<u8>) -> (r: Result<(), EncodeError>)
        ensures
            match r {
                Ok(()) => final(out)@ == old(out)@ + self.spec_bytes() && self.enc_ok(),
                Err(_) => final(out)@ == old(out)@ && !self.enc_ok(),
            },
    {
        let kinds = Self::kinds();
        let mut vals: Vec<FieldValue> = Vec::new();
        vals.push(FieldValue::U64(self.id_high));
        vals.push(FieldValue::U64(self.id_low));
        vals.push(FieldValue::VarInt(self.action));
        proof {
            assert forall|i: int|
                0 <= i < vals@.len() implies fv_like(#[trigger] vals@[i], self.spec_fields()[i]) by {}
            lemma_fvs_like(kinds@, vals@, self.spec_fields());
        }
        encode_fields(&kinds, &vals, out)
    }
}

/// An entity status event: the entity and the action byte.
#[derive(Debug, Clone, PartialEq)]
pub struct EntityAction {
    pub entity_id: i32,
    pub action_id: i8,
}

impl EntityAction {
    /// The field schema, in wire order.
    pub open spec fn spec_kinds() -> Seq<FieldKind> {
        seq![FieldKind::I32, FieldKind::I8]
    }

    /// The packet's field values, in wire order.
    pub open spec fn spec_fields(self) -> Seq<FieldValue> {
        seq![FieldValue::I32(self.entity_id), FieldValue::I8(self.action_id)]
    }

    /// The packet's exact payload encoding.
    pub open spec fn spec_bytes(self) -> Seq<u8> {
        fields_bytes(self.spec_fields())
    }

    /// Every field bound holds, so the packet encodes.
    pub open spec fn enc_ok(self) -> bool {
        fields_ok(Self::spec_kinds(), self.spec_fields())
    }

    /// This packet is what the first `end` bytes of `b` hold.
    pub open spec fn parses(self, b: Seq<u8>, end: int) -> bool {
        fields_parse(b, 0, end, Self::spec_kinds(), self.spec_fields())
    }

    fn kinds() -> (r: Vec<FieldKind>)
        ensures
            r@ == Self::spec_kinds(),
    {
        let mut v: Vec<FieldKind> = Vec::new();
        v.push(FieldKind::I32);
        v.push(FieldKind::I8);
        proof {
            assert(v@ =~= Self::spec_kinds());
        }
        v
    }

    /// Decode one payload, strictly in declared field order, returning the
    /// packet and the count of bytes it consumed; bytes past the packet are
    /// left to the caller. Succeeds exactly when a well-formed payload
    /// stands at the front of the buffer, and otherwise returns the exact
    /// failure of the first field that does not stand.
    pub fn decode(bytes: &[u8]) -> (r: Result<(Self, usize), DecodeError>)
        ensures
            match r {
                Ok((p, n)) => n <= bytes@.len() && p.parses(bytes@, n as int),
                Err(e) => fields_err(bytes@, 0, Self::spec_kinds()) == Some(e) && !(e matches
                    DecodeError::UnknownPacketType { .. }) && forall|p: Self, end: int|
                    !p.parses(bytes@, end),
            },
    {
        let kinds = Self::kinds();
        let (mut vs, end) = match decode_fields(bytes, &kinds, 0) {
            Ok(x) => x,
            Err(e) => {
                return Err(e);
            },
        };
        proof {
            lemma_fields_parse_ok(bytes@, 0, end as int, kinds@, vs@);
        }
        let ghost all = vs@;
        let action_id: i8 = match vs.pop().unwrap() {
            FieldValue::I8(x) => x,
            _ => unreached(),
        };
        let entity_id: i32 = match vs.pop().unwrap() {
            FieldValue::I32(x) => x,
            _ => unreached(),
        };
        let p = EntityAction { entity_id, action_id };
        proof {
            assert(p.spec_fields() =~= all);
        }
        Ok((p, end))
    }

    /// Encode the payload, refusing a value that breaks a field bound and
    /// then leaving the output untouched.
    pub fn encode(&self, out: &mut Vec<u8>) -> (r: Result<(), EncodeError>)
        ensures
            match r {
                Ok(()) => final(out)@ == old(out)@ + self.spec_bytes() && self.enc_ok(),
                Err(_) => final(out)@ == old(out)@ && !self.enc_ok(),
            },
    {
        let kinds = Self::kinds();
        let mut vals: Vec<FieldValue> = Vec::new();
        vals.push(FieldValue::I32(self.entity_id));
        vals.push(FieldValue::I8(self.action_id));
        proof {
            assert forall|i: int|
                0 <= i < vals@.len() implies fv_like(#[trigger] vals@[i], self.spec_fields()[i]) by {}
            lemma_fvs_like(kinds@, vals@, self.spec_fields());
        }
        encode_fields(&kinds, &vals, out)
    }
}

/// A dimension change: the target dimension as an embedded tree and the new world parameters.
#[derive(Debug, Clone, PartialEq)]
pub struct Respawn {
    pub dimension: Vec<u8>,
    pub world_name: String,
    pub hashed_seed: i64,
    pub game_mode: u8,
    pub previous_game_mode: u8,
    pub is_debug: bool,
    pub is_flat: bool,
    pub copy_metadata: bool,
}

impl Respawn {
    /// The field schema, in wire order.
    pub open spec fn spec_kinds() -> Seq<FieldKind> {
        seq![FieldKind::Nbt, FieldKind::Str { max: 32767 }, FieldKind::I64, FieldKind::U8, FieldKind::U8, FieldKind::Bool, FieldKind::Bool, FieldKind::Bool]
    }

    /// The packet's field values, in wire order.
    pub open spec fn spec_fields(self) -> Seq<FieldValue> {
        seq![FieldValue::Nbt(self.dimension), FieldValue::Str(self.world_name), FieldValue::I64(self.hashed_seed), FieldValue::U8(self.game_mode), FieldValue::U8(self.previous_game_mode), FieldValue::Bool(self.is_debug), FieldValue::Bool(self.is_flat), FieldValue::Bool(self.copy_metadata)]
    }

    /// The packet's exact payload encoding.
    pub open spec fn spec_bytes(self) -> Seq<u8> {
        fields_bytes(self.spec_fields())
    }

    /// Every field bound holds, so the packet encodes.
    pub open spec fn enc_ok(self) -> bool {
        fields_ok(Self::spec_kinds(), self.spec_fields())
    }

    /// This packet is what the first `end` bytes of `b` hold.
    pub open spec fn parses(self, b: Seq<u8>, end: int) -> bool {
        fields_parse(b, 0, end, Self::spec_kinds(), self.spec_fields())
    }

    fn kinds() -> (r: Vec<FieldKind>)
        ensures
            r@ == Self::spec_kinds(),
    {
        let mut v: Vec<FieldKind> = Vec::new();
        v.push(FieldKind::Nbt);
        v.push(FieldKind::Str { max: 32767 });
        v.push(FieldKind::I64);
        v.push(FieldKind::U8);
        v.push(FieldKind::U8);
        v.push(FieldKind::Bool);
        v.push(FieldKind::Bool);
        v.push(FieldKind::Bool);
        proof {
            assert(v@ =~= Self::spec_kinds());
        }
        v
    }

    /// Decode one payload, strictly in declared field order, returning the
    /// packet and the count of bytes it consumed; bytes past the packet are
    /// left to the caller. Succeeds exactly when a well-formed payload
    /// stands at the front of the buffer, and otherwise returns the exact
    /// failure of the first field that does not stand.
    pub fn decode(bytes: &[u8]) -> (r: Result<(Self, usize), DecodeError>)
        ensures
            match r {
                Ok((p, n)) => n <= bytes@.len() && p.parses(bytes@, n as int),
                Err(e) => fields_err(bytes@, 0, Self::spec_kinds()) == Some(e) && !(e matches
                    DecodeError::UnknownPacketType { .. }) && forall|p: Self, end: int|
                    !p.parses(bytes@, end),
            },
    {
        let kinds = Self::kinds();
        let (mut vs, end) = match decode_fields(bytes, &kinds, 0) {
            Ok(x) => x,
            Err(e) => {
                return Err(e);
            },
        };
        proof {
            lemma_fields_parse_ok(bytes@, 0, end as int, kinds@, vs@);
        }
        let ghost all = vs@;
        let copy_metadata: bool = match vs.pop().unwrap() {
            FieldValue::Bool(x) => x,
            _ => unreached(),
        };
        let is_flat: bool = match vs.pop().unwrap() {
            FieldValue::Bool(x) => x,
            _ => unreached(),
        };
        let is_debug: bool = match vs.pop().unwrap() {
            FieldValue::Bool(x) => x,
            _ => unreached(),
        };
        let previous_game_mode: u8 = match vs.pop().unwrap() {
            FieldValue::U8(x) => x,
            _ => unreached(),
        };
        let game_mode: u8 = match vs.pop().unwrap() {
            FieldValue::U8(x) => x,
            _ => unreached(),
        };
        let hashed_seed: i64 = match vs.pop().unwrap() {
            FieldValue::I64(x) => x,
            _ => unreached(),
        };
        let world_name: String = match vs.pop().unwrap() {
            FieldValue::Str(x) => x,
            _ => unreached(),
        };
        let dimension: Vec<u8> = match vs.pop().unwrap() {
            FieldValue::Nbt(x) => x,
            _ => unreached(),
        };
        let p = Respawn { dimension, world_name, hashed_seed, game_mode, previous_game_mode, is_debug, is_flat, copy_metadata };
        proof {
            assert(p.spec_fields() =~= all);
        }
        Ok((p, end))
    }

    /// Encode the payload, refusing a value that breaks a field bound and
    /// then leaving the output untouched.
    pub fn encode(&self, out: &mut Vec<u8>) -> (r: Result<(), EncodeError>)
        ensures
            match r {
                Ok(()) => final(out)@ == old(out)@ + self.spec_bytes() && self.enc_ok(),
                Err(_) => final(out)@ == old(out)@ && !self.enc_ok(),
            },
    {
        let kinds = Self::kinds();
        let mut vals: Vec<FieldValue> = Vec::new();
        vals.push(FieldValue::Nbt(self.dimension.clone()));
        vals.push(FieldValue::Str(self.world_name.clone()));
        vals.push(FieldValue::I64(self.hashed_seed));
        vals.push(FieldValue::U8(self.game_mode));
        vals.push(FieldValue::U8(self.previous_game_mode));
        vals.push(FieldValue::Bool(self.is_debug));
        vals.push(FieldValue::Bool(self.is_flat));
        vals.push(FieldValue::Bool(self.copy_metadata));
        proof {
            assert forall|i: int|
                0 <= i < vals@.len() implies fv_like(#[trigger] vals@[i], self.spec_fields()[i]) by {}
            lemma_fvs_like(kinds@, vals@, self.spec_fields());
        }
        encode_fields(&kinds, &vals, out)
    }
}

/// An absolute or relative teleport: doubles and floats carried as bit patterns, the relative-flags byte, the teleport id, and the dismount flag.
#[derive(Debug, Clone, PartialEq)]
pub struct PlayerPositionAndLook {
    pub x: u64,
    pub y: u64,
    pub z: u64,
    pub yaw: u32,
    pub pitch: u32,
    pub flags: u8,
    pub teleport_id: i32,
    pub dismount_vehicle: bool,
}

impl PlayerPositionAndLook {
    /// The field schema, in wire order.
    pub open spec fn spec_kinds() -> Seq<FieldKind> {
        seq![FieldKind::F64Bits, FieldKind::F64Bits, FieldKind::F64Bits, FieldKind::F32Bits, FieldKind::F32Bits, FieldKind::U8, FieldKind::VarInt, FieldKind::Bool]
    }

    /// The packet's field values, in wire order.
    pub open spec fn spec_fields(self) -> Seq<FieldValue> {
        seq![FieldValue::F64Bits(self.x), FieldValue::F64Bits(self.y), FieldValue::F64Bits(self.z), FieldValue::F32Bits(self.yaw), FieldValue::F32Bits(self.pitch), FieldValue::U8(self.flags), FieldValue::VarInt(self.teleport_id), FieldValue::Bool(self.dismount_vehicle)]
    }

    /// The packet's exact payload encoding.
    pub open spec fn spec_bytes(self) -> Seq<u8> {
        fields_bytes(self.spec_fields())
    }

    /// Every field bound holds, so the packet encodes.
    pub open spec fn enc_ok(self) -> bool {
        fields_ok(Self::spec_kinds(), self.spec_fields())
    }

    /// This packet is what the first `end` bytes of `b` hold.
    pub open spec fn parses(self, b: Seq<u8>, end: int) -> bool {
        fields_parse(b, 0, end, Self::spec_kinds(), self.spec_fields())
    }

    fn kinds() -> (r: Vec<FieldKind>)
        ensures
            r@ == Self::spec_kinds(),
    {
        let mut v: Vec<FieldKind> = Vec::new();
        v.push(FieldKind::F64Bits);
        v.push(FieldKind::F64Bits);
        v.push(FieldKind::F64Bits);
        v.push(FieldKind::F32Bits);
        v.push(FieldKind::F32Bits);
        v.push(FieldKind::U8);
        v.push(FieldKind::VarInt);
        v.push(FieldKind::Bool);
        proof {
            assert(v@ =~= Self::spec_kinds());
        }
        v
    }

    /// Decode one payload, strictly in declared field order, returning the
    /// packet and the count of bytes it consumed; bytes past the packet are
    /// left to the caller. Succeeds exactly when a well-formed payload
    /// stands at the front of the buffer, and otherwise returns the exact
    /// failure of the first field that does not stand.
    pub fn decode(bytes: &[u8]) -> (r: Result<(Self, usize), DecodeError>)
        ensures
            match r {
                Ok((p, n)) => n <= bytes@.len() && p.parses(bytes@, n as int),
                Err(e) => fields_err(bytes@, 0, Self::spec_kinds()) == Some(e) && !(e matches
                    DecodeError::UnknownPacketType { .. }) && forall|p: Self, end: int|
                    !p.parses(bytes@, end),
            },
    {
        let kinds = Self::kinds();
        let (mut vs, end) = match decode_fields(bytes, &kinds, 0) {
            Ok(x) => x,
            Err(e) => {
                return Err(e);
            },
        };
        proof {
            lemma_fields_parse_ok(bytes@, 0, end as int, kinds@, vs@);
        }
        let ghost all = vs@;
        let dismount_vehicle: bool = match vs.pop().unwrap() {
            FieldValue::Bool(x) => x,
            _ => unreached(),
        };
        let teleport_id: i32 = match vs.pop().unwrap() {
            FieldValue::VarInt(x) => x,
            _ => unreached(),
        };
        let flags: u8 = match vs.pop().unwrap() {
            FieldValue::U8(x) => x,
            _ => unreached(),
        };
        let pitch: u32 = match vs.pop().unwrap() {
            FieldValue::F32Bits(x) => x,
            _ => unreached(),
        };
        let yaw: u32 = match vs.pop().unwrap() {
            FieldValue::F32Bits(x) => x,
            _ => unreached(),
        };
        let z: u64 = match vs.pop().unwrap() {
            FieldValue::F64Bits(x) => x,
            _ => unreached(),
        };
        let y: u64 = match vs.pop().unwrap() {
            FieldValue::F64Bits(x) => x,
            _ => unreached(),
        };
        let x: u64 = match vs.pop().unwrap() {
            FieldValue::F64Bits(x) => x,
            _ => unreached(),
        };
        let p = PlayerPositionAndLook { x, y, z, yaw, pitch, flags, teleport_id, dismount_vehicle };
        proof {
            assert(p.spec_fields() =~= all);
        }
        Ok((p, end))
    }

    /// Encode the payload, refusing a value that breaks a field bound and
    /// then leaving the output untouched.
    pub fn encode(&self, out: &mut Vec<u8>) -> (r: Result<(), EncodeError>)
        ensures
            match r {
                Ok(()) => final(out)@ == old(out)@ + self.spec_bytes() && self.enc_ok(),
                Err(_) => final(out)@ == old(out)@ && !self.enc_ok(),
            },
    {
        let kinds = Self::kinds();
        let mut vals: Vec<FieldValue> = Vec::new();
        vals.push(FieldValue::F64Bits(self.x));
        vals.push(FieldValue::F64Bits(self.y));
        vals.push(FieldValue::F64Bits(self.z));
        vals.push(FieldValue::F32Bits(self.yaw));
        vals.push(FieldValue::F32Bits(self.pitch));
        vals.push(FieldValue::U8(self.flags));
        vals.push(FieldValue::VarInt(self.teleport_id));
        vals.push(FieldValue::Bool(self.dismount_vehicle));
        proof {
            assert forall|i: int|
                0 <= i < vals@.len() implies fv_like(#[trigger] vals@[i], self.spec_fields()[i]) by {}
            lemma_fvs_like(kinds@, vals@, self.spec_fields());
        }
        encode_fields(&kinds, &vals, out)
    }
}

/// The world spawn: a packed position and the spawn angle as a float bit pattern.
#[derive(Debug, Clone, PartialEq)]
pub struct SpawnPosition {
    pub position: u64,
    pub angle: u32,
}

impl SpawnPosition {
    /// The field schema, in wire order.
    pub open spec fn spec_kinds() -> Seq<FieldKind> {
        seq![FieldKind::U64, FieldKind::F32Bits]
    }

    /// The packet's field values, in wire order.
    pub open spec fn spec_fields(self) -> Seq<FieldValue> {
        seq![FieldValue::U64(self.position), FieldValue::F32Bits(self.angle)]
    }

    /// The packet's exact payload encoding.
    pub open spec fn spec_bytes(self) -> Seq<u8> {
        fields_bytes(self.spec_fields())
    }

    /// Every field bound holds, so the packet encodes.
    pub open spec fn enc_ok(self) -> bool {
        fields_ok(Self::spec_kinds(), self.spec_fields())
    }

    /// This packet is what the first `end` bytes of `b` hold.
    pub open spec fn parses(self, b: Seq<u8>, end: int) -> bool {
        fields_parse(b, 0, end, Self::spec_kinds(), self.spec_fields())
    }

    fn kinds() -> (r: Vec<FieldKind>)
        ensures
            r@ == Self::spec_kinds(),
    {
        let mut v: Vec<FieldKind> = Vec::new();
        v.push(FieldKind::U64);
        v.push(FieldKind::F32Bits);
        proof {
            assert(v@ =~= Self::spec_kinds());
        }
        v
    }

    /// Decode one payload, strictly in declared field order, returning the
    /// packet and the count of bytes it consumed; bytes past the packet are
    /// left to the caller. Succeeds exactly when a well-formed payload
    /// stands at the front of the buffer, and otherwise returns the exact
    /// failure of the first field that does not stand.
    pub fn decode(bytes: &[u8]) -> (r: Result<(Self, usize), DecodeError>)
        ensures
            match r {
                Ok((p, n)) => n <= bytes@.len() && p.parses(bytes@, n as int),
                Err(e) => fields_err(bytes@, 0, Self::spec_kinds()) == Some(e) && !(e matches
                    DecodeError::UnknownPacketType { .. }) && forall|p: Self, end: int|
                    !p.parses(bytes@, end),
            },
    {
        let kinds = Self::kinds();
        let (mut vs, end) = match decode_fields(bytes, &kinds, 0) {
            Ok(x) => x,
            Err(e) => {
                return Err(e);
            },
        };
        proof {
            lemma_fields_parse_ok(bytes@, 0, end as int, kinds@, vs@);
        }
        let ghost all = vs@;
        let angle: u32 = match vs.pop().unwrap() {
            FieldValue::F32Bits(x) => x,
            _ => unreached(),
        };
        let position: u64 = match vs.pop().unwrap() {
            FieldValue::U64(x) => x,
            _ => unreached(),
        };
        let p = SpawnPosition { position, angle };
        proof {
            assert(p.spec_fields() =~= all);
        }
        Ok((p, end))
    }

    /// Encode the payload, refusing a value that breaks a field bound and
    /// then leaving the output untouched.
    pub fn encode(&self, out: &mut Vec<u8>) -> (r: Result<(), EncodeError>)
        ensures
            match r {
                Ok(()) => final(out)@ == old(out)@ + self.spec_bytes() && self.enc_ok(),
                Err(_) => final(out)@ == old(out)@ && !self.enc_ok(),
            },
    {
        let kinds = Self::kinds();
        let mut vals: Vec<FieldValue> = Vec::new();
        vals.push(FieldValue::U64(self.position));
        vals.push(FieldValue::F32Bits(self.angle));
        proof {
            assert forall|i: int|
                0 <= i < vals@.len() implies fv_like(#[trigger] vals@[i], self.spec_fields()[i]) by {}
            lemma_fvs_like(kinds@, vals@, self.spec_fields());
        }
        encode_fields(&kinds, &vals, out)
    }
}

/// The title line, as its raw text payload.
#[derive(Debug, Clone, PartialEq)]
pub struct SetTitleText {
    pub text: String,
}

impl SetTitleText {
    /// The field schema, in wire order.
    pub open spec fn spec_kinds() -> Seq<FieldKind> {
        seq![FieldKind::Str { max: 32767 }]
    }

    /// The packet's field values, in wire order.
    pub open spec fn spec_fields(self) -> Seq<FieldValue> {
        seq![FieldValue::Str(self.text)]
    }

    /// The packet's exact payload encoding.
    pub open spec fn spec_bytes(self) -> Seq<u8> {
        fields_bytes(self.spec_fields())
    }

    /// Every field bound holds, so the packet encodes.
    pub open spec fn enc_ok(self) -> bool {
        fields_ok(Self::spec_kinds(), self.spec_fields())
    }

    /// This packet is what the first `end` bytes of `b` hold.
    pub open spec fn parses(self, b: Seq<u8>, end: int) -> bool {
        fields_parse(b, 0, end, Self::spec_kinds(), self.spec_fields())
    }

    fn kinds() -> (r: Vec<FieldKind>)
        ensures
            r@ == Self::spec_kinds(),
    {
        let mut v: Vec<FieldKind> = Vec::new();
        v.push(FieldKind::Str { max: 32767 });
        proof {
            assert(v@ =~= Self::spec_kinds());
        }
        v
    }

    /// Decode one payload, strictly in declared field order, returning the
    /// packet and the count of bytes it consumed; bytes past the packet are
    /// left to the caller. Succeeds exactly when a well-formed payload
    /// stands at the front of the buffer, and otherwise returns the exact
    /// failure of the first field that does not stand.
    pub fn decode(bytes: &[u8]) -> (r: Result<(Self, usize), DecodeError>)
        ensures
            match r {
                Ok((p, n)) => n <= bytes@.len() && p.parses(bytes@, n as int),
                Err(e) => fields_err(bytes@, 0, Self::spec_kinds()) == Some(e) && !(e matches
                    DecodeError::UnknownPacketType { .. }) && forall|p: Self, end: int|
                    !p.parses(bytes@, end),
            },
    {
        let kinds = Self::kinds();
        let (mut vs, end) = match decode_fields(bytes, &kinds, 0) {
            Ok(x) => x,
            Err(e) => {
                return Err(e);
            },
        };
        proof {
            lemma_fields_parse_ok(bytes@, 0, end as int, kinds@, vs@);
        }
        let ghost all = vs@;
        let text: String = match vs.pop().unwrap() {
            FieldValue::Str(x) => x,
            _ => unreached(),
        };
        let p = SetTitleText { text };
        proof {
            assert(p.spec_fields() =~= all);
        }
        Ok((p, end))
    }

    /// Encode the payload, refusing a value that breaks a field bound and
    /// then leaving the output untouched.
    pub fn encode(&self, out: &mut Vec<u8>) -> (r: Result<(), EncodeError>)
        ensures
            match r {
                Ok(()) => final(out)@ == old(out)@ + self.spec_bytes() && self.enc_ok(),
                Err(_) => final(out)@ == old(out)@ && !self.enc_ok(),
            },
    {
        let kinds = Self::kinds();
        let mut vals: Vec<FieldValue> = Vec::new();
        vals.push(FieldValue::Str(self.text.clone()));
        proof {
            assert forall|i: int|
                0 <= i < vals@.len() implies fv_like(#[trigger] vals@[i], self.spec_fields()[i]) by {}
            lemma_fvs_like(kinds@, vals@, self.spec_fields());
        }
        encode_fields(&kinds, &vals, out)
    }
}

/// The subtitle line, as its raw text payload.
#[derive(Debug, Clone, PartialEq)]
pub struct SetTitleSubtitle {
    pub text: String,
}

impl SetTitleSubtitle {
    /// The field schema, in wire order.
    pub open spec fn spec_kinds() -> Seq<FieldKind> {
        seq![FieldKind::Str { max: 32767 }]
    }

    /// The packet's field values, in wire order.
    pub open spec fn spec_fields(self) -> Seq<FieldValue> {
        seq![FieldValue::Str(self.text)]
    }

    /// The packet's exact payload encoding.
    pub open spec fn spec_bytes(self) -> Seq<u8> {
        fields_bytes(self.spec_fields())
    }

    /// Every field bound holds, so the packet encodes.
    pub open spec fn enc_ok(self) -> bool {
        fields_ok(Self::spec_kinds(), self.spec_fields())
    }

    /// This packet is what the first `end` bytes of `b` hold.
    pub open spec fn parses(self, b: Seq<u8>, end: int) -> bool {
        fields_parse(b, 0, end, Self::spec_kinds(), self.spec_fields())
    }

    fn kinds() -> (r: Vec<FieldKind>)
        ensures
            r@ == Self::spec_kinds(),
    {
        let mut v: Vec<FieldKind> = Vec::new();
        v.push(FieldKind::Str { max: 32767 });
        proof {
            assert(v@ =~= Self::spec_kinds());
        }
        v
    }

    /// Decode one payload, strictly in declared field order, returning the
    /// packet and the count of bytes it consumed; bytes past the packet are
    /// left to the caller. Succeeds exactly when a well-formed payload
    /// stands at the front of the buffer, and otherwise returns the exact
    /// failure of the first field that does not stand.
    pub fn decode(bytes: &[u8]) -> (r: Result<(Self, usize), DecodeError>)
        ensures
            match r {
                Ok((p, n)) => n <= bytes@.len() && p.parses(bytes@, n as int),
                Err(e) => fields_err(bytes@, 0, Self::spec_kinds()) == Some(e) && !(e matches
                    DecodeError::UnknownPacketType { .. }) && forall|p: Self, end: int|
                    !p.parses(bytes@, end),
            },
    {
        let kinds = Self::kinds();
        let (mut vs, end) = match decode_fields(bytes, &kinds, 0) {
            Ok(x) => x,
            Err(e) => {
                return Err(e);
            },
        };
        proof {
            lemma_fields_parse_ok(bytes@, 0, end as int, kinds@, vs@);
        }
        let ghost all = vs@;
        let text: String = match vs.pop().unwrap() {
            FieldValue::Str(x) => x,
            _ => unreached(),
        };
        let p = SetTitleSubtitle { text };
        proof {
            assert(p.spec_fields() =~= all);
        }
        Ok((p, end))
    }

    /// Encode the payload, refusing a value that breaks a field bound and
    /// then leaving the output untouched.
    pub fn encode(&self, out: &mut Vec<u8>) -> (r: Result<(), EncodeError>)
        ensures
            match r {
                Ok(()) => final(out)@ == old(out)@ + self.spec_bytes() && self.enc_ok(),
                Err(_) => final(out)@ == old(out)@ && !self.enc_ok(),
            },
    {
        let kinds = Self::kinds();
        let mut vals: Vec<FieldValue> = Vec::new();
        vals.push(FieldValue::Str(self.text.clone()));
        proof {
            assert forall|i: int|
                0 <= i < vals@.len() implies fv_like(#[trigger] vals@[i], self.spec_fields()[i]) by {}
            lemma_fvs_like(kinds@, vals@, self.spec_fields());
        }
        encode_fields(&kinds, &vals, out)
    }
}

/// Title timing: fade-in, stay, and fade-out, in ticks.
#[derive(Debug, Clone, PartialEq)]
pub struct SetTitleTimes {
    pub fade_in: i32,
    pub stay: i32,
    pub fade_out: i32,
}

impl SetTitleTimes {
    /// The field schema, in wire order.
    pub open spec fn spec_kinds() -> Seq<FieldKind> {
        seq![FieldKind::I32, FieldKind::I32, FieldKind::I32]
    }

    /// The packet's field values, in wire order.
    pub open spec fn spec_fields(self) -> Seq<FieldValue> {
        seq![FieldValue::I32(self.fade_in), FieldValue::I32(self.stay), FieldValue::I32(self.fade_out)]
    }

    /// The packet's exact payload encoding.
    pub open spec fn spec_bytes(self) -> Seq<u8> {
        fields_bytes(self.spec_fields())
    }

    /// Every field bound holds, so the packet encodes.
    pub open spec fn enc_ok(self) -> bool {
        fields_ok(Self::spec_kinds(), self.spec_fields())
    }

    /// This packet is what the first `end` bytes of `b` hold.
    pub open spec fn parses(self, b: Seq<u8>, end: int) -> bool {
        fields_parse(b, 0, end, Self::spec_kinds(), self.spec_fields())
    }

    fn kinds() -> (r: Vec<FieldKind>)
        ensures
            r@ == Self::spec_kinds(),
    {
        let mut v: Vec<FieldKind> = Vec::new();
        v.push(FieldKind::I32);
        v.push(FieldKind::I32);
        v.push(FieldKind::I32);
        proof {
            assert(v@ =~= Self::spec_kinds());
        }
        v
    }

    /// Decode one payload, strictly in declared field order, returning the
    /// packet and the count of bytes it consumed; bytes past the packet are
    /// left to the caller. Succeeds exactly when a well-formed payload
    /// stands at the front of the buffer, and otherwise returns the exact
    /// failure of the first field that does not stand.
    pub fn decode(bytes: &[u8]) -> (r: Result<(Self, usize), DecodeError>)
        ensures
            match r {
                Ok((p, n)) => n <= bytes@.len() && p.parses(bytes@, n as int),
                Err(e) => fields_err(bytes@, 0, Self::spec_kinds()) == Some(e) && !(e matches
                    DecodeError::UnknownPacketType { .. }) && forall|p: Self, end: int|
                    !p.parses(bytes@, end),
            },
    {
        let kinds = Self::kinds();
        let (mut vs, end) = match decode_fields(bytes, &kinds, 0) {
            Ok(x) => x,
            Err(e) => {
                return Err(e);
            },
        };
        proof {
            lemma_fields_parse_ok(bytes@, 0, end as int, kinds@, vs@);
        }
        let ghost all = vs@;
        let fade_out: i32 = match vs.pop().unwrap() {
            FieldValue::I32(x) => x,
            _ => unreached(),
        };
        let stay: i32 = match vs.pop().unwrap() {
            FieldValue::I32(x) => x,
            _ => unreached(),
        };
        let fade_in: i32 = match vs.pop().unwrap() {
            FieldValue::I32(x) => x,
            _ => unreached(),
        };
        let p = SetTitleTimes { fade_in, stay, fade_out };
        proof {
            assert(p.spec_fields() =~= all);
        }
        Ok((p, end))
    }

    /// Encode the payload, refusing a value that breaks a field bound and
    /// then leaving the output untouched.
    pub fn encode(&self, out: &mut Vec<u8>) -> (r: Result<(), EncodeError>)
        ensures
            match r {
                Ok(()) => final(out)@ == old(out)@ + self.spec_bytes() && self.enc_ok(),
                Err(_) => final(out)@ == old(out)@ && !self.enc_ok(),
            },
    {
        let kinds = Self::kinds();
        let mut vals: Vec<FieldValue> = Vec::new();
        vals.push(FieldValue::I32(self.fade_in));
        vals.push(FieldValue::I32(self.stay));
        vals.push(FieldValue::I32(self.fade_out));
        proof {
            assert forall|i: int|
                0 <= i < vals@.len() implies fv_like(#[trigger] vals@[i], self.spec_fields()[i]) by {}
            lemma_fvs_like(kinds@, vals@, self.spec_fields());
        }
        encode_fields(&kinds, &vals, out)
    }
}

/// World time: total age and time of day.
#[derive(Debug, Clone, PartialEq)]
pub struct TimeUpdate {
    pub world_age: i64,
    pub time_of_day: i64,
}

impl TimeUpdate {
    /// The field schema, in wire order.
    pub open spec fn spec_kinds() -> Seq<FieldKind> {
        seq![FieldKind::I64, FieldKind::I64]
    }

    /// The packet's field values, in wire order.
    pub open spec fn spec_fields(self) -> Seq<FieldValue> {
        seq![FieldValue::I64(self.world_age), FieldValue::I64(self.time_of_day)]
    }

    /// The packet's exact payload encoding.
    pub open spec fn spec_bytes(self) -> Seq<u8> {
        fields_bytes(self.spec_fields())
    }

    /// Every field bound holds, so the packet encodes.
    pub open spec fn enc_ok(self) -> bool {
        fields_ok(Self::spec_kinds(), self.spec_fields())
    }

    /// This packet is what the first `end` bytes of `b` hold.
    pub open spec fn parses(self, b: Seq<u8>, end: int) -> bool {
        fields_parse(b, 0, end, Self::spec_kinds(), self.spec_fields())
    }

    fn kinds() -> (r: Vec<FieldKind>)
        ensures
            r@ == Self::spec_kinds(),
    {
        let mut v: Vec<FieldKind> = Vec::new();
        v.push(FieldKind::I64);
        v.push(FieldKind::I64);
        proof {
            assert(v@ =~= Self::spec_kinds());
        }
        v
    }

    /// Decode one payload, strictly in declared field order, returning the
    /// packet and the count of bytes it consumed; bytes past the packet are
    /// left to the caller. Succeeds exactly when a well-formed payload
    /// stands at the front of the buffer, and otherwise returns the exact
    /// failure of the first field that does not stand.
    pub fn decode(bytes: &[u8]) -> (r: Result<(Self, usize), DecodeError>)
        ensures
            match r {
                Ok((p, n)) => n <= bytes@.len() && p.parses(bytes@, n as int),
                Err(e) => fields_err(bytes@, 0, Self::spec_kinds()) == Some(e) && !(e matches
                    DecodeError::UnknownPacketType { .. }) && forall|p: Self, end: int|
                    !p.parses(bytes@, end),
            },
    {
        let kinds = Self::kinds();
        let (mut vs, end) = match decode_fields(bytes, &kinds, 0) {
            Ok(x) => x,
            Err(e) => {
                return Err(e);
            },
        };
        proof {
            lemma_fields_parse_ok(bytes@, 0, end as int, kinds@, vs@);
        }
        let ghost all = vs@;
        let time_of_day: i64 = match vs.pop().unwrap() {
            FieldValue::I64(x) => x,
            _ => unreached(),
        };
        let world_age: i64 = match vs.pop().unwrap() {
            FieldValue::I64(x) => x,
            _ => unreached(),
        };
        let p = TimeUpdate { world_age, time_of_day };
        proof {
            assert(p.spec_fields() =~= all);
        }
        Ok((p, end))
    }

    /// Encode the payload, refusing a value that breaks a field bound and
    /// then leaving the output untouched.
    pub fn encode(&self, out: &mut Vec<u8>) -> (r: Result<(), EncodeError>)
        ensures
            match r {
                Ok(()) => final(out)@ == old(out)@ + self.spec_bytes() && self.enc_ok(),
                Err(_) => final(out)@ == old(out)@ && !self.enc_ok(),
            },
    {
        let kinds = Self::kinds();
        let mut vals: Vec<FieldValue> = Vec::new();
        vals.push(FieldValue::I64(self.world_age));
        vals.push(FieldValue::I64(self.time_of_day));
        proof {
            assert forall|i: int|
                0 <= i < vals@.len() implies fv_like(#[trigger] vals@[i], self.spec_fields()[i]) by {}
            lemma_fvs_like(kinds@, vals@, self.spec_fields());
        }
        encode_fields(&kinds, &vals, out)
    }
}

} // verus!
