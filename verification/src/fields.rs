use vstd::prelude::*;
use vstd::pervasive::unreached;
use vstd::utf8::encode_utf8;
use crate::error::{DecodeError, EncodeError};
use crate::foreign::{nbt_exact, nbt_span};
use crate::wire::{
    be_bytes, bool_bytes, lemma_be_bytes_len, lemma_pow256_values, lemma_prefix_concat,
    lemma_string_field_unique, lemma_subrange_join, lemma_varint_at_none, lemma_varint_unique,
    len_blob_bytes, len_blob_err, pow256, prefix_at, read_be, read_bool, read_len_blob,
    read_nbt_blob, read_rem_blob, read_string, read_strings, read_varint_u32, str_seq_bytes,
    str_seq_err, str_seq_ok, string_err, string_field_bytes, strings_bytes, varint_at,
    varint_bytes, varint_err, write_be, write_bool, write_bytes, write_len_blob, write_string,
    write_strings, write_varint_u32,
};

verus! {

broadcast use crate::wire::lemma_be_bytes_len;

/// One field of a packet schema: its kind and, where the kind carries one,
/// its modifier. The 32- and 64-bit float kinds carry the IEEE-754 bit
/// pattern as an unsigned value of the same width.
#[derive(Clone, Copy, Debug, PartialEq, Eq, Structural)]
pub enum FieldKind {
    U8,
    U16,
    U32,
    U64,
    I8,
    I16,
    I32,
    I64,
    F32Bits,
    F64Bits,
    Bool,
    VarInt,
    Str { max: u32 },
    StrSeq { max: u32 },
    LenBlob,
    RemBlob,
    Nbt,
}

/// One decoded field value.
#[derive(Debug)]
pub enum FieldValue {
    U8(u8),
    U16(u16),
    U32(u32),
    U64(u64),
    I8(i8),
    I16(i16),
    I32(i32),
    I64(i64),
    F32Bits(u32),
    F64Bits(u64),
    Bool(bool),
    VarInt(i32),
    Str(String),
    StrSeq(Vec<String>),
    LenBlob(Vec<u8>),
    RemBlob(Vec<u8>),
    Nbt(Vec<u8>),
}

/// The exact byte encoding of one field value.
pub open spec fn field_bytes(v: FieldValue) -> Seq<u8> {
    match v {
        FieldValue::U8(x) => be_bytes(x as nat, 1),
        FieldValue::U16(x) => be_bytes(x as nat, 2),
        FieldValue::U32(x) => be_bytes(x as nat, 4),
        FieldValue::U64(x) => be_bytes(x as nat, 8),
        FieldValue::I8(x) => be_bytes((x as u8) as nat, 1),
        FieldValue::I16(x) => be_bytes((x as u16) as nat, 2),
        FieldValue::I32(x) => be_bytes((x as u32) as nat, 4),
        FieldValue::I64(x) => be_bytes((x as u64) as nat, 8),
        FieldValue::F32Bits(x) => be_bytes(x as nat, 4),
        FieldValue::F64Bits(x) => be_bytes(x as nat, 8),
        FieldValue::Bool(x) => bool_bytes(x),
        FieldValue::VarInt(x) => varint_bytes((x as u32) as nat),
        FieldValue::Str(s) => string_field_bytes(s@),
        FieldValue::StrSeq(ss) => str_seq_bytes(ss.deep_view()),
        FieldValue::LenBlob(d) => len_blob_bytes(d@),
        FieldValue::RemBlob(d) => d@,
        FieldValue::Nbt(d) => d@,
    }
}

/// The value is of the shape its kind asks for.
pub open spec fn kind_matches(k: FieldKind, v: FieldValue) -> bool {
    match (k, v) {
        (FieldKind::U8, FieldValue::U8(_)) => true,
        (FieldKind::U16, FieldValue::U16(_)) => true,
        (FieldKind::U32, FieldValue::U32(_)) => true,
        (FieldKind::U64, FieldValue::U64(_)) => true,
        (FieldKind::I8, FieldValue::I8(_)) => true,
        (FieldKind::I16, FieldValue::I16(_)) => true,
        (FieldKind::I32, FieldValue::I32(_)) => true,
        (FieldKind::I64, FieldValue::I64(_)) => true,
        (FieldKind::F32Bits, FieldValue::F32Bits(_)) => true,
        (FieldKind::F64Bits, FieldValue::F64Bits(_)) => true,
        (FieldKind::Bool, FieldValue::Bool(_)) => true,
        (FieldKind::VarInt, FieldValue::VarInt(_)) => true,
        (FieldKind::Str { .. }, FieldValue::Str(_)) => true,
        (FieldKind::StrSeq { .. }, FieldValue::StrSeq(_)) => true,
        (FieldKind::LenBlob, FieldValue::LenBlob(_)) => true,
        (FieldKind::RemBlob, FieldValue::RemBlob(_)) => true,
        (FieldKind::Nbt, FieldValue::Nbt(_)) => true,
        _ => false,
    }
}

/// A value is valid for its kind: the right shape, string bounds kept,
/// lengths fitting their prefix, and an embedded tree blob being one
/// well-formed tag. The encoder checks exactly this and refuses the rest.
pub open spec fn field_ok(k: FieldKind, v: FieldValue) -> bool {
    &&& kind_matches(k, v)
    &&& match (k, v) {
        (FieldKind::Str { max }, FieldValue::Str(s)) => encode_utf8(s@).len() <= max,
        (FieldKind::StrSeq { max }, FieldValue::StrSeq(ss)) => str_seq_ok(
            ss.deep_view(),
            max as nat,
        ),
        (FieldKind::LenBlob, FieldValue::LenBlob(d)) => d@.len() <= u32::MAX,
        (FieldKind::Nbt, FieldValue::Nbt(d)) => nbt_exact(d@),
        _ => true,
    }
}

/// `v` is the one field of kind `k` standing at `pos`, ending at `end`.
pub open spec fn field_parses(b: Seq<u8>, pos: int, end: int, k: FieldKind, v: FieldValue) -> bool {
    &&& field_ok(k, v)
    &&& end == pos + field_bytes(v).len()
    &&& prefix_at(b, pos, field_bytes(v))
    &&& (k is RemBlob ==> end == b.len())
}

/// The values `vs` are the fields of kinds `ks` standing in order from
/// `pos` to `end`.
pub open spec fn fields_parse(
    b: Seq<u8>,
    pos: int,
    end: int,
    ks: Seq<FieldKind>,
    vs: Seq<FieldValue>,
) -> bool
    decreases ks.len(),
{
    if ks.len() == 0 {
        vs.len() == 0 && end == pos && 0 <= pos <= b.len()
    } else {
        &&& vs.len() == ks.len()
        &&& exists|mid: int|
            #[trigger] field_parses(b, pos, mid, ks[0], vs[0]) && fields_parse(
                b,
                mid,
                end,
                ks.skip(1),
                vs.skip(1),
            )
    }
}

/// The concatenated encoding of a field value sequence.
pub open spec fn fields_bytes(vs: Seq<FieldValue>) -> Seq<u8>
    decreases vs.len(),
{
    if vs.len() == 0 {
        Seq::empty()
    } else {
        field_bytes(vs[0]) + fields_bytes(vs.skip(1))
    }
}

pub open spec fn fields_ok(ks: Seq<FieldKind>, vs: Seq<FieldValue>) -> bool {
    &&& vs.len() == ks.len()
    &&& forall|i: int| 0 <= i < ks.len() ==> field_ok(#[trigger] ks[i], vs[i])
}

pub proof fn lemma_fields_bytes_push(vs: Seq<FieldValue>, v: FieldValue)
    ensures
        fields_bytes(vs.push(v)) == fields_bytes(vs) + field_bytes(v),
    decreases vs.len(),
{
    if vs.len() == 0 {
        assert(vs.push(v).skip(1) =~= Seq::<FieldValue>::empty());
        assert(vs.push(v)[0] == v);
        assert(fields_bytes(vs.push(v)) == field_bytes(v) + fields_bytes(
            Seq::<FieldValue>::empty(),
        ));
        assert(fields_bytes(vs.push(v)) =~= fields_bytes(vs) + field_bytes(v));
    } else {
        assert(vs.push(v).skip(1) =~= vs.skip(1).push(v));
        lemma_fields_bytes_push(vs.skip(1), v);
        assert(vs.push(v)[0] == vs[0]);
        assert(fields_bytes(vs.push(v)) == field_bytes(vs[0]) + fields_bytes(vs.skip(1).push(v)));
        assert(fields_bytes(vs.push(v)) =~= fields_bytes(vs) + field_bytes(v));
    }
}

/// A parse covers exactly the concatenated encoding of its values.
pub proof fn lemma_fields_parse_bytes(
    b: Seq<u8>,
    pos: int,
    end: int,
    ks: Seq<FieldKind>,
    vs: Seq<FieldValue>,
)
    requires
        fields_parse(b, pos, end, ks, vs),
    ensures
        0 <= pos <= end <= b.len(),
        end == pos + fields_bytes(vs).len(),
        b.subrange(pos, end) == fields_bytes(vs),
    decreases ks.len(),
{
    if ks.len() == 0 {
        assert(b.subrange(pos, end) =~= fields_bytes(vs));
    } else {
        let mid = choose|mid: int|
            #[trigger] field_parses(b, pos, mid, ks[0], vs[0]) && fields_parse(
                b,
                mid,
                end,
                ks.skip(1),
                vs.skip(1),
            );
        lemma_fields_parse_bytes(b, mid, end, ks.skip(1), vs.skip(1));
        lemma_subrange_join(b, pos, mid, end);
        assert(fields_bytes(vs) == field_bytes(vs[0]) + fields_bytes(vs.skip(1)));
        assert(b.subrange(pos, mid) == field_bytes(vs[0]));
    }
}

/// Every field of a parse is valid for its kind.
pub proof fn lemma_fields_parse_ok(
    b: Seq<u8>,
    pos: int,
    end: int,
    ks: Seq<FieldKind>,
    vs: Seq<FieldValue>,
)
    requires
        fields_parse(b, pos, end, ks, vs),
    ensures
        vs.len() == ks.len(),
        forall|i: int| 0 <= i < ks.len() ==> field_ok(#[trigger] ks[i], vs[i]),
        fields_ok(ks, vs),
    decreases ks.len(),
{
    if ks.len() == 0 {
    } else {
        let mid = choose|mid: int|
            #[trigger] field_parses(b, pos, mid, ks[0], vs[0]) && fields_parse(
                b,
                mid,
                end,
                ks.skip(1),
                vs.skip(1),
            );
        lemma_fields_parse_ok(b, mid, end, ks.skip(1), vs.skip(1));
        assert forall|i: int| 0 <= i < ks.len() implies field_ok(#[trigger] ks[i], vs[i]) by {
            if i > 0 {
                assert(ks.skip(1)[i - 1] == ks[i] && vs.skip(1)[i - 1] == vs[i]);
                assert(field_ok(ks.skip(1)[i - 1], vs.skip(1)[i - 1]));
            }
        }
    }
}

/// At one position, a field of one kind parses in only one way: same end,
/// same bytes.
pub proof fn lemma_field_parses_unique(
    b: Seq<u8>,
    pos: int,
    e1: int,
    e2: int,
    k: FieldKind,
    v1: FieldValue,
    v2: FieldValue,
)
    requires
        field_parses(b, pos, e1, k, v1),
        field_parses(b, pos, e2, k, v2),
    ensures
        e1 == e2,
        field_bytes(v1) == field_bytes(v2),
{
    match (k, v1, v2) {
        (FieldKind::VarInt, FieldValue::VarInt(x1), FieldValue::VarInt(x2)) => {
            lemma_varint_unique(b, pos, (x1 as u32) as nat, (x2 as u32) as nat);
        },
        (FieldKind::Str { .. }, FieldValue::Str(s1), FieldValue::Str(s2)) => {
            lemma_string_field_unique(b, pos, s1@, s2@);
        },
        (FieldKind::StrSeq { .. }, FieldValue::StrSeq(w1), FieldValue::StrSeq(w2)) => {
            lemma_str_seq_unique(b, pos, w1.deep_view(), w2.deep_view());
        },
        (FieldKind::LenBlob, FieldValue::LenBlob(d1), FieldValue::LenBlob(d2)) => {
            lemma_prefix_concat(b, pos, varint_bytes(d1@.len()), d1@);
            lemma_prefix_concat(b, pos, varint_bytes(d2@.len()), d2@);
            lemma_varint_unique(b, pos, d1@.len(), d2@.len());
            assert(d1@ =~= d2@);
        },
        (FieldKind::Nbt, FieldValue::Nbt(d1), FieldValue::Nbt(d2)) => {
            let s = b.subrange(pos, b.len() as int);
            assert(s.subrange(0, d1@.len() as int) =~= d1@);
            assert(s.subrange(0, d2@.len() as int) =~= d2@);
            assert(nbt_span(s) == Some(d1@.len() as int));
            assert(nbt_span(s) == Some(d2@.len() as int));
            assert(d1@ =~= d2@);
        },
        (FieldKind::RemBlob, FieldValue::RemBlob(d1), FieldValue::RemBlob(d2)) => {
            assert(d1@ =~= d2@);
        },
        _ => {
            assert(field_bytes(v1).len() == field_bytes(v2).len());
        },
    }
}

/// Two sequences of strings standing at one position are the same sequence.
pub proof fn lemma_str_seq_unique(b: Seq<u8>, pos: int, tt1: Seq<Seq<char>>, tt2: Seq<Seq<char>>)
    requires
        prefix_at(b, pos, str_seq_bytes(tt1)),
        prefix_at(b, pos, str_seq_bytes(tt2)),
    ensures
        tt1 == tt2,
{
    lemma_prefix_concat(b, pos, varint_bytes(tt1.len()), strings_bytes(tt1));
    lemma_prefix_concat(b, pos, varint_bytes(tt2.len()), strings_bytes(tt2));
    lemma_varint_unique(b, pos, tt1.len(), tt2.len());
    lemma_strings_unique(b, pos + varint_bytes(tt1.len()).len(), tt1, tt2);
}

pub proof fn lemma_strings_unique(b: Seq<u8>, pos: int, tt1: Seq<Seq<char>>, tt2: Seq<Seq<char>>)
    requires
        tt1.len() == tt2.len(),
        prefix_at(b, pos, strings_bytes(tt1)),
        prefix_at(b, pos, strings_bytes(tt2)),
    ensures
        tt1 == tt2,
    decreases tt1.len(),
{
    if tt1.len() == 0 {
        assert(tt1 =~= tt2);
    } else {
        lemma_prefix_concat(b, pos, string_field_bytes(tt1[0]), strings_bytes(tt1.skip(1)));
        lemma_prefix_concat(b, pos, string_field_bytes(tt2[0]), strings_bytes(tt2.skip(1)));
        lemma_string_field_unique(b, pos, tt1[0], tt2[0]);
        lemma_strings_unique(
            b,
            pos + string_field_bytes(tt1[0]).len(),
            tt1.skip(1),
            tt2.skip(1),
        );
        assert forall|i: int| 0 <= i < tt1.len() implies tt1[i] == tt2[i] by {
            if i > 0 {
                assert(tt1.skip(1)[i - 1] == tt1[i]);
                assert(tt2.skip(1)[i - 1] == tt2[i]);
            }
        }
        assert(tt1 =~= tt2);
    }
}

/// At one position, one schema parses in only one way.
pub proof fn lemma_fields_parse_unique(
    b: Seq<u8>,
    pos: int,
    e1: int,
    e2: int,
    ks: Seq<FieldKind>,
    vs1: Seq<FieldValue>,
    vs2: Seq<FieldValue>,
)
    requires
        fields_parse(b, pos, e1, ks, vs1),
        fields_parse(b, pos, e2, ks, vs2),
    ensures
        e1 == e2,
        fields_bytes(vs1) == fields_bytes(vs2),
    decreases ks.len(),
{
    if ks.len() == 0 {
        assert(fields_bytes(vs1) =~= fields_bytes(vs2));
    } else {
        let m1 = choose|mid: int|
            #[trigger] field_parses(b, pos, mid, ks[0], vs1[0]) && fields_parse(
                b,
                mid,
                e1,
                ks.skip(1),
                vs1.skip(1),
            );
        let m2 = choose|mid: int|
            #[trigger] field_parses(b, pos, mid, ks[0], vs2[0]) && fields_parse(
                b,
                mid,
                e2,
                ks.skip(1),
                vs2.skip(1),
            );
        lemma_field_parses_unique(b, pos, m1, m2, ks[0], vs1[0], vs2[0]);
        lemma_fields_parse_unique(b, m1, e1, e2, ks.skip(1), vs1.skip(1), vs2.skip(1));
        assert(fields_bytes(vs1) == field_bytes(vs1[0]) + fields_bytes(vs1.skip(1)));
        assert(fields_bytes(vs2) == field_bytes(vs2[0]) + fields_bytes(vs2.skip(1)));
    }
}

/// One parsed field extends a parse by one schema slot.
pub proof fn lemma_fields_parse_snoc(
    b: Seq<u8>,
    pos: int,
    mid: int,
    end: int,
    ks: Seq<FieldKind>,
    vs: Seq<FieldValue>,
    k: FieldKind,
    v: FieldValue,
)
    requires
        fields_parse(b, pos, mid, ks, vs),
        field_parses(b, mid, end, k, v),
    ensures
        fields_parse(b, pos, end, ks.push(k), vs.push(v)),
    decreases ks.len(),
{
    if ks.len() == 0 {
        assert(ks.push(k)[0] == k && vs.push(v)[0] == v);
        assert(ks.push(k).skip(1) =~= Seq::<FieldKind>::empty());
        assert(vs.push(v).skip(1) =~= Seq::<FieldValue>::empty());
        assert(fields_parse(b, end, end, ks.push(k).skip(1), vs.push(v).skip(1)));
    } else {
        let m = choose|m: int|
            #[trigger] field_parses(b, pos, m, ks[0], vs[0]) && fields_parse(
                b,
                m,
                mid,
                ks.skip(1),
                vs.skip(1),
            );
        lemma_fields_parse_snoc(b, m, mid, end, ks.skip(1), vs.skip(1), k, v);
        assert(ks.push(k).skip(1) =~= ks.skip(1).push(k));
        assert(vs.push(v).skip(1) =~= vs.skip(1).push(v));
        assert(ks.push(k)[0] == ks[0] && vs.push(v)[0] == vs[0]);
        assert(field_parses(b, pos, m, ks.push(k)[0], vs.push(v)[0]));
    }
}

/// The width in bytes of a fixed-width kind.
pub open spec fn fixed_width(k: FieldKind) -> int {
    match k {
        FieldKind::U8 => 1,
        FieldKind::U16 => 2,
        FieldKind::U32 => 4,
        FieldKind::U64 => 8,
        FieldKind::I8 => 1,
        FieldKind::I16 => 2,
        FieldKind::I32 => 4,
        FieldKind::I64 => 8,
        FieldKind::F32Bits => 4,
        FieldKind::F64Bits => 8,
        _ => 0,
    }
}

/// The exact error of a failed read of one field of kind `k` at `pos`;
/// `None` when the field stands there.
pub open spec fn field_err(b: Seq<u8>, pos: int, k: FieldKind) -> Option<DecodeError> {
    match k {
        FieldKind::Bool => if pos >= b.len() {
            Some(DecodeError::Truncated)
        } else if b[pos] > 1 {
            Some(DecodeError::InvalidBool { value: b[pos] })
        } else {
            None
        },
        FieldKind::VarInt => match varint_at(b, pos) {
            None => Some(varint_err(b, pos)),
            Some(_) => None,
        },
        FieldKind::Str { max } => string_err(b, pos, max),
        FieldKind::StrSeq { max } => str_seq_err(b, pos, max),
        FieldKind::LenBlob => len_blob_err(b, pos),
        FieldKind::RemBlob => None,
        FieldKind::Nbt => if nbt_span(b.subrange(pos, b.len() as int)) is None {
            Some(DecodeError::MalformedTag)
        } else {
            None
        },
        _ => if pos + fixed_width(k) > b.len() {
            Some(DecodeError::Truncated)
        } else {
            None
        },
    }
}

/// Where the one field of kind `k` standing at `pos` ends, when one does.
pub open spec fn field_end(b: Seq<u8>, pos: int, k: FieldKind) -> Option<int> {
    if exists|v: FieldValue, end: int| field_parses(b, pos, end, k, v) {
        Some((choose|v: FieldValue, end: int| field_parses(b, pos, end, k, v)).1)
    } else {
        None
    }
}

/// The exact error of decoding the fields of `ks` in order from `pos`;
/// `None` when they all stand there.
pub open spec fn fields_err(b: Seq<u8>, pos: int, ks: Seq<FieldKind>) -> Option<DecodeError>
    decreases ks.len(),
{
    if ks.len() == 0 {
        None
    } else {
        match field_end(b, pos, ks[0]) {
            Some(end) => fields_err(b, end, ks.skip(1)),
            None => field_err(b, pos, ks[0]),
        }
    }
}

pub proof fn lemma_field_end_is(b: Seq<u8>, pos: int, end: int, k: FieldKind, v: FieldValue)
    requires
        field_parses(b, pos, end, k, v),
    ensures
        field_end(b, pos, k) == Some(end),
{
    let (v2, e2) = choose|v2: FieldValue, e2: int| field_parses(b, pos, e2, k, v2);
    lemma_field_parses_unique(b, pos, e2, end, k, v2, v);
}

pub proof fn lemma_field_end_none(b: Seq<u8>, pos: int, k: FieldKind)
    requires
        forall|v: FieldValue, end: int| !field_parses(b, pos, end, k, v),
    ensures
        field_end(b, pos, k) is None,
{
}

/// Read one fixed-width unsigned or signed or float-bit field.
fn read_field_be(bytes: &[u8], pos: usize, k: FieldKind) -> (r: Result<
    (FieldValue, usize),
    DecodeError,
>)
    requires
        pos <= bytes@.len(),
        !(k matches FieldKind::Str { .. }) && !(k matches FieldKind::StrSeq { .. }) && k
            != FieldKind::VarInt && k != FieldKind::Bool && k != FieldKind::LenBlob && k
            != FieldKind::RemBlob && k != FieldKind::Nbt,
    ensures
        match r {
            Ok((v, end)) => pos <= end <= bytes@.len() && field_parses(
                bytes@,
                pos as int,
                end as int,
                k,
                v,
            ),
            Err(e) => e == DecodeError::Truncated && field_err(bytes@, pos as int, k) == Some(
                DecodeError::Truncated,
            ) && forall|v: FieldValue, end: int| !field_parses(bytes@, pos as int, end, k, v),
        },
{
    proof {
        lemma_pow256_values();
    }
    let n: usize = match k {
        FieldKind::U8 => 1,
        FieldKind::U16 => 2,
        FieldKind::U32 => 4,
        FieldKind::U64 => 8,
        FieldKind::I8 => 1,
        FieldKind::I16 => 2,
        FieldKind::I32 => 4,
        FieldKind::I64 => 8,
        FieldKind::F32Bits => 4,
        FieldKind::F64Bits => 8,
        _ => unreached(),
    };
    match read_be(bytes, pos, n) {
        Ok((x, end)) => {
            let v = match k {
                FieldKind::U8 => FieldValue::U8(x as u8),
                FieldKind::U16 => FieldValue::U16(x as u16),
                FieldKind::U32 => FieldValue::U32(x as u32),
                FieldKind::U64 => FieldValue::U64(x),
                FieldKind::I8 => {
                    let y = x as u8;
                    proof {
                        assert(((y as i8) as u8) == y) by (bit_vector);
                    }
                    FieldValue::I8(y as i8)
                },
                FieldKind::I16 => {
                    let y = x as u16;
                    proof {
                        assert(((y as i16) as u16) == y) by (bit_vector);
                    }
                    FieldValue::I16(y as i16)
                },
                FieldKind::I32 => {
                    let y = x as u32;
                    proof {
                        assert(((y as i32) as u32) == y) by (bit_vector);
                    }
                    FieldValue::I32(y as i32)
                },
                FieldKind::I64 => {
                    proof {
                        assert(((x as i64) as u64) == x) by (bit_vector);
                    }
                    FieldValue::I64(x as i64)
                },
                FieldKind::F32Bits => FieldValue::F32Bits(x as u32),
                FieldKind::F64Bits => FieldValue::F64Bits(x),
                _ => unreached(),
            };
            Ok((v, end))
        },
        Err(e) => {
            proof {
                assert(fixed_width(k) == n as int);
                assert(field_err(bytes@, pos as int, k) == Some(DecodeError::Truncated));
                assert forall|v: FieldValue, end: int|
                    !field_parses(bytes@, pos as int, end, k, v) by {
                    if field_parses(bytes@, pos as int, end, k, v) {
                        assert(field_bytes(v).len() == n);
                    }
                }
            }
            Err(e)
        },
    }
}

fn read_field_varint(bytes: &[u8], pos: usize) -> (r: Result<(FieldValue, usize), DecodeError>)
    ensures
        match r {
            Ok((v, end)) => pos <= end <= bytes@.len() && field_parses(
                bytes@,
                pos as int,
                end as int,
                FieldKind::VarInt,
                v,
            ),
            Err(e) => field_err(bytes@, pos as int, FieldKind::VarInt) == Some(e) && !(e matches
                DecodeError::UnknownPacketType { .. }) && forall|v: FieldValue, end: int|
                !field_parses(bytes@, pos as int, end, FieldKind::VarInt, v),
        },
{
    match read_varint_u32(bytes, pos) {
        Ok((x, end)) => {
            let z = x as i32;
            proof {
                assert(((x as i32) as u32) == x) by (bit_vector);
            }
            Ok((FieldValue::VarInt(z), end))
        },
        Err(e) => {
            proof {
                assert forall|v: FieldValue, end: int|
                    !field_parses(bytes@, pos as int, end, FieldKind::VarInt, v) by {
                    if field_parses(bytes@, pos as int, end, FieldKind::VarInt, v) {
                        let x = v->VarInt_0;
                        assert(prefix_at(bytes@, pos as int, varint_bytes((x as u32) as nat)));
                    }
                }
                lemma_varint_at_none(bytes@, pos as int);
            }
            Err(e)
        },
    }
}

fn read_field_str(bytes: &[u8], pos: usize, max: u32) -> (r: Result<
    (FieldValue, usize),
    DecodeError,
>)
    ensures
        match r {
            Ok((v, end)) => pos <= end <= bytes@.len() && field_parses(
                bytes@,
                pos as int,
                end as int,
                FieldKind::Str { max },
                v,
            ),
            Err(e) => field_err(bytes@, pos as int, FieldKind::Str { max }) == Some(e) && !(
            e matches DecodeError::UnknownPacketType { .. }) && forall|v: FieldValue, end: int|
                !field_parses(bytes@, pos as int, end, FieldKind::Str { max }, v),
        },
{
    match read_string(bytes, pos, max) {
        Ok((s, end)) => Ok((FieldValue::Str(s), end)),
        Err(e) => {
            proof {
                assert forall|v: FieldValue, end: int|
                    !field_parses(bytes@, pos as int, end, FieldKind::Str { max }, v) by {
                    if field_parses(bytes@, pos as int, end, FieldKind::Str { max }, v) {
                        let s = v->Str_0;
                        assert(encode_utf8(s@).len() <= max);
                        assert(prefix_at(bytes@, pos as int, string_field_bytes(s@)));
                    }
                }
            }
            Err(e)
        },
    }
}

fn read_field_str_seq(bytes: &[u8], pos: usize, max: u32) -> (r: Result<
    (FieldValue, usize),
    DecodeError,
>)
    ensures
        match r {
            Ok((v, end)) => pos <= end <= bytes@.len() && field_parses(
                bytes@,
                pos as int,
                end as int,
                FieldKind::StrSeq { max },
                v,
            ),
            Err(e) => field_err(bytes@, pos as int, FieldKind::StrSeq { max }) == Some(e) && !(
            e matches DecodeError::UnknownPacketType { .. }) && forall|v: FieldValue, end: int|
                !field_parses(bytes@, pos as int, end, FieldKind::StrSeq { max }, v),
        },
{
    match read_strings(bytes, pos, max) {
        Ok((ss, end)) => Ok((FieldValue::StrSeq(ss), end)),
        Err(e) => {
            proof {
                assert forall|v: FieldValue, end: int|
                    !field_parses(bytes@, pos as int, end, FieldKind::StrSeq { max }, v) by {
                    if field_parses(bytes@, pos as int, end, FieldKind::StrSeq { max }, v) {
                        let ss = v->StrSeq_0;
                        assert(str_seq_ok(ss.deep_view(), max as nat));
                        assert(prefix_at(bytes@, pos as int, str_seq_bytes(ss.deep_view())));
                    }
                }
            }
            Err(e)
        },
    }
}

proof fn lemma_no_len_blob_parse(b: Seq<u8>, pos: int)
    requires
        forall|d: Seq<u8>| d.len() <= u32::MAX ==> !prefix_at(b, pos, #[trigger] len_blob_bytes(d)),
    ensures
        forall|v: FieldValue, end: int| !field_parses(b, pos, end, FieldKind::LenBlob, v),
{
    assert forall|v: FieldValue, end: int|
        !field_parses(b, pos, end, FieldKind::LenBlob, v) by {
        if field_parses(b, pos, end, FieldKind::LenBlob, v) {
            let d = v->LenBlob_0;
            assert(d@.len() <= u32::MAX);
            assert(field_bytes(v) == len_blob_bytes(d@));
            assert(prefix_at(b, pos, len_blob_bytes(d@)));
        }
    }
}

fn read_field_len_blob(bytes: &[u8], pos: usize) -> (r: Result<(FieldValue, usize), DecodeError>)
    ensures
        match r {
            Ok((v, end)) => pos <= end <= bytes@.len() && field_parses(
                bytes@,
                pos as int,
                end as int,
                FieldKind::LenBlob,
                v,
            ),
            Err(e) => field_err(bytes@, pos as int, FieldKind::LenBlob) == Some(e) && !(e matches
                DecodeError::UnknownPacketType { .. }) && forall|v: FieldValue, end: int|
                !field_parses(bytes@, pos as int, end, FieldKind::LenBlob, v),
        },
{
    match read_len_blob(bytes, pos) {
        Ok((d, end)) => Ok((FieldValue::LenBlob(d), end)),
        Err(e) => {
            proof {
                lemma_no_len_blob_parse(bytes@, pos as int);
            }
            Err(e)
        },
    }
}
fn read_field_nbt(bytes: &[u8], pos: usize) -> (r: Result<(FieldValue, usize), DecodeError>)
    requires
        pos <= bytes@.len(),
    ensures
        match r {
            Ok((v, end)) => pos <= end <= bytes@.len() && field_parses(
                bytes@,
                pos as int,
                end as int,
                FieldKind::Nbt,
                v,
            ),
            Err(e) => e == DecodeError::MalformedTag && field_err(
                bytes@,
                pos as int,
                FieldKind::Nbt,
            ) == Some(DecodeError::MalformedTag) && forall|v: FieldValue, end: int|
                !field_parses(bytes@, pos as int, end, FieldKind::Nbt, v),
        },
{
    match read_nbt_blob(bytes, pos) {
        Ok((d, end)) => Ok((FieldValue::Nbt(d), end)),
        Err(e) => {
            proof {
                assert forall|v: FieldValue, end: int|
                    !field_parses(bytes@, pos as int, end, FieldKind::Nbt, v) by {
                    if field_parses(bytes@, pos as int, end, FieldKind::Nbt, v) {
                        let d = v->Nbt_0;
                        assert(nbt_exact(d@));
                        assert(prefix_at(bytes@, pos as int, d@));
                    }
                }
            }
            Err(e)
        },
    }
}

/// Read one field of kind `k`. Fails exactly when no field of that kind
/// stands at `pos`.
pub fn read_field(bytes: &[u8], pos: usize, k: FieldKind) -> (r: Result<
    (FieldValue, usize),
    DecodeError,
>)
    requires
        pos <= bytes@.len(),
    ensures
        match r {
            Ok((v, end)) => pos <= end <= bytes@.len() && field_parses(
                bytes@,
                pos as int,
                end as int,
                k,
                v,
            ),
            Err(e) => field_err(bytes@, pos as int, k) == Some(e) && !(e matches
                DecodeError::UnknownPacketType { .. }) && forall|v: FieldValue, end: int|
                !field_parses(bytes@, pos as int, end, k, v),
        },
{
    match k {
        FieldKind::Bool => match read_bool(bytes, pos) {
            Ok((x, end)) => {
                proof {
                    assert(bool_bytes(x).len() == 1);
                    assert(field_parses(bytes@, pos as int, end as int, k, FieldValue::Bool(x)));
                }
                Ok((FieldValue::Bool(x), end))
            },
            Err(e) => {
                proof {
                    assert forall|v: FieldValue, end: int|
                        !field_parses(bytes@, pos as int, end, k, v) by {
                        if field_parses(bytes@, pos as int, end, k, v) {
                            let x = v->Bool_0;
                            assert(prefix_at(bytes@, pos as int, bool_bytes(x)));
                        }
                    }
                    if (pos as int) < bytes@.len() {
                        if bytes@[pos as int] <= 1 {
                            let x = bytes@[pos as int] == 1;
                            assert(bytes@.subrange(pos as int, pos + 1) =~= bool_bytes(x));
                            assert(prefix_at(bytes@, pos as int, bool_bytes(x)));
                            assert(false);
                        }
                    }
                    assert(field_err(bytes@, pos as int, k) == Some(e));
                }
                Err(e)
            },
        },
        FieldKind::VarInt => read_field_varint(bytes, pos),
        FieldKind::Str { max } => {
            proof {
                assert(k == (FieldKind::Str { max }));
            }
            read_field_str(bytes, pos, max)
        },
        FieldKind::StrSeq { max } => {
            proof {
                assert(k == (FieldKind::StrSeq { max }));
            }
            read_field_str_seq(bytes, pos, max)
        },
        FieldKind::LenBlob => read_field_len_blob(bytes, pos),
        FieldKind::RemBlob => {
            let (d, end) = read_rem_blob(bytes, pos);
            proof {
                assert(prefix_at(bytes@, pos as int, d@));
            }
            Ok((FieldValue::RemBlob(d), end))
        },
        FieldKind::Nbt => read_field_nbt(bytes, pos),
        _ => read_field_be(bytes, pos, k),
    }
}

/// Decode the fields of a schema in declared order, strictly. Fails exactly
/// when the schema parses nothing at `pos`.
#[verifier::rlimit(100)]
pub fn decode_fields(bytes: &[u8], kinds: &Vec<FieldKind>, pos: usize) -> (r: Result<
    (Vec<FieldValue>, usize),
    DecodeError,
>)
    requires
        pos <= bytes@.len(),
    ensures
        match r {
            Ok((vs, end)) => pos <= end <= bytes@.len() && vs@.len() == kinds@.len()
                && fields_parse(bytes@, pos as int, end as int, kinds@, vs@),
            Err(e) => fields_err(bytes@, pos as int, kinds@) == Some(e) && !(e matches
                DecodeError::UnknownPacketType { .. }) && forall|vs: Seq<FieldValue>, end: int|
                !fields_parse(bytes@, pos as int, end, kinds@, vs),
        },
{
    let ghost ks = kinds@;
    let mut acc: Vec<FieldValue> = Vec::new();
    let mut cur: usize = pos;
    let mut i: usize = 0;
    proof {
        assert(ks.take(0) =~= Seq::<FieldKind>::empty());
        assert(acc@ =~= Seq::<FieldValue>::empty());
        assert(ks.skip(0) =~= ks);
        assert(fields_err(bytes@, pos as int, ks) == fields_err(bytes@, pos as int, ks.skip(0)));
        assert forall|vs: Seq<FieldValue>, end: int|
            #[trigger] fields_parse(bytes@, pos as int, end, ks, vs) implies fields_parse(
            bytes@,
            cur as int,
            end,
            ks.skip(0),
            vs.skip(0),
        ) by {
            assert(vs.skip(0) =~= vs);
        }
    }
    while i < kinds.len()
        invariant
            i <= ks.len(),
            ks == kinds@,
            acc@.len() == i as nat,
            pos <= cur <= bytes@.len(),
            fields_parse(bytes@, pos as int, cur as int, ks.take(i as int), acc@),
            fields_err(bytes@, pos as int, ks) == fields_err(bytes@, cur as int, ks.skip(i as int)),
            forall|vs: Seq<FieldValue>, end: int|
                #[trigger] fields_parse(bytes@, pos as int, end, ks, vs) ==> fields_parse(
                    bytes@,
                    cur as int,
                    end,
                    ks.skip(i as int),
                    vs.skip(i as int),
                ),
        decreases ks.len() - i,
    {
        let ghost prev_cur = cur as int;
        let ghost prev_acc = acc@;
        match read_field(bytes, cur, kinds[i]) {
            Ok((v, e)) => {
                acc.push(v);
                cur = e;
                i = i + 1;
                proof {
                    lemma_field_end_is(bytes@, prev_cur, cur as int, ks[i - 1], v);
                    assert(ks.skip(i - 1)[0] == ks[i - 1]);
                    assert(ks.skip(i - 1).skip(1) =~= ks.skip(i as int));
                    assert(fields_err(bytes@, prev_cur, ks.skip(i - 1)) == fields_err(
                        bytes@,
                        cur as int,
                        ks.skip(i as int),
                    ));
                    lemma_fields_parse_snoc(
                        bytes@,
                        pos as int,
                        prev_cur,
                        cur as int,
                        ks.take(i - 1),
                        prev_acc,
                        ks[i - 1],
                        v,
                    );
                    assert(ks.take(i as int) =~= ks.take(i - 1).push(ks[i - 1]));
                    assert(acc@ =~= prev_acc.push(v));
                    assert forall|vs: Seq<FieldValue>, end: int|
                        #[trigger] fields_parse(bytes@, pos as int, end, ks, vs) implies
                        fields_parse(
                        bytes@,
                        cur as int,
                        end,
                        ks.skip(i as int),
                        vs.skip(i as int),
                    ) by {
                        assert(fields_parse(
                            bytes@,
                            prev_cur,
                            end,
                            ks.skip(i - 1),
                            vs.skip(i - 1),
                        ));
                        let m = choose|m: int|
                            #[trigger] field_parses(
                                bytes@,
                                prev_cur,
                                m,
                                ks.skip(i - 1)[0],
                                vs.skip(i - 1)[0],
                            ) && fields_parse(
                                bytes@,
                                m,
                                end,
                                ks.skip(i - 1).skip(1),
                                vs.skip(i - 1).skip(1),
                            );
                        lemma_field_parses_unique(
                            bytes@,
                            prev_cur,
                            m,
                            cur as int,
                            ks[i - 1],
                            vs.skip(i - 1)[0],
                            v,
                        );
                        assert(ks.skip(i - 1).skip(1) =~= ks.skip(i as int));
                        assert(vs.skip(i - 1).skip(1) =~= vs.skip(i as int));
                    }
                }
            },
            Err(e) => {
                proof {
                    lemma_field_end_none(bytes@, cur as int, ks[i as int]);
                    assert(ks.skip(i as int)[0] == ks[i as int]);
                    assert(fields_err(bytes@, cur as int, ks.skip(i as int)) == field_err(
                        bytes@,
                        cur as int,
                        ks[i as int],
                    ));
                    assert(fields_err(bytes@, pos as int, ks) == Some(e));
                    assert forall|vs: Seq<FieldValue>, end: int|
                        !fields_parse(bytes@, pos as int, end, ks, vs) by {
                        if fields_parse(bytes@, pos as int, end, ks, vs) {
                            assert(fields_parse(
                                bytes@,
                                cur as int,
                                end,
                                ks.skip(i as int),
                                vs.skip(i as int),
                            ));
                            let m = choose|m: int|
                                #[trigger] field_parses(
                                    bytes@,
                                    cur as int,
                                    m,
                                    ks.skip(i as int)[0],
                                    vs.skip(i as int)[0],
                                ) && fields_parse(
                                    bytes@,
                                    m,
                                    end,
                                    ks.skip(i as int).skip(1),
                                    vs.skip(i as int).skip(1),
                                );
                            assert(field_parses(
                                bytes@,
                                cur as int,
                                m,
                                ks[i as int],
                                vs.skip(i as int)[0],
                            ));
                        }
                    }
                }
                return Err(e);
            },
        }
    }
    proof {
        assert(ks.take(ks.len() as int) =~= ks);
    }
    Ok((acc, cur))
}

/// Encode one field value of kind `k`.
fn encode_field(out: &mut Vec<u8>, k: FieldKind, v: &FieldValue) -> (r: Result<(), EncodeError>)
    requires
        kind_matches(k, *v),
    ensures
        match r {
            Ok(()) => final(out)@ == old(out)@ + field_bytes(*v) && field_ok(k, *v),
            Err(_) => final(out)@ == old(out)@ && !field_ok(k, *v),
        },
{
    proof {
        lemma_pow256_values();
    }
    match (k, v) {
        (FieldKind::U8, FieldValue::U8(x)) => {
            write_be(out, *x as u64, 1);
            Ok(())
        },
        (FieldKind::U16, FieldValue::U16(x)) => {
            write_be(out, *x as u64, 2);
            Ok(())
        },
        (FieldKind::U32, FieldValue::U32(x)) => {
            write_be(out, *x as u64, 4);
            Ok(())
        },
        (FieldKind::U64, FieldValue::U64(x)) => {
            write_be(out, *x, 8);
            Ok(())
        },
        (FieldKind::I8, FieldValue::I8(x)) => {
            let y = *x as u8;
            write_be(out, y as u64, 1);
            Ok(())
        },
        (FieldKind::I16, FieldValue::I16(x)) => {
            let y = *x as u16;
            write_be(out, y as u64, 2);
            Ok(())
        },
        (FieldKind::I32, FieldValue::I32(x)) => {
            let y = *x as u32;
            write_be(out, y as u64, 4);
            Ok(())
        },
        (FieldKind::I64, FieldValue::I64(x)) => {
            let y = *x as u64;
            write_be(out, y, 8);
            Ok(())
        },
        (FieldKind::F32Bits, FieldValue::F32Bits(x)) => {
            write_be(out, *x as u64, 4);
            Ok(())
        },
        (FieldKind::F64Bits, FieldValue::F64Bits(x)) => {
            write_be(out, *x, 8);
            Ok(())
        },
        (FieldKind::Bool, FieldValue::Bool(x)) => {
            write_bool(out, *x);
            Ok(())
        },
        (FieldKind::VarInt, FieldValue::VarInt(x)) => {
            let y = *x as u32;
            write_varint_u32(out, y);
            Ok(())
        },
        (FieldKind::Str { max }, FieldValue::Str(s)) => write_string(out, s, max),
        (FieldKind::StrSeq { max }, FieldValue::StrSeq(ss)) => write_strings(out, ss, max),
        (FieldKind::LenBlob, FieldValue::LenBlob(d)) => write_len_blob(out, d.as_slice()),
        (FieldKind::RemBlob, FieldValue::RemBlob(d)) => {
            write_bytes(out, d.as_slice());
            Ok(())
        },
        (FieldKind::Nbt, FieldValue::Nbt(d)) => {
            match crate::foreign::read_tag_rest(d.as_slice()) {
                Some(rem) => {
                    if rem == 0 {
                        proof {
                            let pre = d@.subrange(0, d@.len() - rem as int);
                            assert(pre =~= d@);
                            assert(nbt_exact(d@));
                        }
                        write_bytes(out, d.as_slice());
                        Ok(())
                    } else {
                        proof {
                            let pre = d@.subrange(0, d@.len() - rem as int);
                            assert(d@.subrange(0, pre.len() as int) == pre);
                            assert(nbt_span(d@) == Some(pre.len() as int));
                            if nbt_exact(d@) {
                                assert(d@.subrange(0, d@.len() as int) =~= d@);
                                assert(nbt_span(d@) == Some(d@.len() as int));
                            }
                            assert(!nbt_exact(d@));
                        }
                        Err(EncodeError::MalformedTag)
                    }
                },
                None => {
                    proof {
                        if nbt_exact(d@) {
                            assert(d@.subrange(0, d@.len() as int) =~= d@);
                            assert(nbt_span(d@) == Some(d@.len() as int));
                        }
                        assert(!nbt_exact(d@));
                    }
                    Err(EncodeError::MalformedTag)
                },
            }
        },
        _ => unreached(),
    }
}

/// Encode the fields of a schema in declared order; on any refused field the
/// output is left untouched.
pub fn encode_fields(kinds: &Vec<FieldKind>, vs: &Vec<FieldValue>, out: &mut Vec<u8>) -> (r:
    Result<(), EncodeError>)
    requires
        kinds@.len() == vs@.len(),
        forall|i: int| 0 <= i < kinds@.len() ==> kind_matches(#[trigger] kinds@[i], vs@[i]),
    ensures
        match r {
            Ok(()) => final(out)@ == old(out)@ + fields_bytes(vs@) && fields_ok(kinds@, vs@),
            Err(_) => final(out)@ == old(out)@ && !fields_ok(kinds@, vs@),
        },
{
    let mut tmp: Vec<u8> = Vec::new();
    let mut i: usize = 0;
    proof {
        assert(tmp@ =~= fields_bytes(vs@.take(0)));
    }
    while i < kinds.len()
        invariant
            i <= kinds@.len(),
            kinds@.len() == vs@.len(),
            forall|j: int| 0 <= j < kinds@.len() ==> kind_matches(#[trigger] kinds@[j], vs@[j]),
            tmp@ == fields_bytes(vs@.take(i as int)),
            forall|j: int| 0 <= j < i as int ==> field_ok(#[trigger] kinds@[j], vs@[j]),
        decreases kinds@.len() - i,
    {
        let ghost before = vs@.take(i as int);
        match encode_field(&mut tmp, kinds[i], &vs[i]) {
            Ok(()) => {},
            Err(e) => {
                return Err(e);
            },
        }
        i = i + 1;
        proof {
            lemma_fields_bytes_push(before, vs@[i - 1]);
            assert(vs@.take(i as int) =~= before.push(vs@[i - 1]));
        }
    }
    proof {
        assert(vs@.take(vs@.len() as int) =~= vs@);
    }
    write_bytes(out, tmp.as_slice());
    Ok(())
}


/// Same shape and same content: `b` carries what `a` carries, compared by
/// view for owned payloads.
pub open spec fn fv_like(a: FieldValue, b: FieldValue) -> bool {
    match (a, b) {
        (FieldValue::U8(x), FieldValue::U8(y)) => x == y,
        (FieldValue::U16(x), FieldValue::U16(y)) => x == y,
        (FieldValue::U32(x), FieldValue::U32(y)) => x == y,
        (FieldValue::U64(x), FieldValue::U64(y)) => x == y,
        (FieldValue::I8(x), FieldValue::I8(y)) => x == y,
        (FieldValue::I16(x), FieldValue::I16(y)) => x == y,
        (FieldValue::I32(x), FieldValue::I32(y)) => x == y,
        (FieldValue::I64(x), FieldValue::I64(y)) => x == y,
        (FieldValue::F32Bits(x), FieldValue::F32Bits(y)) => x == y,
        (FieldValue::F64Bits(x), FieldValue::F64Bits(y)) => x == y,
        (FieldValue::Bool(x), FieldValue::Bool(y)) => x == y,
        (FieldValue::VarInt(x), FieldValue::VarInt(y)) => x == y,
        (FieldValue::Str(s1), FieldValue::Str(s2)) => s1@ == s2@,
        (FieldValue::StrSeq(w1), FieldValue::StrSeq(w2)) => w1.deep_view() == w2.deep_view(),
        (FieldValue::LenBlob(d1), FieldValue::LenBlob(d2)) => d1@ == d2@,
        (FieldValue::RemBlob(d1), FieldValue::RemBlob(d2)) => d1@ == d2@,
        (FieldValue::Nbt(d1), FieldValue::Nbt(d2)) => d1@ == d2@,
        _ => false,
    }
}

pub proof fn lemma_fv_like(k: FieldKind, a: FieldValue, b: FieldValue)
    requires
        fv_like(a, b),
    ensures
        field_bytes(a) == field_bytes(b),
        kind_matches(k, a) == kind_matches(k, b),
        field_ok(k, a) == field_ok(k, b),
{
}

/// Like values field for field give the same bytes and pass the same checks.
pub proof fn lemma_fvs_like(ks: Seq<FieldKind>, vs1: Seq<FieldValue>, vs2: Seq<FieldValue>)
    requires
        vs1.len() == vs2.len(),
        ks.len() == vs1.len(),
        forall|i: int| 0 <= i < vs1.len() ==> fv_like(#[trigger] vs1[i], vs2[i]),
    ensures
        fields_bytes(vs1) == fields_bytes(vs2),
        fields_ok(ks, vs1) == fields_ok(ks, vs2),
        forall|i: int|
            0 <= i < ks.len() ==> kind_matches(#[trigger] ks[i], vs1[i]) == kind_matches(
                ks[i],
                vs2[i],
            ),
    decreases ks.len(),
{
    assert forall|i: int|
        0 <= i < ks.len() implies kind_matches(#[trigger] ks[i], vs1[i]) == kind_matches(
        ks[i],
        vs2[i],
    ) && field_ok(ks[i], vs1[i]) == field_ok(ks[i], vs2[i]) by {
        lemma_fv_like(ks[i], vs1[i], vs2[i]);
    }
    if ks.len() > 0 {
        lemma_fv_like(ks[0], vs1[0], vs2[0]);
        assert forall|i: int|
            0 <= i < vs1.skip(1).len() implies fv_like(#[trigger] vs1.skip(1)[i], vs2.skip(1)[i]) by {
            assert(vs1.skip(1)[i] == vs1[i + 1] && vs2.skip(1)[i] == vs2[i + 1]);
        }
        lemma_fvs_like(ks.skip(1), vs1.skip(1), vs2.skip(1));
        assert(fields_bytes(vs1) == field_bytes(vs1[0]) + fields_bytes(vs1.skip(1)));
        assert(fields_bytes(vs2) == field_bytes(vs2[0]) + fields_bytes(vs2.skip(1)));
    } else {
        assert(fields_bytes(vs1) =~= fields_bytes(vs2));
    }
}

} // verus!
