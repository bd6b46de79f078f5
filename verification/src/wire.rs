use vstd::prelude::*;
use vstd::arithmetic::div_mod::{
    lemma_div_multiples_vanish_fancy, lemma_fundamental_div_mod, lemma_mod_multiples_vanish,
    lemma_small_mod,
};
use vstd::slice::{slice_subrange, slice_to_vec};
use vstd::utf8::{decode_utf8, encode_utf8, encode_utf8_valid_utf8, decode_utf8_encode_utf8, valid_utf8};
use crate::error::{DecodeError, EncodeError};
use crate::foreign::string_from_utf8;

verus! {

broadcast use vstd::utf8::encode_utf8_valid_utf8, vstd::utf8::decode_utf8_encode_utf8, vstd::utf8::encode_utf8_decode_utf8;

/// `p` stands at position `pos` of `b`.
pub open spec fn prefix_at(b: Seq<u8>, pos: int, p: Seq<u8>) -> bool {
    &&& 0 <= pos
    &&& pos + p.len() <= b.len()
    &&& b.subrange(pos, pos + p.len()) == p
}

pub proof fn lemma_subrange_join(b: Seq<u8>, p: int, q: int, r: int)
    requires
        0 <= p <= q <= r <= b.len(),
    ensures
        b.subrange(p, r) == b.subrange(p, q) + b.subrange(q, r),
{
    assert(b.subrange(p, r) =~= b.subrange(p, q) + b.subrange(q, r));
}

/// Two encodings standing at the same position: the shorter is a prefix of a
/// split of the longer.
pub proof fn lemma_prefix_concat(b: Seq<u8>, pos: int, x: Seq<u8>, y: Seq<u8>)
    requires
        prefix_at(b, pos, x + y),
    ensures
        prefix_at(b, pos, x),
        prefix_at(b, pos + x.len(), y),
{
    lemma_subrange_join(b, pos, pos + x.len(), pos + x.len() + y.len());
    assert(b.subrange(pos, pos + x.len()) =~= (x + y).subrange(0, x.len() as int));
    assert(b.subrange(pos + x.len(), pos + x.len() + y.len()) =~= (x + y).subrange(
        x.len() as int,
        (x + y).len() as int,
    ));
    assert((x + y).subrange(0, x.len() as int) =~= x);
    assert((x + y).subrange(x.len() as int, (x + y).len() as int) =~= y);
}

// ------------------------------------------------------------------
// Fixed-width big-endian integers
// ------------------------------------------------------------------
pub open spec fn pow256(n: nat) -> nat
    decreases n,
{
    if n == 0 {
        1
    } else {
        256 * pow256((n - 1) as nat)
    }
}

/// The `n`-byte big-endian encoding of `v`.
pub open spec fn be_bytes(v: nat, n: nat) -> Seq<u8>
    decreases n,
{
    if n == 0 {
        Seq::empty()
    } else {
        be_bytes(v / 256, (n - 1) as nat).push((v % 256) as u8)
    }
}

/// The value read back from big-endian bytes.
pub open spec fn be_val(b: Seq<u8>) -> nat
    decreases b.len(),
{
    if b.len() == 0 {
        0
    } else {
        (be_val(b.drop_last()) * 256 + b.last()) as nat
    }
}

pub broadcast proof fn lemma_be_bytes_len(v: nat, n: nat)
    ensures
        (#[trigger] be_bytes(v, n)).len() == n,
    decreases n,
{
    if n > 0 {
        lemma_be_bytes_len(v / 256, (n - 1) as nat);
    }
}

pub proof fn lemma_pow256_values()
    ensures
        pow256(1) == 0x100,
        pow256(2) == 0x1_0000,
        pow256(4) == 0x1_0000_0000,
        pow256(7) == 0x100_0000_0000_0000,
        pow256(8) == 0x1_0000_0000_0000_0000,
{
    assert(pow256(0) == 1);
    assert(pow256(1) == 0x100);
    assert(pow256(2) == 0x1_0000);
    assert(pow256(3) == 0x100_0000);
    assert(pow256(4) == 0x1_0000_0000);
    assert(pow256(5) == 0x100_0000_0000);
    assert(pow256(6) == 0x1_0000_0000_0000);
    assert(pow256(7) == 0x100_0000_0000_0000);
    assert(pow256(8) == 0x1_0000_0000_0000_0000);
}

/// Big-endian bytes recompose to the value they were read from.
pub proof fn lemma_be_bytes_be_val(b: Seq<u8>)
    ensures
        be_val(b) < pow256(b.len() as nat),
        be_bytes(be_val(b), b.len() as nat) == b,
    decreases b.len(),
{
    if b.len() == 0 {
        assert(be_bytes(0, 0) =~= b);
    } else {
        let dl = b.drop_last();
        lemma_be_bytes_be_val(dl);
        let a = be_val(dl);
        let c = b.last() as nat;
        assert(a * 256 + c < pow256(b.len() as nat)) by {
            assert(a <= pow256(dl.len() as nat) - 1);
            assert(a * 256 <= (pow256(dl.len() as nat) - 1) * 256) by (nonlinear_arith)
                requires
                    a <= pow256(dl.len() as nat) - 1,
            ;
        }
        lemma_div_multiples_vanish_fancy(a as int, c as int, 256);
        lemma_mod_multiples_vanish(a as int, c as int, 256);
        lemma_small_mod(c, 256);
        assert((a * 256 + c) % 256 == c);
        assert((a * 256 + c) / 256 == a) by {
            assert(256 * a + c == a * 256 + c);
        }
        assert(be_bytes(be_val(b), b.len() as nat) =~= b);
    }
}

/// Read `n` big-endian bytes as an unsigned value. Fails exactly when fewer
/// than `n` bytes remain.
pub fn read_be(bytes: &[u8], pos: usize, n: usize) -> (r: Result<(u64, usize), DecodeError>)
    requires
        n <= 8,
    ensures
        match r {
            Ok((v, end)) => end == pos + n && end <= bytes@.len() && (v as nat) < pow256(n as nat)
                && bytes@.subrange(pos as int, end as int) == be_bytes(v as nat, n as nat),
            Err(e) => e == DecodeError::Truncated && pos + n > bytes@.len(),
        },
{
    let len = bytes.len();
    if pos > len || len - pos < n {
        return Err(DecodeError::Truncated);
    }
    proof {
        lemma_pow256_values();
        assert(bytes@.subrange(pos as int, pos as int) =~= Seq::<u8>::empty());
    }
    let mut v: u64 = 0;
    let mut i: usize = 0;
    while i < n
        invariant
            i <= n <= 8,
            pos + n <= bytes@.len(),
            bytes@.len() <= usize::MAX,
            (v as nat) < pow256(i as nat),
            v as nat == be_val(bytes@.subrange(pos as int, pos + i)),
        decreases n - i,
    {
        proof {
            lemma_pow256_values();
            lemma_pow256_mono(i as nat, 7);
            assert((v as nat) * 256 + 256 <= pow256((i + 1) as nat)) by (nonlinear_arith)
                requires
                    (v as nat) < pow256(i as nat),
                    pow256((i + 1) as nat) == 256 * pow256(i as nat),
            ;
        }
        let b = bytes[pos + i];
        v = v * 256 + (b as u64);
        i = i + 1;
        proof {
            let sub1 = bytes@.subrange(pos as int, pos + i);
            let sub0 = bytes@.subrange(pos as int, pos + i - 1);
            assert(sub1.drop_last() =~= sub0);
            assert(sub1.last() == bytes@[pos + i - 1]);
        }
    }
    proof {
        lemma_be_bytes_be_val(bytes@.subrange(pos as int, pos + n));
    }
    Ok((v, pos + n))
}

pub proof fn lemma_pow256_mono(m: nat, n: nat)
    requires
        m <= n,
    ensures
        pow256(m) <= pow256(n),
    decreases n,
{
    if m < n {
        lemma_pow256_mono(m, (n - 1) as nat);
        assert(pow256(n) == 256 * pow256((n - 1) as nat));
    }
}

/// Write `v` as `n` big-endian bytes.
pub fn write_be(out: &mut Vec<u8>, v: u64, n: usize)
    requires
        n <= 8,
        (v as nat) < pow256(n as nat),
    ensures
        final(out)@ == old(out)@ + be_bytes(v as nat, n as nat),
    decreases n,
{
    if n == 0 {
        assert(old(out)@ + be_bytes(v as nat, 0) =~= old(out)@);
    } else {
        proof {
            assert(pow256(n as nat) == 256 * pow256((n - 1) as nat));
            assert((v as nat) / 256 < pow256((n - 1) as nat)) by (nonlinear_arith)
                requires
                    (v as nat) < 256 * pow256((n - 1) as nat),
            ;
        }
        write_be(out, v / 256, n - 1);
        out.push((v % 256) as u8);
        proof {
            assert((v % 256) as nat == (v as nat) % 256);
            assert(old(out)@ + be_bytes(v as nat, n as nat) =~= (old(out)@ + be_bytes(
                (v as nat) / 256,
                (n - 1) as nat,
            )).push(((v as nat) % 256) as u8));
        }
    }
}

// ------------------------------------------------------------------
// Booleans: one byte, strictly 0 or 1
// ------------------------------------------------------------------
pub open spec fn bool_bytes(v: bool) -> Seq<u8> {
    seq![if v { 1u8 } else { 0u8 }]
}

/// Read a strict boolean byte: 0 and 1 decode, every other byte fails.
pub fn read_bool(bytes: &[u8], pos: usize) -> (r: Result<(bool, usize), DecodeError>)
    ensures
        match r {
            Ok((v, end)) => end == pos + 1 && end <= bytes@.len() && bytes@.subrange(
                pos as int,
                end as int,
            ) == bool_bytes(v),
            Err(e) => {
                &&& e == (if pos >= bytes@.len() {
                    DecodeError::Truncated
                } else {
                    DecodeError::InvalidBool { value: bytes@[pos as int] }
                })
                &&& forall|v: bool| !prefix_at(bytes@, pos as int, bool_bytes(v))
            },
        },
{
    if pos >= bytes.len() {
        return Err(DecodeError::Truncated);
    }
    let b = bytes[pos];
    if b == 0 {
        proof {
            assert(bytes@.subrange(pos as int, pos + 1) =~= bool_bytes(false));
        }
        Ok((false, pos + 1))
    } else if b == 1 {
        proof {
            assert(bytes@.subrange(pos as int, pos + 1) =~= bool_bytes(true));
        }
        Ok((true, pos + 1))
    } else {
        proof {
            assert forall|v: bool| !prefix_at(bytes@, pos as int, bool_bytes(v)) by {
                if prefix_at(bytes@, pos as int, bool_bytes(v)) {
                    assert(bytes@.subrange(pos as int, pos + 1)[0] == bytes@[pos as int]);
                }
            }
        }
        Err(DecodeError::InvalidBool { value: b })
    }
}

pub fn write_bool(out: &mut Vec<u8>, v: bool)
    ensures
        final(out)@ == old(out)@ + bool_bytes(v),
{
    out.push(if v { 1 } else { 0 });
    assert(old(out)@ + bool_bytes(v) =~= old(out)@.push(if v { 1u8 } else { 0u8 }));
}

// ------------------------------------------------------------------
// Variable-length integers, canonical form only
// ------------------------------------------------------------------
/// The canonical variable-length encoding: seven value bits per byte, least
/// significant group first, the high bit marking continuation.
pub open spec fn varint_bytes(v: nat) -> Seq<u8>
    decreases v,
{
    if v < 128 {
        seq![v as u8]
    } else {
        seq![(128 + v % 128) as u8] + varint_bytes(v / 128)
    }
}

pub broadcast proof fn lemma_varint_bytes_len(v: nat)
    ensures
        (#[trigger] varint_bytes(v)).len() >= 1,
    decreases v,
{
}

/// Every byte from `pos` on carries the continuation bit: the source ran
/// out before a terminating byte.
pub open spec fn all_continuation(b: Seq<u8>, pos: int) -> bool {
    forall|j: int| pos <= j < b.len() ==> b[j] >= 128
}

/// The exact error of a failed varint read: the source was exhausted while
/// the continuation bit ran, else a terminator was found but the bytes are
/// the canonical form of no 32-bit value.
pub open spec fn varint_err(b: Seq<u8>, pos: int) -> DecodeError {
    if all_continuation(b, pos) {
        DecodeError::Truncated
    } else {
        DecodeError::NonCanonicalVarInt
    }
}

/// The value whose canonical varint stands at `pos`, when one does.
pub open spec fn varint_at(b: Seq<u8>, pos: int) -> Option<u32> {
    if exists|v: u32| prefix_at(b, pos, varint_bytes(v as nat)) {
        Some(choose|v: u32| prefix_at(b, pos, varint_bytes(v as nat)))
    } else {
        None
    }
}

/// A canonical varint ends with a byte without the continuation bit.
pub proof fn lemma_varint_last_byte(v: nat)
    ensures
        varint_bytes(v).last() < 128,
    decreases v,
{
    broadcast use lemma_varint_bytes_len;

    if v >= 128 {
        lemma_varint_last_byte(v / 128);
        assert(varint_bytes(v).last() == varint_bytes(v / 128).last());
    }
}

/// At one position only one canonical varint can stand.
pub proof fn lemma_varint_unique(b: Seq<u8>, pos: int, v1: nat, v2: nat)
    requires
        prefix_at(b, pos, varint_bytes(v1)),
        prefix_at(b, pos, varint_bytes(v2)),
    ensures
        v1 == v2,
    decreases v1,
{
    let e1 = varint_bytes(v1);
    let e2 = varint_bytes(v2);
    assert(e1[0] == b[pos]);
    assert(e2[0] == b[pos]);
    if v1 < 128 && v2 < 128 {
        assert(v1 as u8 == v2 as u8);
    } else if v1 >= 128 && v2 >= 128 {
        lemma_prefix_concat(b, pos, seq![(128 + v1 % 128) as u8], varint_bytes(v1 / 128));
        lemma_prefix_concat(b, pos, seq![(128 + v2 % 128) as u8], varint_bytes(v2 / 128));
        lemma_varint_unique(b, pos + 1, v1 / 128, v2 / 128);
        assert((128 + v1 % 128) as u8 == (128 + v2 % 128) as u8);
        assert(v1 % 128 == v2 % 128);
        lemma_fundamental_div_mod(v1 as int, 128);
        lemma_fundamental_div_mod(v2 as int, 128);
    } else {
        let (lo, hi) = if v1 < 128 {
            (v1, v2)
        } else {
            (v2, v1)
        };
        assert((lo as u8) == (128 + hi % 128) as u8);
        assert(lo < 128 && 128 + hi % 128 >= 128);
    }
}

pub proof fn lemma_varint_at_is(b: Seq<u8>, pos: int, n: u32)
    requires
        prefix_at(b, pos, varint_bytes(n as nat)),
    ensures
        varint_at(b, pos) == Some(n),
{
    let v2 = choose|v: u32| prefix_at(b, pos, varint_bytes(v as nat));
    lemma_varint_unique(b, pos, v2 as nat, n as nat);
}

pub proof fn lemma_varint_at_none(b: Seq<u8>, pos: int)
    requires
        forall|v: u32| !prefix_at(b, pos, varint_bytes(v as nat)),
    ensures
        varint_at(b, pos) is None,
{
}

/// Read one canonical varint. Fails exactly when no canonical varint that
/// fits in 32 bits stands at `pos`.
pub fn read_varint_u32(bytes: &[u8], pos: usize) -> (r: Result<(u32, usize), DecodeError>)
    ensures
        match r {
            Ok((v, end)) => pos <= end <= bytes@.len() && bytes@.subrange(pos as int, end as int)
                == varint_bytes(v as nat) && prefix_at(bytes@, pos as int, varint_bytes(v as nat)),
            Err(e) => e == varint_err(bytes@, pos as int) && forall|v: u32|
                !prefix_at(bytes@, pos as int, varint_bytes(v as nat)),
        },
    decreases bytes@.len() - pos,
{
    if pos >= bytes.len() {
        proof {
            broadcast use lemma_varint_bytes_len;

            assert(all_continuation(bytes@, pos as int));
        }
        return Err(DecodeError::Truncated);
    }
    let b = bytes[pos];
    if b < 128 {
        proof {
            assert(bytes@.subrange(pos as int, pos + 1) =~= varint_bytes(b as nat));
        }
        Ok((b as u32, pos + 1))
    } else {
        match read_varint_u32(bytes, pos + 1) {
            Err(e) => {
                proof {
                    assert(all_continuation(bytes@, pos as int) == all_continuation(
                        bytes@,
                        pos + 1,
                    )) by {
                        if all_continuation(bytes@, pos + 1) {
                            assert forall|j: int|
                                pos <= j < bytes@.len() implies bytes@[j] >= 128 by {
                                if j > pos as int {
                                    assert(bytes@[j] >= 128);
                                }
                            }
                        }
                    }
                    assert forall|v: u32| !prefix_at(bytes@, pos as int, varint_bytes(v as nat))
                        by {
                        if prefix_at(bytes@, pos as int, varint_bytes(v as nat)) {
                            let vn = v as nat;
                            assert(varint_bytes(vn)[0] == bytes@[pos as int]);
                            if vn < 128 {
                                assert(vn as u8 == b);
                            } else {
                                lemma_prefix_concat(
                                    bytes@,
                                    pos as int,
                                    seq![(128 + vn % 128) as u8],
                                    varint_bytes(vn / 128),
                                );
                                assert(vn / 128 <= vn < 0x1_0000_0000);
                                assert(prefix_at(
                                    bytes@,
                                    pos + 1,
                                    varint_bytes(((vn / 128) as u32) as nat),
                                ));
                            }
                        }
                    }
                }
                Err(e)
            },
            Ok((rest, end)) => {
                let low: u32 = (b - 128) as u32;
                if rest == 0 || rest > (u32::MAX - low) / 128 {
                    proof {
                        assert forall|v: u32| !prefix_at(bytes@, pos as int, varint_bytes(v as nat))
                            by {
                            if prefix_at(bytes@, pos as int, varint_bytes(v as nat)) {
                                let vn = v as nat;
                                assert(varint_bytes(vn)[0] == bytes@[pos as int]);
                                if vn < 128 {
                                    assert(vn as u8 == b);
                                } else {
                                    lemma_prefix_concat(
                                        bytes@,
                                        pos as int,
                                        seq![(128 + vn % 128) as u8],
                                        varint_bytes(vn / 128),
                                    );
                                    lemma_varint_unique(
                                        bytes@,
                                        pos + 1,
                                        vn / 128,
                                        rest as nat,
                                    );
                                    assert((128 + vn % 128) as u8 == b);
                                    assert(vn % 128 == (b - 128) as nat);
                                    lemma_fundamental_div_mod(vn as int, 128);
                                    assert(vn == 128 * (rest as nat) + (low as nat));
                                    assert(rest as nat >= 1);
                                    if rest > (u32::MAX - low) / 128 {
                                        assert(rest as nat * 128 + low as nat > u32::MAX as nat)
                                            by (nonlinear_arith)
                                            requires
                                                rest as nat > ((u32::MAX - low) / 128) as nat,
                                                low < 128,
                                                ((u32::MAX - low) / 128) as nat == (
                                                (u32::MAX as nat - low as nat) / 128),
                                        ;
                                    }
                                }
                            }
                        }
                    }
                    proof {
                        lemma_varint_last_byte(rest as nat);
                        assert(bytes@.subrange(pos + 1, end as int).last() == bytes@[end - 1]);
                        assert(bytes@[end - 1] < 128);
                        assert(!all_continuation(bytes@, pos as int)) by {
                            if all_continuation(bytes@, pos as int) {
                                assert(bytes@[end - 1] >= 128);
                            }
                        }
                    }
                    Err(DecodeError::NonCanonicalVarInt)
                } else {
                    let v: u32 = low + rest * 128;
                    proof {
                        let vn = v as nat;
                        assert(rest as nat * 128 + low as nat <= u32::MAX as nat)
                            by (nonlinear_arith)
                            requires
                                rest as nat <= ((u32::MAX - low) / 128) as nat,
                                low < 128,
                                ((u32::MAX - low) / 128) as nat == ((u32::MAX as nat - low as nat)
                                    / 128),
                        ;
                        assert(vn == (low as nat) + (rest as nat) * 128);
                        lemma_div_multiples_vanish_fancy(rest as int, low as int, 128);
                        lemma_mod_multiples_vanish(rest as int, low as int, 128);
                        lemma_small_mod(low as nat, 128);
                        assert(vn / 128 == rest as nat && vn % 128 == low as nat) by {
                            assert(128 * (rest as int) + (low as int) == (low as int) + (
                            rest as int) * 128);
                        }
                        assert(vn >= 128) by {
                            assert(rest >= 1);
                            assert((rest as nat) * 128 >= 128) by (nonlinear_arith)
                                requires
                                    rest as nat >= 1,
                            ;
                        }
                        assert(varint_bytes(vn) =~= seq![b] + varint_bytes(rest as nat));
                        lemma_subrange_join(bytes@, pos as int, pos + 1, end as int);
                        assert(bytes@.subrange(pos as int, pos + 1) =~= seq![b]);
                        assert(bytes@.subrange(pos as int, end as int) == varint_bytes(vn));
                    }
                    Ok((v, end))
                }
            },
        }
    }
}

/// Write the canonical varint of `v`.
pub fn write_varint_u32(out: &mut Vec<u8>, v: u32)
    ensures
        final(out)@ == old(out)@ + varint_bytes(v as nat),
    decreases v,
{
    if v < 128 {
        out.push(v as u8);
        assert(old(out)@ + varint_bytes(v as nat) =~= old(out)@.push(v as u8));
    } else {
        out.push((128 + v % 128) as u8);
        write_varint_u32(out, v / 128);
        proof {
            assert((v % 128) as nat == (v as nat) % 128 && (v / 128) as nat == (v as nat) / 128);
            assert(old(out)@ + varint_bytes(v as nat) =~= (old(out)@.push(
                (128 + v % 128) as u8,
            )) + varint_bytes((v / 128) as nat));
        }
    }
}

// ------------------------------------------------------------------
// Byte runs
// ------------------------------------------------------------------
/// Append a run of bytes unchanged.
pub fn write_bytes(out: &mut Vec<u8>, d: &[u8])
    ensures
        final(out)@ == old(out)@ + d@,
{
    let mut j: usize = 0;
    proof {
        assert(out@ =~= old(out)@ + d@.subrange(0, 0));
    }
    while j < d.len()
        invariant
            j <= d@.len(),
            out@ == old(out)@ + d@.subrange(0, j as int),
        decreases d@.len() - j,
    {
        out.push(d[j]);
        j = j + 1;
        proof {
            assert(d@.subrange(0, j as int) =~= d@.subrange(0, j - 1).push(d@[j - 1]));
            assert(out@ =~= old(out)@ + d@.subrange(0, j as int));
        }
    }
    proof {
        assert(d@.subrange(0, d@.len() as int) =~= d@);
    }
}

// ------------------------------------------------------------------
// Strings: canonical varint byte length, then UTF-8 bytes
// ------------------------------------------------------------------
pub open spec fn string_field_bytes(s: Seq<char>) -> Seq<u8> {
    varint_bytes(encode_utf8(s).len()) + encode_utf8(s)
}

/// At one position only one string field can stand.
pub proof fn lemma_string_field_unique(b: Seq<u8>, pos: int, t1: Seq<char>, t2: Seq<char>)
    requires
        prefix_at(b, pos, string_field_bytes(t1)),
        prefix_at(b, pos, string_field_bytes(t2)),
    ensures
        t1 == t2,
{
    let e1 = encode_utf8(t1);
    let e2 = encode_utf8(t2);
    lemma_prefix_concat(b, pos, varint_bytes(e1.len()), e1);
    lemma_prefix_concat(b, pos, varint_bytes(e2.len()), e2);
    lemma_varint_unique(b, pos, e1.len(), e2.len());
    assert(e1 == e2);
    assert(decode_utf8(e1) == t1 && decode_utf8(e2) == t2);
}

/// The exact error of a failed bounded-string read at `pos`; `None` when a
/// string within the bound stands there.
pub open spec fn string_err(b: Seq<u8>, pos: int, max: u32) -> Option<DecodeError> {
    match varint_at(b, pos) {
        None => Some(varint_err(b, pos)),
        Some(n) => {
            let start = pos + varint_bytes(n as nat).len();
            if n > max {
                Some(DecodeError::StringTooLong { length: n as usize, max_length: max as usize })
            } else if start + n > b.len() {
                Some(DecodeError::Truncated)
            } else if !valid_utf8(b.subrange(start, start + n)) {
                Some(DecodeError::InvalidUtf8)
            } else {
                None
            }
        },
    }
}

/// Read one length-prefixed UTF-8 string of at most `max` encoded bytes.
/// Fails exactly when no such string stands at `pos`.
pub fn read_string(bytes: &[u8], pos: usize, max: u32) -> (r: Result<
    (String, usize),
    DecodeError,
>)
    ensures
        match r {
            Ok((s, end)) => pos <= end <= bytes@.len() && bytes@.subrange(pos as int, end as int)
                == string_field_bytes(s@) && encode_utf8(s@).len() <= max,
            Err(e) => string_err(bytes@, pos as int, max) == Some(e) && !(e matches
                DecodeError::UnknownPacketType { .. }) && forall|t: Seq<char>|
                encode_utf8(t).len() <= max ==> !prefix_at(bytes@, pos as int, string_field_bytes(t)),
        },
{
    let (n, p1) = match read_varint_u32(bytes, pos) {
        Ok(x) => x,
        Err(e) => {
            proof {
                assert forall|t: Seq<char>|
                    encode_utf8(t).len() <= max implies !prefix_at(
                    bytes@,
                    pos as int,
                    string_field_bytes(t),
                ) by {
                    if prefix_at(bytes@, pos as int, string_field_bytes(t)) {
                        lemma_prefix_concat(
                            bytes@,
                            pos as int,
                            varint_bytes(encode_utf8(t).len()),
                            encode_utf8(t),
                        );
                        assert(prefix_at(
                            bytes@,
                            pos as int,
                            varint_bytes((encode_utf8(t).len() as u32) as nat),
                        ));
                    }
                }
                lemma_varint_at_none(bytes@, pos as int);
            }
            return Err(e);
        },
    };
    proof {
        lemma_varint_at_is(bytes@, pos as int, n);
        assert(p1 as int == pos + varint_bytes(n as nat).len());
    }
    if n > max {
        proof {
            assert forall|t: Seq<char>|
                encode_utf8(t).len() <= max implies !prefix_at(
                bytes@,
                pos as int,
                string_field_bytes(t),
            ) by {
                if prefix_at(bytes@, pos as int, string_field_bytes(t)) {
                    lemma_prefix_concat(
                        bytes@,
                        pos as int,
                        varint_bytes(encode_utf8(t).len()),
                        encode_utf8(t),
                    );
                    lemma_varint_unique(bytes@, pos as int, encode_utf8(t).len(), n as nat);
                }
            }
        }
        return Err(DecodeError::StringTooLong { length: n as usize, max_length: max as usize });
    }
    if (bytes.len() < p1) || (bytes.len() - p1 < n as usize) {
        proof {
            assert forall|t: Seq<char>|
                encode_utf8(t).len() <= max implies !prefix_at(
                bytes@,
                pos as int,
                string_field_bytes(t),
            ) by {
                if prefix_at(bytes@, pos as int, string_field_bytes(t)) {
                    lemma_prefix_concat(
                        bytes@,
                        pos as int,
                        varint_bytes(encode_utf8(t).len()),
                        encode_utf8(t),
                    );
                    lemma_varint_unique(bytes@, pos as int, encode_utf8(t).len(), n as nat);
                }
            }
        }
        return Err(DecodeError::Truncated);
    }
    let end = p1 + n as usize;
    let sub = slice_subrange(bytes, p1, end);
    let v = slice_to_vec(sub);
    match string_from_utf8(v) {
        Some(s) => {
            proof {
                lemma_subrange_join(bytes@, pos as int, p1 as int, end as int);
                assert(encode_utf8(s@) == bytes@.subrange(p1 as int, end as int));
                assert(bytes@.subrange(pos as int, end as int) == string_field_bytes(s@));
            }
            Ok((s, end))
        },
        None => {
            proof {
                assert forall|t: Seq<char>|
                    encode_utf8(t).len() <= max implies !prefix_at(
                    bytes@,
                    pos as int,
                    string_field_bytes(t),
                ) by {
                    if prefix_at(bytes@, pos as int, string_field_bytes(t)) {
                        lemma_prefix_concat(
                            bytes@,
                            pos as int,
                            varint_bytes(encode_utf8(t).len()),
                            encode_utf8(t),
                        );
                        lemma_varint_unique(bytes@, pos as int, encode_utf8(t).len(), n as nat);
                        assert(encode_utf8(t) == bytes@.subrange(p1 as int, end as int));
                    }
                }
                assert(string_err(bytes@, pos as int, max) == Some(DecodeError::InvalidUtf8));
            }
            Err(DecodeError::InvalidUtf8)
        },
    }
}

/// Write one length-prefixed string, refusing one whose UTF-8 byte length
/// exceeds `max`.
pub fn write_string(out: &mut Vec<u8>, s: &String, max: u32) -> (r: Result<(), EncodeError>)
    ensures
        match r {
            Ok(()) => final(out)@ == old(out)@ + string_field_bytes(s@) && encode_utf8(s@).len()
                <= max,
            Err(e) => final(out)@ == old(out)@ && encode_utf8(s@).len() > max && e
                == (EncodeError::StringTooLong {
                length: encode_utf8(s@).len() as usize,
                max_length: max as usize,
            }),
        },
{
    let bv = s.as_str().as_bytes_vec();
    let bl = bv.len();
    if bl > max as usize {
        return Err(EncodeError::StringTooLong { length: bl, max_length: max as usize });
    }
    write_varint_u32(out, bl as u32);
    write_bytes(out, bv.as_slice());
    proof {
        assert(out@ =~= old(out)@ + string_field_bytes(s@));
    }
    Ok(())
}

// ------------------------------------------------------------------
// Ordered sequences of strings: varint count, then each string
// ------------------------------------------------------------------
pub open spec fn strings_bytes(tt: Seq<Seq<char>>) -> Seq<u8>
    decreases tt.len(),
{
    if tt.len() == 0 {
        Seq::empty()
    } else {
        string_field_bytes(tt[0]) + strings_bytes(tt.skip(1))
    }
}

pub open spec fn str_seq_bytes(tt: Seq<Seq<char>>) -> Seq<u8> {
    varint_bytes(tt.len()) + strings_bytes(tt)
}

pub open spec fn str_seq_ok(tt: Seq<Seq<char>>, max: nat) -> bool {
    &&& tt.len() <= u32::MAX
    &&& forall|i: int| 0 <= i < tt.len() ==> encode_utf8(#[trigger] tt[i]).len() <= max
}

pub proof fn lemma_strings_bytes_push(tt: Seq<Seq<char>>, t: Seq<char>)
    ensures
        strings_bytes(tt.push(t)) == strings_bytes(tt) + string_field_bytes(t),
    decreases tt.len(),
{
    if tt.len() == 0 {
        assert(tt.push(t).skip(1) =~= Seq::<Seq<char>>::empty());
        assert(tt.push(t)[0] == t);
        assert(strings_bytes(tt.push(t)) == string_field_bytes(t) + strings_bytes(
            Seq::<Seq<char>>::empty(),
        ));
        assert(strings_bytes(tt.push(t)) =~= strings_bytes(tt) + string_field_bytes(t));
    } else {
        assert(tt.push(t).skip(1) =~= tt.skip(1).push(t));
        lemma_strings_bytes_push(tt.skip(1), t);
        assert(tt.push(t)[0] == tt[0]);
        assert(strings_bytes(tt.push(t)) == string_field_bytes(tt[0]) + strings_bytes(
            tt.skip(1).push(t),
        ));
        assert(strings_bytes(tt.push(t)) =~= strings_bytes(tt) + string_field_bytes(t));
    }
}

pub proof fn lemma_strings_bytes_split(tt: Seq<Seq<char>>, i: int)
    requires
        0 <= i <= tt.len(),
    ensures
        strings_bytes(tt) == strings_bytes(tt.take(i)) + strings_bytes(tt.skip(i)),
    decreases i,
{
    if i == 0 {
        assert(tt.take(0) =~= Seq::<Seq<char>>::empty());
        assert(tt.skip(0) =~= tt);
        assert(strings_bytes(tt) =~= strings_bytes(tt.take(0)) + strings_bytes(tt.skip(0)));
    } else {
        lemma_strings_bytes_split(tt, i - 1);
        assert(tt.take(i) =~= tt.take(i - 1).push(tt[i - 1]));
        lemma_strings_bytes_push(tt.take(i - 1), tt[i - 1]);
        assert(tt.skip(i - 1)[0] == tt[i - 1]);
        assert(tt.skip(i - 1).skip(1) =~= tt.skip(i));
        assert(strings_bytes(tt.skip(i - 1)) == string_field_bytes(tt[i - 1]) + strings_bytes(
            tt.skip(i),
        ));
        assert(strings_bytes(tt) =~= strings_bytes(tt.take(i)) + strings_bytes(tt.skip(i)));
    }
}

/// The exact error of reading `count` strings standing in order at `pos`;
/// `None` when all of them stand there.
pub open spec fn strings_err(b: Seq<u8>, pos: int, count: nat, max: u32) -> Option<DecodeError>
    decreases count,
{
    if count == 0 {
        None
    } else if exists|t: Seq<char>|
        encode_utf8(t).len() <= max && prefix_at(b, pos, string_field_bytes(t)) {
        let t = choose|t: Seq<char>|
            encode_utf8(t).len() <= max && prefix_at(b, pos, string_field_bytes(t));
        strings_err(b, pos + string_field_bytes(t).len(), (count - 1) as nat, max)
    } else {
        string_err(b, pos, max)
    }
}

/// The exact error of a failed string-sequence read at `pos`.
pub open spec fn str_seq_err(b: Seq<u8>, pos: int, max: u32) -> Option<DecodeError> {
    match varint_at(b, pos) {
        None => Some(varint_err(b, pos)),
        Some(n) => strings_err(b, pos + varint_bytes(n as nat).len(), n as nat, max),
    }
}

proof fn lemma_strings_err_step(b: Seq<u8>, pos: int, count: nat, max: u32, t0: Seq<char>)
    requires
        count > 0,
        encode_utf8(t0).len() <= max,
        prefix_at(b, pos, string_field_bytes(t0)),
    ensures
        strings_err(b, pos, count, max) == strings_err(
            b,
            pos + string_field_bytes(t0).len(),
            (count - 1) as nat,
            max,
        ),
{
    let t = choose|t: Seq<char>|
        encode_utf8(t).len() <= max && prefix_at(b, pos, string_field_bytes(t));
    lemma_string_field_unique(b, pos, t, t0);
}

/// Read a varint-counted sequence of strings, each of at most `max` encoded
/// bytes. Fails exactly when no such sequence stands at `pos`.
#[verifier::rlimit(100)]
pub fn read_strings(bytes: &[u8], pos: usize, max: u32) -> (r: Result<
    (Vec<String>, usize),
    DecodeError,
>)
    ensures
        match r {
            Ok((ss, end)) => pos <= end <= bytes@.len() && bytes@.subrange(pos as int, end as int)
                == str_seq_bytes(ss.deep_view()) && str_seq_ok(ss.deep_view(), max as nat),
            Err(e) => str_seq_err(bytes@, pos as int, max) == Some(e) && !(e matches
                DecodeError::UnknownPacketType { .. }) && forall|tt: Seq<Seq<char>>|
                str_seq_ok(tt, max as nat) ==> !prefix_at(bytes@, pos as int, str_seq_bytes(tt)),
        },
{
    let (n, p1) = match read_varint_u32(bytes, pos) {
        Ok(x) => x,
        Err(e) => {
            proof {
                assert forall|tt: Seq<Seq<char>>|
                    str_seq_ok(tt, max as nat) implies !prefix_at(
                    bytes@,
                    pos as int,
                    str_seq_bytes(tt),
                ) by {
                    if prefix_at(bytes@, pos as int, str_seq_bytes(tt)) {
                        lemma_prefix_concat(
                            bytes@,
                            pos as int,
                            varint_bytes(tt.len()),
                            strings_bytes(tt),
                        );
                        assert(prefix_at(
                            bytes@,
                            pos as int,
                            varint_bytes((tt.len() as u32) as nat),
                        ));
                    }
                }
                lemma_varint_at_none(bytes@, pos as int);
            }
            return Err(e);
        },
    };
    proof {
        lemma_varint_at_is(bytes@, pos as int, n);
    }
    let mut acc: Vec<String> = Vec::new();
    let mut cur: usize = p1;
    let mut i: u32 = 0;
    proof {
        assert(acc.deep_view() =~= Seq::<Seq<char>>::empty());
        assert(bytes@.subrange(pos as int, cur as int) =~= varint_bytes(n as nat) + strings_bytes(
            acc.deep_view(),
        ));
    }
    while i < n
        invariant
            i <= n,
            acc.deep_view().len() == i as nat,
            acc@.len() == i as nat,
            pos <= cur <= bytes@.len(),
            prefix_at(bytes@, pos as int, varint_bytes(n as nat)),
            p1 as int == pos + varint_bytes(n as nat).len(),
            strings_err(bytes@, p1 as int, n as nat, max) == strings_err(
                bytes@,
                cur as int,
                (n - i) as nat,
                max,
            ),
            bytes@.subrange(pos as int, cur as int) == varint_bytes(n as nat) + strings_bytes(
                acc.deep_view(),
            ),
            forall|j: int|
                0 <= j < i as int ==> encode_utf8(#[trigger] acc.deep_view()[j]).len() <= max,
            forall|tt: Seq<Seq<char>>|
                (str_seq_ok(tt, max as nat) && tt.len() == n as nat && #[trigger] prefix_at(
                    bytes@,
                    pos as int,
                    str_seq_bytes(tt),
                )) ==> tt.take(i as int) == acc.deep_view(),
        decreases n - i,
    {
        let ghost prev = acc.deep_view();
        let ghost prev_cur = cur as int;
        match read_string(bytes, cur, max) {
            Ok((s, e)) => {
                acc.push(s);
                cur = e;
                i = i + 1;
                proof {
                    assert(prefix_at(bytes@, prev_cur, string_field_bytes(s@)));
                    lemma_strings_err_step(
                        bytes@,
                        prev_cur,
                        (n - (i - 1)) as nat,
                        max,
                        s@,
                    );
                    assert(acc.deep_view() =~= prev.push(s@));
                    lemma_strings_bytes_push(prev, s@);
                    lemma_subrange_join(bytes@, pos as int, prev_cur, cur as int);
                    assert(bytes@.subrange(pos as int, cur as int) =~= varint_bytes(n as nat)
                        + strings_bytes(acc.deep_view()));
                    assert forall|tt: Seq<Seq<char>>|
                        (str_seq_ok(tt, max as nat) && tt.len() == n as nat && #[trigger] prefix_at(
                            bytes@,
                            pos as int,
                            str_seq_bytes(tt),
                        )) implies tt.take(i as int) == acc.deep_view() by {
                        assert(tt.take(i - 1) == prev);
                        lemma_prefix_concat(
                            bytes@,
                            pos as int,
                            varint_bytes(tt.len()),
                            strings_bytes(tt),
                        );
                        lemma_strings_bytes_split(tt, i - 1);
                        lemma_prefix_concat(
                            bytes@,
                            pos + varint_bytes(n as nat).len(),
                            strings_bytes(tt.take(i - 1)),
                            strings_bytes(tt.skip(i - 1)),
                        );
                        assert(tt.skip(i - 1)[0] == tt[i - 1]);
                        assert(tt.skip(i - 1).skip(1) =~= tt.skip(i as int));
                        assert(strings_bytes(tt.skip(i - 1)) == string_field_bytes(tt[i - 1])
                            + strings_bytes(tt.skip(i as int)));
                        lemma_prefix_concat(
                            bytes@,
                            prev_cur,
                            string_field_bytes(tt[i - 1]),
                            strings_bytes(tt.skip(i as int)),
                        );
                        lemma_string_field_unique(bytes@, prev_cur, tt[i - 1], s@);
                        assert(tt.take(i as int) =~= tt.take(i - 1).push(tt[i - 1]));
                        assert(tt.take(i as int) =~= acc.deep_view());
                    }
                }
            },
            Err(e) => {
                proof {
                    assert forall|tt: Seq<Seq<char>>|
                        str_seq_ok(tt, max as nat) implies !prefix_at(
                        bytes@,
                        pos as int,
                        str_seq_bytes(tt),
                    ) by {
                        if prefix_at(bytes@, pos as int, str_seq_bytes(tt)) {
                            lemma_prefix_concat(
                                bytes@,
                                pos as int,
                                varint_bytes(tt.len()),
                                strings_bytes(tt),
                            );
                            assert(prefix_at(
                                bytes@,
                                pos as int,
                                varint_bytes((tt.len() as u32) as nat),
                            ));
                            lemma_varint_unique(bytes@, pos as int, tt.len(), n as nat);
                            assert(tt.take(i as int) == acc.deep_view());
                            lemma_strings_bytes_split(tt, i as int);
                            lemma_prefix_concat(
                                bytes@,
                                pos + varint_bytes(n as nat).len(),
                                strings_bytes(tt.take(i as int)),
                                strings_bytes(tt.skip(i as int)),
                            );
                            assert(tt.skip(i as int)[0] == tt[i as int]);
                            assert(tt.skip(i as int).skip(1) =~= tt.skip(i + 1));
                            assert(strings_bytes(tt.skip(i as int)) == string_field_bytes(
                                tt[i as int],
                            ) + strings_bytes(tt.skip(i + 1)));
                            assert(strings_bytes(tt.take(i as int)) == strings_bytes(
                                acc.deep_view(),
                            ));
                            assert(bytes@.subrange(pos as int, cur as int).len() == cur - pos);
                            assert((varint_bytes(n as nat) + strings_bytes(acc.deep_view())).len()
                                == varint_bytes(n as nat).len() + strings_bytes(
                                acc.deep_view(),
                            ).len());
                            assert(pos + varint_bytes(n as nat).len() + strings_bytes(
                                tt.take(i as int),
                            ).len() == cur as int);
                            assert(prefix_at(
                                bytes@,
                                cur as int,
                                string_field_bytes(tt[i as int]) + strings_bytes(tt.skip(i + 1)),
                            ));
                            lemma_prefix_concat(
                                bytes@,
                                cur as int,
                                string_field_bytes(tt[i as int]),
                                strings_bytes(tt.skip(i + 1)),
                            );
                            assert(encode_utf8(tt[i as int]).len() <= max);
                        }
                    }
                }
                proof {
                    lemma_varint_at_is(bytes@, pos as int, n);
                    assert(!exists|t: Seq<char>|
                        encode_utf8(t).len() <= max && prefix_at(
                            bytes@,
                            cur as int,
                            string_field_bytes(t),
                        ));
                    assert(strings_err(bytes@, cur as int, (n - i) as nat, max) == string_err(
                        bytes@,
                        cur as int,
                        max,
                    ));
                    assert(str_seq_err(bytes@, pos as int, max) == Some(e));
                }
                return Err(e);
            },
        }
    }
    proof {
        assert forall|tt: Seq<Seq<char>>|
            (str_seq_ok(tt, max as nat) && tt.len() == n as nat) implies (prefix_at(
            bytes@,
            pos as int,
            str_seq_bytes(tt),
        ) ==> tt.take(n as int) == acc.deep_view()) by {}
        assert(str_seq_bytes(acc.deep_view()) == varint_bytes(n as nat) + strings_bytes(
            acc.deep_view(),
        ));
    }
    Ok((acc, cur))
}

/// Write a varint-counted sequence of strings, refusing a count or an
/// element over its bound.
pub fn write_strings(out: &mut Vec<u8>, ss: &Vec<String>, max: u32) -> (r: Result<
    (),
    EncodeError,
>)
    ensures
        match r {
            Ok(()) => final(out)@ == old(out)@ + str_seq_bytes(ss.deep_view()) && str_seq_ok(
                ss.deep_view(),
                max as nat,
            ),
            Err(e) => final(out)@ == old(out)@ && !str_seq_ok(ss.deep_view(), max as nat),
        },
{
    if ss.len() > u32::MAX as usize {
        return Err(EncodeError::LengthOverflow);
    }
    let mut j: usize = 0;
    while j < ss.len()
        invariant
            j <= ss@.len(),
            ss.deep_view().len() == ss@.len(),
            forall|k: int|
                0 <= k < j as int ==> encode_utf8(#[trigger] ss.deep_view()[k]).len() <= max,
        decreases ss@.len() - j,
    {
        let bv = ss[j].as_str().as_bytes_vec();
        proof {
            assert(ss.deep_view()[j as int] == ss@[j as int]@);
        }
        if bv.len() > max as usize {
            proof {
                assert(encode_utf8(ss.deep_view()[j as int]).len() > max);
            }
            return Err(
                EncodeError::StringTooLong { length: bv.len(), max_length: max as usize },
            );
        }
        j = j + 1;
    }
    let count = ss.len() as u32;
    write_varint_u32(out, count);
    let ghost base = old(out)@ + varint_bytes(count as nat);
    let mut k: usize = 0;
    proof {
        assert(out@ =~= base + strings_bytes(ss.deep_view().take(0)));
    }
    while k < ss.len()
        invariant
            k <= ss@.len(),
            ss.deep_view().len() == ss@.len(),
            forall|t: int|
                0 <= t < ss@.len() ==> encode_utf8(#[trigger] ss.deep_view()[t]).len() <= max,
            out@ == base + strings_bytes(ss.deep_view().take(k as int)),
        decreases ss@.len() - k,
    {
        let ghost before = ss.deep_view().take(k as int);
        proof {
            assert(ss.deep_view()[k as int] == ss@[k as int]@);
        }
        match write_string(out, &ss[k], max) {
            Ok(()) => {},
            Err(_) => {
                proof {
                    assert(false);
                }
            },
        }
        k = k + 1;
        proof {
            lemma_strings_bytes_push(before, ss.deep_view()[k - 1]);
            assert(ss.deep_view().take(k as int) =~= before.push(ss.deep_view()[k - 1]));
            assert(out@ =~= base + strings_bytes(ss.deep_view().take(k as int)));
        }
    }
    proof {
        assert(ss.deep_view().take(ss@.len() as int) =~= ss.deep_view());
        assert(out@ =~= old(out)@ + str_seq_bytes(ss.deep_view()));
    }
    Ok(())
}

// ------------------------------------------------------------------
// Raw byte blobs
// ------------------------------------------------------------------
pub open spec fn len_blob_bytes(d: Seq<u8>) -> Seq<u8> {
    varint_bytes(d.len()) + d
}

/// The exact error of a failed length-prefixed-blob read at `pos`; `None`
/// when such a blob stands there.
pub open spec fn len_blob_err(b: Seq<u8>, pos: int) -> Option<DecodeError> {
    match varint_at(b, pos) {
        None => Some(varint_err(b, pos)),
        Some(n) => if pos + varint_bytes(n as nat).len() + n > b.len() {
            Some(DecodeError::Truncated)
        } else {
            None
        },
    }
}

/// Read a varint-length-prefixed blob. Fails exactly when no such blob
/// stands at `pos`.
pub fn read_len_blob(bytes: &[u8], pos: usize) -> (r: Result<(Vec<u8>, usize), DecodeError>)
    ensures
        match r {
            Ok((d, end)) => pos <= end <= bytes@.len() && bytes@.subrange(pos as int, end as int)
                == len_blob_bytes(d@) && d@.len() <= u32::MAX,
            Err(e) => len_blob_err(bytes@, pos as int) == Some(e) && forall|d: Seq<u8>|
                d.len() <= u32::MAX ==> !prefix_at(bytes@, pos as int, len_blob_bytes(d)),
        },
{
    let (n, p1) = match read_varint_u32(bytes, pos) {
        Ok(x) => x,
        Err(e) => {
            proof {
                assert forall|d: Seq<u8>|
                    d.len() <= u32::MAX implies !prefix_at(bytes@, pos as int, len_blob_bytes(d))
                    by {
                    if prefix_at(bytes@, pos as int, len_blob_bytes(d)) {
                        lemma_prefix_concat(bytes@, pos as int, varint_bytes(d.len()), d);
                        assert(prefix_at(bytes@, pos as int, varint_bytes((d.len() as u32) as nat)));
                    }
                }
                lemma_varint_at_none(bytes@, pos as int);
            }
            return Err(e);
        },
    };
    proof {
        lemma_varint_at_is(bytes@, pos as int, n);
        assert(p1 as int == pos + varint_bytes(n as nat).len());
    }
    if (bytes.len() < p1) || (bytes.len() - p1 < n as usize) {
        proof {
            assert forall|d: Seq<u8>|
                d.len() <= u32::MAX implies !prefix_at(bytes@, pos as int, len_blob_bytes(d)) by {
                if prefix_at(bytes@, pos as int, len_blob_bytes(d)) {
                    lemma_prefix_concat(bytes@, pos as int, varint_bytes(d.len()), d);
                    lemma_varint_unique(bytes@, pos as int, d.len(), n as nat);
                }
            }
        }
        return Err(DecodeError::Truncated);
    }
    let end = p1 + n as usize;
    let d = slice_to_vec(slice_subrange(bytes, p1, end));
    proof {
        lemma_subrange_join(bytes@, pos as int, p1 as int, end as int);
        assert(bytes@.subrange(pos as int, end as int) == len_blob_bytes(d@));
    }
    Ok((d, end))
}

/// Write a varint-length-prefixed blob.
pub fn write_len_blob(out: &mut Vec<u8>, d: &[u8]) -> (r: Result<(), EncodeError>)
    ensures
        match r {
            Ok(()) => final(out)@ == old(out)@ + len_blob_bytes(d@) && d@.len() <= u32::MAX,
            Err(e) => final(out)@ == old(out)@ && d@.len() > u32::MAX && e
                == EncodeError::LengthOverflow,
        },
{
    if d.len() > u32::MAX as usize {
        return Err(EncodeError::LengthOverflow);
    }
    write_varint_u32(out, d.len() as u32);
    write_bytes(out, d);
    proof {
        assert(out@ =~= old(out)@ + len_blob_bytes(d@));
    }
    Ok(())
}

/// Read the whole remainder of the payload as a raw blob.
pub fn read_rem_blob(bytes: &[u8], pos: usize) -> (r: (Vec<u8>, usize))
    requires
        pos <= bytes@.len(),
    ensures
        r.1 == bytes@.len() && r.0@ == bytes@.subrange(pos as int, bytes@.len() as int),
{
    let d = slice_to_vec(slice_subrange(bytes, pos, bytes.len()));
    (d, bytes.len())
}

// ------------------------------------------------------------------
// Embedded tree blobs (one compound tag), via the foreign reader
// ------------------------------------------------------------------
/// Read one embedded compound tag, kept as its raw bytes. Fails exactly
/// when no well-formed tag stands at `pos`.
pub fn read_nbt_blob(bytes: &[u8], pos: usize) -> (r: Result<(Vec<u8>, usize), DecodeError>)
    requires
        pos <= bytes@.len(),
    ensures
        match r {
            Ok((d, end)) => pos <= end <= bytes@.len() && bytes@.subrange(pos as int, end as int)
                == d@ && crate::foreign::nbt_exact(d@),
            Err(e) => e == DecodeError::MalformedTag && crate::foreign::nbt_span(
                bytes@.subrange(pos as int, bytes@.len() as int),
            ) is None && forall|d: Seq<u8>|
                crate::foreign::nbt_exact(d) ==> !prefix_at(bytes@, pos as int, d),
        },
{
    let tail = slice_subrange(bytes, pos, bytes.len());
    match crate::foreign::read_tag_rest(tail) {
        Some(rem) => {
            let n = tail.len() - rem;
            let d = slice_to_vec(slice_subrange(tail, 0, n));
            proof {
                assert(tail@.subrange(0, n as int) =~= bytes@.subrange(pos as int, pos + n));
            }
            Ok((d, pos + n))
        },
        None => {
            proof {
                assert forall|d: Seq<u8>|
                    crate::foreign::nbt_exact(d) implies !prefix_at(bytes@, pos as int, d) by {
                    if prefix_at(bytes@, pos as int, d) {
                        assert(tail@.subrange(0, d.len() as int) =~= d);
                        assert(crate::foreign::nbt_span(tail@) == Some(d.len() as int));
                    }
                }
            }
            Err(DecodeError::MalformedTag)
        },
    }
}

} // verus!
