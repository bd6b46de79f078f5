use vstd::prelude::*;
use vstd::utf8::{decode_utf8, valid_utf8};

verus! {

/// The number of bytes that one embedded compound tag occupies at the front
/// of `b`, or `None` when no well-formed tag starts there.
pub uninterp spec fn nbt_span(b: Seq<u8>) -> Option<int>;

/// `b` is exactly one well-formed compound tag: wherever these bytes stand at
/// the front of a payload, the tag ends after `b.len()` bytes.
pub open spec fn nbt_exact(b: Seq<u8>) -> bool {
    forall|s: Seq<u8>|
        (b.len() <= s.len() && s.subrange(0, b.len() as int) == b) ==> nbt_span(s) == Some(
            b.len() as int,
        )
}

/// Relies on `nbt::decode::read_compound_tag`: it reads exactly one compound
/// tag from the front of the reader, byte by byte, and a well-formed tag is
/// self-delimiting, so the count of bytes it consumes is a function of those
/// bytes alone and does not change when further bytes follow them. Returns
/// how many bytes of `tail` remain unread on success, `None` on any failure.
#[verifier::external_body]
pub(crate) fn read_tag_rest(tail: &[u8]) -> (r: Option<usize>)
    ensures
        match r {
            Some(rem) => rem <= tail@.len() && nbt_exact(
                tail@.subrange(0, tail@.len() - rem as int),
            ),
            None => nbt_span(tail@) is None,
        },
{
    let mut rest: &[u8] = tail;
    match nbt::decode::read_compound_tag(&mut rest) {
        Ok(_) => Some(rest.len()),
        Err(_) => None,
    }
}

/// Relies on `String::from_utf8`: it succeeds exactly when the bytes are
/// valid UTF-8, and then returns the string those bytes encode.
#[verifier::external_body]
pub(crate) fn string_from_utf8(bytes: Vec<u8>) -> (r: Option<String>)
    ensures
        match r {
            Some(s) => valid_utf8(bytes@) && s@ == decode_utf8(bytes@),
            None => !valid_utf8(bytes@),
        },
{
    String::from_utf8(bytes).ok()
}

} // verus!
