use vstd::prelude::*;

verus! {

/// Why a packet payload failed to decode.
#[derive(Debug, PartialEq, Eq, Structural, Clone, Copy)]
pub enum DecodeError {
    /// The opcode is not registered for this epoch and direction.
    UnknownPacketType { type_id: u8 },
    /// The byte source ran out in the middle of a field.
    Truncated,
    /// A string field's encoded byte length exceeds the schema's bound.
    StringTooLong { length: usize, max_length: usize },
    /// A variable-length integer uses more bytes than its canonical form.
    NonCanonicalVarInt,
    /// A boolean field held a byte other than 0 or 1.
    InvalidBool { value: u8 },
    /// A string field's bytes are not valid UTF-8.
    InvalidUtf8,
    /// An embedded tree blob is not a single well-formed compound tag.
    MalformedTag,
}

/// Why a well-typed value refused to encode.
#[derive(Debug, PartialEq, Eq, Structural, Clone, Copy)]
pub enum EncodeError {
    /// A string field's UTF-8 byte length exceeds the schema's bound.
    StringTooLong { length: usize, max_length: usize },
    /// A collection is too long for its length prefix.
    LengthOverflow,
    /// An embedded tree blob's bytes are not one well-formed compound tag.
    MalformedTag,
}

/// Why composing an epoch's registry failed.
#[derive(Debug, PartialEq, Eq, Structural, Clone, Copy)]
pub enum RegistryError {
    /// Two entries of the composed registry share an opcode.
    DuplicateOpcode { opcode: u8 },
    /// Two entries of the composed registry share a packet kind.
    DuplicateKind,
}

} // verus!
