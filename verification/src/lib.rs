//! A versioned binary packet codec and opcode-dispatch layer for the play
//! phase of a client-server game protocol. Each epoch's registry maps
//! opcodes to packet schemas, built by composing the predecessor epoch's
//! registry with an override set; every packet's payload layout is decoded
//! and encoded strictly, field by field, with exact failure semantics.

pub mod error;
pub mod foreign;
pub mod wire;
pub mod fields;
pub mod packets;
pub mod registry;
pub mod game;
pub mod laws;
