//! Plain values that the pipeline reports.

use vstd::prelude::*;

verus! {

/// A summary of the headers of a shred.
#[derive(Debug, Clone, Copy, PartialEq, Eq, Structural)]
pub struct ShredInfo {
    pub slot: u64,
    pub index: u32,
    pub version: u16,
    pub fec_set_index: u32,
    pub is_data: bool,
}

/// A decentralised exchange, by the number that the decoder gives it.
#[derive(Debug, Clone, Copy, PartialEq, Eq, Structural)]
pub struct Dex {
    pub id: u16,
}

/// What an instruction does, by the number that the decoder gives it.
#[derive(Debug, Clone, Copy, PartialEq, Eq, Structural)]
pub struct InstructionKind {
    pub id: u16,
}

/// An instruction of a transaction that the decoder knows.
#[derive(Debug)]
pub struct DecodedInstruction {
    pub dex: Dex,
    pub kind: InstructionKind,
    /// The first signature of the transaction, in base 58.
    pub signature: String,
    pub slot: u64,
}

} // verus!
