//! From the shreds of Solana blocks, as they come over the network, to the
//! instructions in them.

pub mod base58;
pub mod callback;
pub mod decimal;
pub mod entry;
pub mod fec;
pub mod pipeline;
pub mod pipeline_laws;
pub mod shred;
pub mod types;
