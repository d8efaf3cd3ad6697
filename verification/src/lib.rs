//! SHA3-256 and Keccak-256 digests computed in circuit, over any chip that
//! offers the Keccak-f[1600] instructions, and the lookup rules with which the
//! resulting circuit is extracted.

pub mod constants;
pub mod description;
pub mod expression;
pub mod extraction;
pub mod instructions;
pub mod ir;
pub mod le_bytes;
pub mod lookup_callbacks;
pub mod lookup_laws;
pub mod padding;
pub mod region;
pub mod run;
pub mod scalar;
pub mod sha3_256_gadget;
pub mod shape;
pub mod sponge;
pub mod spread;
pub mod text;
