//! Typed values of a privacy-preserving computation network: the closed
//! taxonomy of public and secret values, their canonical interchange
//! encoding, and the bookkeeping around splitting secrets into
//! per-participant shares.

pub mod bytes;
pub mod codec;
pub mod curves;
pub mod encrypted;
pub mod errors;
pub mod jar;
pub mod masker;
pub mod name_map;
pub mod numbers;
pub mod program;
pub mod values;

pub use program::ProgramMetadata;
pub use values::{NadaValue, NadaValues};
