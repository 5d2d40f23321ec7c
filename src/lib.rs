//! Decoding and encoding of the CQL native binary protocol: frame headers,
//! result metadata and typed column values.
pub mod bytes;
pub mod column;
pub mod decoder;
pub mod trytes;
