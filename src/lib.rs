//! Data model and codecs of a consensus light client: fixed and bounded byte
//! containers, a 64-bit quantity, and the records built from them, each with
//! its binary encoding, its hash tree root and its textual form.

pub mod error;
pub mod codec;
pub mod merkle;
pub mod containers;
pub mod records;
pub mod update;
pub mod laws;
