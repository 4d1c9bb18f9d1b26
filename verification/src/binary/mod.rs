//! Byte-level building blocks: an append-only sink and a bounds-checked cursor.

pub mod decoder;
pub mod encoder;
