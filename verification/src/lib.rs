//! A decoder and pretty-printer for the NBT binary tag format: a named,
//! typed, hierarchical container format whose multi-byte fields are
//! big-endian on the wire.
//!
//! The decoder builds an immutable tag tree from a byte buffer in one pass
//! and is verified against a specification of the wire format: on success,
//! the bytes consumed are exactly the encoding of the returned tree.
#![allow(unused_imports)]

pub mod tag;
pub mod wire;
pub mod parser;
pub mod render;
pub mod roundtrip;

pub use tag::{TagType, NBTTag, NamedTag, NbtError};
pub use parser::{Parser, DEPTH_LIMIT};
