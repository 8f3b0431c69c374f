//! Decoder for Minecraft's Anvil region-file container and the NBT
//! (Named Binary Tag) serialization format embedded in it.
//!
//! The region module reads the fixed chunk-location table of a region
//! file, selects a chunk and decompresses its payload; the nbt module
//! parses the decompressed bytes into a tree of tags. Every decoder is
//! proved to return exactly what the wire-format model in the wire
//! module prescribes, and the laws module states what holds of that
//! model: a decode is confined to the byte span it reports, so
//! encodings laid end to end decode independently.

pub mod bytes;
pub mod err;
pub mod laws;
pub mod nbt;
pub mod region;
pub mod tag;
pub mod wire;
