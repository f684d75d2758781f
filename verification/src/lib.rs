//! Editing a player's saved position and dimension inside a game world's
//! save data.
//!
//! The crate decodes and re-encodes the world's compressed, self-describing
//! tagged binary format while preserving every field it does not model,
//! abstracts over the two on-disk layouts (player state embedded in the
//! world metadata, or one file per player), and plans backup-safe writes.
pub mod errors;

pub use errors::ToolError;

pub mod codec;
pub mod nbt;
pub mod wire;
pub mod dat;
pub mod player;
pub mod api;
pub mod orchestrate;

pub use codec::compress;
pub use codec::decompress;
