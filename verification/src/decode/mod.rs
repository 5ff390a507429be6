//! Decoding of raw bytes into typed, displayable values.
//!
//! - [`types`]: byte order, decoded entries, integer reading and raw renderings.
//! - [`builtin`]: the built-in decoder for a byte selection.
//! - [`bits`]: the decoder for a run of bits.
//! - [`stats`]: byte statistics.
//! - [`json`]: the JSON exchanged with WASM decoder plugins.
//! - [`plugin`]: a WASM plugin's store, instance and exports, kept together.
//! - [`wasm`]: running WASM decoder plugins.
//! - [`lua`]: running Lua decoder scripts.

pub mod bits;
pub mod calendar;
pub mod builtin;
pub mod json;
pub mod lua;
pub mod plugin;
pub mod stats;
pub mod types;
pub mod wasm;

pub use bits::decode_bits;
pub use builtin::decode_selection;
pub use stats::byte_stats;
pub use types::{DecodedValue, Endian};
