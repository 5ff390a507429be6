//! Verified core of the turbohex hex viewer: decoders, the JSON plugin
//! protocol, and the viewer state with its key handling.

pub mod decode;
pub mod text;
pub mod app;
pub mod file_buffer;
pub mod ui;
