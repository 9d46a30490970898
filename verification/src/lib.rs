//! Codec for the Morningstar ML10X loop switcher's SysEx protocol:
//! framing, preset and controller encode/decode, inbound classification
//! and validation.
pub mod device;
pub mod presets;
pub mod sysex;
mod text;
pub mod encode;
pub mod decode;
pub mod handshake;
pub mod inbound;
pub mod roundtrip;
pub mod laws;
pub mod validate;
pub mod diff;
pub mod midi_io;
pub mod commands;
pub mod exit_codes;
pub mod config;
pub mod output;
mod paths;
pub mod yaml_io;
