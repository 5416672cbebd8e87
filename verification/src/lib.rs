//! Codec for the framed binary push protocol of a live-room event feed.
//!
//! A received buffer is one frame: a 16-byte big-endian header and a body.
//! The body may be compressed, and a plain-text body may hold several
//! concatenated sub-frames. [`pack::build_pack`] recovers the ordered event
//! payloads of one buffer; [`pack::encode`] frames an outgoing control
//! message.

pub mod error;
pub mod header;
pub mod inflate;
pub mod pack;
pub mod text;
pub mod theorems;
pub mod wire;
