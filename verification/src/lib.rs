//! A verified CoAP (RFC 7252) message engine for constrained devices.
//!
//! The crate builds and parses single CoAP protocol data units in
//! caller-provided byte buffers: the fixed four-byte header with its
//! token, delta-encoded options in ascending option-number order, and an
//! optional payload behind the `0xFF` marker.  Every operation is total
//! over its inputs: malformed wire data and undersized buffers surface as
//! typed errors, never as panics or out-of-bounds accesses.

pub mod error;
pub mod codes;
pub mod wire;
pub mod packet;
pub mod dispatch;
pub mod credman;
