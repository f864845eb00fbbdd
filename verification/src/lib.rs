//! Decoder for a hierarchical, bit-packed packet format.
//!
//! A packet is a six-bit header followed either by a literal, written in
//! five-bit groups, or by a length descriptor and the child packets of an
//! operator. Decoding a packet evaluates it: the value of an operator packet
//! is the reduction of its children's values.
//!
//! - [`bits`] and [`cursor`] read bits out of a byte buffer.
//! - [`grammar`] says what the bits of a buffer mean as packets.
//! - [`protocols`] holds the decoders, each proved to compute what the
//!   grammar says.
//! - [`encoding`], [`syntax`] and [`framing`] relate decoding to writing:
//!   what is written decodes to what it stands for, whatever lies around it.
//! - [`hex`] turns hexadecimal text into the bytes to decode.

pub mod bits;
pub mod cursor;
pub mod encoding;
pub mod error;
pub mod framing;
pub mod grammar;
pub mod hex;
pub mod protocols;
pub mod syntax;

pub use crate::hex::decode_hex;
