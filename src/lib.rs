//! A small network-time client library: protocol message encoding and
//! decoding, the four-timestamp offset and delay estimate, and a
//! delay-weighted consensus over several servers, computed exactly.

pub mod timestamp;
pub mod message;
pub mod exchange;
pub mod aggregate;
pub mod cli;
pub mod clock;
pub mod bignum;
