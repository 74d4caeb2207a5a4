//! Binary text encoding and decoding: raw byte buffers to hexadecimal text
//! and back.
//!
//! The codec comes in three interchangeable implementations: a byte-at-a-time
//! scalar path and two block-wise paths that process 16 or 32 input bytes per
//! step by emulating in-register lookup tables, the way vector shuffle
//! hardware performs them. All three are proved to agree with one canonical
//! specification, so whichever one a call is dispatched to, the result is the
//! same.
//!
//! Beyond plain encoding and decoding, the crate offers zero-allocation
//! decoding into a caller-supplied buffer and an alignment-recovering decoder
//! that decodes hex text in place, placing the decoded bytes so that they
//! start at an address satisfying a requested power-of-two alignment.

pub mod hex;
