//! A verified codec for fixed-width values and raw bytes.
//!
//! The crate converts between fixed-width scalars (signed and unsigned
//! integers of 8 to 64 bits, and booleans) and byte windows, in either big-
//! or little-endian byte order, and lifts the conversion to `Vec`s of such
//! scalars.  The four entry points dispatch statically on the requested
//! type:
//!
//! * [`read_be`] / [`read_le`] decode a value from the front of a window;
//! * [`write_be`] / [`write_le`] encode a value over the front of a window,
//!   leaving every byte past the encoding untouched.
//!
//! Each operation carries a contract that pins the bytes down exactly, in
//! terms of the positional number model of [`model`]; the laws the codec
//! obeys — round-trips, endian mirroring, prefix tolerance and the sequence
//! adapter's truncation rule — are stated and proved in [`laws`].

pub mod codec;
pub mod laws;
pub mod model;
pub mod scalars;
pub mod seqs;

pub use codec::read_be;
pub use codec::read_le;
pub use codec::write_be;
pub use codec::write_le;
pub use codec::Readable;
pub use codec::Scalar;
pub use codec::Writeable;
