//! Bit-level pattern matching over binaries and bitstrings.
//!
//! A [`selection::Selection`] is a window of bits over a byte slice; a
//! [`matcher::Matcher`] consumes such a window from the front, reading
//! numbers, characters and sub-selections out of it.
pub mod bigint;
pub mod bits;
pub mod endian;
pub mod laws;
pub mod matcher;
pub mod selection;
pub mod unicode;
