//! A dense 2-D strided matrix library.
//!
//! Entries are carried as opaque 64-bit words: the library proves everything
//! about shape, layout and data movement, while the scalar arithmetic itself
//! is supplied by the caller as pure operators on words.  Callers that work
//! with a concrete numeric type pass operators that encode and decode it.

pub mod ext;
pub mod laws;
pub mod matrix;
pub mod sample;
pub mod utils;

pub use matrix::Matrix2d;
