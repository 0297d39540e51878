//! Conversions from plain collections into matrices.

pub mod impls;
pub mod traits;
