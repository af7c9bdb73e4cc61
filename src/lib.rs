//! Byte encoding of shares for a secret-sharing scheme over GF(2^8).
//!
//! A share is one evaluation point `(x, y[0..k))`; its byte form is `x`
//! followed by the `k` elements of `y`. Decoding checks that there is a
//! byte for `x` and fails with a typed error otherwise.

pub mod field;
pub mod share;

pub use field::GF256;
pub use share::{Share, ShareError};
