//! Verified implementation of the Luhn checksum algorithm.
//!
//! The crate offers a validator, `is_valid`, that decides whether a string
//! of digits (possibly interspersed with whitespace) passes the Luhn check,
//! and a generator, `generate`, that produces a random digit string the
//! validator accepts.

pub mod checksum;
pub mod generator;
pub mod laws;
pub mod validator;

pub use generator::generate;
pub use validator::is_valid;
