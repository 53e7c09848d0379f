//! Inference of a text file's indentation style from the leading
//! whitespace of its lines.

pub mod gcd;
pub mod sample;
pub mod reduce;
pub mod validate;
pub mod args;
pub mod format;
