//! On-disk pointer words: a 32-bit wrapper where zero is an ordinary value,
//! and one where zero means null and is therefore unrepresentable.

pub mod pointer_nz32;
pub mod pointer_zero32;

pub use pointer_nz32::PointerNonZero32;
pub use pointer_zero32::PointerZero32;
