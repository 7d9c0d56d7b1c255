//! Small, fully specified example routines: a two-field record with a factory,
//! two record shapes that read and write a JSON-like text form, and a pair of
//! functions that render integer sequences and illustrate passing a vector by
//! value against passing it by reference.
//!
//! The verified core stays free of floating point: where a record
//! conceptually carries a floating-point number, the library holds either the
//! IEEE-754 bit pattern or the decimal token that denotes the number, and the
//! unverified front end converts at the boundary.

pub mod demo;
pub mod json;
pub mod num_pair;
pub mod records;
pub mod str_pair;

