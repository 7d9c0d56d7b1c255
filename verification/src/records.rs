//! A plain two-field record built through a single factory function.

use vstd::prelude::*;

verus! {

/// A record of one numeric value and one integer count.
///
/// The numeric field holds the IEEE-754 bit pattern of the number it stands
/// for, so that the verified library itself never touches floating point; a
/// caller converts with `f64::to_bits` and `f64::from_bits` at the boundary.
pub struct MyDataExample {
    pub some_num_bits: u64,
    pub some_int: i32,
}

impl MyDataExample {
    /// Builds the record from its two fields.
    pub fn init(some_num_bits: u64, some_int: i32) -> (r: Self)
        ensures
            r.some_num_bits == some_num_bits,
            r.some_int == some_int,
    {
        MyDataExample { some_num_bits, some_int }
    }
}

} // verus!
