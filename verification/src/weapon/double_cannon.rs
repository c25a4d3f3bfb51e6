use vstd::prelude::*;

verus! {

/// The lifetime of a double cannon shell in milliseconds.
pub const LIFETIME: u128 = 5000;

} // verus!
