use vstd::prelude::*;

verus! {

/// The lifetime of a homing missile in milliseconds: one that old stops
/// being active (and then explodes).
pub const LIFETIME: u128 = 5000;

} // verus!
