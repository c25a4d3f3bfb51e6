use vstd::prelude::*;

verus! {

/// The two looks of a cannon's bullets; the application picks sprite and
/// size by it.
#[derive(Clone, Copy, Debug, PartialEq, Eq)]
pub enum BulletType {
    BulletViolet,
    BulletOrange,
}

/// The lifetime of a cannon or rail gun projectile, in milliseconds: an older
/// one is destroyed.
pub const LIFETIME: u128 = 5000;

} // verus!
