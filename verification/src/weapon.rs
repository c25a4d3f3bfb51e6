pub mod cannon;
pub mod trigger;
pub mod rail_gun;
pub mod projectile;
pub mod laser;
pub mod homing_missile;
pub mod double_cannon;
