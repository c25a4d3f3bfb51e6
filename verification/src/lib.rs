//! Game rules of a top-down space shooter: keyboard state, identifier
//! allocation, weapon triggers and bursts, projectile bookkeeping,
//! explosion animation, hit points, patrol routes and target selection.
//!
//! Everything that is geometry or rendering (floating point vectors, GPU
//! buffers, audio devices) lives in the application crate; this library
//! holds the integer and boolean rules that drive it.

pub mod ai;
pub mod audio;
pub mod background;
pub mod clock;
pub mod entities;
pub mod explosion;
pub mod input;
pub mod player;
pub mod util;
pub mod weapon;
