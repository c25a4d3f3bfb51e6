use vstd::prelude::*;

verus! {

/// The sounds of the game: the music track and two effects.
#[derive(Clone, Copy, Debug, PartialEq, Eq)]
pub enum Sounds {
    MainTheme,
    Explosion,
    Shoot,
}

} // verus!
