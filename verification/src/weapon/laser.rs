use vstd::prelude::*;
use crate::input::Input;
use crate::weapon::trigger::fire_key;

verus! {

/// Whether the laser fires a beam: `f` is held and no beam is out yet.
pub fn ready(input: &Input, beams: usize) -> (r: bool)
    ensures
        r == (input.pressed(fire_key()) && beams < 1),
{
    let held = input.is_pressed("f");
    proof {
        reveal_strlit("f");
        assert("f"@ =~= fire_key());
    }
    held && beams < 1
}

} // verus!
