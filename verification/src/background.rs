use vstd::prelude::*;
use crate::input::Input;

verus! {

/// The first of `d`, `a`, `w`, `s` that is held, if any.
pub open spec fn first_scroll_key(input: Input) -> Option<Seq<char>> {
    if input.pressed(seq!['d']) {
        Some(seq!['d'])
    } else if input.pressed(seq!['a']) {
        Some(seq!['a'])
    } else if input.pressed(seq!['w']) {
        Some(seq!['w'])
    } else if input.pressed(seq!['s']) {
        Some(seq!['s'])
    } else {
        None
    }
}

/// The key the background layers scroll by in this frame: the first held of
/// `d`, `a`, `w`, `s`, or none.
pub fn scroll_key(input: &Input) -> (r: Option<&'static str>)
    ensures
        match r {
            Some(k) => first_scroll_key(*input) == Some(k@),
            None => first_scroll_key(*input) is None,
        },
{
    proof {
        reveal_strlit("d");
        reveal_strlit("a");
        reveal_strlit("s");
        reveal_strlit("w");
        assert("d"@ =~= seq!['d']);
        assert("a"@ =~= seq!['a']);
        assert("s"@ =~= seq!['s']);
        assert("w"@ =~= seq!['w']);
    }
    if input.is_pressed("d") {
        Some("d")
    } else if input.is_pressed("a") {
        Some("a")
    } else if input.is_pressed("w") {
        Some("w")
    } else if input.is_pressed("s") {
        Some("s")
    } else {
        None
    }
}

} // verus!
