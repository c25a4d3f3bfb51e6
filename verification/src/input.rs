use vstd::prelude::*;

verus! {

/// Whether a key went down or up in a keyboard event.
#[derive(Clone, Copy, Debug, PartialEq, Eq)]
pub enum KeyState {
    Pressed,
    Released,
}

/// The keys the game listens to, each with whether it is held down.
#[derive(Clone, Copy, Debug, Default)]
pub struct Input {
    d_pressed: bool,
    a_pressed: bool,
    s_pressed: bool,
    w_pressed: bool,
    f_pressed: bool,
}

/// The key named by a one-character string.
pub open spec fn names(key: Seq<char>, c: char) -> bool {
    key == seq![c]
}

/// The keys that `Input` tracks: `a`, `d`, `s`, `w` and `f`.
pub open spec fn is_tracked(key: Seq<char>) -> bool {
    names(key, 'a') || names(key, 'd') || names(key, 's') || names(key, 'w') || names(key, 'f')
}

/// Decides whether `key` is exactly the one-character string `c`.
pub fn key_is(key: &str, c: char) -> (r: bool)
    ensures
        r == names(key@, c),
{
    let n = key.unicode_len();
    if n != 1 {
        proof {
            assert(key@.len() != 1);
            assert(seq![c].len() == 1);
        }
        return false;
    }
    let first = key.get_char(0);
    proof {
        if first == c {
            assert(key@ =~= seq![c]);
        } else {
            assert(key@[0] != seq![c][0]);
        }
    }
    first == c
}

impl Input {
    /// Whether `key` is held down in this state; untracked keys never are.
    pub closed spec fn pressed(&self, key: Seq<char>) -> bool {
        if names(key, 'a') {
            self.a_pressed
        } else if names(key, 'd') {
            self.d_pressed
        } else if names(key, 's') {
            self.s_pressed
        } else if names(key, 'w') {
            self.w_pressed
        } else if names(key, 'f') {
            self.f_pressed
        } else {
            false
        }
    }

    /// A keyboard state with no key held down.
    pub fn new() -> (r: Self)
        ensures
            forall|k: Seq<char>| !r.pressed(k),
    {
        Input { d_pressed: false, a_pressed: false, s_pressed: false, w_pressed: false, f_pressed: false }
    }

    /// Records a key event: a tracked key takes the new state, every other
    /// key keeps its old one, and an untracked key is ignored.
    pub fn update(&mut self, key: &str, state: KeyState)
        ensures
            key_update(*old(self), key@, state, *final(self)),
    {
        let pressed = match state {
            KeyState::Pressed => true,
            KeyState::Released => false,
        };
        if key_is(key, 'a') {
            self.a_pressed = pressed;
        } else if key_is(key, 'd') {
            self.d_pressed = pressed;
        } else if key_is(key, 's') {
            self.s_pressed = pressed;
        } else if key_is(key, 'w') {
            self.w_pressed = pressed;
        } else if key_is(key, 'f') {
            self.f_pressed = pressed;
        }
        proof {
            assert forall|k: Seq<char>|
                #[trigger] self.pressed(k) == if k == key@ && is_tracked(k) {
                    state == KeyState::Pressed
                } else {
                    old(self).pressed(k)
                } by {
                lemma_names_distinct(k);
                lemma_names_distinct(key@);
            }
        }
    }

    /// Whether `key` is held down.
    pub fn is_pressed(&self, key: &str) -> (r: bool)
        ensures
            r == self.pressed(key@),
    {
        if key_is(key, 'a') {
            self.a_pressed
        } else if key_is(key, 'd') {
            self.d_pressed
        } else if key_is(key, 's') {
            self.s_pressed
        } else if key_is(key, 'w') {
            self.w_pressed
        } else if key_is(key, 'f') {
            self.f_pressed
        } else {
            false
        }
    }
}

/// One key event turns `before` into `after`: a tracked key takes the new
/// state, every other key keeps its old one.
pub open spec fn key_update(before: Input, key: Seq<char>, state: KeyState, after: Input) -> bool {
    forall|k: Seq<char>|
        #[trigger] after.pressed(k) == if k == key && is_tracked(k) {
            state == KeyState::Pressed
        } else {
            before.pressed(k)
        }
}

/// Whether the last of `events` that names `key` is a press.
pub open spec fn last_pressed(events: Seq<(Seq<char>, KeyState)>, key: Seq<char>) -> bool
    decreases events.len(),
{
    if events.len() == 0 {
        false
    } else if events.last().0 == key {
        events.last().1 == KeyState::Pressed
    } else {
        last_pressed(events.drop_last(), key)
    }
}

/// A key reads as held exactly when it is tracked and its latest event was
/// a press: starting with no key held (as `Input::new` gives) and applying
/// `events` in order (as `Input::update` does), the states end there.
pub proof fn input_remembers_latest_event(states: Seq<Input>, events: Seq<(Seq<char>, KeyState)>)
    requires
        states.len() == events.len() + 1,
        forall|k: Seq<char>| !states[0].pressed(k),
        forall|j: int|
            0 <= j < events.len() ==> key_update(
                #[trigger] states[j],
                events[j].0,
                events[j].1,
                states[j + 1],
            ),
    ensures
        forall|k: Seq<char>|
            #[trigger] states.last().pressed(k) == (is_tracked(k) && last_pressed(events, k)),
    decreases events.len(),
{
    if events.len() > 0 {
        let n = events.len() - 1;
        input_remembers_latest_event(states.drop_last(), events.drop_last());
        assert(states.drop_last().last() == states[n]);
        assert(key_update(states[n], events[n].0, events[n].1, states[n + 1]));
        assert forall|k: Seq<char>|
            #[trigger] states.last().pressed(k) == (is_tracked(k) && last_pressed(events, k)) by {
            assert(states.last() == states[n + 1]);
            assert(states[n].pressed(k) == (is_tracked(k) && last_pressed(events.drop_last(), k)));
            if !is_tracked(k) {
                untracked_keys_never_pressed(states[n + 1], k);
            }
        }
    } else {
        assert forall|k: Seq<char>|
            #[trigger] states.last().pressed(k) == (is_tracked(k) && last_pressed(events, k)) by {
            assert(states.last() == states[0]);
        }
    }
}

/// Only the tracked keys are ever held down: whatever events came in, a
/// key other than `a`, `d`, `s`, `w` and `f` reads as released.
pub proof fn untracked_keys_never_pressed(input: Input, key: Seq<char>)
    requires
        !is_tracked(key),
    ensures
        !input.pressed(key),
{
}

/// A string names at most one of the tracked keys.
proof fn lemma_names_distinct(k: Seq<char>)
    ensures
        names(k, 'a') ==> !names(k, 'd') && !names(k, 's') && !names(k, 'w') && !names(k, 'f'),
        names(k, 'd') ==> !names(k, 's') && !names(k, 'w') && !names(k, 'f'),
        names(k, 's') ==> !names(k, 'w') && !names(k, 'f'),
        names(k, 'w') ==> !names(k, 'f'),
{
    if names(k, 'a') || names(k, 'd') || names(k, 's') || names(k, 'w') {
        assert(k.len() == 1);
        assert(k[0] == 'a' || k[0] == 'd' || k[0] == 's' || k[0] == 'w');
    }
}

} // verus!
