use vstd::prelude::*;
use crate::clock;
use crate::input::{Input, is_tracked, names, untracked_keys_never_pressed};

verus! {

/// Milliseconds between two evasions.
pub const EVASION_COOLDOWN: u128 = 5000;

/// Milliseconds an evasion lasts.
pub const EVASION_TIME: u128 = 2500;

/// The key that starts an evasion.
pub open spec fn evasion_key() -> Seq<char> {
    seq!['v']
}

/// The first of `d`, `a`, `s`, `w` that is held, if any.
pub open spec fn first_movement_key(input: Input) -> Option<Seq<char>> {
    if input.pressed(seq!['d']) {
        Some(seq!['d'])
    } else if input.pressed(seq!['a']) {
        Some(seq!['a'])
    } else if input.pressed(seq!['s']) {
        Some(seq!['s'])
    } else if input.pressed(seq!['w']) {
        Some(seq!['w'])
    } else {
        None
    }
}

/// The key the player moves by in this frame: the first held of `d`, `a`,
/// `s`, `w`, or none.
pub fn movement_key(input: &Input) -> (r: Option<&'static str>)
    ensures
        match r {
            Some(k) => first_movement_key(*input) == Some(k@),
            None => first_movement_key(*input) is None,
        },
{
    proof {
        reveal_strlit("d");
        reveal_strlit("a");
        reveal_strlit("s");
        reveal_strlit("w");
        assert("d"@ =~= seq!['d']);
        assert("a"@ =~= seq!['a']);
        assert("s"@ =~= seq!['s']);
        assert("w"@ =~= seq!['w']);
    }
    if input.is_pressed("d") {
        Some("d")
    } else if input.is_pressed("a") {
        Some("a")
    } else if input.is_pressed("s") {
        Some("s")
    } else if input.is_pressed("w") {
        Some("w")
    } else {
        None
    }
}

/// What the evasion logic decides in one frame.
#[derive(Clone, Copy, Debug, PartialEq, Eq)]
pub struct EvasionStep {
    /// An evasion starts: boost, red color, particle trail, cooldown restarts.
    pub start: bool,
    /// The trail follows the player in this frame.
    pub trail: bool,
    /// The evasion (if any) ends: normal speed and color, trail stops, the
    /// evasion timer restarts.
    pub stop: bool,
    /// Whether the player is evading afterwards.
    pub evading: bool,
}

/// The decisions of one frame of evasion logic (see `evasion_step`).
pub open spec fn next_evasion(evading: bool, held: bool, since_cooldown: u128, since_evading: u128) -> EvasionStep {
    let start = held && since_cooldown >= EVASION_COOLDOWN;
    let stop = since_evading >= EVASION_TIME;
    EvasionStep {
        start,
        trail: evading || start,
        stop,
        evading: (evading || start) && !stop,
    }
}

/// One frame of evasion logic, given whether the evasion key is held, the
/// time since the last evasion started and since the evasion timer last
/// restarted: an evasion starts when the key is held and the cooldown has
/// passed; the evasion timer running out ends any evasion.
pub fn evasion_step(evading: bool, held: bool, since_cooldown: u128, since_evading: u128) -> (r: EvasionStep)
    ensures
        r == next_evasion(evading, held, since_cooldown, since_evading),
{
    let start = held && since_cooldown >= EVASION_COOLDOWN;
    let stop = since_evading >= EVASION_TIME;
    EvasionStep { start, trail: evading || start, stop, evading: (evading || start) && !stop }
}

/// The evasion state of the player and its two timers.
pub struct Evasion {
    evading: bool,
    evasion_cd_timer: instant::Instant,
    evading_timer: instant::Instant,
}

impl Evasion {
    /// Whether the player is evading.
    pub closed spec fn spec_evading(&self) -> bool {
        self.evading
    }

    /// The moment the last evasion started: the next may start one cooldown
    /// after it.
    pub closed spec fn cooldown_timer(&self) -> instant::Instant {
        self.evasion_cd_timer
    }

    /// The moment the evasion timer last restarted: an evasion ends when
    /// `EVASION_TIME` has passed since it.
    pub closed spec fn evasion_timer(&self) -> instant::Instant {
        self.evading_timer
    }

    /// Not evading, both timers started now.
    pub fn new() -> (r: Self)
        ensures
            !r.spec_evading(),
    {
        Evasion { evading: false, evasion_cd_timer: clock::now(), evading_timer: clock::now() }
    }

    /// Whether the player is evading.
    pub fn evading(&self) -> (r: bool)
        ensures
            r == self.spec_evading(),
    {
        self.evading
    }

    /// Applies one frame of evasion logic given the key and the two timer
    /// readings, restarting the timers it decides to restart.
    pub fn update_after(&mut self, held: bool, since_cooldown: u128, since_evading: u128) -> (r: EvasionStep)
        ensures
            r == next_evasion(old(self).spec_evading(), held, since_cooldown, since_evading),
            final(self).spec_evading() == r.evading,
            !r.start ==> final(self).cooldown_timer() == old(self).cooldown_timer(),
            !r.stop ==> final(self).evasion_timer() == old(self).evasion_timer(),
    {
        let r = evasion_step(self.evading, held, since_cooldown, since_evading);
        if r.start {
            self.evasion_cd_timer = clock::now();
        }
        if r.stop {
            self.evading_timer = clock::now();
        }
        self.evading = r.evading;
        r
    }

    /// One frame of evasion logic with the `v` key of `input`, reading the
    /// clock. `Input` does not track `v`, so no evasion ever starts: an
    /// evasion in progress only runs out.
    pub fn update(&mut self, input: &Input) -> (r: EvasionStep)
        ensures
            !r.start,
            r.trail == old(self).spec_evading(),
            final(self).spec_evading() == r.evading,
            r.evading == (old(self).spec_evading() && !r.stop),
            final(self).cooldown_timer() == old(self).cooldown_timer(),
            !r.stop ==> final(self).evasion_timer() == old(self).evasion_timer(),
    {
        let held = input.is_pressed("v");
        proof {
            reveal_strlit("v");
            assert("v"@ =~= evasion_key());
            assert(!is_tracked(evasion_key())) by {
                assert(evasion_key()[0] == 'v');
                assert(!names(evasion_key(), 'a') && !names(evasion_key(), 'd') && !names(evasion_key(), 's')
                    && !names(evasion_key(), 'w') && !names(evasion_key(), 'f')) by {
                    assert(seq!['a'][0] == 'a');
                    assert(seq!['d'][0] == 'd');
                    assert(seq!['s'][0] == 's');
                    assert(seq!['w'][0] == 'w');
                    assert(seq!['f'][0] == 'f');
                }
            }
            untracked_keys_never_pressed(*input, evasion_key());
        }
        let since_cooldown = clock::elapsed_millis(&self.evasion_cd_timer);
        let since_evading = clock::elapsed_millis(&self.evading_timer);
        self.update_after(held, since_cooldown, since_evading)
    }
}

} // verus!
