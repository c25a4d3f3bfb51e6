use vstd::prelude::*;
use crate::clock;
use crate::input::Input;

verus! {

/// A trigger fires when it is held (or the weapon fires on its own) and at
/// least `interval` milliseconds have passed since its last shot.
pub open spec fn fires(held: bool, auto: bool, elapsed: u128, interval: u128) -> bool {
    (held || auto) && elapsed >= interval
}

/// Decides whether a trigger fires, given how long ago it last fired.
pub fn fire_due(held: bool, auto: bool, elapsed: u128, interval: u128) -> (r: bool)
    ensures
        r == fires(held, auto, elapsed, interval),
{
    (held || auto) && elapsed >= interval
}

/// The firing key.
pub open spec fn fire_key() -> Seq<char> {
    seq!['f']
}

/// The rate limiter of a cannon, double cannon or homing missile launcher:
/// held by the `f` key or automatic, at most one shot per interval.
pub struct Trigger {
    shooting_interval: u128,
    auto: bool,
    time: instant::Instant,
}

impl Trigger {
    /// Milliseconds that must pass between two shots.
    pub closed spec fn interval(&self) -> u128 {
        self.shooting_interval
    }

    /// Whether the weapon fires without the key.
    pub closed spec fn is_auto(&self) -> bool {
        self.auto
    }

    /// The moment of the last shot (or of arming).
    pub closed spec fn last_shot(&self) -> instant::Instant {
        self.time
    }

    /// A trigger armed now.
    pub fn new(shooting_interval: u128, auto: bool) -> (r: Self)
        ensures
            r.interval() == shooting_interval,
            r.is_auto() == auto,
    {
        Trigger { shooting_interval, auto, time: clock::now() }
    }

    /// Whether the trigger fires, given how long ago it last fired; the shot
    /// restarts the interval.
    pub fn pull_after(&mut self, held: bool, elapsed: u128) -> (r: bool)
        ensures
            r == fires(held, old(self).is_auto(), elapsed, old(self).interval()),
            final(self).interval() == old(self).interval(),
            final(self).is_auto() == old(self).is_auto(),
            !r ==> final(self).last_shot() == old(self).last_shot(),
    {
        let r = fire_due(held, self.auto, elapsed, self.shooting_interval);
        if r {
            self.time = clock::now();
        }
        r
    }

    /// Whether the trigger fires now, with the `f` key of `input`: it reads the
    /// clock for the time since the last shot.
    pub fn pull(&mut self, input: &Input) -> (r: bool)
        ensures
            r ==> input.pressed(fire_key()) || old(self).is_auto(),
            old(self).interval() == 0 ==> r == (input.pressed(fire_key()) || old(self).is_auto()),
            final(self).interval() == old(self).interval(),
            final(self).is_auto() == old(self).is_auto(),
            !r ==> final(self).last_shot() == old(self).last_shot(),
    {
        let held = input.is_pressed("f");
        proof {
            reveal_strlit("f");
            assert("f"@ =~= fire_key());
        }
        let elapsed = clock::elapsed_millis(&self.time);
        self.pull_after(held, elapsed)
    }
}

} // verus!
