use vstd::prelude::*;
use crate::clock;
use crate::input::Input;
use crate::weapon::trigger::fire_key;

verus! {

/// The waves of one burst.
pub const MAX_WAVES: u16 = 5;

/// Milliseconds between two waves of a burst.
pub const PER_SHOOT_INTERVAL: u128 = 50;

/// What one call of the rail gun's trigger logic decides.
#[derive(Clone, Copy, Debug, PartialEq, Eq)]
pub struct BurstStep {
    /// Whether a burst is in progress afterwards.
    pub actived: bool,
    /// The waves the burst in progress has emitted afterwards.
    pub waves: u16,
    /// Whether the interval before the next burst restarts now.
    pub rearm: bool,
    /// Whether a wave is emitted now (which restarts the wave interval).
    pub fire_wave: bool,
}

/// The gun is engaged when a burst is in progress, or when the trigger is
/// held and the interval since the last burst activity has passed.
pub open spec fn engaged(actived: bool, held: bool, since_shot: u128, interval: u128) -> bool {
    actived || (held && since_shot >= interval)
}

/// The decisions of one step of the burst logic (see `burst_step`).
pub open spec fn next_burst(
    actived: bool,
    waves: u16,
    held: bool,
    since_shot: u128,
    since_wave: u128,
    interval: u128,
) -> BurstStep {
    let go = engaged(actived, held, since_shot, interval);
    let fire = go && waves < MAX_WAVES && since_wave >= PER_SHOOT_INTERVAL;
    let completes = fire && waves + 1 == MAX_WAVES;
    BurstStep {
        actived: if !go {
            actived
        } else {
            !completes
        },
        waves: if !fire {
            waves
        } else if completes {
            0
        } else {
            (waves + 1) as u16
        },
        rearm: go,
        fire_wave: fire,
    }
}

/// One step of the burst logic, given the time since the last burst activity
/// and since the last wave: when engaged, the gun stays engaged and rearms;
/// it emits a wave if fewer than `MAX_WAVES` were emitted and
/// `PER_SHOOT_INTERVAL` has passed since the last one; the wave that
/// completes the burst ends it.
pub fn burst_step(
    actived: bool,
    waves: u16,
    held: bool,
    since_shot: u128,
    since_wave: u128,
    interval: u128,
) -> (r: BurstStep)
    ensures
        r == next_burst(actived, waves, held, since_shot, since_wave, interval),
        r.rearm == engaged(actived, held, since_shot, interval),
        r.fire_wave == (engaged(actived, held, since_shot, interval) && waves < MAX_WAVES
            && since_wave >= PER_SHOOT_INTERVAL),
        !r.rearm ==> r.actived == actived && r.waves == waves,
        r.rearm && !r.fire_wave ==> r.actived && r.waves == waves,
        r.fire_wave && waves + 1 < MAX_WAVES ==> r.actived && r.waves == waves + 1,
        r.fire_wave && waves + 1 == MAX_WAVES ==> !r.actived && r.waves == 0,
        // a burst in progress goes on until the wave that completes it
        actived && waves < MAX_WAVES ==> r.actived || (r.fire_wave && waves + 1 == MAX_WAVES),
        waves < MAX_WAVES ==> r.waves < MAX_WAVES,
{
    let mut actived = actived;
    let mut waves = waves;
    let mut rearm = false;
    let mut fire_wave = false;
    if actived || (held && since_shot >= interval) {
        actived = true;
        rearm = true;
        if waves < MAX_WAVES && since_wave >= PER_SHOOT_INTERVAL {
            fire_wave = true;
            waves = waves + 1;
            if waves == 5 {
                actived = false;
                waves = 0;
            }
        }
    }
    BurstStep { actived, waves, rearm, fire_wave }
}

/// The state of the burst logic after `steps` (each: trigger held, time
/// since the last burst activity, time since the last wave) from `actived`
/// and `waves`, and how many waves those steps emitted.
pub open spec fn run_bursts(
    actived: bool,
    waves: u16,
    steps: Seq<(bool, u128, u128)>,
    interval: u128,
) -> (bool, u16, nat)
    decreases steps.len(),
{
    if steps.len() == 0 {
        (actived, waves, 0)
    } else {
        let before = run_bursts(actived, waves, steps.drop_last(), interval);
        let s = steps.last();
        let b = next_burst(before.0, before.1, s.0, s.1, s.2, interval);
        (b.actived, b.waves, before.2 + if b.fire_wave {
            1nat
        } else {
            0nat
        })
    }
}

/// Bursts are never cut short: from rest, whatever the trigger and the
/// clock do, the waves emitted so far are the full bursts plus the waves of
/// the burst in progress, and whenever the gun is at rest it has emitted
/// whole bursts of `MAX_WAVES` waves only.
pub proof fn bursts_are_never_cut_short(steps: Seq<(bool, u128, u128)>, interval: u128)
    ensures
        ({
            let r = run_bursts(false, 0, steps, interval);
            &&& r.1 < MAX_WAVES
            &&& r.2 % (MAX_WAVES as nat) == r.1
            &&& !r.0 ==> r.1 == 0 && r.2 % (MAX_WAVES as nat) == 0
        }),
    decreases steps.len(),
{
    if steps.len() > 0 {
        bursts_are_never_cut_short(steps.drop_last(), interval);
    }
}

/// The burst logic of a rail gun: a pull of `f` starts a burst of
/// `MAX_WAVES` waves, one every `PER_SHOOT_INTERVAL` milliseconds, and
/// bursts start at most once per shooting interval.
pub struct RailGun {
    shooting_interval: u128,
    time: instant::Instant,
    wave_time: instant::Instant,
    actived: bool,
    current_wave_emitted: u16,
}

impl RailGun {
    #[verifier::type_invariant]
    spec fn inv(&self) -> bool {
        self.current_wave_emitted < MAX_WAVES
    }

    /// Milliseconds between bursts.
    pub closed spec fn interval(&self) -> u128 {
        self.shooting_interval
    }

    /// Whether a burst is in progress.
    pub closed spec fn in_burst(&self) -> bool {
        self.actived
    }

    /// The waves the burst in progress has emitted.
    pub closed spec fn waves(&self) -> u16 {
        self.current_wave_emitted
    }

    /// The moment of the last burst activity: bursts start at most one
    /// interval after it.
    pub closed spec fn burst_timer(&self) -> instant::Instant {
        self.time
    }

    /// The moment of the last wave.
    pub closed spec fn wave_timer(&self) -> instant::Instant {
        self.wave_time
    }

    /// A rail gun at rest, armed now.
    pub fn new(shooting_interval: u128) -> (r: Self)
        ensures
            r.interval() == shooting_interval,
            !r.in_burst(),
            r.waves() == 0,
    {
        RailGun {
            shooting_interval,
            time: clock::now(),
            wave_time: clock::now(),
            actived: false,
            current_wave_emitted: 0,
        }
    }

    /// Applies one step of the burst logic, given the times since the last
    /// burst activity and since the last wave; returns whether a wave is
    /// emitted.
    pub fn shoot_after(&mut self, held: bool, since_shot: u128, since_wave: u128) -> (r: bool)
        ensures
            old(self).waves() < MAX_WAVES,
            final(self).waves() < MAX_WAVES,
            ({
                let s = next_burst(
                    old(self).in_burst(),
                    old(self).waves(),
                    held,
                    since_shot,
                    since_wave,
                    old(self).interval(),
                );
                &&& r == s.fire_wave
                &&& final(self).in_burst() == s.actived
                &&& final(self).waves() == s.waves
                &&& !s.rearm ==> final(self).burst_timer() == old(self).burst_timer()
            }),
            !engaged(old(self).in_burst(), held, since_shot, old(self).interval())
                ==> final(self).burst_timer() == old(self).burst_timer(),
            !r ==> final(self).wave_timer() == old(self).wave_timer(),
            final(self).interval() == old(self).interval(),
    {
        proof {
            use_type_invariant(&*self);
        }
        let s = burst_step(
            self.actived,
            self.current_wave_emitted,
            held,
            since_shot,
            since_wave,
            self.shooting_interval,
        );
        self.actived = s.actived;
        self.current_wave_emitted = s.waves;
        if s.rearm {
            self.time = clock::now();
        }
        if s.fire_wave {
            self.wave_time = clock::now();
        }
        s.fire_wave
    }

    /// One frame of the rail gun's trigger with the `f` key of `input`, reading
    /// the clock; returns whether a wave of projectiles is emitted now.
    pub fn shoot(&mut self, input: &Input) -> (r: bool)
        ensures
            final(self).interval() == old(self).interval(),
            final(self).waves() < MAX_WAVES,
            r ==> old(self).in_burst() || input.pressed(fire_key()),
            !old(self).in_burst() && !input.pressed(fire_key()) ==> !r && !final(self).in_burst()
                && final(self).waves() == old(self).waves(),
            old(self).in_burst() ==> final(self).in_burst() || (r && old(self).waves() + 1
                == MAX_WAVES),
            r && old(self).waves() + 1 < MAX_WAVES ==> final(self).in_burst()
                && final(self).waves() == old(self).waves() + 1,
            r && old(self).waves() + 1 == MAX_WAVES ==> !final(self).in_burst()
                && final(self).waves() == 0,
            !r ==> final(self).waves() == old(self).waves(),
            !old(self).in_burst() && !input.pressed(fire_key()) ==> final(self).burst_timer() == old(
                self,
            ).burst_timer(),
            !r ==> final(self).wave_timer() == old(self).wave_timer(),
    {
        let held = input.is_pressed("f");
        proof {
            reveal_strlit("f");
            assert("f"@ =~= fire_key());
        }
        let since_shot = clock::elapsed_millis(&self.time);
        let since_wave = clock::elapsed_millis(&self.wave_time);
        self.shoot_after(held, since_shot, since_wave)
    }
}

} // verus!
