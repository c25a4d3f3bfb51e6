use vstd::prelude::*;

verus! {

/// Hit points an evil ship starts with.
pub const EVIL_SHIP_HIT_POINTS: i32 = 15;

/// Hit points a swift ship starts with.
pub const SWIFT_SHIP_HIT_POINTS: i32 = 10;

/// Hit points the boss starts with.
pub const BOSS_HIT_POINTS: i32 = 500;

/// Whether an enemy is alive, and the hit points it has left.
pub struct Health {
    hit_points: i32,
    alive: bool,
}

impl Health {
    /// Hit points left.
    pub closed spec fn spec_hit_points(&self) -> int {
        self.hit_points as int
    }

    /// Whether the enemy is alive.
    pub closed spec fn spec_alive(&self) -> bool {
        self.alive
    }

    /// A living enemy with `hit_points`.
    pub fn new(hit_points: i32) -> (r: Self)
        ensures
            r.spec_hit_points() == hit_points,
            r.spec_alive(),
    {
        Health { hit_points, alive: true }
    }

    /// A ship takes `hits` damage and is destroyed when no hit points are left.
    pub fn hit(&mut self, hits: i32)
        requires
            i32::MIN <= old(self).spec_hit_points() - hits <= i32::MAX,
        ensures
            final(self).spec_hit_points() == old(self).spec_hit_points() - hits,
            final(self).spec_alive() == (old(self).spec_alive() && final(self).spec_hit_points() > 0),
    {
        self.hit_points = self.hit_points - hits;
        if self.hit_points <= 0 {
            self.destroy();
        }
    }

    /// The boss takes `hits` damage; hit points alone never destroy it.
    pub fn absorb(&mut self, hits: i32)
        requires
            i32::MIN <= old(self).spec_hit_points() - hits <= i32::MAX,
        ensures
            final(self).spec_hit_points() == old(self).spec_hit_points() - hits,
            final(self).spec_alive() == old(self).spec_alive(),
    {
        self.hit_points = self.hit_points - hits;
    }

    /// Hit points left.
    pub fn get_hit_points(&self) -> (r: i32)
        ensures
            r == self.spec_hit_points(),
    {
        self.hit_points
    }

    /// Destroys the enemy.
    pub fn destroy(&mut self)
        ensures
            !final(self).spec_alive(),
            final(self).spec_hit_points() == old(self).spec_hit_points(),
    {
        self.alive = false;
    }

    /// Whether the enemy is alive.
    pub fn alive(&self) -> (r: bool)
        ensures
            r == self.spec_alive(),
    {
        self.alive
    }
}

} // verus!
