use vstd::prelude::*;
use crate::util::{closest, is_record};

verus! {

/// A patrol route: waypoints visited in a cycle, the waypoint headed for, and
/// whether the patrol has started. `P` is how the application places a
/// waypoint.
pub struct PatrolArea<P> {
    points: Vec<P>,
    current_point: usize,
    active: bool,
}

impl<P> PatrolArea<P> {
    /// The waypoints.
    pub closed spec fn spec_points(&self) -> Seq<P> {
        self.points@
    }

    /// The index of the waypoint headed for.
    pub closed spec fn spec_current(&self) -> int {
        self.current_point as int
    }

    /// Whether the patrol has started.
    pub closed spec fn spec_active(&self) -> bool {
        self.active
    }

    /// The waypoint headed for is one of the route's (or the route is empty
    /// and the index is 0).
    pub open spec fn wf(&self) -> bool {
        0 <= self.spec_current() < self.spec_points().len() || (self.spec_points().len() == 0
            && self.spec_current() == 0)
    }

    #[verifier::type_invariant]
    spec fn inv(&self) -> bool {
        self.current_point < self.points.len() || (self.points.len() == 0 && self.current_point == 0)
    }

    /// A route through `points` that has not started, heading for the first.
    pub fn new(points: Vec<P>) -> (r: Self)
        ensures
            r.wf(),
            r.spec_points() == points@,
            r.spec_current() == 0,
            !r.spec_active(),
    {
        PatrolArea { points, current_point: 0, active: false }
    }

    /// The number of waypoints.
    pub fn len(&self) -> (r: usize)
        ensures
            r == self.spec_points().len(),
    {
        self.points.len()
    }

    /// Waypoint `i`.
    pub fn point(&self, i: usize) -> (r: &P)
        requires
            i < self.spec_points().len(),
        ensures
            *r == self.spec_points()[i as int],
    {
        &self.points[i]
    }

    /// The index of the waypoint headed for.
    pub fn current_point(&self) -> (r: usize)
        ensures
            r == self.spec_current(),
            self.wf(),
    {
        proof {
            use_type_invariant(self);
        }
        self.current_point
    }

    /// Heads for the next waypoint, from the last back to the first.
    pub fn next(&mut self)
        requires
            old(self).spec_points().len() > 0,
        ensures
            final(self).wf(),
            final(self).spec_points() == old(self).spec_points(),
            final(self).spec_active() == old(self).spec_active(),
            final(self).spec_current() == next_index(old(self).spec_current(), old(self).spec_points().len()),
    {
        proof {
            use_type_invariant(&*self);
        }
        if self.current_point == self.points.len() - 1 {
            self.current_point = 0;
        } else {
            self.current_point = self.current_point + 1;
        }
    }

    /// Heads for the waypoint closest to the patroller other than the one it
    /// heads for now, given each waypoint's distance key (see `util::FAR`);
    /// the first waypoint where none is closer than `FAR`. Returns it.
    pub fn get_direction_closer_point(&mut self, keys: &Vec<u32>) -> (r: usize)
        requires
            old(self).spec_points().len() > 0,
            keys.len() == old(self).spec_points().len(),
        ensures
            final(self).wf(),
            r == final(self).spec_current(),
            r < keys.len(),
            final(self).spec_points() == old(self).spec_points(),
            final(self).spec_active() == old(self).spec_active(),
            r == choice(keys@, old(self).spec_current()),
    {
        proof {
            use_type_invariant(&*self);
        }
        let n = self.points.len();
        let mut eligible: Vec<bool> = Vec::new();
        let mut i: usize = 0;
        while i < n
            invariant
                n == self.points.len(),
                i <= n,
                eligible.len() == i,
                forall|k: int| 0 <= k < i ==> #[trigger] eligible@[k] == (k != self.current_point),
            decreases n - i,
        {
            eligible.push(i != self.current_point);
            i = i + 1;
        }
        assert(eligible@ =~= others(n as nat, self.current_point as int));
        let r = match closest(keys, &eligible) {
            Some(c) => c,
            None => 0,
        };
        self.current_point = r;
        r
    }

    /// The waypoint to head for in this frame: when the patrol starts, the
    /// closest other waypoint (as `get_direction_closer_point` picks it),
    /// afterwards the one headed for.
    pub fn get_direction(&mut self, keys: &Vec<u32>) -> (r: usize)
        requires
            old(self).spec_points().len() > 0,
            keys.len() == old(self).spec_points().len(),
        ensures
            final(self).wf(),
            final(self).spec_active(),
            r == final(self).spec_current(),
            r < keys.len(),
            final(self).spec_points() == old(self).spec_points(),
            r == if old(self).spec_active() {
                old(self).spec_current()
            } else {
                choice(keys@, old(self).spec_current())
            },
    {
        proof {
            use_type_invariant(&*self);
        }
        if !self.active {
            let r = self.get_direction_closer_point(keys);
            self.active = true;
            r
        } else {
            self.current_point
        }
    }
}

/// The waypoint after `current` on a route of `n`: the next, or the first
/// after the last.
pub open spec fn next_index(current: int, n: nat) -> int {
    if current + 1 == n {
        0
    } else {
        current + 1
    }
}

/// The waypoint headed for after `k` calls of `next` from `current`.
pub open spec fn after_nexts(current: int, n: nat, k: nat) -> int
    decreases k,
{
    if k == 0 {
        current
    } else {
        next_index(after_nexts(current, n, (k - 1) as nat), n)
    }
}

proof fn lemma_after_nexts_mod(current: int, n: nat, k: nat)
    requires
        0 <= current < n,
    ensures
        after_nexts(current, n, k) == (current + k) % (n as int),
    decreases k,
{
    let m = n as int;
    if k == 0 {
        vstd::arithmetic::div_mod::lemma_small_mod(current as nat, n);
    } else {
        lemma_after_nexts_mod(current, n, (k - 1) as nat);
        let x = current + k - 1;
        let prev = after_nexts(current, n, (k - 1) as nat);
        assert(prev == x % m);
        vstd::arithmetic::div_mod::lemma_mod_bound(x, m);
        assert(0 <= prev < m);
        vstd::arithmetic::div_mod::lemma_add_mod_noop(x, 1, m);
        assert(((x % m) + (1int % m)) % m == (x + 1) % m);
        if n == 1 {
            vstd::arithmetic::div_mod::lemma_mod_self_0(1);
            assert(prev == 0);
            assert((x + 1) % m == (prev + 0) % m);
            vstd::arithmetic::div_mod::lemma_small_mod(0, 1);
        } else {
            vstd::arithmetic::div_mod::lemma_small_mod(1, n);
            assert((x + 1) % m == (prev + 1) % m);
            if prev + 1 == m {
                vstd::arithmetic::div_mod::lemma_mod_self_0(m);
            } else {
                vstd::arithmetic::div_mod::lemma_small_mod((prev + 1) as nat, n);
            }
        }
        assert(after_nexts(current, n, k) == next_index(prev, n));
    }
}

/// `next` walks the route in a cycle: after `k` calls the patrol heads for
/// waypoint `(current + k) mod n`, so after `n` calls it is back where it
/// started.
pub proof fn patrol_cycles(current: int, n: nat, k: nat)
    requires
        0 <= current < n,
    ensures
        after_nexts(current, n, k) == (current + k) % (n as int),
        after_nexts(current, n, n) == current,
{
    lemma_after_nexts_mod(current, n, k);
    lemma_after_nexts_mod(current, n, n);
    vstd::arithmetic::div_mod::lemma_mod_add_multiples_vanish(current, n as int);
    vstd::arithmetic::div_mod::lemma_small_mod(current as nat, n);
}

/// Every waypoint but the one headed for.
pub open spec fn others(n: nat, current: int) -> Seq<bool> {
    Seq::new(n, |k: int| k != current)
}

/// The waypoint a scan for the closest one settles on, skipping `current`:
/// the first with the smallest key below `FAR`, or the first waypoint if
/// there is none.
pub open spec fn choice(keys: Seq<u32>, current: int) -> int {
    let e = others(keys.len(), current);
    if exists|i: int| is_record(keys, e, i) && forall|j: int| i < j < keys.len() && e[j] ==> keys[i] <= #[trigger] keys[j] {
        choose|i: int| is_record(keys, e, i) && forall|j: int| i < j < keys.len() && e[j] ==> keys[i] <= #[trigger] keys[j]
    } else {
        0
    }
}

} // verus!
