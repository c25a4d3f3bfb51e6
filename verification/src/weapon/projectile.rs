use vstd::prelude::*;
use vstd::multiset::Multiset;
use crate::clock;
use crate::util::{is_record, running_minima, settles_on, FAR};

verus! {

broadcast use {
    vstd::seq_lib::group_seq_properties,
    vstd::multiset::group_multiset_axioms,
    vstd::seq_lib::group_to_multiset_ensures,
};

/// The bookkeeping of a projectile: its identifier, whether it is active
/// (moved and drawn), whether it is destroyed (to be dropped), when it was
/// launched, and the target it homes in on. `body` is what the application
/// moves and draws; `P` is how the application locates a target.
pub struct Projectile<B, P> {
    id: u32,
    body: B,
    active: bool,
    destroyed: bool,
    lifetime: instant::Instant,
    target: Option<(u32, P)>,
}

impl<B, P> Projectile<B, P> {
    /// The identifier of the projectile (also that of its particle trail).
    pub closed spec fn spec_id(&self) -> u32 {
        self.id
    }

    /// What the application moves and draws.
    pub closed spec fn spec_body(&self) -> B {
        self.body
    }

    /// The same projectile with `body` in place of its own.
    pub closed spec fn with_body(self, body: B) -> Self {
        Projectile { body, ..self }
    }

    /// The identifier of the projectile.
    pub fn id(&self) -> (r: u32)
        ensures
            r == self.spec_id(),
    {
        self.id
    }

    /// What the application moves and draws.
    pub fn body(&self) -> (r: &B)
        ensures
            *r == self.spec_body(),
    {
        &self.body
    }

    /// What the application moves and draws, to change it; nothing else of
    /// the projectile changes.
    pub fn body_mut(&mut self) -> (r: &mut B)
        ensures
            *r == old(self).spec_body(),
            *final(self) == old(self).with_body(*final(r)),
    {
        &mut self.body
    }

    /// Whether the projectile is active: it is moved and drawn.
    pub closed spec fn spec_active(&self) -> bool {
        self.active
    }

    /// Whether the projectile is destroyed: it is dropped at the next sweep.
    pub closed spec fn spec_destroyed(&self) -> bool {
        self.destroyed
    }

    /// The target the projectile homes in on, by identifier and location.
    pub closed spec fn spec_target(&self) -> Option<(u32, P)> {
        self.target
    }

    /// The moment of launch.
    pub closed spec fn launched(&self) -> instant::Instant {
        self.lifetime
    }

    /// The same projectile with the destroyed flag set to `d`.
    pub closed spec fn with_destroyed(self, d: bool) -> Self {
        Projectile { destroyed: d, ..self }
    }

    /// The same projectile with the active flag set to `a`.
    pub closed spec fn with_active(self, a: bool) -> Self {
        Projectile { active: a, ..self }
    }

    /// A projectile launched now: active, not destroyed, with no target.
    pub fn new(id: u32, body: B) -> (r: Self)
        ensures
            r.spec_id() == id,
            r.spec_body() == body,
            r.spec_active(),
            !r.spec_destroyed(),
            r.spec_target() is None,
    {
        Projectile { id, body, active: true, destroyed: false, lifetime: clock::now(), target: None }
    }

    /// Aims the projectile at a target; a projectile that is within reach of
    /// the target (as the caller measured) stops being active.
    pub fn set_target(&mut self, target_id: u32, target_pos: P, within_reach: bool)
        ensures
            final(self).spec_target() == Some((target_id, target_pos)),
            final(self).spec_active() == (old(self).spec_active() && !within_reach),
            final(self).spec_destroyed() == old(self).spec_destroyed(),
            final(self).launched() == old(self).launched(),
            final(self).spec_id() == old(self).spec_id(),
            final(self).spec_body() == old(self).spec_body(),
    {
        if within_reach {
            self.active = false;
        }
        self.target = Some((target_id, target_pos));
    }

    /// Whether the projectile has a target; identifier 0 counts as none.
    pub fn has_target(&self) -> (r: bool)
        ensures
            r == self.spec_has_target(),
    {
        match &self.target {
            Some(t) => t.0 != 0,
            None => false,
        }
    }

    /// The current target.
    pub fn get_target(&self) -> (r: (u32, P))
        where
            P: Copy,
        requires
            self.spec_target() is Some,
        ensures
            Some(r) == self.spec_target(),
    {
        self.target.unwrap()
    }

    /// Marks the projectile destroyed.
    pub fn destroy(&mut self)
        ensures
            *final(self) == old(self).with_destroyed(true),
            final(self).spec_destroyed(),
            final(self).spec_active() == old(self).spec_active(),
            final(self).spec_target() == old(self).spec_target(),
            final(self).spec_id() == old(self).spec_id(),
            final(self).spec_body() == old(self).spec_body(),
            final(self).launched() == old(self).launched(),
            old(self).spec_destroyed() ==> *final(self) == *old(self),
    {
        self.destroyed = true;
    }

    /// Whether the projectile is active.
    pub fn is_active(&self) -> (r: bool)
        ensures
            r == self.spec_active(),
    {
        self.active
    }

    /// Whether the projectile is destroyed.
    pub fn is_destroyed(&self) -> (r: bool)
        ensures
            r == self.spec_destroyed(),
    {
        self.destroyed
    }

    /// Milliseconds since launch, read from the clock.
    pub fn lifetime(&self) -> (r: u128) {
        clock::elapsed_millis(&self.lifetime)
    }

    /// Stops the projectile being active.
    pub fn desactive(&mut self)
        ensures
            *final(self) == old(self).with_active(false),
            !final(self).spec_active(),
            final(self).spec_destroyed() == old(self).spec_destroyed(),
            final(self).spec_target() == old(self).spec_target(),
            final(self).spec_id() == old(self).spec_id(),
            final(self).spec_body() == old(self).spec_body(),
            final(self).launched() == old(self).launched(),
            !old(self).spec_active() ==> *final(self) == *old(self),
    {
        self.active = false;
    }

    /// A projectile that stopped being active and is not yet destroyed
    /// explodes once: this reports whether it explodes now and marks it
    /// destroyed if so.
    pub fn detonate(&mut self) -> (r: bool)
        ensures
            r == (!old(self).spec_active() && !old(self).spec_destroyed()),
            *final(self) == if r {
                old(self).with_destroyed(true)
            } else {
                *old(self)
            },
    {
        if !self.active && !self.destroyed {
            self.destroyed = true;
            true
        } else {
            false
        }
    }

    /// Destroys the projectile if it has lived longer than `limit`
    /// milliseconds, given its age.
    pub fn expire(&mut self, age: u128, limit: u128)
        ensures
            *final(self) == if age > limit {
                old(self).with_destroyed(true)
            } else {
                *old(self)
            },
    {
        if age > limit {
            self.destroyed = true;
        }
    }

    /// Stops the projectile being active if it has lived `limit` milliseconds
    /// or longer, given its age.
    pub fn retire(&mut self, age: u128, limit: u128)
        ensures
            *final(self) == if age >= limit {
                old(self).with_active(false)
            } else {
                *old(self)
            },
    {
        if age >= limit {
            self.active = false;
        }
    }
}

/// Setting the destroyed flag changes that flag and keeps every other part.
pub broadcast proof fn lemma_with_destroyed_parts<B, P>(p: Projectile<B, P>, d: bool)
    ensures
        #![trigger p.with_destroyed(d)]
        p.with_destroyed(d).spec_destroyed() == d,
        p.with_destroyed(d).spec_active() == p.spec_active(),
        p.with_destroyed(d).spec_target() == p.spec_target(),
        p.with_destroyed(d).spec_id() == p.spec_id(),
        p.with_destroyed(d).spec_body() == p.spec_body(),
        p.with_destroyed(d).launched() == p.launched(),
        p.spec_destroyed() == d ==> p.with_destroyed(d) == p,
{
}

/// Setting the active flag changes that flag and keeps every other part.
pub broadcast proof fn lemma_with_active_parts<B, P>(p: Projectile<B, P>, a: bool)
    ensures
        #![trigger p.with_active(a)]
        p.with_active(a).spec_active() == a,
        p.with_active(a).spec_destroyed() == p.spec_destroyed(),
        p.with_active(a).spec_target() == p.spec_target(),
        p.with_active(a).spec_id() == p.spec_id(),
        p.with_active(a).spec_body() == p.spec_body(),
        p.with_active(a).launched() == p.launched(),
        p.spec_active() == a ==> p.with_active(a) == p,
{
}

/// Replacing the body changes the body and keeps every other part.
pub broadcast proof fn lemma_with_body_parts<B, P>(p: Projectile<B, P>, body: B)
    ensures
        #![trigger p.with_body(body)]
        p.with_body(body).spec_body() == body,
        p.with_body(body).spec_active() == p.spec_active(),
        p.with_body(body).spec_destroyed() == p.spec_destroyed(),
        p.with_body(body).spec_target() == p.spec_target(),
        p.with_body(body).spec_id() == p.spec_id(),
        p.with_body(body).launched() == p.launched(),
{
}

/// Replacing the target changes the target and keeps every other part.
pub broadcast proof fn lemma_with_target_parts<B, P>(p: Projectile<B, P>, t: Option<(u32, P)>)
    ensures
        #![trigger p.with_target(t)]
        p.with_target(t).spec_target() == t,
        p.with_target(t).spec_active() == p.spec_active(),
        p.with_target(t).spec_destroyed() == p.spec_destroyed(),
        p.with_target(t).spec_id() == p.spec_id(),
        p.with_target(t).spec_body() == p.spec_body(),
        p.with_target(t).launched() == p.launched(),
{
}

/// The parts of a projectile after one of them is replaced.
pub broadcast group group_projectile_parts {
    lemma_with_destroyed_parts,
    lemma_with_active_parts,
    lemma_with_body_parts,
    lemma_with_target_parts,
}

/// Two projectiles that agree in every part are the same projectile.
pub proof fn lemma_projectile_ext<B, P>(a: Projectile<B, P>, b: Projectile<B, P>)
    requires
        a.spec_id() == b.spec_id(),
        a.spec_body() == b.spec_body(),
        a.spec_active() == b.spec_active(),
        a.spec_destroyed() == b.spec_destroyed(),
        a.launched() == b.launched(),
        a.spec_target() == b.spec_target(),
    ensures
        a == b,
{
}

/// Expiry by age destroys exactly the projectiles older than the limit: the
/// result of expiring `p` at age `age` is destroyed exactly when `p` was
/// already destroyed or `age` exceeds `limit`, and it is `p` itself when
/// `age` does not exceed `limit`; retiring stops exactly the projectiles of
/// age `limit` or more and destroys none.
pub proof fn expiry_goes_by_age<B, P>(p: Projectile<B, P>, age: u128, limit: u128)
    ensures
        (if age > limit {
            p.with_destroyed(true)
        } else {
            p
        }).spec_destroyed() == (p.spec_destroyed() || age > limit),
        (if age > limit {
            p.with_destroyed(true)
        } else {
            p
        }).spec_active() == p.spec_active(),
        (if age >= limit {
            p.with_active(false)
        } else {
            p
        }).spec_active() == (p.spec_active() && age < limit),
        (if age >= limit {
            p.with_active(false)
        } else {
            p
        }).spec_destroyed() == p.spec_destroyed(),
{
}

/// The age of each projectile in milliseconds, read from the clock.
pub fn ages<B, P>(v: &Vec<Projectile<B, P>>) -> (r: Vec<u128>)
    ensures
        r.len() == v.len(),
{
    let n = v.len();
    let mut r: Vec<u128> = Vec::new();
    let mut i: usize = 0;
    while i < n
        invariant
            n == v.len(),
            i <= n,
            r.len() == i,
        decreases n - i,
    {
        r.push(v[i].lifetime());
        i = i + 1;
    }
    r
}

/// Destroys every projectile whose age (`ages`, in the same order) is
/// above `limit` milliseconds.
pub fn expire_by_ages<B, P>(v: &mut Vec<Projectile<B, P>>, ages: &Vec<u128>, limit: u128)
    requires
        ages.len() == old(v).len(),
    ensures
        final(v).len() == old(v).len(),
        forall|i: int|
            0 <= i < old(v).len() ==> #[trigger] final(v)@[i] == if ages@[i] > limit {
                old(v)@[i].with_destroyed(true)
            } else {
                old(v)@[i]
            },
{
    let n = v.len();
    let mut i: usize = 0;
    while i < n
        invariant
            n == v.len(),
            n == old(v).len(),
            n == ages.len(),
            i <= n,
            forall|k: int|
                0 <= k < i ==> #[trigger] v@[k] == if ages@[k] > limit {
                    old(v)@[k].with_destroyed(true)
                } else {
                    old(v)@[k]
                },
            forall|k: int| i <= k < n ==> #[trigger] v@[k] == old(v)@[k],
        decreases n - i,
    {
        v[i].expire(ages[i], limit);
        i = i + 1;
    }
}

/// Stops every projectile whose age (`ages`, in the same order) is `limit`
/// milliseconds or more being active.
pub fn retire_by_ages<B, P>(v: &mut Vec<Projectile<B, P>>, ages: &Vec<u128>, limit: u128)
    requires
        ages.len() == old(v).len(),
    ensures
        final(v).len() == old(v).len(),
        forall|i: int|
            0 <= i < old(v).len() ==> #[trigger] final(v)@[i] == if ages@[i] >= limit {
                old(v)@[i].with_active(false)
            } else {
                old(v)@[i]
            },
{
    let n = v.len();
    let mut i: usize = 0;
    while i < n
        invariant
            n == v.len(),
            n == old(v).len(),
            n == ages.len(),
            i <= n,
            forall|k: int|
                0 <= k < i ==> #[trigger] v@[k] == if ages@[k] >= limit {
                    old(v)@[k].with_active(false)
                } else {
                    old(v)@[k]
                },
            forall|k: int| i <= k < n ==> #[trigger] v@[k] == old(v)@[k],
        decreases n - i,
    {
        v[i].retire(ages[i], limit);
        i = i + 1;
    }
}

/// Destroys every projectile that has lived longer than `limit` milliseconds,
/// reading each one's age from the clock; returns the ages it read. Only the
/// destroyed flag changes.
pub fn expire_all<B, P>(v: &mut Vec<Projectile<B, P>>, limit: u128) -> (ages: Vec<u128>)
    ensures
        ages.len() == old(v).len(),
        forall|i: int|
            0 <= i < old(v).len() ==> #[trigger] final(v)@[i] == if ages@[i] > limit {
                old(v)@[i].with_destroyed(true)
            } else {
                old(v)@[i]
            },
        forall|i: int|
            0 <= i < old(v).len() && ages@[i] > limit ==> (#[trigger] final(v)@[i]).spec_destroyed(),
        forall|i: int| 0 <= i < old(v).len() && ages@[i] <= limit ==> #[trigger] final(v)@[i] == old(v)@[i],
        final(v).len() == old(v).len(),
        forall|i: int|
            0 <= i < old(v).len() ==> #[trigger] final(v)@[i] == old(v)@[i] || final(v)@[i]
                == old(v)@[i].with_destroyed(true),
        forall|i: int|
            0 <= i < old(v).len() ==> {
                &&& #[trigger] final(v)@[i].spec_active() == old(v)@[i].spec_active()
                &&& final(v)@[i].spec_id() == old(v)@[i].spec_id()
                &&& final(v)@[i].spec_body() == old(v)@[i].spec_body()
                &&& final(v)@[i].spec_target() == old(v)@[i].spec_target()
                &&& old(v)@[i].spec_destroyed() ==> final(v)@[i].spec_destroyed()
            },
{
    let a = ages(v);
    expire_by_ages(v, &a, limit);
    a
}

/// Stops every projectile that has lived `limit` milliseconds or longer
/// being active, reading each one's age from the clock; with a limit of 0
/// every projectile stops. Only the active flag changes: no projectile is
/// destroyed, so a sweep keeps the retired ones. Returns the ages it read.
pub fn retire_all<B, P>(v: &mut Vec<Projectile<B, P>>, limit: u128) -> (ages: Vec<u128>)
    ensures
        ages.len() == old(v).len(),
        forall|i: int|
            0 <= i < old(v).len() ==> #[trigger] final(v)@[i] == if ages@[i] >= limit {
                old(v)@[i].with_active(false)
            } else {
                old(v)@[i]
            },
        forall|i: int|
            0 <= i < old(v).len() && ages@[i] >= limit ==> !(#[trigger] final(v)@[i]).spec_active(),
        forall|i: int| 0 <= i < old(v).len() && ages@[i] < limit ==> #[trigger] final(v)@[i] == old(v)@[i],
        final(v).len() == old(v).len(),
        forall|i: int|
            0 <= i < old(v).len() ==> #[trigger] final(v)@[i] == old(v)@[i] || final(v)@[i]
                == old(v)@[i].with_active(false),
        limit == 0 ==> forall|i: int|
            0 <= i < old(v).len() ==> #[trigger] final(v)@[i] == old(v)@[i].with_active(false),
        forall|i: int|
            0 <= i < old(v).len() ==> {
                &&& #[trigger] final(v)@[i].spec_destroyed() == old(v)@[i].spec_destroyed()
                &&& final(v)@[i].spec_id() == old(v)@[i].spec_id()
                &&& final(v)@[i].spec_body() == old(v)@[i].spec_body()
                &&& final(v)@[i].spec_target() == old(v)@[i].spec_target()
                &&& !old(v)@[i].spec_active() ==> !final(v)@[i].spec_active()
            },
{
    let a = ages(v);
    retire_by_ages(v, &a, limit);
    a
}

/// A projectile explodes at most once: once `detonate` has reported an
/// explosion, the projectile is destroyed and never reports another.
pub proof fn projectile_explodes_once<B, P>(p: Projectile<B, P>)
    ensures
        p.with_destroyed(true).spec_destroyed(),
        !(!p.with_destroyed(true).spec_active() && !p.with_destroyed(true).spec_destroyed()),
        p.with_destroyed(true).spec_active() == p.spec_active(),
{
}

/// Retired projectiles survive the sweep: after `retire_all` (which keeps
/// every destroyed flag), a sweep that keeps inactive projectiles keeps each
/// projectile that was not destroyed before.
pub proof fn retired_projectiles_survive_the_sweep<B, P>(
    before: Seq<Projectile<B, P>>,
    retired: Seq<Projectile<B, P>>,
    after: Seq<Projectile<B, P>>,
)
    requires
        retired.len() == before.len(),
        forall|i: int|
            0 <= i < before.len() ==> #[trigger] retired[i].spec_destroyed()
                == before[i].spec_destroyed(),
        forall|p: Projectile<B, P>|
            #[trigger] after.to_multiset().count(p) == if kept(p, false) {
                retired.to_multiset().count(p)
            } else {
                0
            },
    ensures
        forall|i: int|
            0 <= i < before.len() && !before[i].spec_destroyed() ==> after.contains(
                #[trigger] retired[i],
            ),
{
    assert forall|i: int|
        0 <= i < before.len() && !before[i].spec_destroyed() implies after.contains(
            #[trigger] retired[i],
        ) by {
        assert(retired.contains(retired[i]));
        assert(retired.to_multiset().count(retired[i]) > 0);
        assert(after.to_multiset().count(retired[i]) > 0);
    }
}

/// Sweeping twice drops nothing the first sweep kept: a second `purge` over
/// projectiles the sweep keeps returns nothing and keeps every projectile.
pub proof fn purge_is_idempotent<B, P>(
    before: Seq<Projectile<B, P>>,
    after: Seq<Projectile<B, P>>,
    removed: Seq<Projectile<B, P>>,
    drop_inactive: bool,
)
    requires
        forall|k: int| 0 <= k < before.len() ==> kept(#[trigger] before[k], drop_inactive),
        forall|p: Projectile<B, P>|
            #[trigger] after.to_multiset().count(p) == if kept(p, drop_inactive) {
                before.to_multiset().count(p)
            } else {
                0
            },
        forall|p: Projectile<B, P>|
            #[trigger] removed.to_multiset().count(p) == if kept(p, drop_inactive) {
                0
            } else {
                before.to_multiset().count(p)
            },
    ensures
        removed.len() == 0,
        after.to_multiset() == before.to_multiset(),
{
    let pred = |p: Projectile<B, P>| kept(p, drop_inactive);
    assert forall|p: Projectile<B, P>| #[trigger] removed.to_multiset().count(p) == 0 by {
        if !kept(p, drop_inactive) {
            lemma_all_satisfy_count(before, p, pred);
        }
    }
    assert(removed.to_multiset() =~= Multiset::empty());
    vstd::seq_lib::to_multiset_len(removed);
    assert forall|p: Projectile<B, P>| #[trigger] after.to_multiset().count(p) == before.to_multiset().count(p) by {
        if !kept(p, drop_inactive) {
            lemma_all_satisfy_count(before, p, pred);
        }
    }
    assert(after.to_multiset() =~= before.to_multiset());
}

/// Whether some candidate at the listed indices is within reach.
pub open spec fn any_within_reach(reach: Seq<bool>, indices: Seq<int>) -> bool {
    exists|k: int| 0 <= k < indices.len() && reach[#[trigger] indices[k]]
}

/// The indices of the candidates whose identifier is `id`, in order.
pub open spec fn matching(ids: Seq<u32>, id: u32) -> Seq<int> {
    index_range(ids.len()).filter(bears(ids, id))
}

/// Whether candidate `i` bears identifier `id`.
pub open spec fn bears(ids: Seq<u32>, id: u32) -> spec_fn(int) -> bool {
    |i: int| ids[i] == id
}

/// Whether candidate `i` is a new best of a scan for the closest.
pub open spec fn new_best(keys: Seq<u32>, eligible: Seq<bool>) -> spec_fn(int) -> bool {
    |i: int| is_record(keys, eligible, i)
}

/// The indices of the candidates that are new bests of a scan for the
/// closest, in order.
pub open spec fn records(keys: Seq<u32>, eligible: Seq<bool>) -> Seq<int> {
    index_range(keys.len()).filter(new_best(keys, eligible))
}

/// The projectile after aiming, in order, at each listed candidate.
pub open spec fn aimed_at_each<B, P>(
    p: Projectile<B, P>,
    ids: Seq<u32>,
    positions: Seq<P>,
    reach: Seq<bool>,
    indices: Seq<int>,
) -> Projectile<B, P> {
    if indices.len() == 0 {
        p
    } else {
        let last = indices.last();
        p.with_target(Some((ids[last], positions[last]))).with_active(
            p.spec_active() && !any_within_reach(reach, indices),
        )
    }
}

impl<B, P> Projectile<B, P> {
    /// Whether the projectile has a target; identifier 0 counts as none.
    pub open spec fn spec_has_target(&self) -> bool {
        match self.spec_target() {
            Some(t) => t.0 != 0,
            None => false,
        }
    }

    /// The identifier of the target.
    pub open spec fn spec_target_id(&self) -> u32 {
        self.spec_target().unwrap().0
    }

    /// The same projectile aimed at `t`.
    pub closed spec fn with_target(self, t: Option<(u32, P)>) -> Self {
        Projectile { target: t, ..self }
    }

    /// Aiming a projectile at `t` and setting its active flag to `a` gives it
    /// that target and that flag.
    pub proof fn lemma_with_target_active(self, t: Option<(u32, P)>, a: bool)
        ensures
            self.with_target(t).with_active(a).spec_target() == t,
            self.with_target(t).with_active(a).spec_active() == a,
            self.with_target(t).with_active(a).spec_destroyed() == self.spec_destroyed(),
            self.with_target(t).with_active(a).spec_id() == self.spec_id(),
            self.with_target(t).with_active(a).spec_body() == self.spec_body(),
    {
    }
}

/// Homes a projectile in on the enemies, given for each enemy its
/// identifier, location, distance key from the player (see `util::FAR`),
/// whether it is alive, and whether it is within reach of the projectile.
/// A projectile without a target is aimed at each living enemy that is a new
/// closest one in turn (so it ends aimed at the closest); one with a target
/// is aimed again at each enemy bearing the target's identifier, following
/// it. Every aiming at an enemy within reach stops the projectile.
pub fn home_in<B, P: Copy>(
    p: &mut Projectile<B, P>,
    ids: &Vec<u32>,
    positions: &Vec<P>,
    keys: &Vec<u32>,
    alive: &Vec<bool>,
    reach: &Vec<bool>,
)
    requires
        ids.len() == positions.len(),
        ids.len() == keys.len(),
        ids.len() == alive.len(),
        ids.len() == reach.len(),
    ensures
        *final(p) == if old(p).spec_has_target() {
            aimed_at_each(*old(p), ids@, positions@, reach@, matching(ids@, old(p).spec_target_id()))
        } else {
            aimed_at_each(*old(p), ids@, positions@, reach@, records(keys@, alive@))
        },
        // without a target: the closest living enemy, as `closest` finds it
        !old(p).spec_has_target() ==> forall|c: int|
            #[trigger] settles_on(keys@, alive@, c) ==> final(p).spec_target() == Some(
                (ids@[c], positions@[c]),
            ),
        !old(p).spec_has_target() && (forall|j: int|
            0 <= j < keys.len() && alive@[j] ==> #[trigger] keys@[j] >= FAR) ==> *final(p) == *old(
            p,
        ),
        !old(p).spec_has_target() ==> final(p).spec_active() == (old(p).spec_active() && !(exists|
            i: int,
        | #[trigger] is_record(keys@, alive@, i) && reach@[i])),
        // with a target: the last enemy bearing its identifier
        old(p).spec_has_target() ==> forall|m: int|
            #[trigger] last_bearer(ids@, old(p).spec_target_id(), m) ==> final(p).spec_target()
                == Some((old(p).spec_target_id(), positions@[m])),
        old(p).spec_has_target() && (forall|j: int|
            0 <= j < ids.len() ==> #[trigger] ids@[j] != old(p).spec_target_id()) ==> *final(p)
            == *old(p),
        old(p).spec_has_target() ==> final(p).spec_active() == (old(p).spec_active() && !(exists|
            i: int,
        | 0 <= i < ids.len() && #[trigger] ids@[i] == old(p).spec_target_id() && reach@[i])),
        final(p).spec_destroyed() == old(p).spec_destroyed(),
        final(p).spec_id() == old(p).spec_id(),
        final(p).spec_body() == old(p).spec_body(),
        final(p).launched() == old(p).launched(),
{
    proof {
        if old(p).spec_has_target() {
            homing_follows_its_target(*old(p), ids@, positions@, reach@);
        } else {
            homing_aims_at_the_closest(*old(p), ids@, positions@, keys@, alive@, reach@);
        }
    }
    if !p.has_target() {
        let picks = running_minima(keys, alive);
        proof {
            lemma_sorted_listing(picks@, keys.len() as int, new_best(keys@, alive@));
        }
        aim_at_each(p, ids, positions, reach, &picks);
    } else {
        let tid = p.get_target().0;
        let mut picks: Vec<usize> = Vec::new();
        let n = ids.len();
        let mut i: usize = 0;
        while i < n
            invariant
                n == ids.len(),
                i <= n,
                picks@.map_values(|x: usize| x as int) == Seq::new(i as nat, |j: int| j).filter(
                    bears(ids@, tid),
                ),
                forall|k: int| 0 <= k < picks.len() ==> #[trigger] picks@[k] < n,
            decreases n - i,
        {
            let ghost before = Seq::new(i as nat, |j: int| j);
            let ghost after = Seq::new((i + 1) as nat, |j: int| j);
            proof {
                assert(after =~= before.push(i as int));
                before.lemma_filter_push(i as int, bears(ids@, tid));
            }
            if ids[i] == tid {
                picks.push(i);
                proof {
                    assert(picks@.map_values(|x: usize| x as int) =~= before.filter(
                        bears(ids@, tid),
                    ).push(i as int));
                }
            }
            i = i + 1;
        }
        proof {
            assert(Seq::new(n as nat, |j: int| j) =~= Seq::new(ids@.len(), |i: int| i));
        }
        aim_at_each(p, ids, positions, reach, &picks);
    }
}

/// The indices below `n`, in order.
pub open spec fn index_range(n: nat) -> Seq<int> {
    Seq::new(n, |i: int| i)
}

/// The index range below `n` filtered by `pred`: every listed index is below
/// `n` and satisfies `pred`, the indices increase, and every such index is
/// listed.
proof fn lemma_filter_range(n: nat, pred: spec_fn(int) -> bool)
    ensures
        forall|k: int|
            0 <= k < index_range(n).filter(pred).len() ==> 0 <= #[trigger] index_range(n).filter(
                pred,
            )[k] < n && pred(index_range(n).filter(pred)[k]),
        forall|k1: int, k2: int|
            0 <= k1 < k2 < index_range(n).filter(pred).len() ==> #[trigger] index_range(n).filter(
                pred,
            )[k1] < #[trigger] index_range(n).filter(pred)[k2],
        forall|i: int| 0 <= i < n && #[trigger] pred(i) ==> index_range(n).filter(pred).contains(i),
    decreases n,
{
    let f = index_range(n).filter(pred);
    if n == 0 {
        assert(index_range(0) =~= Seq::<int>::empty());
        assert(f =~= Seq::<int>::empty()) by {
            reveal(Seq::filter);
        }
    } else {
        let m = (n - 1) as nat;
        lemma_filter_range(m, pred);
        let prev = index_range(m);
        let g = prev.filter(pred);
        assert(index_range(n) =~= prev.push(m as int));
        prev.lemma_filter_push(m as int, pred);
        if pred(m as int) {
            assert(f =~= g.push(m as int));
            assert forall|i: int| 0 <= i < n && #[trigger] pred(i) implies f.contains(i) by {
                if i < m {
                    assert(g.contains(i));
                    let k = choose|k: int| 0 <= k < g.len() && g[k] == i;
                    assert(f[k] == i);
                } else {
                    assert(f[f.len() - 1] == i);
                }
            }
        } else {
            assert(f =~= g);
            assert forall|i: int| 0 <= i < n && #[trigger] pred(i) implies f.contains(i) by {
                assert(i < m);
            }
        }
    }
}

/// A projectile without a target ends aimed at the closest living enemy:
/// homing in settles on the enemy where a scan for the closest settles (the
/// one `closest` returns); with no living enemy closer than `FAR` it stays
/// as it was; it stops exactly when some living enemy that was a new closest
/// in the scan is within reach; nothing else of it changes.
pub proof fn homing_aims_at_the_closest<B, P>(
    p: Projectile<B, P>,
    ids: Seq<u32>,
    positions: Seq<P>,
    keys: Seq<u32>,
    alive: Seq<bool>,
    reach: Seq<bool>,
)
    requires
        ids.len() == positions.len(),
        ids.len() == keys.len(),
        ids.len() == alive.len(),
        ids.len() == reach.len(),
    ensures
        forall|c: int|
            #[trigger] settles_on(keys, alive, c) ==> aimed_at_each(p, ids, positions, reach, records(keys, alive)).spec_target()
                == Some((ids[c], positions[c])),
        (forall|j: int| 0 <= j < keys.len() && alive[j] ==> #[trigger] keys[j] >= FAR) ==> aimed_at_each(
            p,
            ids,
            positions,
            reach,
            records(keys, alive),
        ) == p,
        aimed_at_each(p, ids, positions, reach, records(keys, alive)).spec_active() == (
        p.spec_active() && !(exists|i: int| #[trigger] is_record(keys, alive, i) && reach[i])),
        aimed_at_each(p, ids, positions, reach, records(keys, alive)).spec_destroyed()
            == p.spec_destroyed(),
        aimed_at_each(p, ids, positions, reach, records(keys, alive)).spec_id() == p.spec_id(),
        aimed_at_each(p, ids, positions, reach, records(keys, alive)).spec_body() == p.spec_body(),
        aimed_at_each(p, ids, positions, reach, records(keys, alive)).launched() == p.launched(),
{
    let n = keys.len();
    let pred = new_best(keys, alive);
    let r = records(keys, alive);
    lemma_filter_range(n, pred);
    assert(r == index_range(n).filter(pred));
    let q = aimed_at_each(p, ids, positions, reach, r);
    assert forall|c: int| #[trigger] settles_on(keys, alive, c) implies aimed_at_each(p, ids, positions, reach, records(keys, alive)).spec_target()
        == Some((ids[c], positions[c])) by {
        assert(pred(c));
        assert(r.contains(c));
        let k = choose|k: int| 0 <= k < r.len() && r[k] == c;
        if k < r.len() - 1 {
            let l = r[r.len() - 1];
            assert(r[k] < l);
            assert(pred(l));
            assert(is_record(keys, alive, l));
            assert(keys[l] < keys[c]);
            assert(keys[c] <= keys[l]);
        }
        assert(r.last() == c);
    }
    if forall|j: int| 0 <= j < keys.len() && alive[j] ==> #[trigger] keys[j] >= FAR {
        if r.len() > 0 {
            assert(pred(r[0]));
        }
    }
    assert(any_within_reach(reach, r) == (exists|i: int| #[trigger] is_record(keys, alive, i) && reach[i])) by {
        if any_within_reach(reach, r) {
            let k = choose|k: int| 0 <= k < r.len() && reach[#[trigger] r[k]];
            assert(pred(r[k]));
            assert(is_record(keys, alive, r[k]) && reach[r[k]]);
        }
        if exists|i: int| #[trigger] is_record(keys, alive, i) && reach[i] {
            let i = choose|i: int| #[trigger] is_record(keys, alive, i) && reach[i];
            assert(pred(i));
            assert(r.contains(i));
            let k = choose|k: int| 0 <= k < r.len() && r[k] == i;
            assert(reach[r[k]]);
        }
    }
    if r.len() == 0 {
        assert(!(exists|i: int| #[trigger] is_record(keys, alive, i) && reach[i])) by {
            if exists|i: int| #[trigger] is_record(keys, alive, i) && reach[i] {
                let i = choose|i: int| #[trigger] is_record(keys, alive, i) && reach[i];
                assert(pred(i));
                assert(r.contains(i));
            }
        }
    }
}

/// Enemy `m` is the last to bear identifier `id`.
pub open spec fn last_bearer(ids: Seq<u32>, id: u32, m: int) -> bool {
    &&& 0 <= m < ids.len()
    &&& ids[m] == id
    &&& forall|j: int| m < j < ids.len() ==> #[trigger] ids[j] != id
}

/// A projectile with a target follows it: homing in aims it at the location
/// of the last enemy bearing the target's identifier; with no such enemy it
/// stays as it was; it stops exactly when some enemy bearing that identifier
/// is within reach; nothing else of it changes.
pub proof fn homing_follows_its_target<B, P>(
    p: Projectile<B, P>,
    ids: Seq<u32>,
    positions: Seq<P>,
    reach: Seq<bool>,
)
    requires
        p.spec_has_target(),
        ids.len() == positions.len(),
        ids.len() == reach.len(),
    ensures
        forall|m: int|
            #[trigger] last_bearer(ids, p.spec_target_id(), m) ==> aimed_at_each(p, ids, positions, reach, matching(ids, p.spec_target_id())).spec_target()
                == Some((p.spec_target_id(), positions[m])),
        (forall|j: int| 0 <= j < ids.len() ==> #[trigger] ids[j] != p.spec_target_id()) ==> aimed_at_each(
            p,
            ids,
            positions,
            reach,
            matching(ids, p.spec_target_id()),
        ) == p,
        aimed_at_each(p, ids, positions, reach, matching(ids, p.spec_target_id())).spec_active() == (
        p.spec_active() && !(exists|i: int| 0 <= i < ids.len() && #[trigger] ids[i] == p.spec_target_id() && reach[i])),
        aimed_at_each(p, ids, positions, reach, matching(ids, p.spec_target_id())).spec_destroyed()
            == p.spec_destroyed(),
        aimed_at_each(p, ids, positions, reach, matching(ids, p.spec_target_id())).spec_id() == p.spec_id(),
        aimed_at_each(p, ids, positions, reach, matching(ids, p.spec_target_id())).spec_body() == p.spec_body(),
        aimed_at_each(p, ids, positions, reach, matching(ids, p.spec_target_id())).launched() == p.launched(),
{
    let n = ids.len();
    let tid = p.spec_target_id();
    let pred = bears(ids, tid);
    let r = matching(ids, tid);
    lemma_filter_range(n, pred);
    assert(r == index_range(n).filter(pred));
    assert forall|m: int| #[trigger] last_bearer(ids, tid, m) implies aimed_at_each(p, ids, positions, reach, matching(ids, p.spec_target_id())).spec_target()
        == Some((p.spec_target_id(), positions[m])) by {
        assert(pred(m));
        assert(r.contains(m));
        let k = choose|k: int| 0 <= k < r.len() && r[k] == m;
        if k < r.len() - 1 {
            let l = r[r.len() - 1];
            assert(r[k] < l);
            assert(pred(l));
            assert(ids[l] == tid);
        }
        assert(r.last() == m);
    }
    if forall|j: int| 0 <= j < ids.len() ==> #[trigger] ids[j] != tid {
        if r.len() > 0 {
            assert(pred(r[0]));
        }
    }
    assert(any_within_reach(reach, r) == (exists|i: int| 0 <= i < ids.len() && #[trigger] ids[i] == tid && reach[i])) by {
        if any_within_reach(reach, r) {
            let k = choose|k: int| 0 <= k < r.len() && reach[#[trigger] r[k]];
            assert(pred(r[k]));
        }
        if exists|i: int| 0 <= i < ids.len() && #[trigger] ids[i] == tid && reach[i] {
            let i = choose|i: int| 0 <= i < ids.len() && #[trigger] ids[i] == tid && reach[i];
            assert(pred(i));
            assert(r.contains(i));
            let k = choose|k: int| 0 <= k < r.len() && r[k] == i;
            assert(reach[r[k]]);
        }
    }
    if r.len() == 0 {
        assert(!(exists|i: int| 0 <= i < ids.len() && #[trigger] ids[i] == tid && reach[i])) by {
            if exists|i: int| 0 <= i < ids.len() && #[trigger] ids[i] == tid && reach[i] {
                let i = choose|i: int| 0 <= i < ids.len() && #[trigger] ids[i] == tid && reach[i];
                assert(pred(i));
                assert(r.contains(i));
            }
        }
    }
}

/// A homing projectile keeps its target: re-aiming it at the enemies that
/// bear its target's identifier leaves that identifier in place.
pub proof fn homing_keeps_its_target<B, P>(p: Projectile<B, P>, ids: Seq<u32>, positions: Seq<P>, reach: Seq<bool>)
    requires
        p.spec_has_target(),
        ids.len() == positions.len(),
        ids.len() == reach.len(),
    ensures
        aimed_at_each(p, ids, positions, reach, matching(ids, p.spec_target_id())).spec_has_target(),
        aimed_at_each(p, ids, positions, reach, matching(ids, p.spec_target_id())).spec_target_id()
            == p.spec_target_id(),
{
    let tid = p.spec_target_id();
    let m = matching(ids, tid);
    let range = Seq::new(ids.len(), |i: int| i);
    if m.len() > 0 {
        broadcast use vstd::seq_lib::group_filter_ensures;
        assert(bears(ids, tid)(m[m.len() - 1]));
        assert(range.filter(bears(ids, tid)).contains(m.last()));
        range.lemma_filter_contains_rev(bears(ids, tid), m.last());
        assert(range.contains(m.last()));
        let w = choose|w: int| 0 <= w < range.len() && range[w] == m.last();
        assert(0 <= m.last() < ids.len());
        p.lemma_with_target_active(Some((ids[m.last()], positions[m.last()])), p.spec_active() && !any_within_reach(reach, m));
    }
}

/// A strictly increasing listing of all indices below `n` that satisfy
/// `pred` is the filtered index range.
proof fn lemma_sorted_listing(picks: Seq<usize>, n: int, pred: spec_fn(int) -> bool)
    requires
        0 <= n <= usize::MAX,
        forall|k: int| 0 <= k < picks.len() ==> pred(#[trigger] picks[k] as int) && picks[k] < n,
        forall|k1: int, k2: int| 0 <= k1 < k2 < picks.len() ==> picks[k1] < picks[k2],
        forall|i: int| 0 <= i < n && #[trigger] pred(i) ==> picks.contains(i as usize),
    ensures
        picks.map_values(|x: usize| x as int) == Seq::new(n as nat, |i: int| i).filter(pred),
    decreases n,
{
    let m = picks.map_values(|x: usize| x as int);
    let range = Seq::new(n as nat, |i: int| i);
    if n == 0 {
        if picks.len() > 0 {
            assert(picks[0] < n);
        }
        assert(m =~= range.filter(pred));
    } else {
        let prev = Seq::new((n - 1) as nat, |i: int| i);
        assert(range =~= prev.push(n - 1));
        prev.lemma_filter_push(n - 1, pred);
        if pred(n - 1) {
            assert(picks.contains((n - 1) as usize));
            let k = choose|k: int| 0 <= k < picks.len() && picks[k] == (n - 1) as usize;
            assert(picks[picks.len() - 1] < n);
            assert(k == picks.len() - 1) by {
                if k < picks.len() - 1 {
                    assert(picks[k] < picks[picks.len() - 1]);
                }
            }
            let front = picks.drop_last();
            assert forall|i: int| 0 <= i < n - 1 && #[trigger] pred(i) implies front.contains(i as usize) by {
                assert(picks.contains(i as usize));
                let j = choose|j: int| 0 <= j < picks.len() && picks[j] == i as usize;
                assert(picks[picks.len() - 1] == n - 1);
                assert(j != picks.len() - 1);
                assert(front[j] == i as usize);
            }
            assert forall|j: int| 0 <= j < front.len() implies pred(#[trigger] front[j] as int) && front[j] < n - 1 by {
                assert(front[j] == picks[j]);
                assert(picks[j] < picks[picks.len() - 1]);
            }
            lemma_sorted_listing(front, n - 1, pred);
            assert(m =~= front.map_values(|x: usize| x as int).push(n - 1));
        } else {
            assert forall|j: int| 0 <= j < picks.len() implies #[trigger] picks[j] < n - 1 by {
                assert(picks[j] < n);
                assert(picks[j] != n - 1);
            }
            lemma_sorted_listing(picks, n - 1, pred);
        }
    }
}

/// Aims the projectile at each listed enemy in turn.
fn aim_at_each<B, P: Copy>(
    p: &mut Projectile<B, P>,
    ids: &Vec<u32>,
    positions: &Vec<P>,
    reach: &Vec<bool>,
    picks: &Vec<usize>,
)
    requires
        ids.len() == positions.len(),
        ids.len() == reach.len(),
        forall|k: int| 0 <= k < picks.len() ==> #[trigger] picks@[k] < ids.len(),
    ensures
        *final(p) == aimed_at_each(*old(p), ids@, positions@, reach@, picks@.map_values(|x: usize| x as int)),
{
    let ghost start = *p;
    let mut k: usize = 0;
    while k < picks.len()
        invariant
            ids.len() == positions.len(),
            ids.len() == reach.len(),
            forall|j: int| 0 <= j < picks.len() ==> #[trigger] picks@[j] < ids.len(),
            k <= picks.len(),
            *p == aimed_at_each(start, ids@, positions@, reach@, picks@.take(k as int).map_values(|x: usize| x as int)),
        decreases picks.len() - k,
    {
        let i = picks[k];
        let ghost before = picks@.take(k as int).map_values(|x: usize| x as int);
        let ghost after = picks@.take(k + 1).map_values(|x: usize| x as int);
        proof {
            assert(after =~= before.push(i as int));
        }
        p.set_target(ids[i], positions[i], reach[i]);
        proof {
            assert(any_within_reach(reach@, after) == (any_within_reach(reach@, before) || reach@[i as int])) by {
                if any_within_reach(reach@, after) && !reach@[i as int] {
                    let w = choose|w: int| 0 <= w < after.len() && reach@[#[trigger] after[w]];
                    assert(w < before.len());
                    assert(before[w] == after[w]);
                }
                if any_within_reach(reach@, before) {
                    let w = choose|w: int| 0 <= w < before.len() && reach@[#[trigger] before[w]];
                    assert(after[w] == before[w]);
                }
                if reach@[i as int] {
                    assert(after[after.len() - 1] == i as int);
                }
            }
            assert(*p == aimed_at_each(start, ids@, positions@, reach@, after));
        }
        k = k + 1;
    }
    proof {
        assert(picks@.take(picks.len() as int) =~= picks@);
    }
}

/// A sweep never keeps a destroyed projectile, and, where inactive ones are
/// dropped too, never an inactive one; it keeps every other projectile.
pub proof fn sweep_keeps_only_live<B, P>(p: Projectile<B, P>, drop_inactive: bool)
    ensures
        kept(p, drop_inactive) ==> !p.spec_destroyed(),
        kept(p, drop_inactive) && drop_inactive ==> p.spec_active(),
        !p.spec_destroyed() && (p.spec_active() || !drop_inactive) ==> kept(p, drop_inactive),
{
}

/// Whether a sweep keeps a projectile: it is not destroyed and, where
/// inactive projectiles are dropped too, it is active.
pub open spec fn kept<B, P>(p: Projectile<B, P>, drop_inactive: bool) -> bool {
    !p.spec_destroyed() && (!drop_inactive || p.spec_active())
}

proof fn lemma_swap_remove_multiset<T>(s: Seq<T>, i: int)
    requires
        0 <= i < s.len(),
    ensures
        s.update(i, s.last()).drop_last().to_multiset() == s.to_multiset().remove(s[i]),
{
    let u = s.update(i, s.last());
    let d = u.drop_last();
    assert(u.len() == s.len());
    assert(u.last() == s.last());
    assert(u =~= d.push(u.last()));
    let m = s.to_multiset();
    assert(u.to_multiset() == m.insert(s.last()).remove(s[i]));
    assert(d.push(u.last()).to_multiset() == d.to_multiset().insert(u.last()));
    assert(d.to_multiset().insert(s.last()) == m.insert(s.last()).remove(s[i]));
    assert(m.count(s[i]) > 0) by {
        assert(s.contains(s[i]));
    }
    assert forall|x: T| #[trigger] d.to_multiset().count(x) == m.remove(s[i]).count(x) by {
        assert(d.to_multiset().insert(s.last()).count(x) == m.insert(s.last()).remove(s[i]).count(x));
    }
    assert(d.to_multiset() =~= m.remove(s[i]));
}

proof fn lemma_all_satisfy_count<T>(s: Seq<T>, x: T, pred: spec_fn(T) -> bool)
    requires
        forall|k: int| 0 <= k < s.len() ==> pred(#[trigger] s[k]),
        !pred(x),
    ensures
        s.to_multiset().count(x) == 0,
{
    if s.to_multiset().count(x) > 0 {
        assert(s.contains(x));
        let k = choose|k: int| 0 <= k < s.len() && s[k] == x;
        assert(pred(s[k]));
    }
}

/// The order a sweep leaves: scanning `s` from `i`, a projectile
/// the sweep keeps stays in place, and one it drops is replaced by the last
/// projectile, which is scanned next; dropped projectiles are appended to
/// `dropped` in the order they are dropped. Returns the kept and the dropped
/// projectiles.
pub open spec fn swept<B, P>(
    s: Seq<Projectile<B, P>>,
    i: int,
    dropped: Seq<Projectile<B, P>>,
    drop_inactive: bool,
) -> (Seq<Projectile<B, P>>, Seq<Projectile<B, P>>)
    decreases s.len() - i,
{
    if i < 0 || i >= s.len() {
        (s, dropped)
    } else if kept(s[i], drop_inactive) {
        swept(s, i + 1, dropped, drop_inactive)
    } else {
        swept(s.update(i, s.last()).drop_last(), i, dropped.push(s[i]), drop_inactive)
    }
}

/// Drops the destroyed projectiles (and, with `drop_inactive`, the inactive
/// ones), moving the last projectile into each freed slot; returns the
/// dropped ones. The kept projectiles are exactly the ones the sweep keeps,
/// each as often as before.
/// They stand in the order `swept` gives.
pub fn purge<B, P>(v: &mut Vec<Projectile<B, P>>, drop_inactive: bool) -> (removed: Vec<
    Projectile<B, P>,
>)
    ensures
        forall|p: Projectile<B, P>|
            #[trigger] final(v)@.to_multiset().count(p) == if kept(p, drop_inactive) {
                old(v)@.to_multiset().count(p)
            } else {
                0
            },
        forall|p: Projectile<B, P>|
            #[trigger] removed@.to_multiset().count(p) == if kept(p, drop_inactive) {
                0
            } else {
                old(v)@.to_multiset().count(p)
            },
        forall|k: int| 0 <= k < final(v).len() ==> kept(#[trigger] final(v)@[k], drop_inactive),
        final(v).len() + removed.len() == old(v).len(),
        (final(v)@, removed@) == swept(old(v)@, 0, Seq::empty(), drop_inactive),
        forall|k: int|
            0 <= k < final(v).len() ==> !(#[trigger] final(v)@[k]).spec_destroyed() && (
            drop_inactive ==> final(v)@[k].spec_active()),
        forall|k: int|
            0 <= k < removed.len() ==> (#[trigger] removed@[k]).spec_destroyed() || (drop_inactive
                && !removed@[k].spec_active()),
        forall|p: Projectile<B, P>|
            !p.spec_destroyed() && (p.spec_active() || !drop_inactive)
                ==> #[trigger] final(v)@.to_multiset().count(p) == old(v)@.to_multiset().count(p),
{
    let mut removed: Vec<Projectile<B, P>> = Vec::new();
    let mut i: usize = 0;
    while i < v.len()
        invariant
            i <= v.len(),
            v.len() + removed.len() == old(v).len(),
            v@.to_multiset().add(removed@.to_multiset()) == old(v)@.to_multiset(),
            forall|k: int| 0 <= k < i ==> kept(#[trigger] v@[k], drop_inactive),
            forall|k: int| 0 <= k < removed.len() ==> !kept(#[trigger] removed@[k], drop_inactive),
            swept(v@, i as int, removed@, drop_inactive) == swept(old(v)@, 0, Seq::empty(), drop_inactive),
        decreases v.len() - i,
    {
        let keep = !v[i].destroyed && (!drop_inactive || v[i].active);
        if keep {
            i = i + 1;
        } else {
            let ghost before = v@;
            let ghost removed_before = removed@;
            let x = v.swap_remove(i);
            proof {
                lemma_swap_remove_multiset(before, i as int);
                assert(before.to_multiset().count(x) > 0) by {
                    assert(before.contains(x));
                }
            }
            removed.push(x);
            proof {
                assert(removed@ =~= removed_before.push(x));
                assert(v@.to_multiset().add(removed@.to_multiset()) =~= old(v)@.to_multiset());
                assert forall|k: int| 0 <= k < i implies kept(#[trigger] v@[k], drop_inactive) by {
                    assert(v@[k] == before[k]);
                }
            }
        }
    }
    proof {
        let pred = |p: Projectile<B, P>| kept(p, drop_inactive);
        let npred = |p: Projectile<B, P>| !kept(p, drop_inactive);
        assert forall|p: Projectile<B, P>|
            #[trigger] v@.to_multiset().count(p) == if kept(p, drop_inactive) {
                old(v)@.to_multiset().count(p)
            } else {
                0
            } && removed@.to_multiset().count(p) == if kept(p, drop_inactive) {
                0
            } else {
                old(v)@.to_multiset().count(p)
            } by {
            if kept(p, drop_inactive) {
                lemma_all_satisfy_count(removed@, p, npred);
            } else {
                lemma_all_satisfy_count(v@, p, pred);
            }
        }
        assert forall|k: int| 0 <= k < v.len() implies !(#[trigger] v@[k]).spec_destroyed() && (
        drop_inactive ==> v@[k].spec_active()) by {
            sweep_keeps_only_live(v@[k], drop_inactive);
        }
        assert forall|k: int| 0 <= k < removed.len() implies (#[trigger] removed@[k]).spec_destroyed()
            || (drop_inactive && !removed@[k].spec_active()) by {
            sweep_keeps_only_live(removed@[k], drop_inactive);
        }
        assert forall|p: Projectile<B, P>|
            !p.spec_destroyed() && (p.spec_active() || !drop_inactive) implies #[trigger] v@.to_multiset().count(
            p,
        ) == old(v)@.to_multiset().count(p) by {
            sweep_keeps_only_live(p, drop_inactive);
        }
    }
    removed
}

} // verus!
