use vstd::prelude::*;

verus! {

/// Hands out entity identifiers: 0, 1, 2, ... in order.
pub struct IdVendor {
    id: u32,
}

impl IdVendor {
    /// The identifier the next call of `next_id` hands out.
    pub closed spec fn next(&self) -> nat {
        self.id as nat
    }

    /// Whether another identifier can be handed out (the counter is not at
    /// its largest value).
    pub fn can_issue(&self) -> (r: bool)
        ensures
            r == (self.next() < u32::MAX),
    {
        self.id < u32::MAX
    }

    /// Hands out the next identifier and advances the counter.
    pub fn next_id(&mut self) -> (c: u32)
        requires
            old(self).next() < u32::MAX,
        ensures
            next_id_step(*old(self), *final(self), c),
    {
        let c = self.id;
        self.id = self.id + 1;
        c
    }
}

impl Default for IdVendor {
    /// A vendor whose first identifier is 0.
    fn default() -> (r: Self)
        ensures
            r.next() == 0,
    {
        IdVendor { id: 0u32 }
    }
}

/// One call of `next_id`: `id` is handed out by the vendor `before`, which
/// becomes `after`.
pub open spec fn next_id_step(before: IdVendor, after: IdVendor, id: u32) -> bool {
    &&& id == before.next()
    &&& after.next() == before.next() + 1
}

/// Identifiers handed out by successive calls of one vendor increase
/// strictly, so no identifier is handed out twice.
pub proof fn successive_ids_increase(v0: IdVendor, v1: IdVendor, v2: IdVendor, a: u32, b: u32)
    requires
        next_id_step(v0, v1, a),
        next_id_step(v1, v2, b),
    ensures
        a < b,
        b == a + 1,
{
}

/// The ordering key of the largest finite distance. Distances are compared
/// through keys (the bit patterns of non-negative single-precision numbers,
/// which order exactly as the numbers do); a search for the closest
/// candidate starts from this bound.
pub const FAR: u32 = 0x7f7f_ffffu32;

/// Candidate `i` improves on every eligible candidate before it and on `FAR`:
/// a scan that keeps the smallest key seen so far takes it as the new best.
pub open spec fn is_record(keys: Seq<u32>, eligible: Seq<bool>, i: int) -> bool {
    &&& 0 <= i < keys.len()
    &&& eligible[i]
    &&& keys[i] < FAR
    &&& forall|j: int| 0 <= j < i && eligible[j] ==> keys[i] < #[trigger] keys[j]
}

/// Candidate `c` is where a scan for the smallest key settles: a new best
/// that no later eligible candidate beats (what `closest` returns).
pub open spec fn settles_on(keys: Seq<u32>, eligible: Seq<bool>, c: int) -> bool {
    &&& is_record(keys, eligible, c)
    &&& forall|j: int| c < j < keys.len() && eligible[j] ==> keys[c] <= #[trigger] keys[j]
}

/// The indices at which a scan for the smallest key (skipping candidates that
/// are not eligible, starting from `FAR`) finds a new best, in scan order.
pub fn running_minima(keys: &Vec<u32>, eligible: &Vec<bool>) -> (r: Vec<usize>)
    requires
        keys.len() == eligible.len(),
    ensures
        forall|k: int| 0 <= k < r.len() ==> is_record(keys@, eligible@, #[trigger] r@[k] as int),
        forall|k1: int, k2: int| 0 <= k1 < k2 < r.len() ==> r@[k1] < r@[k2],
        forall|i: int| is_record(keys@, eligible@, i) ==> r@.contains(i as usize),
{
    let mut r: Vec<usize> = Vec::new();
    let mut best: u32 = FAR;
    let n = keys.len();
    let mut i: usize = 0;
    while i < n
        invariant
            n == keys.len(),
            n == eligible.len(),
            i <= n,
            forall|k: int| 0 <= k < r.len() ==> is_record(keys@, eligible@, #[trigger] r@[k] as int),
            forall|k: int| 0 <= k < r.len() ==> #[trigger] r@[k] < i,
            forall|k1: int, k2: int| 0 <= k1 < k2 < r.len() ==> r@[k1] < r@[k2],
            forall|j: int| 0 <= j < i && is_record(keys@, eligible@, j) ==> r@.contains(j as usize),
            best <= FAR,
            forall|j: int| 0 <= j < i && eligible@[j] ==> best <= #[trigger] keys@[j],
            best < FAR ==> exists|j: int| 0 <= j < i && eligible@[j] && keys@[j] == best,
        decreases n - i,
    {
        if eligible[i] && keys[i] < best {
            let ghost old_r = r@;
            best = keys[i];
            r.push(i);
            proof {
                assert(r@[r.len() - 1] == i);
                assert forall|j: int| 0 <= j < i + 1 && is_record(keys@, eligible@, j) implies
                    r@.contains(j as usize) by {
                    if j < i {
                        let k = choose|k: int| 0 <= k < old_r.len() && old_r[k] == j as usize;
                        assert(r@[k] == j as usize);
                    } else {
                        assert(r@[r.len() - 1] == j as usize);
                    }
                }
            }
        } else {
            proof {
                if is_record(keys@, eligible@, i as int) {
                    if best < FAR {
                        let w = choose|j: int| 0 <= j < i && eligible@[j] && keys@[j] == best;
                        assert(keys@[i as int] < keys@[w]);
                    }
                }
            }
        }
        i = i + 1;
    }
    r
}

/// The candidate a scan for the smallest key settles on: the last new best,
/// that is the first eligible candidate with the smallest key below `FAR`;
/// `None` where no eligible candidate has a key below `FAR`.
pub fn closest(keys: &Vec<u32>, eligible: &Vec<bool>) -> (r: Option<usize>)
    requires
        keys.len() == eligible.len(),
    ensures
        match r {
            Some(i) => {
                &&& is_record(keys@, eligible@, i as int)
                &&& forall|j: int| i < j < keys.len() && eligible@[j] ==> keys@[i as int] <= #[trigger] keys@[j]
            },
            None => forall|j: int| 0 <= j < keys.len() && eligible@[j] ==> #[trigger] keys@[j] >= FAR,
        },
{
    let mut found: Option<usize> = None;
    let mut best: u32 = FAR;
    let n = keys.len();
    let mut i: usize = 0;
    while i < n
        invariant
            n == keys.len(),
            n == eligible.len(),
            i <= n,
            forall|j: int| 0 <= j < i && eligible@[j] ==> best <= #[trigger] keys@[j],
            match found {
                Some(w) => {
                    &&& w < i
                    &&& is_record(keys@, eligible@, w as int)
                    &&& best == keys@[w as int]
                },
                None => best == FAR,
            },
        decreases n - i,
    {
        if eligible[i] && keys[i] < best {
            best = keys[i];
            found = Some(i);
        }
        i = i + 1;
    }
    found
}

/// The candidate a scan settles on is the last new best it found: whenever
/// `running_minima` lists the new bests, `closest` picks the last of them,
/// and it picks none exactly where there is none.
pub proof fn closest_is_last_record(keys: Seq<u32>, eligible: Seq<bool>, records: Seq<usize>, c: Option<usize>)
    requires
        keys.len() == eligible.len(),
        forall|k: int| 0 <= k < records.len() ==> is_record(keys, eligible, #[trigger] records[k] as int),
        forall|k1: int, k2: int| 0 <= k1 < k2 < records.len() ==> records[k1] < records[k2],
        forall|i: int| is_record(keys, eligible, i) ==> records.contains(i as usize),
        match c {
            Some(i) => {
                &&& is_record(keys, eligible, i as int)
                &&& forall|j: int| i < j < keys.len() && eligible[j] ==> keys[i as int] <= #[trigger] keys[j]
            },
            None => forall|j: int| 0 <= j < keys.len() && eligible[j] ==> #[trigger] keys[j] >= FAR,
        },
    ensures
        match c {
            Some(i) => records.len() > 0 && records.last() == i,
            None => records.len() == 0,
        },
{
    match c {
        Some(i) => {
            assert(records.contains(i));
            let k = choose|k: int| 0 <= k < records.len() && records[k] == i;
            if k < records.len() - 1 {
                let later = records[records.len() - 1];
                assert(records[k] < later);
                assert(is_record(keys, eligible, later as int));
                assert(keys[later as int] < keys[i as int]);
                assert(keys[i as int] <= keys[later as int]);
            }
        },
        None => {
            if records.len() > 0 {
                assert(is_record(keys, eligible, records[0] as int));
            }
        },
    }
}

} // verus!
