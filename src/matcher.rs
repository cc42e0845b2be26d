//! Capacity-aware matching of resource requests onto resource pools.
//!
//! Each pool (a queue family, say) offers a capability mask and a number of
//! units; each request asks for a number of units from a pool whose mask
//! covers its own (or equals it, for an exclusive request). Matching is
//! global: capacity taken by one request is no longer there for the next, and
//! either every request is granted or none is.
use vstd::prelude::*;

verus! {

/// A capacity-bounded source of interchangeable units.
#[derive(Clone, Copy, PartialEq, Eq, Structural, Debug)]
pub struct ResourcePool {
    /// Capabilities every unit of the pool has.
    pub capability_mask: u32,
    /// Number of units the pool holds.
    pub capacity: u32,
    /// Units already committed before matching starts.
    pub used: u32,
}

/// A request for units with given capabilities.
#[derive(Clone, Copy, PartialEq, Eq, Structural, Debug)]
pub struct ResourceRequest {
    /// Capabilities the granted units must have.
    pub capability_mask: u32,
    /// Number of units wanted.
    pub count: u32,
    /// Whether the pool's mask must equal the request's mask exactly, rather
    /// than merely include it. It says nothing about sharing a pool with other
    /// requests: two requests may take units of one pool as long as its
    /// capacity allows.
    pub exclusive: bool,
}

/// The units granted to one request.
#[derive(Clone, Copy, PartialEq, Eq, Structural, Debug)]
pub struct Grant {
    /// Index of the pool the units come from.
    pub pool: usize,
    /// Number of units granted.
    pub units: u32,
}

/// The requests cannot all be granted at once.
#[derive(Clone, Copy, PartialEq, Eq, Structural, Debug)]
pub struct Infeasible;

/// A pool's capabilities satisfy a request: equal masks for an exclusive
/// request, a superset otherwise.
pub open spec fn mask_satisfies(pool_mask: u32, request: ResourceRequest) -> bool {
    if request.exclusive {
        pool_mask == request.capability_mask
    } else {
        pool_mask & request.capability_mask == request.capability_mask
    }
}

/// Pool `pool`, with `used` units committed, can take `request`.
pub open spec fn fits(pool: ResourcePool, used: nat, request: ResourceRequest) -> bool {
    mask_satisfies(pool.capability_mask, request) && used + request.count <= pool.capacity
}

/// Pool `i` is the one `request` goes to: it fits, and every other pool that
/// fits has more units committed, or as many and a higher index.
pub open spec fn preferred(pools: Seq<ResourcePool>, used: Seq<nat>, request: ResourceRequest, i: int) -> bool {
    &&& 0 <= i < pools.len()
    &&& fits(pools[i], used[i], request)
    &&& forall|j: int|
        0 <= j < pools.len() && #[trigger] fits(pools[j], used[j], request) ==> used[i] < used[j] || (
        used[i] == used[j] && i <= j)
}

/// Units committed in each pool before matching.
pub open spec fn initial_used(pools: Seq<ResourcePool>) -> Seq<nat> {
    Seq::new(pools.len(), |i: int| pools[i].used as nat)
}

/// The greedy plan: requests in order, each to its preferred pool given what
/// the earlier ones took; `None` as soon as some request has no pool that fits.
pub open spec fn plan(pools: Seq<ResourcePool>, used: Seq<nat>, requests: Seq<ResourceRequest>) -> Option<Seq<Grant>>
    decreases requests.len(),
{
    if requests.len() == 0 {
        Some(Seq::empty())
    } else if exists|i: int| preferred(pools, used, requests[0], i) {
        let i = choose|i: int| preferred(pools, used, requests[0], i);
        let units = requests[0].count;
        match plan(pools, used.update(i, (used[i] + units) as nat), requests.drop_first()) {
            Some(rest) => Some(seq![Grant { pool: i as usize, units }] + rest),
            None => None,
        }
    } else {
        None
    }
}

/// `head` followed by the grants of `rest`, if `rest` is a plan.
pub open spec fn prepend(head: Seq<Grant>, rest: Option<Seq<Grant>>) -> Option<Seq<Grant>> {
    match rest {
        Some(r) => Some(head + r),
        None => None,
    }
}

/// Units committed in each pool once `grants` are added to `used`.
pub open spec fn load(used: Seq<nat>, grants: Seq<Grant>) -> Seq<nat>
    decreases grants.len(),
{
    if grants.len() == 0 {
        used
    } else {
        let g = grants[0];
        load(used.update(g.pool as int, (used[g.pool as int] + g.units) as nat), grants.drop_first())
    }
}

/// Every plan is feasible as a whole: each request gets exactly the units it
/// asked for, from a pool whose mask satisfies it (equal to its own when it is
/// exclusive), and no pool that receives units ends up with more committed
/// than its capacity, whatever the other requests took from it.
pub proof fn lemma_plan_sound(pools: Seq<ResourcePool>, used: Seq<nat>, requests: Seq<ResourceRequest>)
    requires
        pools.len() <= usize::MAX,
        used.len() == pools.len(),
        plan(pools, used, requests) is Some,
    ensures
        ({
            let g = plan(pools, used, requests)->0;
            &&& g.len() == requests.len()
            &&& forall|k: int|
                0 <= k < g.len() ==> {
                    &&& (#[trigger] g[k]).pool < pools.len()
                    &&& g[k].units == requests[k].count
                    &&& mask_satisfies(pools[g[k].pool as int].capability_mask, requests[k])
                }
            &&& load(used, g).len() == used.len()
            &&& forall|p: int|
                0 <= p < pools.len() ==> #[trigger] load(used, g)[p] == used[p] || load(used, g)[p]
                    <= pools[p].capacity
        }),
    decreases requests.len(),
{
    if requests.len() > 0 {
        let i = choose|i: int| preferred(pools, used, requests[0], i);
        let units = requests[0].count;
        let next = used.update(i, (used[i] + units) as nat);
        let tail = requests.drop_first();
        lemma_plan_sound(pools, next, tail);
        let rest = plan(pools, next, tail)->0;
        let g = plan(pools, used, requests)->0;
        let head = Grant { pool: i as usize, units };
        assert(g == seq![head] + rest);
        assert(g.drop_first() =~= rest);
        assert(g[0] == head);
        assert(load(used, g) == load(next, rest));
        assert forall|k: int| 0 <= k < g.len() implies {
            &&& (#[trigger] g[k]).pool < pools.len()
            &&& g[k].units == requests[k].count
            &&& mask_satisfies(pools[g[k].pool as int].capability_mask, requests[k])
        } by {
            if k > 0 {
                assert(g[k] == rest[k - 1]);
                assert(requests[k] == tail[k - 1]);
            }
        }
        assert forall|p: int| 0 <= p < pools.len() implies #[trigger] load(used, g)[p] == used[p]
            || load(used, g)[p] <= pools[p].capacity by {
            assert(load(next, rest)[p] == next[p] || load(next, rest)[p] <= pools[p].capacity);
        }
    }
}

/// Total units that `grants` take from pool `pool`.
pub open spec fn units_to(grants: Seq<Grant>, pool: int) -> nat
    decreases grants.len(),
{
    if grants.len() == 0 {
        0
    } else {
        (if grants[0].pool as int == pool {
            grants[0].units as nat
        } else {
            0
        }) + units_to(grants.drop_first(), pool)
    }
}

/// Adding one grant at the end adds its units to its own pool only.
pub proof fn lemma_units_to_push(grants: Seq<Grant>, g: Grant, pool: int)
    ensures
        units_to(grants.push(g), pool) == units_to(grants, pool) + (if g.pool as int == pool {
            g.units as nat
        } else {
            0
        }),
    decreases grants.len(),
{
    if grants.len() > 0 {
        assert(grants.push(g).drop_first() =~= grants.drop_first().push(g));
        assert(grants.push(g)[0] == grants[0]);
        lemma_units_to_push(grants.drop_first(), g, pool);
    } else {
        assert(grants.push(g).drop_first() =~= Seq::<Grant>::empty());
        assert(grants.push(g)[0] == g);
        assert(units_to(Seq::<Grant>::empty(), pool) == 0);
    }
}

/// The units a run of grants takes from a pool split over its two halves.
pub proof fn lemma_units_to_add(a: Seq<Grant>, b: Seq<Grant>, pool: int)
    ensures
        units_to(a + b, pool) == units_to(a, pool) + units_to(b, pool),
    decreases a.len(),
{
    if a.len() > 0 {
        assert((a + b).drop_first() =~= a.drop_first() + b);
        assert((a + b)[0] == a[0]);
        lemma_units_to_add(a.drop_first(), b, pool);
    } else {
        assert(a + b =~= b);
    }
}

/// The load of a pool is what it started with plus what the grants took.
proof fn lemma_load_is_units(used: Seq<nat>, grants: Seq<Grant>, pool: int)
    requires
        0 <= pool < used.len(),
        forall|k: int| 0 <= k < grants.len() ==> (#[trigger] grants[k]).pool < used.len(),
    ensures
        load(used, grants).len() == used.len(),
        load(used, grants)[pool] == used[pool] + units_to(grants, pool),
    decreases grants.len(),
{
    if grants.len() > 0 {
        let g = grants[0];
        let next = used.update(g.pool as int, (used[g.pool as int] + g.units) as nat);
        let rest = grants.drop_first();
        assert forall|k: int| 0 <= k < rest.len() implies (#[trigger] rest[k]).pool < next.len() by {
            assert(rest[k] == grants[k + 1]);
        }
        lemma_load_is_units(next, rest, pool);
    }
}

/// Whatever the requests, the units a plan takes from any one pool, added to
/// what the pool had committed already, stay within its capacity; a pool the
/// plan does not use is left as it was.
pub proof fn lemma_plan_within_capacity(pools: Seq<ResourcePool>, requests: Seq<ResourceRequest>, pool: int)
    requires
        pools.len() <= usize::MAX,
        0 <= pool < pools.len(),
        plan(pools, initial_used(pools), requests) is Some,
    ensures
        ({
            let g = plan(pools, initial_used(pools), requests)->0;
            units_to(g, pool) == 0 || pools[pool].used + units_to(g, pool) <= pools[pool].capacity
        }),
{
    let u = initial_used(pools);
    let g = plan(pools, u, requests)->0;
    lemma_plan_sound(pools, u, requests);
    lemma_load_is_units(u, g, pool);
    assert(load(u, g)[pool] == u[pool] || load(u, g)[pool] <= pools[pool].capacity);
}

/// An exclusive request never fits a pool whose mask differs from its own,
/// in particular one whose mask is a strict superset of it, however much room
/// the pool has.
pub proof fn lemma_exclusive_needs_equal_mask(pool: ResourcePool, used: nat, request: ResourceRequest)
    requires
        request.exclusive,
        pool.capability_mask != request.capability_mask,
    ensures
        !fits(pool, used, request),
{
}

/// At most one pool is preferred.
proof fn lemma_preferred_unique(pools: Seq<ResourcePool>, used: Seq<nat>, request: ResourceRequest, i: int, j: int)
    requires
        preferred(pools, used, request, i),
        preferred(pools, used, request, j),
    ensures
        i == j,
{
    assert(fits(pools[j], used[j], request));
    assert(fits(pools[i], used[i], request));
}

/// The pool `request` goes to, if any pool fits.
fn pick_pool(pools: &Vec<ResourcePool>, used: &Vec<u32>, request: ResourceRequest) -> (r: Option<usize>)
    requires
        used@.len() == pools@.len(),
    ensures
        ({
            let u = used@.map_values(|x: u32| x as nat);
            match r {
                Some(i) => preferred(pools@, u, request, i as int),
                None => !exists|i: int| preferred(pools@, u, request, i),
            }
        }),
{
    let ghost u = used@.map_values(|x: u32| x as nat);
    let mut best: Option<usize> = None;
    let mut i: usize = 0;
    while i < pools.len()
        invariant
            0 <= i <= pools@.len(),
            used@.len() == pools@.len(),
            u == used@.map_values(|x: u32| x as nat),
            match best {
                Some(b) => {
                    &&& b < i
                    &&& fits(pools@[b as int], u[b as int], request)
                    &&& forall|j: int|
                        0 <= j < i && #[trigger] fits(pools@[j], u[j], request) ==> u[b as int] < u[j] || (
                        u[b as int] == u[j] && b <= j)
                },
                None => forall|j: int| 0 <= j < i ==> !#[trigger] fits(pools@[j], u[j], request),
            },
        decreases pools@.len() - i,
    {
        let pool = pools[i];
        let mask_ok = if request.exclusive {
            pool.capability_mask == request.capability_mask
        } else {
            pool.capability_mask & request.capability_mask == request.capability_mask
        };
        let room = (used[i] as u64) + (request.count as u64) <= pool.capacity as u64;
        if mask_ok && room {
            match best {
                Some(b) => {
                    if used[i] < used[b] {
                        best = Some(i);
                    }
                },
                None => {
                    best = Some(i);
                },
            }
        }
        i = i + 1;
    }
    best
}

/// Matches every request onto a pool, or reports that they cannot all be
/// granted together.
///
/// Requests are taken in order; each goes to the fitting pool with the fewest
/// units committed so far (the lowest index among equals), and its units are
/// committed there before the next request is looked at. Nothing is partly
/// granted: on failure no assignment is returned. The greedy pass does not
/// backtrack, so it may refuse a set of requests that some other assignment
/// could grant, but it never grants more than a pool holds.
pub fn match_requests(pools: &Vec<ResourcePool>, requests: &Vec<ResourceRequest>) -> (r: Result<
    Vec<Grant>,
    Infeasible,
>)
    ensures
        r is Ok <==> plan(pools@, initial_used(pools@), requests@) is Some,
        r matches Ok(g) ==> plan(pools@, initial_used(pools@), requests@) == Some(g@),
{
    let ghost u0 = initial_used(pools@);
    let mut used: Vec<u32> = Vec::new();
    let mut p: usize = 0;
    while p < pools.len()
        invariant
            0 <= p <= pools@.len(),
            used@.len() == p,
            forall|j: int| 0 <= j < p ==> used@[j] == pools@[j].used,
        decreases pools@.len() - p,
    {
        used.push(pools[p].used);
        p = p + 1;
    }
    assert(used@.map_values(|x: u32| x as nat) =~= u0);
    let mut grants: Vec<Grant> = Vec::new();
    let mut k: usize = 0;
    assert(requests@.skip(0) =~= requests@);
    proof {
        match plan(pools@, u0, requests@) {
            Some(r) => {
                assert(grants@ + r =~= r);
            },
            None => {},
        }
    }
    while k < requests.len()
        invariant
            0 <= k <= requests@.len(),
            used@.len() == pools@.len(),
            u0 == initial_used(pools@),
            plan(pools@, u0, requests@) == prepend(
                grants@,
                plan(pools@, used@.map_values(|x: u32| x as nat), requests@.skip(k as int)),
            ),
        decreases requests@.len() - k,
    {
        let request = requests[k];
        let ghost u = used@.map_values(|x: u32| x as nat);
        let ghost tail = requests@.skip(k as int);
        assert(tail[0] == request);
        assert(tail.drop_first() =~= requests@.skip(k + 1));
        match pick_pool(pools, &used, request) {
            None => {
                assert(plan(pools@, u, tail) is None);
                return Err(Infeasible);
            },
            Some(i) => {
                proof {
                    let c = choose|c: int| preferred(pools@, u, request, c);
                    lemma_preferred_unique(pools@, u, request, c, i as int);
                }
                let units = request.count;
                used.set(i, used[i] + units);
                let g = Grant { pool: i, units };
                assert(used@.map_values(|x: u32| x as nat) =~= u.update(i as int, (u[i as int] + units) as nat));
                assert(grants@.push(g) =~= grants@ + seq![g]);
                proof {
                    let later = plan(pools@, used@.map_values(|x: u32| x as nat), requests@.skip(k + 1));
                    match later {
                        Some(rest) => {
                            assert(grants@ + (seq![g] + rest) =~= grants@.push(g) + rest);
                        },
                        None => {},
                    }
                }
                grants.push(g);
            },
        }
        k = k + 1;
    }
    assert(requests@.skip(k as int).len() == 0);
    assert(grants@ + Seq::<Grant>::empty() =~= grants@);
    Ok(grants)
}

} // verus!
