use vstd::prelude::*;

use crate::attribute::{attr_in_range, Attribute};
use crate::cost::{cost_add, cost_le, cost_view, CalcResult};
use crate::plan::{
    depth, inputs_ok, is_best_plan, lemma_cons_valid, lemma_depth_bounds, lemma_plan_cost_bounds,
    lemma_zone_cost_bounds,
    lemma_tail_valid, plan_cost, triple_total, valid_plan, POOL_LIMIT,
};
use crate::state::{has_triple, state_wf, triple_in, SolveState, Triple};
use crate::zone::{cost_of_total, zone_in_range, MemberInfo, Zone, ZONE_COST_LIMIT};

verus! {

/// The best cost found from a position, and the plan that reaches it.
pub type Found = (CalcResult, Vec<Triple>);

/// A remembered position with what was found from it.
pub type CacheEntry = (SolveState, Found);

/// `s` is a position of a search over `n` members and `zc` zones, with a
/// zone open wherever three members are free.
pub open spec fn state_fits(s: SolveState, n: int, zc: int) -> bool {
    &&& state_wf(s)
    &&& s.members@.len() >= 3 ==> s.zone < s.zone_count
    &&& s.zone_count == zc
    &&& s.members@.len() <= n
    &&& forall|i: int| 0 <= i < s.members@.len() ==> (#[trigger] s.members@[i]) < n
}

/// The plans that the search may choose from position `s`.
pub open spec fn plan_for(s: SolveState, p: Seq<Triple>) -> bool {
    valid_plan(s.members@, s.zone_count - s.zone, p)
}

/// `c` and `plan` are a best result from position `s`.
pub open spec fn found_ok(
    attrs: Seq<Attribute>,
    zones: Seq<Zone>,
    s: SolveState,
    c: CalcResult,
    plan: Seq<Triple>,
) -> bool {
    &&& is_best_plan(attrs, zones, s.members@, s.zone as int, plan)
    &&& cost_view(c) == plan_cost(attrs, zones, s.zone as int, plan)
}

/// What the search returns from position `s`: with fewer than three members
/// free, the largest cost in both components and no triple; otherwise a best
/// result.
pub open spec fn result_ok(
    attrs: Seq<Attribute>,
    zones: Seq<Zone>,
    s: SolveState,
    c: CalcResult,
    plan: Seq<Triple>,
) -> bool {
    if s.members@.len() < 3 {
        c == CalcResult { require: u64::MAX, overflow: u64::MAX } && plan.len() == 0
    } else {
        found_ok(attrs, zones, s, c, plan)
    }
}

/// Every remembered result is what the search returns for its position.
pub open spec fn cache_wf(attrs: Seq<Attribute>, zones: Seq<Zone>, cache: Seq<CacheEntry>) -> bool {
    forall|i: int|
        0 <= i < cache.len() ==> {
            let e = #[trigger] cache[i];
            &&& state_wf(e.0)
            &&& e.0.zone_count == zones.len()
            &&& result_ok(attrs, zones, e.0, e.1.0, e.1.1@)
        }
}

/// `e` is remembered for the same position as `s`.
pub open spec fn entry_for(e: CacheEntry, s: SolveState) -> bool {
    e.0.members@ == s.members@ && e.0.zone == s.zone && e.0.zone_count == s.zone_count
}

/// `cache[i]` is the first entry for position `s`.
pub open spec fn first_entry(cache: Seq<CacheEntry>, s: SolveState, i: int) -> bool {
    &&& 0 <= i < cache.len()
    &&& entry_for(cache[i], s)
    &&& forall|j: int| 0 <= j < i ==> !entry_for(#[trigger] cache[j], s)
}

/// Some entry of the cache is for position `s`.
pub open spec fn cached(cache: Seq<CacheEntry>, s: SolveState) -> bool {
    exists|i: int| 0 <= i < cache.len() && entry_for(#[trigger] cache[i], s)
}

/// `c` holds the entries of `prefix` first, in order.
pub open spec fn extends(c: Seq<CacheEntry>, prefix: Seq<CacheEntry>) -> bool {
    c.len() >= prefix.len() && c.subrange(0, prefix.len() as int) == prefix
}

/// `t` followed by the triples of `p`.
fn prepend(t: Triple, p: &Vec<Triple>) -> (r: Vec<Triple>)
    ensures
        r@ == seq![t] + p@,
{
    let mut r: Vec<Triple> = Vec::new();
    r.push(t);
    let mut i: usize = 0;
    while i < p.len()
        invariant
            i <= p@.len(),
            r@ == seq![t] + p@.take(i as int),
        decreases p@.len() - i,
    {
        r.push(p[i]);
        i = i + 1;
        assert(r@ =~= seq![t] + p@.take(i as int));
    }
    assert(p@.take(i as int) =~= p@);
    r
}

fn copy_plan(p: &Vec<Triple>) -> (r: Vec<Triple>)
    ensures
        r@ == p@,
{
    let mut r: Vec<Triple> = Vec::new();
    let mut i: usize = 0;
    while i < p.len()
        invariant
            i <= p@.len(),
            r@ == p@.take(i as int),
        decreases p@.len() - i,
    {
        r.push(p[i]);
        i = i + 1;
        assert(r@ =~= p@.take(i as int));
    }
    assert(p@.take(i as int) =~= p@);
    r
}

/// The remembered result for `state`, if there is one.
fn lookup(cache: &Vec<CacheEntry>, state: &SolveState) -> (r: Option<Found>)
    ensures
        r matches Some(f) ==> exists|i: int|
            #[trigger] first_entry(cache@, *state, i) && cache@[i].1.0 == f.0 && cache@[i].1.1@
                == f.1@,
        r is None ==> !cached(cache@, *state),
{
    let mut i: usize = 0;
    while i < cache.len()
        invariant
            i <= cache@.len(),
            forall|j: int| 0 <= j < i ==> !entry_for(#[trigger] cache@[j], *state),
        decreases cache@.len() - i,
    {
        let e = &cache[i];
        if e.0.same_as(state) {
            let f = (e.1.0, copy_plan(&e.1.1));
            assert(first_entry(cache@, *state, i as int));
            return Some(f);
        }
        i = i + 1;
    }
    None
}

/// Best cost and plan from `state`: every increasing triple of free members
/// is tried for the current zone, skipped when it alone already costs at
/// least the best so far, and otherwise followed by the best result below
/// it where the search goes on. Results are remembered per position.
fn solve_inner(
    state: SolveState,
    attrs: &Vec<Attribute>,
    zones: &Vec<Zone>,
    cache: &mut Vec<CacheEntry>,
) -> (r: Found)
    requires
        inputs_ok(attrs@, zones@),
        state_fits(state, attrs@.len() as int, zones@.len() as int),
        cache_wf(attrs@, zones@, old(cache)@),
    ensures
        cache_wf(attrs@, zones@, final(cache)@),
        result_ok(attrs@, zones@, state, r.0, r.1@),
        cached(old(cache)@, state) ==> final(cache)@ == old(cache)@ && exists|i: int|
            #[trigger] first_entry(old(cache)@, state, i) && old(cache)@[i].1.0 == r.0 && old(
                cache,
            )@[i].1.1@ == r.1@,
        !cached(old(cache)@, state) ==> {
            &&& extends(final(cache)@, old(cache)@)
            &&& final(cache)@.len() > old(cache)@.len()
            &&& final(cache)@.last().0 == state
            &&& final(cache)@.last().1.0 == r.0
            &&& final(cache)@.last().1.1@ == r.1@
        },
    decreases state.zone_count - state.zone,
{
    let ghost n = attrs@.len() as int;
    let ghost free = state.members@;
    let ghost zl = state.zone_count - state.zone;
    let ghost z = state.zone as int;
    let ghost initial = cache@;
    if let Some(f) = lookup(cache, &state) {
        proof {
            let i = choose|i: int|
                #[trigger] first_entry(cache@, state, i) && cache@[i].1.0 == f.0 && cache@[i].1.1@
                    == f.1@;
            assert(result_ok(attrs@, zones@, cache@[i].0, cache@[i].1.0, cache@[i].1.1@));
            assert(cache@[i].0.members@ == state.members@);
            assert(cached(cache@, state));
        }
        return f;
    }
    if state.members.len() < 3 {
        let best = CalcResult::new(u64::MAX, u64::MAX);
        cache.push((state, (best, Vec::new())));
        proof {
            assert forall|i: int| 0 <= i < cache@.len() implies {
                let e = #[trigger] cache@[i];
                &&& state_wf(e.0)
                &&& e.0.zone_count == zones@.len()
                &&& result_ok(attrs@, zones@, e.0, e.1.0, e.1.1@)
            } by {
                if i < cache@.len() - 1 {
                    assert(cache@[i] == initial[i]);
                }
            }
            assert(cache@.subrange(0, initial.len() as int) =~= initial);
        }
        return (best, Vec::new());
    }
    let zone = &zones[state.zone];
    let combos = state.member_combinations();
    let go_on = state.can_next();
    let mut best = CalcResult::new(u64::MAX, u64::MAX);
    let mut best_plan: Vec<Triple> = Vec::new();
    proof {
        lemma_depth_bounds(free.len() as int, zl);
        assert(zone_in_range(zones@[z]));
        assert(initial.subrange(0, initial.len() as int) =~= initial);
    }
    let mut t: usize = 0;
    while t < combos.len()
        invariant
            inputs_ok(attrs@, zones@),
            state_fits(state, n, zones@.len() as int),
            free.len() >= 3,
            state.zone < state.zone_count,
            !cached(initial, state),
            extends(cache@, initial),
            n == attrs@.len(),
            free == state.members@,
            zl == state.zone_count - state.zone,
            z == state.zone,
            *zone == zones@[z],
            zone_in_range(*zone),
            go_on == (free.len() >= 6 && zl >= 2),
            depth(free.len() as int, zl) >= 1,
            !go_on ==> depth(free.len() as int, zl) == 1,
            cache_wf(attrs@, zones@, cache@),
            t <= combos@.len(),
            forall|u: int| 0 <= u < combos@.len() ==> triple_in(free, #[trigger] combos@[u]),
            t == 0 ==> best.require == u64::MAX && best.overflow == u64::MAX,
            t > 0 ==> plan_for(state, best_plan@) && cost_view(best) == plan_cost(
                attrs@,
                zones@,
                z,
                best_plan@,
            ),
            forall|p: Seq<Triple>, q: int|
                #![trigger plan_for(state, p), combos@[q]]
                0 <= q < t && plan_for(state, p) && p[0] == combos@[q] ==> cost_le(
                    cost_view(best),
                    plan_cost(attrs@, zones@, z, p),
                ),
        decreases combos@.len() - t,
    {
        let tr = combos[t];
        proof {
            assert(triple_in(free, tr));
            assert(free.contains(tr.0) && free.contains(tr.1) && free.contains(tr.2));
            assert(attr_in_range(attrs@[tr.0 as int]));
            assert(attr_in_range(attrs@[tr.1 as int]));
            assert(attr_in_range(attrs@[tr.2 as int]));
        }
        let (a, b, c) = (attrs[tr.0], attrs[tr.1], attrs[tr.2]);
        proof {
            lemma_zone_cost_bounds(zones@[z], triple_total(attrs@, tr));
        }
        let here = zone.cost_of_sums(
            a.time as i128 + b.time as i128 + c.time as i128,
            a.value as i128 + b.value as i128 + c.value as i128,
            a.popularity as i128 + b.popularity as i128 + c.popularity as i128,
        );
        assert(cost_view(here) == cost_of_total(zones@[z], triple_total(attrs@, tr)));
        let ghost old_best = best;
        if here.is_less_than(&best) {
            let mut result = here;
            let mut plan: Vec<Triple> = Vec::new();
            plan.push(tr);
            if go_on {
                let next = state.next(tr);
                let ghost rest = next.members@;
                proof {
                    assert forall|i: int| 0 <= i < rest.len() implies (#[trigger] rest[i]) < n by {
                        assert(rest.contains(rest[i]));
                    }
                }
                let ghost pre = cache@;
                assert(pre.subrange(0, pre.len() as int) =~= pre);
                let below = solve_inner(next, attrs, zones, cache);
                proof {
                    assert(extends(cache@, pre));
                    assert(cache@.subrange(0, initial.len() as int) =~= initial) by {
                        assert forall|k: int| 0 <= k < initial.len() implies cache@[k] == initial[k] by {
                            assert(cache@.subrange(0, pre.len() as int)[k] == pre[k]);
                            assert(pre.subrange(0, initial.len() as int)[k] == initial[k]);
                        }
                    }
                    lemma_depth_bounds(rest.len() as int, zl - 1);
                    assert forall|l: int| 0 <= l < below.1@.len() implies (
                    #[trigger] below.1@[l]).0 < n && below.1@[l].1 < n && below.1@[l].2 < n by {
                        let u = below.1@[l];
                        assert(triple_in(rest, u));
                        assert(rest.contains(u.0) && rest.contains(u.1) && rest.contains(u.2));
                    }
                    lemma_plan_cost_bounds(attrs@, zones@, z + 1, below.1@);
                    assert(3 * below.1@.len() <= rest.len());
                    assert(below.1@.len() * ZONE_COST_LIMIT + ZONE_COST_LIMIT <= 333_333
                        * ZONE_COST_LIMIT) by (nonlinear_arith)
                        requires
                            below.1@.len() + 1 <= 333_333,
                    ;
                }
                result = result.add(below.0);
                plan = prepend(tr, &below.1);
                proof {
                    lemma_cons_valid(free, zl, tr, below.1@, rest);
                    assert(plan@ == seq![tr] + below.1@);
                    assert(plan@[0] == tr);
                    assert(plan@.drop_first() == below.1@);
                    assert(cost_view(below.0) == plan_cost(attrs@, zones@, z + 1, below.1@));
                    assert(plan_cost(attrs@, zones@, z, plan@) == cost_add(
                        cost_of_total(zones@[z], triple_total(attrs@, tr)),
                        plan_cost(attrs@, zones@, z + 1, below.1@),
                    ));
                    assert(plan_cost(attrs@, zones@, z, plan@) == cost_view(result));
                    assert forall|p: Seq<Triple>|
                        plan_for(state, p) && p[0] == tr implies cost_le(
                        cost_view(result),
                        plan_cost(attrs@, zones@, z, p),
                    ) by {
                        lemma_tail_valid(free, zl, p, rest);
                        let tail = p.drop_first();
                        assert(valid_plan(rest, zones@.len() - (z + 1), tail));
                        assert(cost_le(
                            plan_cost(attrs@, zones@, z + 1, below.1@),
                            plan_cost(attrs@, zones@, z + 1, tail),
                        ));
                        assert(plan_cost(attrs@, zones@, z, p) == cost_add(
                            cost_of_total(zones@[z], triple_total(attrs@, tr)),
                            plan_cost(attrs@, zones@, z + 1, tail),
                        ));
                    }
                }
            } else {
                proof {
                    assert(plan@ =~= seq![tr]);
                    assert(plan@.drop_first() =~= Seq::<Triple>::empty());
                    assert(plan_cost(attrs@, zones@, z + 1, plan@.drop_first()) == (0int, 0int));
                    assert(plan_cost(attrs@, zones@, z, plan@) == cost_view(result));
                    assert(plan_for(state, plan@));
                    assert forall|p: Seq<Triple>|
                        plan_for(state, p) && p[0] == tr implies cost_le(
                        cost_view(result),
                        plan_cost(attrs@, zones@, z, p),
                    ) by {
                        assert(p.drop_first().len() == 0);
                        assert(plan_cost(attrs@, zones@, z + 1, p.drop_first()) == (0int, 0int));
                    }
                }
            }
            if result.is_less_than(&best) {
                best = result;
                best_plan = plan;
            }
        } else {
            proof {
                assert forall|p: Seq<Triple>|
                    plan_for(state, p) && p[0] == tr implies cost_le(
                    cost_view(best),
                    plan_cost(attrs@, zones@, z, p),
                ) by {
                    assert forall|l: int| 0 <= l < p.drop_first().len() implies (
                    #[trigger] p.drop_first()[l]).0 < n && p.drop_first()[l].1 < n
                        && p.drop_first()[l].2 < n by {
                        let u = p.drop_first()[l];
                        assert(u == p[l + 1]);
                        assert(triple_in(free, u));
                        assert(free.contains(u.0) && free.contains(u.1) && free.contains(u.2));
                    }
                    lemma_depth_bounds(free.len() as int, zl);
                    lemma_plan_cost_bounds(attrs@, zones@, z + 1, p.drop_first());
                }
            }
        }
        t = t + 1;
    }
    proof {
        assert(triple_in(free, (free[0], free[1], free[2]))) by {
            assert(free.contains(free[0]) && free.contains(free[1]) && free.contains(free[2]));
        }
        assert(has_triple(combos@, free[0], free[1], free[2]));
        assert forall|p: Seq<Triple>| #[trigger] valid_plan(free, zones@.len() - z, p) implies cost_le(
            plan_cost(attrs@, zones@, z, best_plan@),
            plan_cost(attrs@, zones@, z, p),
        ) by {
            assert(plan_for(state, p));
            let u = p[0];
            assert(triple_in(free, u));
            assert(has_triple(combos@, u.0, u.1, u.2));
            let q = choose|q: int| 0 <= q < combos@.len() && combos@[q] == (u.0, u.1, u.2);
            assert(combos@[q] == p[0]);
        }
    }
    let kept = copy_plan(&best_plan);
    let ghost before = cache@;
    cache.push((state, (best, kept)));
    proof {
        assert forall|i: int| 0 <= i < cache@.len() implies {
            let e = #[trigger] cache@[i];
            &&& state_wf(e.0)
            &&& e.0.zone_count == zones@.len()
            &&& result_ok(attrs@, zones@, e.0, e.1.0, e.1.1@)
        } by {
            if i < cache@.len() - 1 {
                assert(cache@[i] == before[i]);
            }
        }
        assert(cache@.subrange(0, initial.len() as int) =~= initial) by {
            assert forall|k: int| 0 <= k < initial.len() implies cache@[k] == initial[k] by {
                assert(cache@[k] == before[k]);
                assert(before.subrange(0, initial.len() as int)[k] == initial[k]);
            }
        }
    }
    (best, best_plan)
}

/// The attributes of the pool, in pool order.
pub open spec fn pool_attrs(members: Seq<MemberInfo>) -> Seq<Attribute> {
    members.map_values(|m: MemberInfo| m.attr)
}

/// All positions of a pool of `n` members, in order.
pub open spec fn pool(n: int) -> Seq<usize> {
    Seq::new(n as nat, |i: int| i as usize)
}

/// What `solve` accepts: in-range attributes and at most `POOL_LIMIT` members.
pub open spec fn solve_inputs_ok(members: Seq<MemberInfo>, zones: Seq<Zone>) -> bool {
    inputs_ok(pool_attrs(members), zones)
}

/// Zone `l` of the result is `zones[l]`, with the members at the positions
/// of `plan[l]`, in pool order.
pub open spec fn realizes(
    members: Seq<MemberInfo>,
    zones: Seq<Zone>,
    plan: Seq<Triple>,
    map: Seq<(Zone, Vec<MemberInfo>)>,
) -> bool {
    &&& map.len() == plan.len()
    &&& forall|l: int|
        0 <= l < map.len() ==> {
            &&& (#[trigger] map[l]).0 == zones[l]
            &&& map[l].1@ == seq![
                members[plan[l].0 as int],
                members[plan[l].1 as int],
                members[plan[l].2 as int],
            ]
        }
}

/// `r` is what `solve` may return: nothing exactly when there are fewer than
/// three members or no zone; otherwise a best plan from the first zone on,
/// its cost, and the zones with their members.
pub open spec fn is_solution(
    members: Seq<MemberInfo>,
    zones: Seq<Zone>,
    r: Option<(CalcResult, Vec<(Zone, Vec<MemberInfo>)>)>,
) -> bool {
    match r {
        None => members.len() < 3 || zones.len() == 0,
        Some(found) => {
            &&& members.len() >= 3
            &&& zones.len() > 0
            &&& exists|plan: Seq<Triple>|
                {
                    &&& #[trigger] is_best_plan(
                        pool_attrs(members),
                        zones,
                        pool(members.len() as int),
                        0,
                        plan,
                    )
                    &&& realizes(members, zones, plan, found.1@)
                    &&& cost_view(found.0) == plan_cost(pool_attrs(members), zones, 0, plan)
                }
        },
    }
}

fn copy_member(m: &MemberInfo) -> (r: MemberInfo)
    ensures
        r == *m,
{
    MemberInfo { name: m.name.clone(), attr: m.attr }
}

fn copy_zone(z: &Zone) -> (r: Zone)
    ensures
        r == *z,
{
    Zone {
        name: z.name.clone(),
        base: z.base,
        sub_level: z.sub_level,
        require: z.require,
        base_scaler: z.base_scaler,
    }
}

/// Assigns disjoint member triples to the zones in order, as many zones as
/// the search fills, at the least cost: least summed shortfall, then least
/// summed overflow. Nothing when there are fewer than three members or no
/// zone.
pub fn solve(members: Vec<MemberInfo>, zones: Vec<Zone>) -> (r: Option<
    (CalcResult, Vec<(Zone, Vec<MemberInfo>)>),
>)
    requires
        solve_inputs_ok(members@, zones@),
    ensures
        is_solution(members@, zones@, r),
{
    if members.len() < 3 || zones.len() == 0 {
        return None;
    }
    let mut attrs: Vec<Attribute> = Vec::new();
    let mut i: usize = 0;
    while i < members.len()
        invariant
            i <= members@.len(),
            attrs@ == pool_attrs(members@).take(i as int),
        decreases members@.len() - i,
    {
        attrs.push(members[i].attr);
        i = i + 1;
        assert(attrs@ =~= pool_attrs(members@).take(i as int));
    }
    assert(attrs@ =~= pool_attrs(members@));
    let state = SolveState::new(members.len(), zones.len());
    let ghost start = state;
    assert(start.members@ == pool(members@.len() as int));
    let mut cache: Vec<CacheEntry> = Vec::new();
    let found = solve_inner(state, &attrs, &zones, &mut cache);
    let plan = &found.1;
    proof {
        lemma_depth_bounds(members@.len() as int, zones@.len() as int);
    }
    let mut map: Vec<(Zone, Vec<MemberInfo>)> = Vec::new();
    let mut l: usize = 0;
    while l < plan.len()
        invariant
            l <= plan@.len() <= zones@.len(),
            forall|k: int| 0 <= k < plan@.len() ==> triple_in(pool(members@.len() as int), #[trigger] plan@[k]),
            map@.len() == l,
            forall|k: int|
                0 <= k < l ==> {
                    &&& (#[trigger] map@[k]).0 == zones@[k]
                    &&& map@[k].1@ == seq![
                        members@[plan@[k].0 as int],
                        members@[plan@[k].1 as int],
                        members@[plan@[k].2 as int],
                    ]
                },
        decreases plan@.len() - l,
    {
        let t = plan[l];
        proof {
            let ps = pool(members@.len() as int);
            assert(triple_in(ps, t));
            assert(ps.contains(t.0) && ps.contains(t.1) && ps.contains(t.2));
        }
        let trio = vec![copy_member(&members[t.0]), copy_member(&members[t.1]), copy_member(&members[t.2])];
        map.push((copy_zone(&zones[l]), trio));
        l = l + 1;
    }
    Some((found.0, map))
}

} // verus!
