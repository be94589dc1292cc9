use vstd::prelude::*;

use crate::attribute::{attr_in_range, attr_triple, Attribute, ATTR_LIMIT};
use crate::cost::{cost_add, cost_le};
use crate::state::{triple_in, Triple};
use crate::zone::{add3, cost_of_total, zone_in_range, Zone, ZONE_COST_LIMIT};

verus! {

/// Largest number of members that the solver accepts; with `ATTR_LIMIT` it
/// keeps every summed cost inside 64 bits.
pub const POOL_LIMIT: usize = 1_000_000;

/// Number of zones that the search fills from a position with `n` free
/// members and `zl` open zones: one, and more below it while at least six
/// members are free and at least two zones are open.
pub open spec fn depth(n: int, zl: int) -> int
    decreases zl,
{
    if n < 3 || zl <= 0 {
        0
    } else if n >= 6 && zl >= 2 {
        1 + depth(n - 3, zl - 1)
    } else {
        1
    }
}

/// The two triples share no member.
pub open spec fn triples_disjoint(a: Triple, b: Triple) -> bool {
    &&& a.0 != b.0 && a.0 != b.1 && a.0 != b.2
    &&& a.1 != b.0 && a.1 != b.1 && a.1 != b.2
    &&& a.2 != b.0 && a.2 != b.1 && a.2 != b.2
}

/// `plan[l]` is the triple given to the `l`-th open zone: as many triples as
/// the search fills, each of free members, no member in two of them.
pub open spec fn valid_plan(free: Seq<usize>, zl: int, plan: Seq<Triple>) -> bool {
    &&& plan.len() == depth(free.len() as int, zl)
    &&& forall|l: int| 0 <= l < plan.len() ==> triple_in(free, #[trigger] plan[l])
    &&& forall|l1: int, l2: int|
        0 <= l1 < l2 < plan.len() ==> triples_disjoint(#[trigger] plan[l1], #[trigger] plan[l2])
}

/// Summed attributes of the three members of `t`.
pub open spec fn triple_total(attrs: Seq<Attribute>, t: Triple) -> (int, int, int) {
    add3(
        add3(add3((0, 0, 0), attr_triple(attrs[t.0 as int])), attr_triple(attrs[t.1 as int])),
        attr_triple(attrs[t.2 as int]),
    )
}

/// Summed cost of the plan whose first triple goes to zone `z`.
pub open spec fn plan_cost(attrs: Seq<Attribute>, zones: Seq<Zone>, z: int, plan: Seq<Triple>) -> (
    int,
    int,
)
    decreases plan.len(),
{
    if plan.len() == 0 {
        (0, 0)
    } else {
        cost_add(
            cost_of_total(zones[z], triple_total(attrs, plan[0])),
            plan_cost(attrs, zones, z + 1, plan.drop_first()),
        )
    }
}

/// `plan` is valid from zone `z` on, and no valid plan costs less.
pub open spec fn is_best_plan(
    attrs: Seq<Attribute>,
    zones: Seq<Zone>,
    free: Seq<usize>,
    z: int,
    plan: Seq<Triple>,
) -> bool {
    &&& valid_plan(free, zones.len() - z, plan)
    &&& forall|p: Seq<Triple>|
        #[trigger] valid_plan(free, zones.len() - z, p) ==> cost_le(
            plan_cost(attrs, zones, z, plan),
            plan_cost(attrs, zones, z, p),
        )
}

/// Every attribute of the pool and of the zones is in range, and the pool is
/// not larger than `POOL_LIMIT`.
pub open spec fn inputs_ok(attrs: Seq<Attribute>, zones: Seq<Zone>) -> bool {
    &&& attrs.len() <= POOL_LIMIT
    &&& forall|i: int| 0 <= i < attrs.len() ==> attr_in_range(#[trigger] attrs[i])
    &&& forall|i: int| 0 <= i < zones.len() ==> zone_in_range(#[trigger] zones[i])
}

pub proof fn lemma_depth_bounds(n: int, zl: int)
    ensures
        0 <= depth(n, zl),
        n >= 0 ==> 3 * depth(n, zl) <= n,
        zl >= 0 ==> depth(n, zl) <= zl,
        n >= 3 && zl >= 1 ==> depth(n, zl) >= 1,
        !(n >= 6 && zl >= 2) && n >= 3 && zl >= 1 ==> depth(n, zl) == 1,
    decreases zl,
{
    if n >= 6 && zl >= 2 {
        lemma_depth_bounds(n - 3, zl - 1);
    }
}

/// Each cost component of one zone lies in `0..=ZONE_COST_LIMIT`.
pub proof fn lemma_zone_cost_bounds(z: Zone, total: (int, int, int))
    requires
        zone_in_range(z),
        -3 * ATTR_LIMIT <= total.0 <= 3 * ATTR_LIMIT,
        -3 * ATTR_LIMIT <= total.1 <= 3 * ATTR_LIMIT,
        -3 * ATTR_LIMIT <= total.2 <= 3 * ATTR_LIMIT,
    ensures
        0 <= cost_of_total(z, total).0 <= ZONE_COST_LIMIT,
        0 <= cost_of_total(z, total).1 <= ZONE_COST_LIMIT,
{
}

/// Each cost component of a plan lies in `0..=len * ZONE_COST_LIMIT`.
pub proof fn lemma_plan_cost_bounds(
    attrs: Seq<Attribute>,
    zones: Seq<Zone>,
    z: int,
    plan: Seq<Triple>,
)
    requires
        inputs_ok(attrs, zones),
        0 <= z,
        z + plan.len() <= zones.len(),
        forall|l: int|
            0 <= l < plan.len() ==> (#[trigger] plan[l]).0 < attrs.len() && plan[l].1 < attrs.len()
                && plan[l].2 < attrs.len(),
    ensures
        0 <= plan_cost(attrs, zones, z, plan).0 <= plan.len() * ZONE_COST_LIMIT,
        0 <= plan_cost(attrs, zones, z, plan).1 <= plan.len() * ZONE_COST_LIMIT,
    decreases plan.len(),
{
    if plan.len() > 0 {
        let t = plan[0];
        assert(attr_in_range(attrs[t.0 as int]));
        assert(attr_in_range(attrs[t.1 as int]));
        assert(attr_in_range(attrs[t.2 as int]));
        assert(zone_in_range(zones[z]));
        lemma_zone_cost_bounds(zones[z], triple_total(attrs, t));
        assert forall|l: int| 0 <= l < plan.drop_first().len() implies (
        #[trigger] plan.drop_first()[l]).0 < attrs.len() && plan.drop_first()[l].1 < attrs.len()
            && plan.drop_first()[l].2 < attrs.len() by {
            assert(plan.drop_first()[l] == plan[l + 1]);
        }
        lemma_plan_cost_bounds(attrs, zones, z + 1, plan.drop_first());
        assert((plan.len() - 1) * ZONE_COST_LIMIT + ZONE_COST_LIMIT == plan.len() * ZONE_COST_LIMIT)
            by (nonlinear_arith);
    }
}

/// Below a first triple, the rest of a valid plan is valid for the position
/// that the triple leaves.
pub proof fn lemma_tail_valid(free: Seq<usize>, zl: int, plan: Seq<Triple>, rest: Seq<usize>)
    requires
        valid_plan(free, zl, plan),
        free.len() >= 6,
        zl >= 2,
        rest.len() == free.len() - 3,
        forall|x: usize|
            #[trigger] rest.contains(x) <==> (free.contains(x) && x != plan[0].0 && x != plan[0].1
                && x != plan[0].2),
    ensures
        valid_plan(rest, zl - 1, plan.drop_first()),
{
    lemma_depth_bounds(free.len() as int, zl);
    let tail = plan.drop_first();
    assert forall|l: int| 0 <= l < tail.len() implies triple_in(rest, #[trigger] tail[l]) by {
        assert(tail[l] == plan[l + 1]);
        assert(triple_in(free, plan[l + 1]));
        assert(triples_disjoint(plan[0], plan[l + 1]));
    }
    assert forall|l1: int, l2: int| 0 <= l1 < l2 < tail.len() implies triples_disjoint(
        #[trigger] tail[l1],
        #[trigger] tail[l2],
    ) by {
        assert(tail[l1] == plan[l1 + 1]);
        assert(tail[l2] == plan[l2 + 1]);
    }
}

/// A triple of free members followed by a valid plan for the position that
/// it leaves is a valid plan.
pub proof fn lemma_cons_valid(free: Seq<usize>, zl: int, t: Triple, tail: Seq<Triple>, rest: Seq<usize>)
    requires
        triple_in(free, t),
        free.len() >= 6,
        zl >= 2,
        rest.len() == free.len() - 3,
        forall|x: usize|
            #[trigger] rest.contains(x) <==> (free.contains(x) && x != t.0 && x != t.1 && x != t.2),
        valid_plan(rest, zl - 1, tail),
    ensures
        valid_plan(free, zl, seq![t] + tail),
        (seq![t] + tail).drop_first() == tail,
        (seq![t] + tail)[0] == t,
{
    let plan = seq![t] + tail;
    assert(plan.drop_first() =~= tail);
    assert forall|l: int| 0 <= l < plan.len() implies triple_in(free, #[trigger] plan[l]) by {
        if l > 0 {
            assert(plan[l] == tail[l - 1]);
            assert(triple_in(rest, tail[l - 1]));
        }
    }
    assert forall|l1: int, l2: int| 0 <= l1 < l2 < plan.len() implies triples_disjoint(
        #[trigger] plan[l1],
        #[trigger] plan[l2],
    ) by {
        assert(plan[l2] == tail[l2 - 1]);
        let u = tail[l2 - 1];
        assert(triple_in(rest, u));
        assert(rest.contains(u.0) && rest.contains(u.1) && rest.contains(u.2));
        if l1 > 0 {
            assert(plan[l1] == tail[l1 - 1]);
        }
    }
}

} // verus!
