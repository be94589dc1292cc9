use vstd::prelude::*;

use crate::attribute::{attr_triple, Attribute};
use crate::cost::{cost_add, cost_le, cost_view, CalcResult};
use crate::plan::{is_best_plan, plan_cost, triple_total, valid_plan};
use crate::solver::{is_solution, pool, pool_attrs, realizes};
use crate::state::{triple_in, Triple};
use crate::zone::{members_total, zone_cost, MemberInfo, Zone};

verus! {

/// No two members share a name.
pub open spec fn names_distinct(members: Seq<MemberInfo>) -> bool {
    forall|i: int, j: int|
        0 <= i < j < members.len() ==> (#[trigger] members[i]).name@ != (#[trigger] members[j]).name@
}

/// Summed cost of each zone of `map` with its members.
pub open spec fn assignment_cost(map: Seq<(Zone, Vec<MemberInfo>)>) -> (int, int)
    decreases map.len(),
{
    if map.len() == 0 {
        (0, 0)
    } else {
        cost_add(zone_cost(map[0].0, map[0].1@), assignment_cost(map.drop_first()))
    }
}

/// `a` is at least `b` in every attribute.
pub open spec fn dominates(a: Attribute, b: Attribute) -> bool {
    a.time >= b.time && a.value >= b.value && a.popularity >= b.popularity
}

proof fn lemma_cost_from(
    members: Seq<MemberInfo>,
    zones: Seq<Zone>,
    plan: Seq<Triple>,
    map: Seq<(Zone, Vec<MemberInfo>)>,
    k: int,
)
    requires
        realizes(members, zones, plan, map),
        forall|l: int| 0 <= l < plan.len() ==> triple_in(pool(members.len() as int), #[trigger] plan[l]),
        0 <= k <= plan.len(),
    ensures
        plan_cost(pool_attrs(members), zones, k, plan.skip(k)) == assignment_cost(map.skip(k)),
    decreases plan.len() - k,
{
    if k < plan.len() {
        lemma_cost_from(members, zones, plan, map, k + 1);
        assert(plan.skip(k).drop_first() =~= plan.skip(k + 1));
        assert(map.skip(k).drop_first() =~= map.skip(k + 1));
        let t = plan[k];
        let ps = pool(members.len() as int);
        assert(triple_in(ps, t));
        assert(ps.contains(t.0) && ps.contains(t.1) && ps.contains(t.2));
        let trio = map[k].1@;
        let attrs = pool_attrs(members);
        assert(trio == seq![members[t.0 as int], members[t.1 as int], members[t.2 as int]]);
        let two = trio.drop_last();
        let one = two.drop_last();
        assert(one.drop_last() =~= Seq::<MemberInfo>::empty());
        assert(members_total(one.drop_last()) == (0int, 0int, 0int));
        assert(members_total(one) == crate::zone::add3((0, 0, 0), attr_triple(attrs[t.0 as int])));
        assert(members_total(two) == crate::zone::add3(members_total(one), attr_triple(attrs[t.1 as int])));
        assert(members_total(trio) == triple_total(attrs, t));
    } else {
        assert(plan.skip(k) =~= Seq::<Triple>::empty());
        assert(map.skip(k) =~= Seq::<(Zone, Vec<MemberInfo>)>::empty());
    }
}

/// Whenever `solve` returns a result: every zone gets three distinct
/// members, no member is given to two zones, and the returned cost is the
/// sum of each zone's cost recomputed from its members.
pub proof fn lemma_solution_consistent(
    members: Seq<MemberInfo>,
    zones: Seq<Zone>,
    c: CalcResult,
    map: Vec<(Zone, Vec<MemberInfo>)>,
)
    requires
        is_solution(members, zones, Some((c, map))),
        names_distinct(members),
    ensures
        forall|l: int| 0 <= l < map@.len() ==> (#[trigger] map@[l]).1@.len() == 3,
        forall|l1: int, a: int, l2: int, b: int|
            0 <= l1 < map@.len() && 0 <= l2 < map@.len() && 0 <= a < 3 && 0 <= b < 3 && (l1 != l2
                || a != b) ==> (#[trigger] map@[l1].1@[a]) != (#[trigger] map@[l2].1@[b]),
        cost_view(c) == assignment_cost(map@),
{
    let plan = choose|plan: Seq<Triple>|
        {
            &&& #[trigger] is_best_plan(pool_attrs(members), zones, pool(members.len() as int), 0, plan)
            &&& realizes(members, zones, plan, map@)
            &&& cost_view(c) == plan_cost(pool_attrs(members), zones, 0, plan)
        };
    let ps = pool(members.len() as int);
    assert(valid_plan(ps, zones.len() as int, plan));
    assert forall|l: int| 0 <= l < plan.len() implies triple_in(ps, #[trigger] plan[l]) by {}
    lemma_cost_from(members, zones, plan, map@, 0);
    assert(plan.skip(0) =~= plan);
    assert(map@.skip(0) =~= map@);
    assert forall|l: int| 0 <= l < map@.len() implies (#[trigger] map@[l]).1@.len() == 3 by {}
    assert forall|l1: int, a: int, l2: int, b: int|
        0 <= l1 < map@.len() && 0 <= l2 < map@.len() && 0 <= a < 3 && 0 <= b < 3 && (l1 != l2 || a
            != b) implies (#[trigger] map@[l1].1@[a]) != (#[trigger] map@[l2].1@[b]) by {
        let t1 = plan[l1];
        let t2 = plan[l2];
        assert(triple_in(ps, t1) && triple_in(ps, t2));
        assert(ps.contains(t1.0) && ps.contains(t1.1) && ps.contains(t1.2));
        assert(ps.contains(t2.0) && ps.contains(t2.1) && ps.contains(t2.2));
        let i1: int = if a == 0 { t1.0 as int } else if a == 1 { t1.1 as int } else { t1.2 as int };
        let i2: int = if b == 0 { t2.0 as int } else if b == 1 { t2.1 as int } else { t2.2 as int };
        assert(map@[l1].1@[a] == members[i1]);
        assert(map@[l2].1@[b] == members[i2]);
        if l1 < l2 {
            assert(crate::plan::triples_disjoint(plan[l1], plan[l2]));
        } else if l2 < l1 {
            assert(crate::plan::triples_disjoint(plan[l2], plan[l1]));
        }
        assert(i1 != i2);
        if i1 < i2 {
            assert(members[i1].name@ != members[i2].name@);
        } else {
            assert(members[i2].name@ != members[i1].name@);
        }
    }
}

/// Two results of `solve` on the same inputs agree on whether there is a
/// result, and on its total cost.
pub proof fn lemma_solve_cost_determined(
    members: Seq<MemberInfo>,
    zones: Seq<Zone>,
    r1: Option<(CalcResult, Vec<(Zone, Vec<MemberInfo>)>)>,
    r2: Option<(CalcResult, Vec<(Zone, Vec<MemberInfo>)>)>,
)
    requires
        is_solution(members, zones, r1),
        is_solution(members, zones, r2),
    ensures
        r1.is_some() == r2.is_some(),
        r1 is Some && r2 is Some ==> (r1->0).0 == (r2->0).0,
{
    if r1 is Some && r2 is Some {
        let attrs = pool_attrs(members);
        let ps = pool(members.len() as int);
        let f1 = r1->0;
        let f2 = r2->0;
        let p1 = choose|plan: Seq<Triple>|
            {
                &&& #[trigger] is_best_plan(attrs, zones, ps, 0, plan)
                &&& realizes(members, zones, plan, f1.1@)
                &&& cost_view(f1.0) == plan_cost(attrs, zones, 0, plan)
            };
        let p2 = choose|plan: Seq<Triple>|
            {
                &&& #[trigger] is_best_plan(attrs, zones, ps, 0, plan)
                &&& realizes(members, zones, plan, f2.1@)
                &&& cost_view(f2.0) == plan_cost(attrs, zones, 0, plan)
            };
        assert(valid_plan(ps, zones.len() - 0, p1));
        assert(valid_plan(ps, zones.len() - 0, p2));
        assert(cost_le(plan_cost(attrs, zones, 0, p1), plan_cost(attrs, zones, 0, p2)));
        assert(cost_le(plan_cost(attrs, zones, 0, p2), plan_cost(attrs, zones, 0, p1)));
    }
}

proof fn lemma_plan_shortfall_monotone(
    weak: Seq<Attribute>,
    strong: Seq<Attribute>,
    zones: Seq<Zone>,
    z: int,
    plan: Seq<Triple>,
)
    requires
        weak.len() == strong.len(),
        forall|i: int| 0 <= i < weak.len() ==> dominates(#[trigger] strong[i], weak[i]),
        forall|l: int|
            0 <= l < plan.len() ==> (#[trigger] plan[l]).0 < weak.len() && plan[l].1 < weak.len()
                && plan[l].2 < weak.len(),
    ensures
        plan_cost(strong, zones, z, plan).0 <= plan_cost(weak, zones, z, plan).0,
    decreases plan.len(),
{
    if plan.len() > 0 {
        let t = plan[0];
        assert(dominates(strong[t.0 as int], weak[t.0 as int]));
        assert(dominates(strong[t.1 as int], weak[t.1 as int]));
        assert(dominates(strong[t.2 as int], weak[t.2 as int]));
        assert forall|l: int| 0 <= l < plan.drop_first().len() implies (
        #[trigger] plan.drop_first()[l]).0 < weak.len() && plan.drop_first()[l].1 < weak.len()
            && plan.drop_first()[l].2 < weak.len() by {
            assert(plan.drop_first()[l] == plan[l + 1]);
        }
        lemma_plan_shortfall_monotone(weak, strong, zones, z + 1, plan.drop_first());
    }
}

/// Replacing one member by one at least as strong in every attribute never
/// raises the least total shortfall that `solve` finds.
pub proof fn lemma_stronger_member_shortfall(
    members: Seq<MemberInfo>,
    zones: Seq<Zone>,
    i: int,
    stronger: MemberInfo,
    r1: Option<(CalcResult, Vec<(Zone, Vec<MemberInfo>)>)>,
    r2: Option<(CalcResult, Vec<(Zone, Vec<MemberInfo>)>)>,
)
    requires
        0 <= i < members.len(),
        dominates(stronger.attr, members[i].attr),
        is_solution(members, zones, r1),
        is_solution(members.update(i, stronger), zones, r2),
    ensures
        r1.is_some() == r2.is_some(),
        r1 is Some && r2 is Some ==> (r2->0).0.require <= (r1->0).0.require,
{
    let updated = members.update(i, stronger);
    if r1 is Some && r2 is Some {
        let weak = pool_attrs(members);
        let strong = pool_attrs(updated);
        let ps = pool(members.len() as int);
        assert(pool(updated.len() as int) == ps);
        let f1 = r1->0;
        let f2 = r2->0;
        let p1 = choose|plan: Seq<Triple>|
            {
                &&& #[trigger] is_best_plan(weak, zones, ps, 0, plan)
                &&& realizes(members, zones, plan, f1.1@)
                &&& cost_view(f1.0) == plan_cost(weak, zones, 0, plan)
            };
        let p2 = choose|plan: Seq<Triple>|
            {
                &&& #[trigger] is_best_plan(strong, zones, ps, 0, plan)
                &&& realizes(updated, zones, plan, f2.1@)
                &&& cost_view(f2.0) == plan_cost(strong, zones, 0, plan)
            };
        assert(valid_plan(ps, zones.len() - 0, p1));
        assert(cost_le(plan_cost(strong, zones, 0, p2), plan_cost(strong, zones, 0, p1)));
        assert forall|j: int| 0 <= j < weak.len() implies dominates(#[trigger] strong[j], weak[j]) by {
            if j == i {
                assert(strong[j] == stronger.attr);
            } else {
                assert(strong[j] == members[j].attr);
            }
        }
        assert forall|l: int| 0 <= l < p1.len() implies (#[trigger] p1[l]).0 < weak.len()
            && p1[l].1 < weak.len() && p1[l].2 < weak.len() by {
            let t = p1[l];
            assert(triple_in(ps, t));
            assert(ps.contains(t.0) && ps.contains(t.1) && ps.contains(t.2));
        }
        lemma_plan_shortfall_monotone(weak, strong, zones, 0, p1);
    }
}

} // verus!
