use vstd::prelude::*;

use crate::attribute::{attr_in_range, attr_triple, Attribute};
use crate::cost::{cost_view, CalcResult};

verus! {

/// A named member with its attributes.
#[derive(Debug, Clone, PartialEq, Eq, PartialOrd, Ord, Hash)]
pub struct MemberInfo {
    pub name: String,
    pub attr: Attribute,
}

impl MemberInfo {
    pub fn new(name: String, attr: Attribute) -> (r: Self)
        ensures
            r.name == name,
            r.attr == attr,
    {
        MemberInfo { name, attr }
    }
}

/// A named zone: its base attributes, its per-level bonus, its requirement
/// and a percentage that scales the base for display.
#[derive(Debug, Clone, PartialEq, Eq, Hash)]
pub struct Zone {
    pub name: String,
    pub base: Attribute,
    pub sub_level: Attribute,
    pub require: Attribute,
    pub base_scaler: u64,
}

pub open spec fn zone_in_range(z: Zone) -> bool {
    attr_in_range(z.base) && attr_in_range(z.sub_level) && attr_in_range(z.require)
}

pub open spec fn add3(a: (int, int, int), b: (int, int, int)) -> (int, int, int) {
    (a.0 + b.0, a.1 + b.1, a.2 + b.2)
}

/// The summed attributes of a sequence of members.
pub open spec fn members_total(ms: Seq<MemberInfo>) -> (int, int, int)
    decreases ms.len(),
{
    if ms.len() == 0 {
        (0, 0, 0)
    } else {
        add3(members_total(ms.drop_last()), attr_triple(ms.last().attr))
    }
}

/// What the zone reaches on its own: its base plus ten times its level bonus.
pub open spec fn zone_own(z: Zone) -> (int, int, int) {
    add3(attr_triple(z.base), (10 * z.sub_level.time, 10 * z.sub_level.value, 10
        * z.sub_level.popularity))
}

/// Requirement minus what the zone and the members bring.
pub open spec fn residual(z: Zone, total: (int, int, int)) -> (int, int, int) {
    let own = zone_own(z);
    (
        z.require.time - own.0 - total.0,
        z.require.value - own.1 - total.1,
        z.require.popularity - own.2 - total.2,
    )
}

pub open spec fn shortfall(x: int) -> int {
    if x >= 0 {
        x
    } else {
        0
    }
}

pub open spec fn excess(x: int) -> int {
    if x >= 0 {
        0
    } else {
        -x
    }
}

/// Cost of a zone whose members bring `total`: positive residual components
/// add to the shortfall, negative ones (by magnitude) to the overflow.
pub open spec fn cost_of_total(z: Zone, total: (int, int, int)) -> (int, int) {
    let r = residual(z, total);
    (shortfall(r.0) + shortfall(r.1) + shortfall(r.2), excess(r.0) + excess(r.1) + excess(r.2))
}

/// Cost of assigning the members `ms` to zone `z`.
pub open spec fn zone_cost(z: Zone, ms: Seq<MemberInfo>) -> (int, int) {
    cost_of_total(z, members_total(ms))
}

/// Largest value of either cost component for one zone with in-range inputs:
/// three dimensions of at most fifteen times `ATTR_LIMIT` each.
pub const ZONE_COST_LIMIT: u64 = 49_478_023_249_920;

/// Largest magnitude of a sum of at most three `i64` values.
pub open spec fn sum_bound() -> int {
    3 * 0x8000_0000_0000_0000int
}

/// `x` is representable as an `i64`.
pub open spec fn is_i64(x: int) -> bool {
    i64::MIN <= x <= i64::MAX
}

impl Zone {
    pub fn new(
        name: String,
        base: Attribute,
        sub_level: Attribute,
        require: Attribute,
        base_scaler: u64,
    ) -> (r: Self)
        ensures
            r.name == name,
            r.base == base,
            r.sub_level == sub_level,
            r.require == require,
            r.base_scaler == base_scaler,
    {
        Zone { name, base, sub_level, require, base_scaler }
    }

    /// Cost of this zone when its members bring `(t, v, p)` in all.
    pub(crate) fn cost_of_sums(&self, t: i128, v: i128, p: i128) -> (r: CalcResult)
        requires
            -sum_bound() <= t <= sum_bound(),
            -sum_bound() <= v <= sum_bound(),
            -sum_bound() <= p <= sum_bound(),
            cost_of_total(*self, (t as int, v as int, p as int)).0 <= u64::MAX,
            cost_of_total(*self, (t as int, v as int, p as int)).1 <= u64::MAX,
        ensures
            cost_view(r) == cost_of_total(*self, (t as int, v as int, p as int)),
    {
        let rt: i128 = self.require.time as i128 - self.base.time as i128 - 10 * (
        self.sub_level.time as i128) - t;
        let rv: i128 = self.require.value as i128 - self.base.value as i128 - 10 * (
        self.sub_level.value as i128) - v;
        let rp: i128 = self.require.popularity as i128 - self.base.popularity as i128 - 10 * (
        self.sub_level.popularity as i128) - p;
        let mut require: i128 = 0;
        let mut overflow: i128 = 0;
        if rt >= 0 {
            require = require + rt;
        } else {
            overflow = overflow - rt;
        }
        if rv >= 0 {
            require = require + rv;
        } else {
            overflow = overflow - rv;
        }
        if rp >= 0 {
            require = require + rp;
        } else {
            overflow = overflow - rp;
        }
        CalcResult::new(require as u64, overflow as u64)
    }

    /// Cost of assigning one to three members to this zone.
    pub fn calc(&self, member: &[MemberInfo]) -> (r: CalcResult)
        requires
            1 <= member@.len() <= 3,
            zone_cost(*self, member@).0 <= u64::MAX,
            zone_cost(*self, member@).1 <= u64::MAX,
        ensures
            cost_view(r) == zone_cost(*self, member@),
    {
        let (t, v, p) = sum_attributes(member);
        self.cost_of_sums(t, v, p)
    }

    /// What the zone reaches with the given members: base, ten times the
    /// level bonus, and the members' attributes.
    pub fn calc_detail(&self, member: &[MemberInfo]) -> (r: Attribute)
        requires
            member@.len() <= 3,
            is_i64(add3(members_total(member@), zone_own(*self)).0),
            is_i64(add3(members_total(member@), zone_own(*self)).1),
            is_i64(add3(members_total(member@), zone_own(*self)).2),
        ensures
            attr_triple(r) == add3(members_total(member@), zone_own(*self)),
    {
        let (t, v, p) = sum_attributes(member);
        let dt: i128 = t + (self.base.time as i128 + 10 * (self.sub_level.time as i128));
        let dv: i128 = v + (self.base.value as i128 + 10 * (self.sub_level.value as i128));
        let dp: i128 = p + (self.base.popularity as i128 + 10 * (
        self.sub_level.popularity as i128));
        Attribute::new(dt as i64, dv as i64, dp as i64)
    }
}

/// Sum of the attributes of at most three members.
fn sum_attributes(member: &[MemberInfo]) -> (r: (i128, i128, i128))
    requires
        member@.len() <= 3,
    ensures
        (r.0 as int, r.1 as int, r.2 as int) == members_total(member@),
        -sum_bound() <= r.0 <= sum_bound(),
        -sum_bound() <= r.1 <= sum_bound(),
        -sum_bound() <= r.2 <= sum_bound(),
{
    let mut t: i128 = 0;
    let mut v: i128 = 0;
    let mut p: i128 = 0;
    let mut i: usize = 0;
    while i < member.len()
        invariant
            i <= member@.len() <= 3,
            (t as int, v as int, p as int) == members_total(member@.take(i as int)),
            -(i as int) * 0x8000_0000_0000_0000int <= t <= (i as int) * 0x8000_0000_0000_0000int,
            -(i as int) * 0x8000_0000_0000_0000int <= v <= (i as int) * 0x8000_0000_0000_0000int,
            -(i as int) * 0x8000_0000_0000_0000int <= p <= (i as int) * 0x8000_0000_0000_0000int,
        decreases member@.len() - i,
    {
        assert(member@.take(i + 1).drop_last() =~= member@.take(i as int));
        let a = member[i].attr;
        t = t + a.time as i128;
        v = v + a.value as i128;
        p = p + a.popularity as i128;
        i = i + 1;
    }
    assert(member@.take(i as int) =~= member@);
    (t, v, p)
}

} // verus!
