use vstd::prelude::*;

verus! {

/// The cost of an assignment: summed shortfall first, summed overflow second.
/// Lower is better, compared lexicographically.
#[derive(Debug, Clone, Copy, PartialEq, Eq, PartialOrd, Ord, Hash, Structural)]
pub struct CalcResult {
    pub require: u64,
    pub overflow: u64,
}

/// A cost as a pair of mathematical integers `(shortfall, overflow)`.
pub open spec fn cost_view(c: CalcResult) -> (int, int) {
    (c.require as int, c.overflow as int)
}

/// Lexicographic `a <= b`.
pub open spec fn cost_le(a: (int, int), b: (int, int)) -> bool {
    a.0 < b.0 || (a.0 == b.0 && a.1 <= b.1)
}

/// Lexicographic `a < b`.
pub open spec fn cost_lt(a: (int, int), b: (int, int)) -> bool {
    a.0 < b.0 || (a.0 == b.0 && a.1 < b.1)
}

pub open spec fn cost_add(a: (int, int), b: (int, int)) -> (int, int) {
    (a.0 + b.0, a.1 + b.1)
}

impl CalcResult {
    pub fn new(require: u64, overflow: u64) -> (r: Self)
        ensures
            r.require == require,
            r.overflow == overflow,
    {
        CalcResult { require, overflow }
    }

    /// Component-wise sum.
    pub fn add(self, rhs: Self) -> (r: Self)
        requires
            self.require + rhs.require <= u64::MAX,
            self.overflow + rhs.overflow <= u64::MAX,
        ensures
            cost_view(r) == cost_add(cost_view(self), cost_view(rhs)),
    {
        CalcResult { require: self.require + rhs.require, overflow: self.overflow + rhs.overflow }
    }

    /// Whether `self` is strictly better than `other`.
    pub fn is_less_than(&self, other: &Self) -> (r: bool)
        ensures
            r == cost_lt(cost_view(*self), cost_view(*other)),
    {
        self.require < other.require || (self.require == other.require && self.overflow
            < other.overflow)
    }
}

} // verus!
