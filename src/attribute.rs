use vstd::prelude::*;

verus! {

/// Largest magnitude (2^40) of an attribute component that the solver
/// accepts; it keeps every residual and every summed cost inside 64 bits.
pub const ATTR_LIMIT: i64 = 1_099_511_627_776;

/// A three-dimensional integer attribute vector.
#[derive(Debug, Clone, Copy, PartialEq, Eq, PartialOrd, Ord, Hash, Structural)]
pub struct Attribute {
    pub time: i64,
    pub value: i64,
    pub popularity: i64,
}

/// Each component lies within `[-ATTR_LIMIT, ATTR_LIMIT]`.
pub open spec fn attr_in_range(a: Attribute) -> bool {
    &&& -ATTR_LIMIT <= a.time <= ATTR_LIMIT
    &&& -ATTR_LIMIT <= a.value <= ATTR_LIMIT
    &&& -ATTR_LIMIT <= a.popularity <= ATTR_LIMIT
}

/// The attribute as a triple of mathematical integers.
pub open spec fn attr_triple(a: Attribute) -> (int, int, int) {
    (a.time as int, a.value as int, a.popularity as int)
}

pub open spec fn fits_i64(x: int) -> bool {
    i64::MIN <= x <= i64::MAX
}

impl Attribute {
    pub fn new(time: i64, value: i64, popularity: i64) -> (r: Self)
        ensures
            r.time == time,
            r.value == value,
            r.popularity == popularity,
    {
        Attribute { time, value, popularity }
    }

    /// Scales every component by `rhs`.
    pub fn mul_by(self, rhs: i64) -> (r: Self)
        requires
            fits_i64(self.time * rhs),
            fits_i64(self.value * rhs),
            fits_i64(self.popularity * rhs),
        ensures
            r.time == self.time * rhs,
            r.value == self.value * rhs,
            r.popularity == self.popularity * rhs,
    {
        Attribute {
            time: self.time * rhs,
            value: self.value * rhs,
            popularity: self.popularity * rhs,
        }
    }

    /// Component-wise sum.
    pub fn add(self, rhs: Self) -> (r: Self)
        requires
            fits_i64(self.time + rhs.time),
            fits_i64(self.value + rhs.value),
            fits_i64(self.popularity + rhs.popularity),
        ensures
            r.time == self.time + rhs.time,
            r.value == self.value + rhs.value,
            r.popularity == self.popularity + rhs.popularity,
    {
        Attribute {
            time: self.time + rhs.time,
            value: self.value + rhs.value,
            popularity: self.popularity + rhs.popularity,
        }
    }

    /// Component-wise difference.
    pub fn sub(self, rhs: Self) -> (r: Self)
        requires
            fits_i64(self.time - rhs.time),
            fits_i64(self.value - rhs.value),
            fits_i64(self.popularity - rhs.popularity),
        ensures
            r.time == self.time - rhs.time,
            r.value == self.value - rhs.value,
            r.popularity == self.popularity - rhs.popularity,
    {
        Attribute {
            time: self.time - rhs.time,
            value: self.value - rhs.value,
            popularity: self.popularity - rhs.popularity,
        }
    }
}

} // verus!
