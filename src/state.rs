use itertools::Itertools;
use vstd::prelude::*;

verus! {

/// A position in the search: the members still free, as increasing indices
/// into the pool (the canonical order, so that the same remaining set always
/// gives the same state), and the zones still open, `zone..zone_count`.
#[derive(Debug, Clone, PartialEq, Eq, Hash)]
pub struct SolveState {
    pub members: Vec<usize>,
    pub zone: usize,
    pub zone_count: usize,
}

/// A triple of pool indices, in increasing order.
pub type Triple = (usize, usize, usize);

pub open spec fn increasing(s: Seq<usize>) -> bool {
    forall|i: int, j: int| 0 <= i < j < s.len() ==> s[i] < s[j]
}

/// `t` is an increasing triple of entries of `s`.
pub open spec fn triple_in(s: Seq<usize>, t: Triple) -> bool {
    &&& t.0 < t.1 < t.2
    &&& s.contains(t.0)
    &&& s.contains(t.1)
    &&& s.contains(t.2)
}

/// `(i, j, k)` occurs in `r`.
pub open spec fn has_triple(r: Seq<Triple>, i: usize, j: usize, k: usize) -> bool {
    exists|t: int| 0 <= t < r.len() && r[t] == (i, j, k)
}

/// `a` comes strictly before `b` in lexicographic order.
pub open spec fn lex_lt(a: Triple, b: Triple) -> bool {
    a.0 < b.0 || (a.0 == b.0 && (a.1 < b.1 || (a.1 == b.1 && a.2 < b.2)))
}

/// The number of 3-element subsets of `n` elements.
pub open spec fn choose3(n: int) -> int {
    n * (n - 1) * (n - 2) / 6
}

/// `x` occurs among the first `n` entries of `s`.
pub open spec fn in_prefix(s: Seq<usize>, n: int, x: usize) -> bool {
    exists|j: int| 0 <= j < n && s[j] == x
}

pub open spec fn state_wf(s: SolveState) -> bool {
    increasing(s.members@) && s.zone <= s.zone_count
}

/// Relies on itertools' `Itertools::combinations` with `k = 3` over the
/// positions `0..n`: it yields every 3-element subset of them once, each in
/// increasing order, the subsets in lexicographic order, `C(n, 3)` in all.
#[verifier::external_body]
fn position_triples(n: usize) -> (r: Vec<Triple>)
    ensures
        forall|t: int| 0 <= t < r@.len() ==> #[trigger] r@[t].0 < r@[t].1 < r@[t].2 < n,
        forall|i: usize, j: usize, k: usize|
            i < j < k < n ==> #[trigger] has_triple(r@, i, j, k),
        forall|t: int, u: int| 0 <= t < u < r@.len() ==> lex_lt(#[trigger] r@[t], #[trigger] r@[u]),
        r@.len() == choose3(n as int),
{
    (0..n).combinations(3).map(|c| (c[0], c[1], c[2])).collect()
}

impl SolveState {
    /// The state before any choice: all `member_count` members free and
    /// every zone open.
    pub fn new(member_count: usize, zone_count: usize) -> (r: Self)
        ensures
            state_wf(r),
            r.members@ == Seq::new(member_count as nat, |i: int| i as usize),
            r.zone == 0,
            r.zone_count == zone_count,
    {
        let mut members: Vec<usize> = Vec::new();
        let mut i: usize = 0;
        while i < member_count
            invariant
                i <= member_count,
                members@ == Seq::new(i as nat, |j: int| j as usize),
            decreases member_count - i,
        {
            members.push(i);
            i = i + 1;
        }
        SolveState { members, zone: 0, zone_count }
    }

    /// Whether the search goes on below a choice made here: at least six
    /// members free and at least two zones open.
    pub fn can_next(&self) -> (r: bool)
        requires
            state_wf(*self),
        ensures
            r == (self.members@.len() >= 6 && self.zone_count - self.zone >= 2),
    {
        self.members.len() >= 6 && self.zone_count - self.zone >= 2
    }

    /// Index of the zone that the next choice fills.
    pub fn current_zone(&self) -> (r: usize)
        ensures
            r == self.zone,
    {
        self.zone
    }

    /// Every increasing triple of free members, each once, in lexicographic
    /// order.
    pub fn member_combinations(&self) -> (r: Vec<Triple>)
        requires
            state_wf(*self),
        ensures
            forall|t: int| 0 <= t < r@.len() ==> triple_in(self.members@, #[trigger] r@[t]),
            forall|a: usize, b: usize, c: usize|
                triple_in(self.members@, (a, b, c)) ==> #[trigger] has_triple(r@, a, b, c),
            forall|t: int, u: int| 0 <= t < u < r@.len() ==> lex_lt(#[trigger] r@[t], #[trigger] r@[u]),
            r@.len() == choose3(self.members@.len() as int),
    {
        let m = &self.members;
        let pos = position_triples(m.len());
        let mut out: Vec<Triple> = Vec::new();
        let mut t: usize = 0;
        while t < pos.len()
            invariant
                t <= pos@.len(),
                out@.len() == t,
                forall|u: int| 0 <= u < pos@.len() ==> #[trigger] pos@[u].0 < pos@[u].1 < pos@[u].2 < m@.len(),
                forall|u: int|
                    0 <= u < t ==> #[trigger] out@[u] == (
                        m@[pos@[u].0 as int],
                        m@[pos@[u].1 as int],
                        m@[pos@[u].2 as int],
                    ),
            decreases pos@.len() - t,
        {
            let (p, q, s) = pos[t];
            out.push((m[p], m[q], m[s]));
            t = t + 1;
        }
        assert forall|u: int| 0 <= u < out@.len() implies triple_in(m@, #[trigger] out@[u]) by {
            let (p, q, s) = pos@[u];
            assert(m@.contains(m@[p as int]));
            assert(m@.contains(m@[q as int]));
            assert(m@.contains(m@[s as int]));
        }
        assert forall|a: usize, b: usize, c: usize|
            triple_in(m@, (a, b, c)) implies #[trigger] has_triple(out@, a, b, c) by {
            let i = choose|i: int| 0 <= i < m@.len() && m@[i] == a;
            let j = choose|j: int| 0 <= j < m@.len() && m@[j] == b;
            let k = choose|k: int| 0 <= k < m@.len() && m@[k] == c;
            assert(i < j && j < k) by {
                if j <= i {
                    if j < i {
                        assert(m@[j] < m@[i]);
                    }
                }
                if k <= j {
                    if k < j {
                        assert(m@[k] < m@[j]);
                    }
                }
            }
            assert(has_triple(pos@, i as usize, j as usize, k as usize));
            let w = choose|w: int| 0 <= w < pos@.len() && pos@[w] == (i as usize, j as usize, k as usize);
            assert(out@[w] == (a, b, c));
        }
        assert forall|t: int, u: int| 0 <= t < u < out@.len() implies lex_lt(
            #[trigger] out@[t],
            #[trigger] out@[u],
        ) by {
            let (p1, q1, s1) = pos@[t];
            let (p2, q2, s2) = pos@[u];
            assert(lex_lt(pos@[t], pos@[u]));
            if p1 < p2 {
                assert(m@[p1 as int] < m@[p2 as int]);
            } else if q1 < q2 {
                assert(m@[q1 as int] < m@[q2 as int]);
            } else {
                assert(m@[s1 as int] < m@[s2 as int]);
            }
        }
        out
    }

    /// The state after `chosen` fills the current zone: those members are no
    /// longer free and the next zone is current.
    pub fn next(&self, chosen: Triple) -> (r: Self)
        requires
            state_wf(*self),
            self.zone < self.zone_count,
            triple_in(self.members@, chosen),
        ensures
            state_wf(r),
            r.zone == self.zone + 1,
            r.zone_count == self.zone_count,
            r.members@.len() == self.members@.len() - 3,
            forall|x: usize|
                #[trigger] r.members@.contains(x) <==> (self.members@.contains(x) && x != chosen.0
                    && x != chosen.1 && x != chosen.2),
    {
        let m = &self.members;
        let (a, b, c) = chosen;
        let mut out: Vec<usize> = Vec::new();
        let mut i: usize = 0;
        while i < m.len()
            invariant
                i <= m@.len(),
                increasing(m@),
                a < b < c,
                increasing(out@),
                out@.len() > 0 ==> i > 0 && out@.last() <= m@[i - 1],
                forall|x: usize|
                    #[trigger] out@.contains(x) <==> (in_prefix(m@, i as int, x) && x != a && x != b
                        && x != c),
                out@.len() + (if in_prefix(m@, i as int, a) { 1int } else { 0 }) + (if in_prefix(
                    m@,
                    i as int,
                    b,
                ) { 1int } else { 0 }) + (if in_prefix(m@, i as int, c) { 1int } else { 0 })
                    == i,
            decreases m@.len() - i,
        {
            let x = m[i];
            proof {
                assert forall|y: usize| in_prefix(m@, i + 1, y) <==> (in_prefix(m@, i as int, y)
                    || y == x) by {
                    if in_prefix(m@, i + 1, y) && y != x {
                        let j = choose|j: int| 0 <= j < i + 1 && m@[j] == y;
                        assert(in_prefix(m@, i as int, y));
                    }
                    if y == x {
                        assert(m@[i as int] == y);
                    }
                }
                assert(!in_prefix(m@, i as int, x)) by {
                    if in_prefix(m@, i as int, x) {
                        let j = choose|j: int| 0 <= j < i && m@[j] == x;
                        assert(m@[j] < m@[i as int]);
                    }
                }
            }
            if x != a && x != b && x != c {
                let ghost before = out@;
                out.push(x);
                proof {
                    assert(out@ == before.push(x));
                    assert forall|y: usize| #[trigger] out@.contains(y) <==> (in_prefix(
                        m@,
                        i + 1,
                        y,
                    ) && y != a && y != b && y != c) by {
                        if out@.contains(y) && y != x {
                            let u = choose|u: int| 0 <= u < out@.len() && out@[u] == y;
                            assert(before[u] == y);
                            assert(before.contains(y));
                        }
                        if y == x {
                            assert(out@[out@.len() - 1] == y);
                        }
                        if y != x && before.contains(y) {
                            let u = choose|u: int| 0 <= u < before.len() && before[u] == y;
                            assert(out@[u] == y);
                        }
                    }
                }
            } else {
                proof {
                    assert forall|y: usize| #[trigger] out@.contains(y) <==> (in_prefix(
                        m@,
                        i + 1,
                        y,
                    ) && y != a && y != b && y != c) by {}
                }
            }
            i = i + 1;
        }
        proof {
            assert forall|y: usize| in_prefix(m@, m@.len() as int, y) <==> m@.contains(y) by {
                if m@.contains(y) {
                    let j = choose|j: int| 0 <= j < m@.len() && m@[j] == y;
                }
            }
        }
        SolveState { members: out, zone: self.zone + 1, zone_count: self.zone_count }
    }

    /// Whether the two states are the same position in the search.
    pub fn same_as(&self, other: &Self) -> (r: bool)
        ensures
            r == (self.members@ == other.members@ && self.zone == other.zone && self.zone_count
                == other.zone_count),
    {
        if self.zone != other.zone || self.zone_count != other.zone_count || self.members.len()
            != other.members.len() {
            return false;
        }
        let mut i: usize = 0;
        while i < self.members.len()
            invariant
                i <= self.members@.len() == other.members@.len(),
                forall|j: int| 0 <= j < i ==> self.members@[j] == other.members@[j],
            decreases self.members@.len() - i,
        {
            if self.members[i] != other.members[i] {
                return false;
            }
            i = i + 1;
        }
        assert(self.members@ =~= other.members@);
        true
    }
}

} // verus!
