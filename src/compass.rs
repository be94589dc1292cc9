use itertools::Itertools;
use vstd::prelude::*;

verus! {

/// A ring of six positions: where it stands, how many positions one turn
/// moves it, and which way (`1` clockwise, `-1` anticlockwise).
#[derive(Debug, Clone, Copy, PartialEq, Eq, Structural)]
pub struct Ring {
    pub current: i8,
    pub num: u8,
    pub direction: i8,
}

/// Which rings one action turns.
#[derive(Debug, Clone, Copy, PartialEq, Eq, Structural)]
pub struct Linkage {
    pub inner: bool,
    pub middle: bool,
    pub outer: bool,
}

/// One step of a solution.
#[derive(Debug, Clone, Copy, PartialEq, Eq, Structural)]
pub enum Action {
    Rotate(Linkage),
}

/// Three rings that are solved when all of them stand at position zero.
#[derive(Debug, Clone, Copy, PartialEq, Eq, Structural)]
pub struct NavigationCompass {
    pub inner: Ring,
    pub middle: Ring,
    pub outer: Ring,
}

/// Positions that one turn moves the ring, with its sign.
pub open spec fn step_of(r: Ring) -> int {
    r.direction as int * r.num as int
}

/// One turn stays within `i8` arithmetic, from where the ring stands and
/// from any position of the ring.
pub open spec fn ring_ok(r: Ring) -> bool {
    &&& r.num <= 127
    &&& -128 <= step_of(r)
    &&& step_of(r) + 5 <= 127
    &&& -128 <= r.current + step_of(r) <= 127
}

/// The ring after one turn.
pub open spec fn rotated(r: Ring) -> Ring {
    Ring { current: ((r.current + step_of(r)) % 6) as i8, ..r }
}

pub open spec fn compass_ok(c: NavigationCompass) -> bool {
    ring_ok(c.inner) && ring_ok(c.middle) && ring_ok(c.outer)
}

pub open spec fn solved(c: NavigationCompass) -> bool {
    c.inner.current == 0 && c.middle.current == 0 && c.outer.current == 0
}

/// The compass after turning the rings that `l` links.
pub open spec fn linked(c: NavigationCompass, l: Linkage) -> NavigationCompass {
    NavigationCompass {
        inner: if l.inner {
            rotated(c.inner)
        } else {
            c.inner
        },
        middle: if l.middle {
            rotated(c.middle)
        } else {
            c.middle
        },
        outer: if l.outer {
            rotated(c.outer)
        } else {
            c.outer
        },
    }
}

/// The compass after the linkages `ls`, in order.
pub open spec fn after_all(c: NavigationCompass, ls: Seq<Linkage>) -> NavigationCompass
    decreases ls.len(),
{
    if ls.len() == 0 {
        c
    } else {
        linked(after_all(c, ls.drop_last()), ls.last())
    }
}

pub open spec fn linkage_of(a: Action) -> Linkage {
    match a {
        Action::Rotate(l) => l,
    }
}

pub open spec fn action_linkages(acts: Seq<Action>) -> Seq<Linkage> {
    acts.map_values(|a: Action| linkage_of(a))
}

/// The linkages at the positions `idx`.
pub open spec fn picked(ls: Seq<Linkage>, idx: Seq<usize>) -> Seq<Linkage> {
    idx.map_values(|i: usize| ls[i as int])
}

/// `idx` is a nondecreasing sequence of `k` positions below `m`: a choice
/// of `k` linkages out of `m`, repetition allowed, order ignored.
pub open spec fn is_pick(idx: Seq<usize>, m: int, k: int) -> bool {
    &&& idx.len() == k
    &&& forall|i: int| 0 <= i < idx.len() ==> (#[trigger] idx[i]) < m
    &&& forall|i: int, j: int| 0 <= i < j < idx.len() ==> idx[i] <= idx[j]
}

/// No choice of `k` linkages out of `ls` solves `c`.
pub open spec fn unsolvable_in(c: NavigationCompass, ls: Seq<Linkage>, k: int) -> bool {
    forall|idx: Seq<usize>|
        #[trigger] is_pick(idx, ls.len() as int, k) ==> !solved(after_all(c, picked(ls, idx)))
}

impl Ring {
    pub fn new(current: i8, num: u8, direction: i8) -> (r: Self)
        ensures
            r == (Ring { current, num, direction }),
    {
        Ring { current, num, direction }
    }

    /// Turns the ring once.
    pub fn rotate(&mut self)
        requires
            ring_ok(*old(self)),
        ensures
            *final(self) == rotated(*old(self)),
            ring_ok(*final(self)),
    {
        let step: i8 = self.direction * (self.num as i8);
        let moved: i8 = self.current + step;
        let mut c: i8 = moved % 6;
        if c < 0 {
            c = c + 6;
        }
        self.current = c;
    }
}

impl Linkage {
    /// Bit 2 links the inner ring, bit 1 the middle one, bit 0 the outer one.
    pub fn new(mask: u8) -> (r: Self)
        ensures
            r.inner == (mask & 4 != 0),
            r.middle == (mask & 2 != 0),
            r.outer == (mask & 1 != 0),
    {
        Linkage { inner: (mask & 0b100) > 0, middle: (mask & 0b010) > 0, outer: (mask & 0b001) > 0 }
    }

    /// The mask that `new` reads.
    pub fn to_u8(&self) -> (r: u8)
        ensures
            r == (if self.inner {
                4int
            } else {
                0
            }) + (if self.middle {
                2int
            } else {
                0
            }) + (if self.outer {
                1int
            } else {
                0
            }),
    {
        let i: u8 = if self.inner {
            4
        } else {
            0
        };
        let m: u8 = if self.middle {
            2
        } else {
            0
        };
        let o: u8 = if self.outer {
            1
        } else {
            0
        };
        i + m + o
    }
}

/// Relies on itertools' `Itertools::combinations_with_replacement` over the
/// positions `0..ls.len()`, which yields every nondecreasing sequence of `k`
/// positions, and on `Iterator::find`, which returns the first one that the
/// test accepts, or nothing when none does.
#[verifier::external_body]
fn first_solving_pick(c: &NavigationCompass, ls: &Vec<Linkage>, k: usize) -> (r: Option<Vec<usize>>)
    requires
        compass_ok(*c),
    ensures
        r matches Some(idx) ==> is_pick(idx@, ls@.len() as int, k as int) && solved(
            after_all(*c, picked(ls@, idx@)),
        ),
        r is None ==> unsolvable_in(*c, ls@, k as int),
{
    (0..ls.len()).combinations_with_replacement(k).find(|idx| c.solved_with(ls, idx))
}

impl NavigationCompass {
    pub fn new(inner: Ring, middle: Ring, outer: Ring) -> (r: Self)
        ensures
            r == (NavigationCompass { inner, middle, outer }),
    {
        NavigationCompass { inner, middle, outer }
    }

    pub fn is_solved(&self) -> (r: bool)
        ensures
            r == solved(*self),
    {
        self.inner.current == 0 && self.middle.current == 0 && self.outer.current == 0
    }

    /// Turns the rings that `l` links.
    fn turn(&mut self, l: &Linkage)
        requires
            compass_ok(*old(self)),
        ensures
            *final(self) == linked(*old(self), *l),
            compass_ok(*final(self)),
    {
        if l.inner {
            self.inner.rotate();
        }
        if l.middle {
            self.middle.rotate();
        }
        if l.outer {
            self.outer.rotate();
        }
    }

    /// The compass after the actions, in order.
    pub fn do_actions(&self, actions: &Vec<Action>) -> (r: NavigationCompass)
        requires
            compass_ok(*self),
        ensures
            r == after_all(*self, action_linkages(actions@)),
            compass_ok(r),
    {
        let mut result = *self;
        let mut i: usize = 0;
        while i < actions.len()
            invariant
                i <= actions@.len(),
                compass_ok(*self),
                result == after_all(*self, action_linkages(actions@.take(i as int))),
                compass_ok(result),
            decreases actions@.len() - i,
        {
            assert(action_linkages(actions@.take(i + 1)).drop_last() =~= action_linkages(
                actions@.take(i as int),
            ));
            match &actions[i] {
                Action::Rotate(l) => result.turn(l),
            }
            i = i + 1;
        }
        assert(actions@.take(i as int) =~= actions@);
        result
    }

    /// Whether the linkages at the positions `idx` solve the compass.
    pub fn solved_with(&self, ls: &Vec<Linkage>, idx: &Vec<usize>) -> (r: bool)
        requires
            compass_ok(*self),
            forall|i: int| 0 <= i < idx@.len() ==> (#[trigger] idx@[i]) < ls@.len(),
        ensures
            r == solved(after_all(*self, picked(ls@, idx@))),
    {
        let mut result = *self;
        let mut i: usize = 0;
        while i < idx.len()
            invariant
                i <= idx@.len(),
                compass_ok(*self),
                forall|j: int| 0 <= j < idx@.len() ==> (#[trigger] idx@[j]) < ls@.len(),
                result == after_all(*self, picked(ls@, idx@.take(i as int))),
                compass_ok(result),
            decreases idx@.len() - i,
        {
            assert(picked(ls@, idx@.take(i + 1)).drop_last() =~= picked(ls@, idx@.take(i as int)));
            result.turn(&ls[idx[i]]);
            i = i + 1;
        }
        assert(idx@.take(i as int) =~= idx@);
        result.is_solved()
    }

    /// The fewest actions, up to a hundred, chosen from `available_linkages`
    /// with repetition, that solve the compass; nothing when no choice of
    /// one to a hundred of them does.
    pub fn try_solve(&self, available_linkages: Vec<Linkage>) -> (r: Option<Vec<Action>>)
        requires
            compass_ok(*self),
        ensures
            r matches Some(acts) ==> {
                &&& 1 <= acts@.len() <= 100
                &&& solved(after_all(*self, action_linkages(acts@)))
                &&& exists|idx: Seq<usize>|
                    #[trigger] is_pick(idx, available_linkages@.len() as int, acts@.len() as int)
                        && action_linkages(acts@) == picked(available_linkages@, idx)
                &&& forall|k: int|
                    1 <= k < acts@.len() ==> #[trigger] unsolvable_in(
                        *self,
                        available_linkages@,
                        k,
                    )
            },
            r is None ==> forall|k: int|
                1 <= k <= 100 ==> #[trigger] unsolvable_in(*self, available_linkages@, k),
    {
        let mut k: usize = 1;
        while k <= 100
            invariant
                1 <= k <= 101,
                compass_ok(*self),
                forall|j: int| 1 <= j < k ==> #[trigger] unsolvable_in(*self, available_linkages@, j),
            decreases 101 - k,
        {
            if let Some(idx) = first_solving_pick(self, &available_linkages, k) {
                let mut acts: Vec<Action> = Vec::new();
                let mut i: usize = 0;
                while i < idx.len()
                    invariant
                        i <= idx@.len(),
                        forall|j: int| 0 <= j < idx@.len() ==> (#[trigger] idx@[j]) < available_linkages@.len(),
                        acts@.len() == i,
                        1 <= k <= 100,
                        is_pick(idx@, available_linkages@.len() as int, k as int),
                        solved(after_all(*self, picked(available_linkages@, idx@))),
                        forall|j: int| 1 <= j < k ==> #[trigger] unsolvable_in(*self, available_linkages@, j),
                        forall|j: int|
                            0 <= j < i ==> #[trigger] acts@[j] == Action::Rotate(available_linkages@[idx@[j] as int]),
                    decreases idx@.len() - i,
                {
                    acts.push(Action::Rotate(available_linkages[idx[i]]));
                    i = i + 1;
                }
                assert(action_linkages(acts@) =~= picked(available_linkages@, idx@));
                assert(acts@.len() == k);
                assert(is_pick(idx@, available_linkages@.len() as int, acts@.len() as int));
                return Some(acts);
            }
            k = k + 1;
        }
        None
    }
}

/// Why a linkage text was refused.
#[derive(Debug, Clone, Copy, PartialEq, Eq, Structural)]
pub enum LinkageError {
    /// It is not three characters long.
    WrongLength,
    /// It holds a character other than `0` and `1`.
    UnknownCharacter,
}

/// The linkage that three binary digits (inner, middle, outer) write.
pub open spec fn linkage_text(t: Seq<char>) -> Result<Linkage, LinkageError> {
    if t.len() != 3 {
        Err(LinkageError::WrongLength)
    } else if exists|i: int| 0 <= i < 3 && t[i] != '0' && t[i] != '1' {
        Err(LinkageError::UnknownCharacter)
    } else {
        Ok(Linkage { inner: t[0] == '1', middle: t[1] == '1', outer: t[2] == '1' })
    }
}

/// Reads a linkage written as three binary digits, inner ring first.
pub fn parse_linkage(text: &String) -> (r: Result<Linkage, LinkageError>)
    ensures
        r == linkage_text(text@),
{
    let t = text.as_str();
    if t.unicode_len() != 3 {
        return Err(LinkageError::WrongLength);
    }
    let a = t.get_char(0);
    let b = t.get_char(1);
    let c = t.get_char(2);
    if (a != '0' && a != '1') || (b != '0' && b != '1') || (c != '0' && c != '1') {
        proof {
            if a != '0' && a != '1' {
                assert(text@[0] != '0' && text@[0] != '1');
            } else if b != '0' && b != '1' {
                assert(text@[1] != '0' && text@[1] != '1');
            } else {
                assert(text@[2] != '0' && text@[2] != '1');
            }
        }
        return Err(LinkageError::UnknownCharacter);
    }
    let ia: bool = a == '1';
    let ib: bool = b == '1';
    let ic: bool = c == '1';
    Ok(Linkage { inner: ia, middle: ib, outer: ic })
}

/// Reads every linkage text, stopping at the first one refused.
pub fn parse_linkages(raw: &Vec<String>) -> (r: Result<Vec<Linkage>, LinkageError>)
    ensures
        r matches Ok(ls) ==> ls@.len() == raw@.len() && forall|i: int|
            0 <= i < raw@.len() ==> linkage_text(#[trigger] raw@[i]@) == Ok::<Linkage, LinkageError>(ls@[i]),
        r matches Err(e) ==> exists|i: int|
            0 <= i < raw@.len() && linkage_text(#[trigger] raw@[i]@) == Err::<Linkage, LinkageError>(e),
{
    let mut out: Vec<Linkage> = Vec::new();
    let mut i: usize = 0;
    while i < raw.len()
        invariant
            i <= raw@.len(),
            out@.len() == i,
            forall|j: int|
                0 <= j < i ==> linkage_text(#[trigger] raw@[j]@) == Ok::<Linkage, LinkageError>(out@[j]),
        decreases raw@.len() - i,
    {
        match parse_linkage(&raw[i]) {
            Ok(l) => out.push(l),
            Err(e) => {
                return Err(e);
            },
        }
        i = i + 1;
    }
    Ok(out)
}

/// The linkages that the masks stand for.
pub open spec fn masks_linkages(ms: Seq<u8>) -> Seq<Linkage> {
    ms.map_values(|m: u8| mask_linkage(m))
}

/// The compass with the given rings.
pub open spec fn compass_from(
    ic: i8,
    in_n: u8,
    id: i8,
    mc: i8,
    mn: u8,
    md: i8,
    oc: i8,
    on: u8,
    od: i8,
) -> NavigationCompass {
    NavigationCompass {
        inner: Ring { current: ic, num: in_n, direction: id },
        middle: Ring { current: mc, num: mn, direction: md },
        outer: Ring { current: oc, num: on, direction: od },
    }
}

proof fn lemma_mask_round_trip(l: Linkage, x: u8)
    requires
        x as int == (if l.inner {
            4int
        } else {
            0
        }) + (if l.middle {
            2int
        } else {
            0
        }) + (if l.outer {
            1int
        } else {
            0
        }),
    ensures
        mask_linkage(x) == l,
{
    let i = l.inner;
    let m = l.middle;
    let o = l.outer;
    assert((x & 4 != 0) == i && (x & 2 != 0) == m && (x & 1 != 0) == o) by (bit_vector)
        requires
            x == (if i { 4u8 } else { 0u8 }) + (if m { 2u8 } else { 0u8 }) + (if o { 1u8 } else { 0u8 }),
    ;
}

/// Solves a compass given as plain values: each ring's position, step and
/// direction, and the available linkages as masks; the fewest actions come
/// back as masks too.
pub fn navigation_compass_solve(
    ic: i8,
    in_n: u8,
    id: i8,
    mc: i8,
    mn: u8,
    md: i8,
    oc: i8,
    on: u8,
    od: i8,
    linkages: Vec<u8>,
) -> (r: Option<Vec<u8>>)
    requires
        compass_ok(compass_from(ic, in_n, id, mc, mn, md, oc, on, od)),
    ensures
        r is Some <==> exists|k: int|
            1 <= k <= 100 && !#[trigger] unsolvable_in(
                compass_from(ic, in_n, id, mc, mn, md, oc, on, od),
                masks_linkages(linkages@),
                k,
            ),
        r matches Some(out) ==> {
            &&& 1 <= out@.len() <= 100
            &&& solved(after_all(compass_from(ic, in_n, id, mc, mn, md, oc, on, od), masks_linkages(out@)))
            &&& forall|k: int|
                1 <= k < out@.len() ==> #[trigger] unsolvable_in(
                    compass_from(ic, in_n, id, mc, mn, md, oc, on, od),
                    masks_linkages(linkages@),
                    k,
                )
            &&& exists|idx: Seq<usize>|
                #[trigger] is_pick(idx, linkages@.len() as int, out@.len() as int) && forall|i: int|
                    0 <= i < out@.len() ==> #[trigger] out@[i] == linkages@[idx[i] as int] & 7
        },
{
    let compass = NavigationCompass::new(
        Ring::new(ic, in_n, id),
        Ring::new(mc, mn, md),
        Ring::new(oc, on, od),
    );
    let mut ls: Vec<Linkage> = Vec::new();
    let mut i: usize = 0;
    while i < linkages.len()
        invariant
            i <= linkages@.len(),
            ls@ == masks_linkages(linkages@.take(i as int)),
        decreases linkages@.len() - i,
    {
        ls.push(Linkage::new(linkages[i]));
        i = i + 1;
        assert(ls@ =~= masks_linkages(linkages@.take(i as int)));
    }
    assert(linkages@.take(i as int) =~= linkages@);
    let ghost avail = ls@;
    match compass.try_solve(ls) {
        Some(acts) => {
            proof {
                let idx = choose|idx: Seq<usize>|
                    #[trigger] is_pick(idx, avail.len() as int, acts@.len() as int) && action_linkages(
                        acts@,
                    ) == picked(avail, idx);
                assert(!unsolvable_in(compass, avail, acts@.len() as int));
            }
            let mut out: Vec<u8> = Vec::new();
            let mut j: usize = 0;
            while j < acts.len()
                invariant
                    j <= acts@.len(),
                    masks_linkages(out@) == action_linkages(acts@.take(j as int)),
                    out@.len() == j,
                    forall|i: int|
                        0 <= i < j ==> #[trigger] out@[i] as int == link_bits(linkage_of(acts@[i])),
                decreases acts@.len() - j,
            {
                match &acts[j] {
                    Action::Rotate(l) => {
                        let x = l.to_u8();
                        proof {
                            lemma_mask_round_trip(*l, x);
                        }
                        let ghost before = out@;
                        out.push(x);
                        proof {
                            assert(out@ == before.push(x));
                            assert(acts@.take(j + 1) == acts@.take(j as int).push(acts@[j as int]));
                            assert(masks_linkages(out@) =~= masks_linkages(before).push(mask_linkage(x)));
                            assert(action_linkages(acts@.take(j + 1)) =~= action_linkages(
                                acts@.take(j as int),
                            ).push(linkage_of(acts@[j as int])));
                        }
                    },
                }
                j = j + 1;
            }
            assert(acts@.take(j as int) =~= acts@);
            proof {
                let idx = choose|idx: Seq<usize>|
                    #[trigger] is_pick(idx, avail.len() as int, acts@.len() as int) && action_linkages(
                        acts@,
                    ) == picked(avail, idx);
                assert(is_pick(idx, linkages@.len() as int, out@.len() as int));
                assert forall|i: int| 0 <= i < out@.len() implies #[trigger] out@[i] == linkages@[idx[i] as int]
                    & 7 by {
                    assert(action_linkages(acts@)[i] == picked(avail, idx)[i]);
                    lemma_mask_bits(linkages@[idx[i] as int]);
                }
            }
            Some(out)
        },
        None => {
            assert(forall|k: int|
                1 <= k <= 100 ==> #[trigger] unsolvable_in(compass, avail, k));
            None
        },
    }
}

/// The mask that `Linkage::to_u8` writes for `l`.
pub open spec fn link_bits(l: Linkage) -> int {
    (if l.inner {
        4int
    } else {
        0
    }) + (if l.middle {
        2int
    } else {
        0
    }) + (if l.outer {
        1int
    } else {
        0
    })
}

proof fn lemma_mask_bits(x: u8)
    ensures
        link_bits(mask_linkage(x)) == (x & 7) as int,
{
    let i = x & 4 != 0;
    let m = x & 2 != 0;
    let o = x & 1 != 0;
    assert(x & 7 == (if i { 4u8 } else { 0u8 }) + (if m { 2u8 } else { 0u8 }) + (if o { 1u8 } else { 0u8 }))
        by (bit_vector)
        requires
            i == (x & 4 != 0),
            m == (x & 2 != 0),
            o == (x & 1 != 0),
    ;
}

/// The linkage that `Linkage::new` reads from `mask`.
pub open spec fn mask_linkage(mask: u8) -> Linkage {
    Linkage { inner: mask & 4 != 0, middle: mask & 2 != 0, outer: mask & 1 != 0 }
}

} // verus!
