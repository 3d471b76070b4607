//! The categorical distribution: a fixed mass for each outcome `0..k`.

use crate::mass::{is_probability, HALF, ONE, SUM_HIGH, SUM_LOW};
use vstd::prelude::*;

verus! {

/// Why a distribution could not be built or a query could not be answered.
#[derive(Debug, Clone, Copy, PartialEq, Eq, Structural)]
pub enum CategoricalError {
    /// The masses are not a probability vector: one lies outside `[0, 1]`,
    /// their sum is more than `1e-12` away from `1`, or the running sums
    /// handed in with them are not those of non-negative masses.
    InvalidMass,
    /// A probability outside `[0, 1]` was asked for.
    OutOfRange,
}

/// The masses `p` with their running sums `s` (`s[i]` is the double sum
/// `p[0] + ... + p[i]`, added in order) form a distribution: as many of each,
/// at least one outcome, every mass a probability, running sums that never
/// decrease, a total within `1e-12` of one, and some mass above zero.
pub open spec fn valid_table(p: Seq<u64>, s: Seq<u64>) -> bool {
    &&& p.len() == s.len()
    &&& p.len() >= 1
    &&& forall|i: int| 0 <= i < p.len() ==> is_probability(#[trigger] p[i])
    &&& forall|i: int, j: int| 0 <= i <= j < s.len() ==> s[i] <= s[j]
    &&& SUM_LOW <= s.last() <= SUM_HIGH
    &&& exists|i: int| 0 <= i < p.len() && p[i] > 0
}

/// The cumulative mass at the cut point `x`: the running sum up to `x`, or
/// exactly one from the last outcome on.
pub open spec fn cdf_of(s: Seq<u64>, x: int) -> u64 {
    if x >= s.len() - 1 {
        ONE
    } else {
        s[x]
    }
}

/// The running sum at `i` meets the probability `q`, or is exactly one.
pub open spec fn reaches(s: Seq<u64>, i: int, q: u64) -> bool {
    s[i] >= q || s[i] == ONE
}

/// `r` is the quantile of the probability `q`: for `q == 0` the first outcome
/// with a mass above zero; otherwise the first outcome whose running sum
/// reaches `q`, or the last outcome when none does.
pub open spec fn is_quantile(p: Seq<u64>, s: Seq<u64>, q: u64, r: int) -> bool {
    &&& 0 <= r < p.len()
    &&& if q == 0 {
        p[r] > 0 && forall|j: int| 0 <= j < r ==> p[j] == 0
    } else {
        (reaches(s, r, q) || r == s.len() - 1) && forall|j: int| 0 <= j < r ==> !reaches(s, j, q)
    }
}

/// The largest mass of `p`, and zero when there is none above zero.
pub open spec fn max_of(p: Seq<u64>) -> u64
    decreases p.len(),
{
    if p.len() == 0 {
        0
    } else {
        let m = max_of(p.drop_last());
        if p.last() > m {
            p.last()
        } else {
            m
        }
    }
}

/// A median of a distribution over `0..k`: one of the outcomes, or the
/// point halfway between two neighbours.
#[derive(Debug, Clone, Copy, PartialEq, Eq, Structural)]
pub enum Median {
    /// The outcome itself.
    At(usize),
    /// Halfway between the outcome before this one and this one: `i - 0.5`.
    Below(usize),
}

/// The median found at `i`, the first outcome whose running sum reaches one
/// half: that outcome when the sum passes one half, the midpoint before it
/// when the sum is exactly one half (`0.5` when that happens at the first).
pub open spec fn median_at(s: Seq<u64>, i: int) -> Median {
    if s[i] > HALF {
        Median::At(i as usize)
    } else if i == 0 {
        Median::Below(1)
    } else {
        Median::Below(i as usize)
    }
}

/// `i` is the first outcome whose running sum reaches one half.
pub open spec fn first_half(s: Seq<u64>, i: int) -> bool {
    0 <= i < s.len() && s[i] >= HALF && forall|j: int| 0 <= j < i ==> s[j] < HALF
}

/// A categorical distribution over the outcomes `0..k`.
pub struct Categorical {
    p: Vec<u64>,
    s: Vec<u64>,
}

impl Categorical {
    /// The mass of each outcome.
    pub closed spec fn masses(&self) -> Seq<u64> {
        self.p@
    }

    /// The running sums of the masses.
    pub closed spec fn sums(&self) -> Seq<u64> {
        self.s@
    }

    /// What every distribution built by `new` satisfies.
    pub open spec fn wf(&self) -> bool {
        valid_table(self.masses(), self.sums())
    }

    /// Builds the distribution with masses `p` and their running sums `sums`,
    /// or tells why they are not a probability vector.
    pub fn new(p: Vec<u64>, sums: Vec<u64>) -> (r: Result<Categorical, CategoricalError>)
        ensures
            r is Ok <==> valid_table(p@, sums@),
            r matches Ok(c) ==> c.masses() == p@ && c.sums() == sums@ && c.wf(),
            r matches Err(e) ==> e == CategoricalError::InvalidMass,
    {
        let n = p.len();
        if n == 0 || sums.len() != n {
            return Err(CategoricalError::InvalidMass);
        }
        let mut positive = false;
        let mut i: usize = 0;
        while i < n
            invariant
                n == p.len() == sums.len(),
                0 <= i <= n,
                forall|j: int| 0 <= j < i ==> is_probability(#[trigger] p@[j]),
                forall|a: int, b: int| 0 <= a <= b < i ==> sums@[a] <= sums@[b],
                positive <==> exists|j: int| 0 <= j < i && p@[j] > 0,
            decreases n - i,
        {
            if p[i] > ONE {
                return Err(CategoricalError::InvalidMass);
            }
            if i > 0 && sums[i - 1] > sums[i] {
                return Err(CategoricalError::InvalidMass);
            }
            if p[i] > 0 {
                positive = true;
            }
            i = i + 1;
        }
        let total = sums[n - 1];
        if total < SUM_LOW || total > SUM_HIGH || !positive {
            return Err(CategoricalError::InvalidMass);
        }
        Ok(Categorical { p, s: sums })
    }

    /// The number of outcomes.
    pub fn k(&self) -> (r: usize)
        ensures
            r == self.masses().len(),
    {
        self.p.len()
    }

    /// The mass of each outcome.
    pub fn p(&self) -> (r: &[u64])
        ensures
            r@ == self.masses(),
    {
        self.p.as_slice()
    }

    /// The mass of the outcome `x`.
    pub fn pmf(&self, x: usize) -> (r: u64)
        requires
            x < self.masses().len(),
        ensures
            r == self.masses()[x as int],
    {
        self.p[x]
    }

    /// The mass of the outcomes up to and including `x`, a cut point already
    /// rounded down to an outcome. From the last outcome on it is exactly one.
    pub fn cdf(&self, x: usize) -> (r: u64)
        requires
            self.wf(),
        ensures
            r == cdf_of(self.sums(), x as int),
    {
        if x >= self.s.len() - 1 {
            ONE
        } else {
            self.s[x]
        }
    }

    /// The smallest outcome whose cumulative mass reaches `q`, a running sum of
    /// exactly one ending the search early. For `q == 0` the first outcome
    /// with a mass above zero.
    pub fn inv_cdf(&self, q: u64) -> (r: Result<usize, CategoricalError>)
        requires
            self.wf(),
        ensures
            r is Err <==> !is_probability(q),
            r matches Ok(i) ==> is_quantile(self.masses(), self.sums(), q, i as int),
            r matches Err(e) ==> e == CategoricalError::OutOfRange,
    {
        if q > ONE {
            return Err(CategoricalError::OutOfRange);
        }
        let n = self.p.len();
        if q == 0 {
            let mut i: usize = 0;
            while i < n
                invariant
                    n == self.p@.len(),
                    0 <= i <= n,
                    self.wf(),
                    q == 0,
                    forall|j: int| 0 <= j < i ==> self.p@[j] == 0,
                decreases n - i,
            {
                if self.p[i] > 0 {
                    return Ok(i);
                }
                i = i + 1;
            }
            return Ok(0);
        }
        let mut i: usize = 0;
        while i < n
            invariant
                n == self.p@.len() == self.s@.len(),
                0 <= i <= n,
                0 < q <= ONE,
                forall|j: int| 0 <= j < i ==> !reaches(self.s@, j, q),
            decreases n - i,
        {
            if self.s[i] >= q || self.s[i] == ONE {
                return Ok(i);
            }
            i = i + 1;
        }
        Ok(n - 1)
    }

    /// The median: the first outcome whose cumulative mass passes one half,
    /// or the midpoint before it when the cumulative mass there is exactly one
    /// half.
    pub fn median(&self) -> (r: Median)
        requires
            self.wf(),
        ensures
            exists|i: int| first_half(self.sums(), i) && r == median_at(self.sums(), i),
    {
        let n = self.s.len();
        let mut i: usize = 0;
        while i < n
            invariant
                n == self.s@.len(),
                0 <= i <= n,
                self.wf(),
                forall|j: int| 0 <= j < i ==> self.s@[j] < HALF,
            decreases n - i,
        {
            let sum = self.s[i];
            if sum >= HALF {
                assert(first_half(self.s@, i as int));
                if sum > HALF {
                    return Median::At(i);
                } else if i == 0 {
                    return Median::Below(1);
                } else {
                    return Median::Below(i);
                }
            }
            i = i + 1;
        }
        // The total is near one, so the search above always returns.
        assert(self.s@[n - 1] >= HALF);
        Median::At(0)
    }

    /// Every outcome whose mass is the largest, in increasing order.
    pub fn modes(&self) -> (r: Vec<usize>)
        ensures
            forall|a: int, b: int| 0 <= a < b < r.len() ==> r[a] < r[b],
            forall|j: int|
                0 <= j < r.len() ==> r[j] < self.masses().len() && self.masses()[r[j] as int]
                    == max_of(self.masses()),
            forall|i: int|
                0 <= i < self.masses().len() && self.masses()[i] == max_of(self.masses())
                    ==> r@.contains(i as usize),
    {
        let n = self.p.len();
        let mut modes: Vec<usize> = Vec::new();
        let mut max: u64 = 0;
        let mut i: usize = 0;
        while i < n
            invariant
                n == self.p@.len(),
                0 <= i <= n,
                max == max_of(self.p@.subrange(0, i as int)),
                forall|a: int, b: int| 0 <= a < b < modes.len() ==> modes[a] < modes[b],
                forall|j: int|
                    0 <= j < modes.len() ==> modes[j] < i && self.p@[modes[j] as int] == max,
                forall|j: int| 0 <= j < i && self.p@[j] == max ==> modes@.contains(j as usize),
                forall|j: int| 0 <= j < i ==> self.p@[j] <= max,
            decreases n - i,
        {
            let x = self.p[i];
            assert(self.p@.subrange(0, i + 1).drop_last() == self.p@.subrange(0, i as int));
            if x == max {
                let ghost before = modes@;
                modes.push(i);
                assert(modes@.last() == i);
                assert forall|j: int| 0 <= j <= i && self.p@[j] == max implies modes@.contains(
                    j as usize,
                ) by {
                    if j < i {
                        assert(before.contains(j as usize));
                        let t = choose|t: int| 0 <= t < before.len() && before[t] == j as usize;
                        assert(modes@[t] == j as usize);
                    } else {
                        assert(modes@[modes.len() - 1] == j as usize);
                    }
                }
            }
            if x > max {
                max = x;
                modes = vec![i];
                assert(modes@[0] == i);
            }
            i = i + 1;
        }
        assert(self.p@.subrange(0, n as int) == self.p@);
        modes
    }
}


/// When some mass is above zero, `max_of` is the largest mass and some outcome
/// has it, so the modes are exactly the outcomes of largest mass.
pub proof fn max_of_is_largest(p: Seq<u64>)
    requires
        exists|i: int| 0 <= i < p.len() && p[i] > 0,
    ensures
        forall|i: int| 0 <= i < p.len() ==> p[i] <= max_of(p),
        exists|i: int| 0 <= i < p.len() && p[i] == max_of(p),
    decreases p.len(),
{
    let q = p.drop_last();
    assert forall|i: int| 0 <= i < q.len() implies q[i] == p[i] by {}
    if exists|i: int| 0 <= i < q.len() && q[i] > 0 {
        max_of_is_largest(q);
        if p.last() <= max_of(q) {
            let w = choose|i: int| 0 <= i < q.len() && q[i] == max_of(q);
            assert(p[w] == max_of(p));
        }
    } else {
        lemma_max_of_zero(q);
        assert(p.last() > 0);
    }
}

proof fn lemma_max_of_zero(p: Seq<u64>)
    requires
        forall|i: int| 0 <= i < p.len() ==> p[i] == 0,
    ensures
        max_of(p) == 0,
    decreases p.len(),
{
    if p.len() > 0 {
        let q = p.drop_last();
        assert forall|i: int| 0 <= i < q.len() implies q[i] == 0 by {
            assert(q[i] == p[i]);
        }
        lemma_max_of_zero(q);
    }
}

/// The masses of a distribution add up to one within `1e-12`: the running sum
/// over all outcomes lies between `SUM_LOW` and `SUM_HIGH`.
pub proof fn total_mass_is_one(c: &Categorical)
    requires
        c.wf(),
    ensures
        SUM_LOW <= c.sums()[c.masses().len() - 1] <= SUM_HIGH,
{
}

/// The cumulative mass never falls as the cut point grows, as long as no
/// running sum before the last outcome is above one.
pub proof fn cdf_is_monotone(c: &Categorical, x1: int, x2: int)
    requires
        c.wf(),
        0 <= x1 <= x2,
        forall|i: int| 0 <= i < c.sums().len() - 1 ==> c.sums()[i] <= ONE,
    ensures
        cdf_of(c.sums(), x1) <= cdf_of(c.sums(), x2),
{
}

/// The quantile of the cumulative mass at an outcome is never past that
/// outcome, provided that cumulative mass is above zero.
pub proof fn quantile_of_cdf_not_past(c: &Categorical, i: int, r: int)
    requires
        c.wf(),
        0 <= i < c.masses().len(),
        cdf_of(c.sums(), i) > 0,
        is_quantile(c.masses(), c.sums(), cdf_of(c.sums(), i), r),
    ensures
        r <= i,
{
    if r > i && i < c.sums().len() - 1 {
        assert(reaches(c.sums(), i, cdf_of(c.sums(), i)));
    }
}

/// A probability above the cumulative mass at outcome `i`, and no higher than
/// that at `i + 1`, has the quantile `i + 1`.
pub proof fn quantile_just_above_cdf(c: &Categorical, i: int, q: u64, r: int)
    requires
        c.wf(),
        0 <= i,
        i + 1 < c.masses().len(),
        cdf_of(c.sums(), i) < q <= cdf_of(c.sums(), i + 1),
        is_probability(q),
        is_quantile(c.masses(), c.sums(), q, r),
    ensures
        r == i + 1,
{
    let s = c.sums();
    assert forall|j: int| 0 <= j <= i implies !reaches(s, j, q) by {
        assert(s[j] <= s[i]);
    }
    if i + 1 < s.len() - 1 {
        assert(reaches(s, i + 1, q));
    }
}

} // verus!
