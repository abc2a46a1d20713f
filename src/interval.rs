use vstd::prelude::*;

verus! {

/// A closed range `[min, max]` of integers. The extreme values of `i64` stand
/// for the infinities: `empty()` is `(+inf, -inf)` and `universe()` is
/// `(-inf, +inf)`, which makes `empty()` the identity of `intersect`.
#[derive(Clone, Copy, Debug, PartialEq, Eq, Structural)]
pub struct Interval {
    pub min: i64,
    pub max: i64,
}

pub open spec fn min_of(a: i64, b: i64) -> i64 {
    if a <= b {
        a
    } else {
        b
    }
}

pub open spec fn max_of(a: i64, b: i64) -> i64 {
    if a >= b {
        a
    } else {
        b
    }
}

impl Interval {
    /// The smallest interval that holds both `a` and `b`.
    pub open spec fn hull(a: Interval, b: Interval) -> Interval {
        Interval { min: min_of(a.min, b.min), max: max_of(a.max, b.max) }
    }

    /// Both ends lie within `[-lim, lim]`.
    pub open spec fn within(self, lim: i64) -> bool {
        -lim <= self.min <= self.max <= lim
    }

    /// The unbounded interval, as `universe()`.
    pub fn new() -> (r: Interval)
        ensures
            r.min == i64::MIN,
            r.max == i64::MAX,
    {
        Interval { min: i64::MIN, max: i64::MAX }
    }

    pub fn set(min: i64, max: i64) -> (r: Interval)
        ensures
            r.min == min,
            r.max == max,
    {
        Interval { min, max }
    }

    pub fn size(&self) -> (r: i128)
        ensures
            r == self.max - self.min,
    {
        self.max as i128 - self.min as i128
    }

    /// Inclusive membership.
    pub fn contains(&self, x: i64) -> (r: bool)
        ensures
            r == (self.min <= x && x <= self.max),
    {
        x >= self.min && x <= self.max
    }

    /// Exclusive membership.
    pub fn surrounds(&self, x: i64) -> (r: bool)
        ensures
            r == (self.min < x && x < self.max),
    {
        x > self.min && x < self.max
    }

    pub fn min(&self) -> (r: i64)
        ensures
            r == self.min,
    {
        self.min
    }

    pub fn max(&self) -> (r: i64)
        ensures
            r == self.max,
    {
        self.max
    }

    pub fn empty() -> (r: Interval)
        ensures
            r.min == i64::MAX,
            r.max == i64::MIN,
    {
        Interval { min: i64::MAX, max: i64::MIN }
    }

    pub fn universe() -> (r: Interval)
        ensures
            r.min == i64::MIN,
            r.max == i64::MAX,
    {
        Interval { min: i64::MIN, max: i64::MAX }
    }

    /// Widens the interval by `delta` in all, half of it on each side; an odd
    /// `delta` gives the odd unit to the upper end.
    pub fn expand(&self, delta: i64) -> (r: Interval)
        requires
            delta >= 0,
            self.min - delta / 2 >= i64::MIN,
            self.max + (delta - delta / 2) <= i64::MAX,
        ensures
            r.min == self.min - delta / 2,
            r.max == self.max + (delta - delta / 2),
            r.max - r.min == self.max - self.min + delta,
    {
        let half = delta / 2;
        Interval { min: self.min - half, max: self.max + (delta - half) }
    }

    /// The hull of the two intervals: the smallest interval that holds both.
    pub fn intersect(lhs: &Interval, rhs: &Interval) -> (r: Interval)
        ensures
            r == Interval::hull(*lhs, *rhs),
    {
        let min = if lhs.min <= rhs.min {
            lhs.min
        } else {
            rhs.min
        };
        let max = if lhs.max >= rhs.max {
            lhs.max
        } else {
            rhs.max
        };
        Interval { min, max }
    }

    /// Saturates `x` to `[min, max]`.
    pub fn clamp(&self, x: i64) -> (r: i64)
        ensures
            x < self.min ==> r == self.min,
            self.min <= x && x > self.max ==> r == self.max,
            self.min <= x && x <= self.max ==> r == x,
    {
        if x < self.min {
            self.min
        } else if x > self.max {
            self.max
        } else {
            x
        }
    }

    /// The interval moved by `offset`.
    pub fn add(self, offset: i64) -> (r: Interval)
        requires
            i64::MIN <= self.min + offset <= i64::MAX,
            i64::MIN <= self.max + offset <= i64::MAX,
        ensures
            r.min == self.min + offset,
            r.max == self.max + offset,
    {
        Interval { min: self.min + offset, max: self.max + offset }
    }
}

} // verus!
