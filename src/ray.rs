use vstd::prelude::*;
use crate::vec3::Vec3;

verus! {

/// The magnitude of a direction component, with 1 standing in for 0.
pub open spec fn mag(d: i64) -> int {
    if d > 0 {
        d as int
    } else if d < 0 {
        -d
    } else {
        1
    }
}

fn magnitude(d: i64) -> (m: i128)
    requires
        -65536 <= d <= 65536,
    ensures
        m == mag(d),
        1 <= m <= 65536,
{
    if d > 0 {
        d as i128
    } else if d < 0 {
        -(d as i128)
    } else {
        1
    }
}

/// The half-line `origin + t * direction`; the direction need not be a unit
/// vector.
#[derive(Clone, Copy, Debug, PartialEq, Eq, Structural)]
pub struct Ray {
    pub origin: Vec3,
    pub direction: Vec3,
}

impl Ray {
    pub open spec fn bounded(self) -> bool {
        self.origin.bounded() && self.direction.bounded()
    }

    /// The common denominator of all parameters along this ray: the product
    /// of the magnitudes of the nonzero direction components.
    pub open spec fn scale(self) -> int {
        mag(self.direction.x) * mag(self.direction.y) * mag(self.direction.z)
    }

    /// `scale` divided by the magnitude of component `axis` (or by 1 where
    /// that component is zero).
    pub open spec fn cofactor(self, axis: int) -> int {
        if axis == 0 {
            mag(self.direction.y) * mag(self.direction.z)
        } else if axis == 1 {
            mag(self.direction.x) * mag(self.direction.z)
        } else {
            mag(self.direction.x) * mag(self.direction.y)
        }
    }

    pub proof fn lemma_scale_positive(self)
        ensures
            self.scale() >= 1,
            self.cofactor(0) >= 1,
            self.cofactor(1) >= 1,
            self.cofactor(2) >= 1,
    {
        let (a, b, c) = (mag(self.direction.x), mag(self.direction.y), mag(self.direction.z));
        assert(a * b >= 1 && a * c >= 1 && b * c >= 1 && a * b * c >= 1) by (nonlinear_arith)
            requires
                a >= 1,
                b >= 1,
                c >= 1,
        ;
    }

    pub fn scale_of(&self) -> (s: i128)
        requires
            self.bounded(),
        ensures
            s == self.scale(),
            1 <= s <= 0x1_0000_0000_0000,
    {
        let (a, b, c) = (magnitude(self.direction.x), magnitude(self.direction.y), magnitude(self.direction.z));
        proof {
            assert(1 <= a * b <= 0x1_0000_0000) by (nonlinear_arith)
                requires
                    1 <= a <= 65536,
                    1 <= b <= 65536,
            ;
            assert(1 <= a * b * c <= 0x1_0000_0000_0000) by (nonlinear_arith)
                requires
                    1 <= a * b <= 0x1_0000_0000,
                    1 <= c <= 65536,
            ;
        }
        a * b * c
    }

    /// The whole parameter `t` over this ray's common denominator.
    pub fn scaled(&self, t: i64) -> (n: i128)
        requires
            self.bounded(),
        ensures
            n == t * self.scale(),
    {
        let s = self.scale_of();
        proof {
            assert(-0x1_0000_0000_0000_0000_0000_0000_0000 <= t * s <= 0x1_0000_0000_0000_0000_0000_0000_0000)
                by (nonlinear_arith)
                requires
                    1 <= s <= 0x1_0000_0000_0000,
                    i64::MIN <= t <= i64::MAX,
            ;
        }
        t as i128 * s
    }

    pub fn cofactor_of(&self, axis: usize) -> (c: i128)
        requires
            self.bounded(),
        ensures
            c == self.cofactor(axis as int),
            1 <= c <= 0x1_0000_0000,
    {
        let (a, b) = if axis == 0 {
            (magnitude(self.direction.y), magnitude(self.direction.z))
        } else if axis == 1 {
            (magnitude(self.direction.x), magnitude(self.direction.z))
        } else {
            (magnitude(self.direction.x), magnitude(self.direction.y))
        };
        proof {
            assert(1 <= a * b <= 0x1_0000_0000) by (nonlinear_arith)
                requires
                    1 <= a <= 65536,
                    1 <= b <= 65536,
            ;
        }
        a * b
    }

    pub fn new(origin: Vec3, direction: Vec3) -> (r: Ray)
        ensures
            r.origin == origin,
            r.direction == direction,
    {
        Ray { origin, direction }
    }

    /// The point `origin + t * direction`, for a whole parameter `t`.
    pub fn at(&self, t: i64) -> (p: Vec3)
        requires
            self.bounded(),
            -0x1000_0000_0000 <= t <= 0x1000_0000_0000,
        ensures
            p.x == self.origin.x + t * self.direction.x,
            p.y == self.origin.y + t * self.direction.y,
            p.z == self.origin.z + t * self.direction.z,
    {
        proof {
            let (dx, dy, dz) = (self.direction.x as int, self.direction.y as int, self.direction.z as int);
            assert(-0x1000_0000_0000_0000 <= t * dx <= 0x1000_0000_0000_0000) by (nonlinear_arith)
                requires
                    -0x1000_0000_0000 <= t <= 0x1000_0000_0000,
                    -65536 <= dx <= 65536,
            ;
            assert(-0x1000_0000_0000_0000 <= t * dy <= 0x1000_0000_0000_0000) by (nonlinear_arith)
                requires
                    -0x1000_0000_0000 <= t <= 0x1000_0000_0000,
                    -65536 <= dy <= 65536,
            ;
            assert(-0x1000_0000_0000_0000 <= t * dz <= 0x1000_0000_0000_0000) by (nonlinear_arith)
                requires
                    -0x1000_0000_0000 <= t <= 0x1000_0000_0000,
                    -65536 <= dz <= 65536,
            ;
        }
        Vec3 {
            x: self.origin.x + t * self.direction.x,
            y: self.origin.y + t * self.direction.y,
            z: self.origin.z + t * self.direction.z,
        }
    }
}

} // verus!
