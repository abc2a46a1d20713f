use vstd::prelude::*;

verus! {

/// The largest magnitude a coordinate of the geometry may have.
pub const COORD_LIMIT: i64 = 65536;

/// A vector or point on the integer lattice.
#[derive(Clone, Copy, Debug, PartialEq, Eq, Structural)]
pub struct Vec3 {
    pub x: i64,
    pub y: i64,
    pub z: i64,
}

impl Vec3 {
    /// Every component lies within `[-COORD_LIMIT, COORD_LIMIT]`.
    pub open spec fn bounded(self) -> bool {
        &&& -COORD_LIMIT <= self.x <= COORD_LIMIT
        &&& -COORD_LIMIT <= self.y <= COORD_LIMIT
        &&& -COORD_LIMIT <= self.z <= COORD_LIMIT
    }

    /// Component `axis` (0 is x, 1 is y, anything else z).
    pub open spec fn comp(self, axis: int) -> i64 {
        if axis == 0 {
            self.x
        } else if axis == 1 {
            self.y
        } else {
            self.z
        }
    }

    /// Every component lies within `[-lim, lim]`.
    pub open spec fn within(self, lim: int) -> bool {
        &&& -lim <= self.x <= lim
        &&& -lim <= self.y <= lim
        &&& -lim <= self.z <= lim
    }

    pub open spec fn sum(self, o: Vec3) -> Vec3 {
        Vec3 { x: (self.x + o.x) as i64, y: (self.y + o.y) as i64, z: (self.z + o.z) as i64 }
    }

    pub fn new(x: i64, y: i64, z: i64) -> (r: Vec3)
        ensures
            r == (Vec3 { x, y, z }),
    {
        Vec3 { x, y, z }
    }

    /// The component-wise sum.
    pub fn plus(&self, o: &Vec3) -> (r: Vec3)
        requires
            self.within(0x4000_0000_0000_0000),
            o.within(0x3fff_ffff_ffff_ffff),
        ensures
            r == self.sum(*o),
            r.x == self.x + o.x,
            r.y == self.y + o.y,
            r.z == self.z + o.z,
    {
        Vec3 { x: self.x + o.x, y: self.y + o.y, z: self.z + o.z }
    }

    /// The vector pointing the other way.
    pub fn negated(&self) -> (r: Vec3)
        requires
            self.within(i64::MAX as int),
        ensures
            r.x == -self.x,
            r.y == -self.y,
            r.z == -self.z,
    {
        Vec3 { x: -self.x, y: -self.y, z: -self.z }
    }

    /// Component `axis` (0 is x, 1 is y, anything else z).
    pub fn get(&self, axis: usize) -> (r: i64)
        ensures
            r == self.comp(axis as int),
    {
        if axis == 0 {
            self.x
        } else if axis == 1 {
            self.y
        } else {
            self.z
        }
    }
}

} // verus!
