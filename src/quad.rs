use vstd::prelude::*;
use crate::aabb::Aabb;
use crate::interval::{Interval, min_of, max_of};
use crate::vec3::{Vec3, COORD_LIMIT};

verus! {

/// A parallelogram: the corner `q` and the two edges `u` and `v` from it,
/// with the box spanned by its four corners.
#[derive(Clone, Copy, Debug, PartialEq, Eq, Structural)]
pub struct Quad {
    pub q: Vec3,
    pub u: Vec3,
    pub v: Vec3,
    pub bbox: Aabb,
}

/// The bounding box of all quads of `s`, none for an empty sequence.
pub open spec fn quads_box(s: Seq<Quad>) -> Option<Aabb>
    decreases s.len(),
{
    if s.len() == 0 {
        None
    } else {
        match quads_box(s.drop_last()) {
            None => Some(s.last().bbox),
            Some(b) => Some(Aabb::union(b, s.last().bbox)),
        }
    }
}

impl Quad {
    /// The quad with corner `q` and edges `u`, `v`, as `new` makes it.
    pub open spec fn spec_new(q: Vec3, u: Vec3, v: Vec3) -> Quad {
        Quad {
            q,
            u,
            v,
            bbox: Aabb::union(Aabb::spanned(q, q.sum(u).sum(v)), Aabb::spanned(q.sum(u), q.sum(v))),
        }
    }

    /// Every corner lies within the coordinate limit.
    pub open spec fn corners_bounded(q: Vec3, u: Vec3, v: Vec3) -> bool {
        &&& q.bounded()
        &&& u.within(2 * COORD_LIMIT)
        &&& v.within(2 * COORD_LIMIT)
        &&& q.sum(u).bounded()
        &&& q.sum(v).bounded()
        &&& q.sum(u).sum(v).bounded()
    }

    pub fn new(q: Vec3, u: Vec3, v: Vec3) -> (r: Quad)
        requires
            Quad::corners_bounded(q, u, v),
        ensures
            r == Quad::spec_new(q, u, v),
            r.bbox.bounded(),
    {
        let qu = q.plus(&u);
        let qv = q.plus(&v);
        let quv = qu.plus(&v);
        let bbox1 = Aabb::set(q, quv);
        let bbox2 = Aabb::set(qu, qv);
        let bbox = Aabb::surrounding_box(bbox1, bbox2);
        Quad { q, u, v, bbox }
    }

    pub fn bounding_box(&self) -> (b: Aabb)
        ensures
            b == self.bbox,
    {
        self.bbox
    }
}

/// The joint bounding box of a sequence of quads.
pub fn bounding_box_of(quads: &Vec<Quad>) -> (b: Option<Aabb>)
    ensures
        b == quads_box(quads@),
{
    let mut b: Option<Aabb> = None;
    let mut i: usize = 0;
    while i < quads.len()
        invariant
            0 <= i <= quads@.len(),
            b == quads_box(quads@.take(i as int)),
        decreases quads@.len() - i,
    {
        let qb = quads[i].bounding_box();
        b = match b {
            None => Some(qb),
            Some(cur) => Some(Aabb::surrounding_box(cur, qb)),
        };
        proof {
            assert(quads@.take(i as int + 1).drop_last() =~= quads@.take(i as int));
        }
        i = i + 1;
    }
    proof {
        assert(quads@.take(quads@.len() as int) =~= quads@);
    }
    b
}

/// The six faces of the box spanned by the opposite corners `a` and `b`,
/// given in any order: front, right, left, back, top, bottom.
#[verifier::rlimit(40)]
pub fn bx(a: Vec3, b: Vec3) -> (sides: Vec<Quad>)
    requires
        a.bounded(),
        b.bounded(),
    ensures
        sides@.len() == 6,
        quads_box(sides@) == Some(Aabb::spanned(a, b)),
        ({
            let lo = Vec3 { x: min_of(a.x, b.x), y: min_of(a.y, b.y), z: min_of(a.z, b.z) };
            let hi = Vec3 { x: max_of(a.x, b.x), y: max_of(a.y, b.y), z: max_of(a.z, b.z) };
            let dx = Vec3 { x: (hi.x - lo.x) as i64, y: 0, z: 0 };
            let dy = Vec3 { x: 0, y: (hi.y - lo.y) as i64, z: 0 };
            let dz = Vec3 { x: 0, y: 0, z: (hi.z - lo.z) as i64 };
            let ndx = Vec3 { x: (lo.x - hi.x) as i64, y: 0, z: 0 };
            let ndz = Vec3 { x: 0, y: 0, z: (lo.z - hi.z) as i64 };
            &&& sides@[0] == Quad::spec_new(Vec3 { x: lo.x, y: lo.y, z: hi.z }, dx, dy)
            &&& sides@[1] == Quad::spec_new(Vec3 { x: hi.x, y: lo.y, z: hi.z }, ndz, dy)
            &&& sides@[2] == Quad::spec_new(lo, dz, dy)
            &&& sides@[3] == Quad::spec_new(Vec3 { x: hi.x, y: lo.y, z: lo.z }, ndx, dy)
            &&& sides@[4] == Quad::spec_new(Vec3 { x: lo.x, y: hi.y, z: hi.z }, dx, ndz)
            &&& sides@[5] == Quad::spec_new(lo, dx, dz)
        }),
{
    let min = Vec3::new(
        if a.x <= b.x { a.x } else { b.x },
        if a.y <= b.y { a.y } else { b.y },
        if a.z <= b.z { a.z } else { b.z },
    );
    let max = Vec3::new(
        if a.x >= b.x { a.x } else { b.x },
        if a.y >= b.y { a.y } else { b.y },
        if a.z >= b.z { a.z } else { b.z },
    );
    let dx = Vec3::new(max.x - min.x, 0, 0);
    let dy = Vec3::new(0, max.y - min.y, 0);
    let dz = Vec3::new(0, 0, max.z - min.z);
    let mut sides: Vec<Quad> = Vec::new();
    sides.push(Quad::new(Vec3::new(min.x, min.y, max.z), dx, dy));
    sides.push(Quad::new(Vec3::new(max.x, min.y, max.z), dz.negated(), dy));
    sides.push(Quad::new(Vec3::new(min.x, min.y, min.z), dz, dy));
    sides.push(Quad::new(Vec3::new(max.x, min.y, min.z), dx.negated(), dy));
    sides.push(Quad::new(Vec3::new(min.x, max.y, max.z), dx, dz.negated()));
    sides.push(Quad::new(Vec3::new(min.x, min.y, min.z), dx, dz));
    proof {
        lemma_sides_box(sides@, Aabb::spanned(a, b));
    }
    sides
}

/// Six quads whose boxes are the faces of `full` (two opposite faces per
/// axis, in the order that `bx` makes them) are bounded by `full`.
proof fn lemma_sides_box(s: Seq<Quad>, full: Aabb)
    requires
        s.len() == 6,
        full.x.min <= full.x.max,
        full.y.min <= full.y.max,
        full.z.min <= full.z.max,
        s[0].bbox == (Aabb { z: Interval { min: full.z.max, max: full.z.max }, ..full }),
        s[1].bbox == (Aabb { x: Interval { min: full.x.max, max: full.x.max }, ..full }),
        s[2].bbox == (Aabb { x: Interval { min: full.x.min, max: full.x.min }, ..full }),
        s[3].bbox == (Aabb { z: Interval { min: full.z.min, max: full.z.min }, ..full }),
        s[4].bbox == (Aabb { y: Interval { min: full.y.max, max: full.y.max }, ..full }),
        s[5].bbox == (Aabb { y: Interval { min: full.y.min, max: full.y.min }, ..full }),
    ensures
        quads_box(s) == Some(full),
{
    let s1 = seq![s[0]];
    let s2 = s1.push(s[1]);
    let s3 = s2.push(s[2]);
    let s4 = s3.push(s[3]);
    let s5 = s4.push(s[4]);
    assert(s1.drop_last() =~= Seq::<Quad>::empty());
    assert(s2.drop_last() =~= s1);
    assert(s3.drop_last() =~= s2);
    assert(s4.drop_last() =~= s3);
    assert(s5.drop_last() =~= s4);
    assert(s.drop_last() =~= s5);
    assert(quads_box(Seq::<Quad>::empty()) == None::<Aabb>);
    assert(quads_box(s1) == Some(s[0].bbox));
    assert(quads_box(s2) == Some(full));
    assert(quads_box(s3) == Some(full));
    assert(quads_box(s4) == Some(full));
    assert(quads_box(s5) == Some(full));
}

/// The box that `bx` bounds does not depend on the order of its corners.
pub proof fn lemma_box_corners_any_order(a: Vec3, b: Vec3)
    ensures
        Aabb::spanned(a, b) == Aabb::spanned(b, a),
{
}

} // verus!
