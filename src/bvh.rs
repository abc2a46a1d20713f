use vstd::prelude::*;
use vstd::seq_lib::{to_multiset_build, to_multiset_insert, to_multiset_contains, to_multiset_len};
use crate::aabb::Aabb;
use crate::hittable::{Cuboid, HitRecord, nearest, first_at, lemma_hit_in_range, lemma_hit_other_bound, lemma_hit_inside_box};
use crate::hittable_list::HittableList;
use crate::interval::Interval;
use crate::ray::Ray;

verus! {

/// One child of a hierarchy node: a primitive, or a subtree.
pub enum BvhChild {
    Object(Cuboid),
    Node(Box<BvhNode>),
}

/// A node of a bounding volume hierarchy. A node built over one primitive
/// holds it on both sides.
pub struct BvhNode {
    pub left: BvhChild,
    pub right: BvhChild,
    pub bbox: Aabb,
}

/// The minimum of a primitive's box on `axis`, the key the build sorts by.
pub open spec fn key(c: Cuboid, axis: int) -> i64 {
    c.bbox.axis(axis).min
}

/// Every primitive of `s` lies in `b`.
pub open spec fn holds_all(b: Aabb, s: Seq<Cuboid>) -> bool {
    forall|c: Cuboid| #[trigger] s.contains(c) ==> c.bbox.inside(b)
}

/// `b` is the smallest box that holds every primitive of `s`.
pub open spec fn is_hull(b: Aabb, s: Seq<Cuboid>) -> bool {
    &&& holds_all(b, s)
    &&& forall|o: Aabb| #[trigger] holds_all(o, s) ==> b.inside(o)
}

/// Every primitive below the left child starts no later on `axis` than every
/// primitive below the right child.
pub open spec fn split_ordered(n: BvhNode, axis: int) -> bool {
    forall|a: Cuboid, b: Cuboid| #[trigger] n.left.leaves().contains(a) && #[trigger] n.right.leaves().contains(b)
        ==> key(a, axis) <= key(b, axis)
}

/// Two smallest boxes of the same primitives are the same box.
proof fn lemma_hull_unique(a: Aabb, b: Aabb, s: Seq<Cuboid>)
    requires
        is_hull(a, s),
        is_hull(b, s),
    ensures
        a == b,
{
    assert(a.inside(b));
    assert(b.inside(a));
    assert(a.x == b.x && a.y == b.y && a.z == b.z);
}

/// `a` and `b` hold the same primitives, each any number of times.
pub open spec fn same_contents(a: Seq<Cuboid>, b: Seq<Cuboid>) -> bool {
    forall|c: Cuboid| #[trigger] a.contains(c) <==> #[trigger] b.contains(c)
}

impl BvhChild {
    /// The primitives below this child, left to right.
    pub open spec fn leaves(self) -> Seq<Cuboid>
        decreases self,
    {
        match self {
            BvhChild::Object(o) => seq![o],
            BvhChild::Node(n) => n.left.leaves() + n.right.leaves(),
        }
    }

    pub open spec fn box_of(self) -> Aabb {
        match self {
            BvhChild::Object(o) => o.bbox,
            BvhChild::Node(n) => n.bbox,
        }
    }

    /// Every box is bounded and holds the boxes below it.
    pub open spec fn wf(self) -> bool
        decreases self,
    {
        match self {
            BvhChild::Object(o) => o.wf(),
            BvhChild::Node(n) => {
                &&& n.bbox.bounded()
                &&& n.left.box_of().inside(n.bbox)
                &&& n.right.box_of().inside(n.bbox)
                &&& n.left.wf()
                &&& n.right.wf()
            },
        }
    }

    /// Every primitive below a well-formed child lies in the child's box.
    pub proof fn lemma_leaves_inside(self)
        requires
            self.wf(),
        ensures
            forall|c: Cuboid| #[trigger] self.leaves().contains(c) ==> c.bbox.inside(self.box_of()) && c.wf(),
        decreases self,
    {
        match self {
            BvhChild::Object(o) => {
                assert forall|c: Cuboid| self.leaves().contains(c) implies c.bbox.inside(self.box_of()) && c.wf() by {
                    let i = choose|i: int| 0 <= i < self.leaves().len() && self.leaves()[i] == c;
                    assert(i == 0);
                    assert(self.leaves()[0] == o);
                }
            },
            BvhChild::Node(n) => {
                n.left.lemma_leaves_inside();
                n.right.lemma_leaves_inside();
                lemma_concat_contains(n.left.leaves(), n.right.leaves());
            },
        }
    }

    /// The nearest hit among the primitives below this child.
    pub fn hit_scaled(&self, r: &Ray, lo: i128, hi: i128) -> (res: Option<HitRecord>)
        requires
            self.wf(),
            r.bounded(),
        ensures
            nearest(self.leaves(), *r, lo as int, hi as int, res),
        decreases self,
    {
        match self {
            BvhChild::Object(o) => {
                let res = o.hit(r, lo, hi);
                proof {
                    assert(self.leaves()[0] == *o);
                    assert(self.leaves().contains(*o));
                }
                res
            },
            BvhChild::Node(n) => n.hit_scaled(r, lo, hi),
        }
    }
}

/// The nearest hit over `ls + rs`: the right part's nearest hit below the
/// left part's, if there is one, else the left part's.
pub proof fn lemma_join_nearest(
    ls: Seq<Cuboid>,
    rs: Seq<Cuboid>,
    r: Ray,
    l: int,
    h0: int,
    left: Option<HitRecord>,
    right: Option<HitRecord>,
)
    requires
        nearest(ls, r, l, h0, left),
        nearest(rs, r, l, match left { Some(h) => h.t as int, None => h0 }, right),
    ensures
        nearest(ls + rs, r, l, h0, match right { Some(h) => Some(h), None => left }),
{
    let u = match left { Some(h) => h.t as int, None => h0 };
    let all = ls + rs;
    lemma_concat_contains(ls, rs);
    if let Some(hl) = left {
        let c = choose|c: Cuboid| ls.contains(c) && #[trigger] c.hit_spec(r, l, h0) == Some(hl.view());
        lemma_hit_in_range(c, r, l, h0);
    }
    assert forall|c: Cuboid| rs.contains(c) && (#[trigger] c.hit_spec(r, l, h0)) is Some
        && c.hit_spec(r, l, h0).unwrap().0 < u implies c.hit_spec(r, l, u) == c.hit_spec(r, l, h0) by {
        lemma_hit_other_bound(c, r, l, h0, u);
    }
    if let Some(h) = right {
        let k = choose|k: int| 0 <= k < rs.len() && #[trigger] rs[k].hit_spec(r, l, u) == Some(h.view())
            && first_at(rs, r, l, u, k, h.t as int);
        let c = rs[k];
        assert(rs.contains(c));
        lemma_hit_in_range(c, r, l, u);
        lemma_hit_other_bound(c, r, l, u, h0);
        assert(all[ls.len() + k] == c);
        assert forall|j: int| 0 <= j < ls.len() + k implies (#[trigger] all[j].hit_spec(r, l, h0) is None
            || h.t < all[j].hit_spec(r, l, h0).unwrap().0) by {
            if j < ls.len() {
                assert(ls.contains(ls[j]));
                assert(all[j] == ls[j]);
            } else {
                let m = j - ls.len();
                assert(all[j] == rs[m]);
                assert(rs.contains(rs[m]));
                if rs[m].hit_spec(r, l, h0) is Some && rs[m].hit_spec(r, l, h0).unwrap().0 < u {
                    lemma_hit_other_bound(rs[m], r, l, h0, u);
                }
            }
        }
        assert(first_at(all, r, l, h0, ls.len() + k, h.t as int));
        assert(all[ls.len() + k].hit_spec(r, l, h0) == Some(h.view()));
        assert forall|d: Cuboid| all.contains(d) && (#[trigger] d.hit_spec(r, l, h0)) is Some
            implies h.t <= d.hit_spec(r, l, h0).unwrap().0 by {
            if rs.contains(d) && d.hit_spec(r, l, h0).unwrap().0 < u {
                lemma_hit_other_bound(d, r, l, h0, u);
            }
        }
    } else if let Some(h) = left {
        let k = choose|k: int| 0 <= k < ls.len() && #[trigger] ls[k].hit_spec(r, l, h0) == Some(h.view())
            && first_at(ls, r, l, h0, k, h.t as int);
        assert(all[k] == ls[k]);
        assert forall|j: int| 0 <= j < k implies (#[trigger] all[j].hit_spec(r, l, h0) is None
            || h.t < all[j].hit_spec(r, l, h0).unwrap().0) by {
            assert(all[j] == ls[j]);
        }
        assert(first_at(all, r, l, h0, k, h.t as int));
        assert forall|d: Cuboid| all.contains(d) && (#[trigger] d.hit_spec(r, l, h0)) is Some
            implies h.t <= d.hit_spec(r, l, h0).unwrap().0 by {
            if rs.contains(d) && d.hit_spec(r, l, h0).unwrap().0 < u {
                lemma_hit_other_bound(d, r, l, h0, u);
            }
        }
    }
}

/// Membership in a concatenation is membership in one of its parts.
pub proof fn lemma_concat_contains(a: Seq<Cuboid>, b: Seq<Cuboid>)
    ensures
        forall|c: Cuboid| #[trigger] (a + b).contains(c) <==> a.contains(c) || b.contains(c),
{
    assert forall|c: Cuboid| #[trigger] (a + b).contains(c) <==> a.contains(c) || b.contains(c) by {
        if (a + b).contains(c) {
            let i = choose|i: int| 0 <= i < (a + b).len() && (a + b)[i] == c;
            if i >= a.len() {
                assert(b[i - a.len()] == c);
            }
        }
        if a.contains(c) {
            let i = choose|i: int| 0 <= i < a.len() && a[i] == c;
            assert((a + b)[i] == c);
        }
        if b.contains(c) {
            let i = choose|i: int| 0 <= i < b.len() && b[i] == c;
            assert((a + b)[a.len() + i] == c);
        }
    }
}

impl BvhNode {
    pub open spec fn leaves(self) -> Seq<Cuboid> {
        self.left.leaves() + self.right.leaves()
    }

    pub open spec fn wf(self) -> bool {
        &&& self.bbox.bounded()
        &&& self.left.box_of().inside(self.bbox)
        &&& self.right.box_of().inside(self.bbox)
        &&& self.left.wf()
        &&& self.right.wf()
    }

    pub fn bounding_box(&self) -> (b: Aabb)
        ensures
            b == self.bbox,
    {
        self.bbox
    }

    /// The nearest hit on the open range `(ray_t.min, ray_t.max)` of whole
    /// parameters.
    pub fn hit(&self, r: &Ray, ray_t: Interval) -> (res: Option<HitRecord>)
        requires
            self.wf(),
            r.bounded(),
        ensures
            nearest(self.leaves(), *r, ray_t.min * r.scale(), ray_t.max * r.scale(), res),
    {
        self.hit_scaled(r, r.scaled(ray_t.min), r.scaled(ray_t.max))
    }

    /// The nearest hit on the open range `(lo, hi)` of scaled parameters.
    /// A ray that misses the node's box is rejected at once; the right
    /// subtree is searched only below the left subtree's hit.
    pub fn hit_scaled(&self, r: &Ray, lo: i128, hi: i128) -> (res: Option<HitRecord>)
        requires
            self.wf(),
            r.bounded(),
        ensures
            nearest(self.leaves(), *r, lo as int, hi as int, res),
        decreases self,
    {
        let ghost (ls, rs) = (self.left.leaves(), self.right.leaves());
        proof {
            lemma_concat_contains(ls, rs);
            self.left.lemma_leaves_inside();
            self.right.lemma_leaves_inside();
        }
        if !self.bbox.hit_between(r, lo, hi) {
            proof {
                assert forall|c: Cuboid| self.leaves().contains(c) implies (#[trigger] c.hit_spec(*r, lo as int, hi as int)) is None by {
                    if ls.contains(c) {
                        assert(c.bbox.inside(self.left.box_of()));
                    } else {
                        assert(c.bbox.inside(self.right.box_of()));
                    }
                    if c.hit_spec(*r, lo as int, hi as int) is Some {
                        lemma_hit_inside_box(c, self.bbox, *r, lo as int, hi as int);
                    }
                }
            }
            return None;
        }
        let left_hit = self.left.hit_scaled(r, lo, hi);
        let upper = match left_hit {
            Some(h) => h.t,
            None => hi,
        };
        let right_hit = self.right.hit_scaled(r, lo, upper);
        proof {
            lemma_join_nearest(ls, rs, *r, lo as int, hi as int, left_hit, right_hit);
        }
        match right_hit {
            Some(h) => Some(h),
            None => left_hit,
        }
    }
}

impl BvhNode {
    /// Builds the hierarchy over `objects[start..end]`: one primitive makes a
    /// node with the primitive on both sides, two make a node with one on
    /// each side in their order, and more are sorted by the minimum of their
    /// boxes along the longest axis of their joint box and split in half.
    pub fn new(objects: &Vec<Cuboid>, start: usize, end: usize) -> (r: BvhNode)
        requires
            start < end <= objects@.len(),
            forall|i: int| 0 <= i < objects@.len() ==> (#[trigger] objects@[i]).wf(),
        ensures
            r.wf(),
            same_contents(r.leaves(), objects@.subrange(start as int, end as int)),
            is_hull(r.bbox, objects@.subrange(start as int, end as int)),
            end - start == 1 ==> r.left == BvhChild::Object(objects@[start as int])
                && r.right == BvhChild::Object(objects@[start as int]),
            end - start == 2 ==> r.left == BvhChild::Object(objects@[start as int])
                && r.right == BvhChild::Object(objects@[start + 1]),
            end - start > 2 ==> r.left is Node && r.right is Node && split_ordered(r, r.bbox.longest()),
        decreases end - start,
    {
        let ghost sub = objects@.subrange(start as int, end as int);
        let mut joint = Aabb::new(Interval::empty(), Interval::empty(), Interval::empty());
        let mut i: usize = start;
        while i < end
            invariant
                start <= i <= end <= objects@.len(),
                is_hull(joint, objects@.subrange(start as int, i as int)),
            decreases end - i,
        {
            let ghost prev = objects@.subrange(start as int, i as int);
            let o = objects[i];
            joint = Aabb::surrounding_box(joint, o.bounding_box());
            proof {
                let next = objects@.subrange(start as int, i as int + 1);
                assert(next =~= prev.push(o));
                assert forall|c: Cuboid| #[trigger] next.contains(c) implies prev.contains(c) || c == o by {
                    let k = choose|k: int| 0 <= k < next.len() && next[k] == c;
                    if k < prev.len() {
                        assert(prev[k] == c);
                    }
                }
                assert(next[prev.len() as int] == o);
                assert forall|c: Cuboid| #[trigger] prev.contains(c) implies next.contains(c) by {
                    let k = choose|k: int| 0 <= k < prev.len() && prev[k] == c;
                    assert(next[k] == c);
                }
                assert forall|b: Aabb| #[trigger] holds_all(b, next) implies joint.inside(b) by {
                    assert(holds_all(b, prev));
                    assert(next.contains(o));
                }
            }
            i = i + 1;
        }
        let axis = joint.longest_axis() as usize;
        let span = end - start;
        if span == 1 {
            let o = objects[start];
            proof {
                assert(sub[0] == o);
                assert forall|c: Cuboid| #[trigger] sub.contains(c) implies c == o by {
                    let k = choose|k: int| 0 <= k < sub.len() && sub[k] == c;
                }
                let lv = seq![o] + seq![o];
                assert(lv[0] == o);
                assert forall|c: Cuboid| #[trigger] lv.contains(c) implies c == o by {
                    let k = choose|k: int| 0 <= k < lv.len() && lv[k] == c;
                }
                assert forall|b: Aabb| #[trigger] holds_all(b, sub) implies o.bbox.inside(b) by {
                    assert(sub.contains(o));
                }
            }
            BvhNode { left: BvhChild::Object(o), right: BvhChild::Object(o), bbox: o.bounding_box() }
        } else if span == 2 {
            let a = objects[start];
            let b = objects[start + 1];
            let bbox = Aabb::surrounding_box(a.bounding_box(), b.bounding_box());
            proof {
                assert(sub[0] == a && sub[1] == b);
                assert forall|c: Cuboid| #[trigger] sub.contains(c) implies c == a || c == b by {
                    let k = choose|k: int| 0 <= k < sub.len() && sub[k] == c;
                }
                let lv = seq![a] + seq![b];
                assert(lv[0] == a && lv[1] == b);
                assert forall|c: Cuboid| #[trigger] lv.contains(c) implies c == a || c == b by {
                    let k = choose|k: int| 0 <= k < lv.len() && lv[k] == c;
                }
                assert forall|o: Aabb| #[trigger] holds_all(o, sub) implies bbox.inside(o) by {
                    assert(sub.contains(a));
                    assert(sub.contains(b));
                }
            }
            BvhNode { left: BvhChild::Object(a), right: BvhChild::Object(b), bbox }
        } else {
            let mut part: Vec<Cuboid> = Vec::new();
            let mut k: usize = start;
            while k < end
                invariant
                    start <= k <= end <= objects@.len(),
                    part@ == objects@.subrange(start as int, k as int),
                decreases end - k,
            {
                part.push(objects[k]);
                proof {
                    assert(part@ =~= objects@.subrange(start as int, k as int + 1));
                }
                k = k + 1;
            }
            let sorted = sort_by_axis(&part, axis);
            let mid = span / 2;
            proof {
                to_multiset_len(sorted@);
                to_multiset_len(part@);
                assert forall|c: Cuboid| #[trigger] sorted@.contains(c) <==> sub.contains(c) by {
                    to_multiset_contains(sorted@, c);
                    to_multiset_contains(sub, c);
                }
                assert forall|j: int| 0 <= j < sorted@.len() implies (#[trigger] sorted@[j]).wf() by {
                    assert(sorted@.contains(sorted@[j]));
                    let m = choose|m: int| 0 <= m < sub.len() && sub[m] == sorted@[j];
                    assert(objects@[start + m] == sub[m]);
                }
            }
            let left = BvhNode::new(&sorted, 0, mid);
            let right = BvhNode::new(&sorted, mid, span);
            let bbox = Aabb::surrounding_box(left.bbox, right.bbox);
            let ghost (ls, rs) = (sorted@.subrange(0, mid as int), sorted@.subrange(mid as int, span as int));
            let node = BvhNode { left: BvhChild::Node(Box::new(left)), right: BvhChild::Node(Box::new(right)), bbox };
            proof {
                assert(ls + rs =~= sorted@);
                lemma_concat_contains(ls, rs);
                lemma_concat_contains(left.leaves(), right.leaves());
                assert(node.leaves() == left.leaves() + right.leaves());
                assert forall|c: Cuboid| #[trigger] node.leaves().contains(c) <==> #[trigger] sub.contains(c) by {
                    assert((ls + rs).contains(c) == sorted@.contains(c));
                }
                assert forall|o: Aabb| #[trigger] holds_all(o, sub) implies bbox.inside(o) by {
                    assert forall|c: Cuboid| #[trigger] ls.contains(c) implies c.bbox.inside(o) by {
                        assert((ls + rs).contains(c));
                        assert(sorted@.contains(c));
                        assert(sub.contains(c));
                    }
                    assert forall|c: Cuboid| #[trigger] rs.contains(c) implies c.bbox.inside(o) by {
                        assert((ls + rs).contains(c));
                        assert(sorted@.contains(c));
                        assert(sub.contains(c));
                    }
                    assert(holds_all(o, ls));
                    assert(holds_all(o, rs));
                }
                assert forall|c: Cuboid| #[trigger] sub.contains(c) implies c.bbox.inside(bbox) by {
                    assert(sorted@.contains(c));
                    assert((ls + rs).contains(c));
                    if ls.contains(c) {
                        assert(holds_all(left.bbox, ls));
                    } else {
                        assert(holds_all(right.bbox, rs));
                    }
                }
                assert(is_hull(bbox, sub));
                lemma_hull_unique(joint, bbox, sub);
                assert forall|p: Cuboid, q: Cuboid| #[trigger] node.left.leaves().contains(p)
                    && #[trigger] node.right.leaves().contains(q) implies key(p, axis as int) <= key(q, axis as int) by {
                    assert(ls.contains(p));
                    assert(rs.contains(q));
                    let i = choose|i: int| 0 <= i < ls.len() && ls[i] == p;
                    let j = choose|j: int| 0 <= j < rs.len() && rs[j] == q;
                    assert(sorted@[i] == p);
                    assert(sorted@[mid as int + j] == q);
                }
            }
            node
        }
    }

    /// Builds the hierarchy over all primitives of a nonempty list.
    pub fn set(list: HittableList) -> (r: BvhNode)
        requires
            list.wf(),
            list.objects@.len() > 0,
        ensures
            r.wf(),
            same_contents(r.leaves(), list.objects@),
            is_hull(r.bbox, list.objects@),
    {
        let objects = list.objects;
        let size = objects.len();
        proof {
            assert(objects@.subrange(0, size as int) =~= objects@);
        }
        BvhNode::new(&objects, 0, size)
    }
}

/// A hierarchy over the same primitives as a list reports the same nearest
/// hit parameter as a scan of the list, or no hit exactly when the scan finds
/// none.
pub proof fn lemma_bvh_matches_scan(
    node: BvhNode,
    list: HittableList,
    r: Ray,
    lo: int,
    hi: int,
    from_bvh: Option<HitRecord>,
    from_list: Option<HitRecord>,
)
    requires
        same_contents(node.leaves(), list.objects@),
        nearest(node.leaves(), r, lo, hi, from_bvh),
        nearest(list.objects@, r, lo, hi, from_list),
    ensures
        from_bvh is None <==> from_list is None,
        from_bvh matches Some(a) ==> from_list matches Some(b) && a.t == b.t,
{
    let (ls, os) = (node.leaves(), list.objects@);
    if let Some(a) = from_bvh {
        let c = choose|c: Cuboid| ls.contains(c) && #[trigger] c.hit_spec(r, lo, hi) == Some(a.view());
        assert(os.contains(c));
        if let Some(b) = from_list {
            let d = choose|d: Cuboid| os.contains(d) && #[trigger] d.hit_spec(r, lo, hi) == Some(b.view());
            assert(ls.contains(d));
        }
    }
    if let Some(b) = from_list {
        let d = choose|d: Cuboid| os.contains(d) && #[trigger] d.hit_spec(r, lo, hi) == Some(b.view());
        assert(ls.contains(d));
    }
}

impl BvhNode {
    /// `a` starts before `b` on `axis` (0, 1, 2); false on any other axis.
    pub fn box_compare(a: &Cuboid, b: &Cuboid, axis: usize) -> (r: bool)
        ensures
            r == (axis < 3 && key(*a, axis as int) < key(*b, axis as int)),
    {
        let box_a = a.bounding_box();
        let box_b = b.bounding_box();
        match axis {
            0 => box_a.x.min < box_b.x.min,
            1 => box_a.y.min < box_b.y.min,
            2 => box_a.z.min < box_b.z.min,
            _ => false,
        }
    }

    pub fn box_x_compare(a: &Cuboid, b: &Cuboid) -> (r: bool)
        ensures
            r == (key(*a, 0) < key(*b, 0)),
    {
        BvhNode::box_compare(a, b, 0)
    }

    pub fn box_y_compare(a: &Cuboid, b: &Cuboid) -> (r: bool)
        ensures
            r == (key(*a, 1) < key(*b, 1)),
    {
        BvhNode::box_compare(a, b, 1)
    }

    pub fn box_z_compare(a: &Cuboid, b: &Cuboid) -> (r: bool)
        ensures
            r == (key(*a, 2) < key(*b, 2)),
    {
        BvhNode::box_compare(a, b, 2)
    }
}

/// A stable sort of the primitives by the minimum of their boxes on `axis`
/// (0, 1, 2).
pub fn sort_by_axis(v: &Vec<Cuboid>, axis: usize) -> (s: Vec<Cuboid>)
    requires
        axis < 3,
    ensures
        s@.to_multiset() == v@.to_multiset(),
        forall|i: int, j: int| 0 <= i < j < s@.len() ==> key(#[trigger] s@[i], axis as int) <= key(#[trigger] s@[j], axis as int),
{
    let mut s: Vec<Cuboid> = Vec::new();
    let mut i: usize = 0;
    proof {
        assert(v@.take(0) =~= s@);
    }
    while i < v.len()
        invariant
            0 <= i <= v@.len(),
            axis < 3,
            s@.to_multiset() == v@.take(i as int).to_multiset(),
            forall|a: int, b: int| 0 <= a < b < s@.len() ==> key(#[trigger] s@[a], axis as int) <= key(#[trigger] s@[b], axis as int),
        decreases v@.len() - i,
    {
        let x = v[i];
        let ghost k = key(x, axis as int);
        let mut p: usize = 0;
        while p < s.len() && !BvhNode::box_compare(&x, &s[p], axis)
            invariant
                0 <= p <= s@.len(),
                axis < 3,
                k == key(x, axis as int),
                forall|a: int| 0 <= a < p ==> key(#[trigger] s@[a], axis as int) <= k,
            decreases s@.len() - p,
        {
            p = p + 1;
        }
        let ghost old_s = s@;
        s.insert(p, x);
        proof {
            to_multiset_insert(old_s, p as int, x);
            to_multiset_build(v@.take(i as int), x);
            assert(v@.take(i as int + 1) =~= v@.take(i as int).push(x));
            assert forall|a: int, b: int| 0 <= a < b < s@.len() implies key(#[trigger] s@[a], axis as int) <= key(#[trigger] s@[b], axis as int) by {
                if b == p as int {
                    assert(s@[a] == old_s[a]);
                } else if a == p as int {
                    assert(s@[b] == old_s[b - 1]);
                    if p < old_s.len() {
                        assert(key(old_s[p as int], axis as int) > k);
                        if b - 1 > p {
                            assert(key(old_s[p as int], axis as int) <= key(old_s[b - 1], axis as int));
                        }
                    }
                } else if a < p {
                    if b < p {
                    } else {
                        assert(s@[b] == old_s[b - 1]);
                        assert(key(old_s[a], axis as int) <= key(old_s[b - 1], axis as int));
                    }
                } else {
                    assert(s@[a] == old_s[a - 1]);
                    assert(s@[b] == old_s[b - 1]);
                    assert(key(old_s[a - 1], axis as int) <= key(old_s[b - 1], axis as int));
                }
            }
        }
        i = i + 1;
    }
    proof {
        assert(v@.take(v@.len() as int) =~= v@);
    }
    s
}

} // verus!
