use vstd::prelude::*;
use crate::aabb::Aabb;
use crate::hittable::{Cuboid, HitRecord, nearest, first_at, lemma_hit_in_range, lemma_hit_other_bound};
use crate::interval::Interval;
use crate::ray::Ray;

verus! {

/// The bounding box of all primitives of `s`, none for an empty sequence.
pub open spec fn bbox_of(s: Seq<Cuboid>) -> Option<Aabb>
    decreases s.len(),
{
    if s.len() == 0 {
        None
    } else {
        match bbox_of(s.drop_last()) {
            None => Some(s.last().bbox),
            Some(b) => Some(Aabb::union(b, s.last().bbox)),
        }
    }
}

/// A flat collection of primitives with their joint bounding box.
pub struct HittableList {
    pub objects: Vec<Cuboid>,
    pub bbox: Option<Aabb>,
}

impl HittableList {
    pub open spec fn wf(&self) -> bool {
        &&& forall|i: int| 0 <= i < self.objects@.len() ==> (#[trigger] self.objects@[i]).wf()
        &&& self.bbox == bbox_of(self.objects@)
    }

    pub fn new() -> (l: HittableList)
        ensures
            l.wf(),
            l.objects@ == Seq::<Cuboid>::empty(),
            l.bbox is None,
    {
        HittableList { objects: Vec::new(), bbox: None }
    }

    /// A list that holds `object` alone.
    pub fn set(object: Cuboid) -> (l: HittableList)
        requires
            object.wf(),
        ensures
            l.wf(),
            l.objects@ == seq![object],
            l.bbox == Some(object.bbox),
    {
        let mut list = HittableList::new();
        list.add(object);
        proof {
            assert(list.objects@ =~= seq![object]);
            assert(seq![object].drop_last() =~= Seq::<Cuboid>::empty());
        }
        list
    }

    /// Appends `object` and grows the bounding box to hold it.
    pub fn add(&mut self, object: Cuboid)
        requires
            old(self).wf(),
            object.wf(),
        ensures
            final(self).wf(),
            final(self).objects@ == old(self).objects@.push(object),
            final(self).bbox == Some(match old(self).bbox {
                None => object.bbox,
                Some(b) => Aabb::union(b, object.bbox),
            }),
    {
        self.objects.push(object);
        let obj_bbox = object.bounding_box();
        self.bbox = match self.bbox {
            Some(current) => Some(Aabb::surrounding_box(current, obj_bbox)),
            None => Some(obj_bbox),
        };
        proof {
            assert(self.objects@.drop_last() =~= old(self).objects@);
        }
    }

    pub fn clear(&mut self)
        ensures
            final(self).wf(),
            final(self).objects@ == Seq::<Cuboid>::empty(),
            final(self).bbox is None,
    {
        self.objects.clear();
        self.bbox = None;
    }

    pub fn bounding_box(&self) -> (b: Option<Aabb>)
        ensures
            b == self.bbox,
    {
        self.bbox
    }

    /// The nearest hit on the open range `(ray_t.min, ray_t.max)` of whole
    /// parameters.
    pub fn hit(&self, r: &Ray, ray_t: Interval) -> (res: Option<HitRecord>)
        requires
            self.wf(),
            r.bounded(),
        ensures
            nearest(self.objects@, *r, ray_t.min * r.scale(), ray_t.max * r.scale(), res),
    {
        self.hit_scaled(r, r.scaled(ray_t.min), r.scaled(ray_t.max))
    }

    /// The nearest hit on the open range `(lo, hi)` of scaled parameters,
    /// found by scanning the primitives in order and narrowing the upper
    /// bound to each hit found.
    pub fn hit_scaled(&self, r: &Ray, lo: i128, hi: i128) -> (res: Option<HitRecord>)
        requires
            self.wf(),
            r.bounded(),
        ensures
            nearest(self.objects@, *r, lo as int, hi as int, res),
    {
        let ghost objs = self.objects@;
        let mut closest = hi;
        let mut res: Option<HitRecord> = None;
        let ghost mut idx: int = 0;
        let n = self.objects.len();
        let mut i: usize = 0;
        while i < n
            invariant
                0 <= i <= n,
                n == objs.len(),
                objs == self.objects@,
                self.wf(),
                r.bounded(),
                res is None ==> closest == hi,
                res is None ==> forall|j: int| 0 <= j < i ==> (#[trigger] objs[j].hit_spec(*r, lo as int, hi as int)) is None,
                res matches Some(h) ==> {
                    &&& closest == h.t
                    &&& h.den == r.scale()
                    &&& 0 <= idx < i
                    &&& objs[idx].hit_spec(*r, lo as int, hi as int) == Some(h.view())
                    &&& first_at(objs, *r, lo as int, hi as int, idx, h.t as int)
                    &&& forall|j: int| 0 <= j < i && (#[trigger] objs[j].hit_spec(*r, lo as int, hi as int)) is Some
                        ==> h.t <= objs[j].hit_spec(*r, lo as int, hi as int).unwrap().0
                },
            decreases n - i,
        {
            let obj = &self.objects[i];
            let found = obj.hit(r, lo, closest);
            proof {
                lemma_hit_in_range(*obj, *r, lo as int, closest as int);
                lemma_hit_in_range(*obj, *r, lo as int, hi as int);
                if res is Some && found is Some {
                    lemma_hit_in_range(*obj, *r, lo as int, closest as int);
                }
            }
            match found {
                Some(h) => {
                    proof {
                        lemma_hit_other_bound(*obj, *r, lo as int, closest as int, hi as int);
                    }
                    closest = h.t;
                    res = Some(h);
                    proof {
                        idx = i as int;
                    }
                },
                None => {
                    proof {
                        if obj.hit_spec(*r, lo as int, hi as int) is Some
                            && obj.hit_spec(*r, lo as int, hi as int).unwrap().0 < closest {
                            lemma_hit_other_bound(*obj, *r, lo as int, hi as int, closest as int);
                        }
                    }
                },
            }
            i = i + 1;
        }
        proof {
            if let Some(h) = res {
                assert(objs.contains(objs[idx]));
            }
        }
        res
    }
}

} // verus!
