//! A flat, unaccelerated collection of objects with a cached union
//! bounding box.

use vstd::prelude::*;

use std::sync::Arc;

use crate::aabb::{aabb_in_range, spec_aabb_union, AABB};
use crate::hittable::{
    lemma_wf_list_from_index, lemma_wf_list_index, spec_bounding_box, spec_list_scan,
    wf_hittable, wf_list_seq, HitRecord, HittableObject,
};
use crate::interval::Interval;
use crate::ray::Ray;
use crate::vec3::in_range;

verus! {

pub struct HittableList {
    pub objects: Vec<Arc<HittableObject>>,
    pub bbox: AABB,
}

impl HittableList {
    pub fn new() -> (r: HittableList)
        ensures
            r.objects@.len() == 0,
            wf_list_seq(r.objects@),
    {
        HittableList { objects: Vec::new(), bbox: AABB::default() }
    }

    /// A one-element list around an existing object.
    pub fn from(h: HittableObject) -> (r: HittableList)
        requires
            wf_hittable(h),
            aabb_in_range(spec_bounding_box(h)),
        ensures
            r.objects@.len() == 1,
            *r.objects@[0] == h,
            r.bbox == spec_bounding_box(h),
            wf_list_seq(r.objects@),
    {
        let bbox = h.bounding_box();
        let mut objects: Vec<Arc<HittableObject>> = Vec::new();
        objects.push(Arc::new(h));
        proof {
            lemma_wf_list_from_index(objects@);
        }
        HittableList { objects, bbox }
    }

    pub fn clear(&mut self)
        ensures
            final(self).objects@.len() == 0,
            final(self).bbox == old(self).bbox,
            wf_list_seq(final(self).objects@),
    {
        self.objects.clear()
    }

    /// Append a shared object; the cached box grows by its box.
    pub fn add_ref(&mut self, object: Arc<HittableObject>)
        requires
            wf_list_seq(old(self).objects@),
            wf_hittable(*object),
            aabb_in_range(spec_bounding_box(*object)),
        ensures
            final(self).objects@ == old(self).objects@.push(object),
            final(self).bbox == spec_aabb_union(old(self).bbox, spec_bounding_box(*object)),
            wf_list_seq(final(self).objects@),
    {
        let obbox = object.bounding_box();
        self.bbox = AABB::union(&self.bbox, &obbox);
        proof {
            lemma_wf_list_index(self.objects@);
        }
        self.objects.push(object);
        proof {
            assert forall|i: int|
                0 <= i < self.objects@.len() implies wf_hittable(*(#[trigger] self.objects@[i]))
                && aabb_in_range(spec_bounding_box(*self.objects@[i])) by {
                if i < self.objects@.len() - 1 {
                    assert(self.objects@[i] == old(self).objects@[i]);
                }
            }
            lemma_wf_list_from_index(self.objects@);
        }
    }

    pub fn add(&mut self, object: HittableObject)
        requires
            wf_list_seq(old(self).objects@),
            wf_hittable(object),
            aabb_in_range(spec_bounding_box(object)),
        ensures
            final(self).objects@.len() == old(self).objects@.len() + 1,
            *final(self).objects@[old(self).objects@.len() as int] == object,
            forall|i: int|
                0 <= i < old(self).objects@.len() ==> final(self).objects@[i] == old(
                    self,
                ).objects@[i],
            final(self).bbox == spec_aabb_union(old(self).bbox, spec_bounding_box(object)),
            wf_list_seq(final(self).objects@),
    {
        self.add_ref(Arc::new(object));
    }

    pub fn len(&self) -> (r: usize)
        ensures
            r == self.objects@.len(),
    {
        self.objects.len()
    }

    /// Scan every object, shrinking the window to the closest hit so
    /// far: the result is the nearest hit in the list.
    pub fn hit(&self, r: &Ray, ray_t: Interval) -> (res: Option<HitRecord>)
        requires
            wf_list_seq(self.objects@),
            in_range(r.orig),
            in_range(r.dir),
            0 <= r.tm <= crate::fixed::SCALE,
        ensures
            res == spec_list_scan(
                self.objects@,
                *r,
                ray_t.min as int,
                ray_t.max as int,
                Option::None,
            ),
        decreases self.objects@,
    {
        proof {
            lemma_wf_list_index(self.objects@);
        }
        let ghost all: Seq<Arc<HittableObject>> = self.objects@;
        let mut best: Option<HitRecord> = None;
        let mut closest: i64 = ray_t.max;
        let mut idx: usize = 0;
        proof {
            assert(all.subrange(0, all.len() as int) =~= all);
        }
        #[verifier::loop_isolation(false)]
        while idx < self.objects.len()
            invariant
                0 <= idx <= all.len(),
                spec_list_scan(
                    all.subrange(idx as int, all.len() as int),
                    *r,
                    ray_t.min as int,
                    closest as int,
                    best,
                ) == spec_list_scan(all, *r, ray_t.min as int, ray_t.max as int, Option::None),
            decreases all.len() - idx,
        {
            proof {
                assert(decreases_to!(all => *all[idx as int]));
            }
            let h = self.objects[idx].hit(r, Interval::new(ray_t.min, closest));
            proof {
                let rest = all.subrange(idx as int, all.len() as int);
                assert(rest[0] == all[idx as int]);
                assert(rest.subrange(1, rest.len() as int) =~= all.subrange(
                    idx + 1,
                    all.len() as int,
                ));
            }
            match h {
                Some(hr) => {
                    closest = hr.t;
                    best = Some(hr);
                },
                None => {},
            }
            idx = idx + 1;
        }
        proof {
            assert(all.subrange(all.len() as int, all.len() as int).len() == 0);
        }
        best
    }

    pub fn bounding_box(&self) -> (r: AABB)
        ensures
            r == self.bbox,
    {
        self.bbox
    }
}

} // verus!
