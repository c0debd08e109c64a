//! The bounding-volume hierarchy: a binary tree of boxes that prunes
//! intersection work.

use vstd::prelude::*;

use std::sync::Arc;

use crate::aabb::{aabb_in_range, AABB};
use crate::hittable::{
    deref_obj, lemma_leaf_union_from_multiset, lemma_leaf_union_single, lemma_leaf_union_split,
    lemma_wf_list_from_index, lemma_wf_list_index, seq_leaf_union, spec_bounding_box,
    spec_bvh_hit, spec_tree_leaves, wf_hittable, wf_list_seq, HitRecord, HittableObject,
};
use crate::hittable::hittable_list::HittableList;
use crate::interval::Interval;
use crate::ray::Ray;
use crate::rng::{arc_clone, rand_range};
use crate::vec3::in_range;

verus! {

pub struct BvhNode {
    pub left: Arc<HittableObject>,
    pub right: Arc<HittableObject>,
    pub bbox: AABB,
}

impl BvhNode {
    /// Build a tree over a list's objects (the list is reordered in
    /// place).
    pub fn from_list(list: &mut HittableList) -> (res: HittableObject)
        requires
            wf_list_seq(old(list).objects@),
            old(list).objects@.len() >= 1,
        ensures
            wf_hittable(res),
            aabb_in_range(spec_bounding_box(res)),
            final(list).objects@.len() == old(list).objects@.len(),
            final(list).objects@.to_multiset() == old(list).objects@.to_multiset(),
            final(list).bbox == old(list).bbox,
            wf_list_seq(final(list).objects@),
            spec_tree_leaves(res) == seq_leaf_union(old(list).objects@),
    {
        proof {
            lemma_wf_list_index(list.objects@);
        }
        let res = BvhNode::new(&mut list.objects);
        proof {
            lemma_wf_list_from_index(list.objects@);
        }
        res
    }

    /// Build a tree over a set of objects (reordered in place during
    /// construction).
    pub fn new(objects: &mut Vec<Arc<HittableObject>>) -> (res: HittableObject)
        requires
            old(objects)@.len() >= 1,
            forall|k: int|
                0 <= k < old(objects)@.len() ==> wf_hittable(*(#[trigger] old(objects)@[k]))
                    && aabb_in_range(spec_bounding_box(*old(objects)@[k])),
        ensures
            wf_hittable(res),
            aabb_in_range(spec_bounding_box(res)),
            final(objects)@.len() == old(objects)@.len(),
            forall|k: int|
                0 <= k < final(objects)@.len() ==> wf_hittable(*(#[trigger] final(objects)@[k]))
                    && aabb_in_range(spec_bounding_box(*final(objects)@[k])),
            final(objects)@.to_multiset() == old(objects)@.to_multiset(),
            spec_tree_leaves(res) == seq_leaf_union(old(objects)@),
    {
        let len = objects.len();
        let res = build(objects, 0, len);
        proof {
            assert(old(objects)@.subrange(0, old(objects)@.len() as int) =~= old(objects)@);
            assert(objects@.subrange(0, objects@.len() as int) =~= objects@);
        }
        res
    }

    /// Traverse: reject on the cached box, search the left subtree, then
    /// search the right subtree only below the best parameter found.
    pub fn hit(&self, r: &Ray, ray_t: Interval) -> (res: Option<HitRecord>)
        requires
            wf_hittable(*self.left),
            wf_hittable(*self.right),
            aabb_in_range(self.bbox),
            in_range(r.orig),
            in_range(r.dir),
            0 <= r.tm <= crate::fixed::SCALE,
        ensures
            res == spec_bvh_hit(*self, *r, ray_t),
        decreases *self,
    {
        if !self.bbox.hit(r, ray_t) {
            return None;
        }
        proof {
            assert(decreases_to!(*self => self.left));
            assert(decreases_to!(*self => self.right));
        }
        let hit_left = self.left.hit(r, ray_t);
        let right_t = match &hit_left {
            Some(h) => h.t,
            None => ray_t.max,
        };
        let hit_right = self.right.hit(r, Interval::new(ray_t.min, right_t));
        if hit_right.is_some() {
            hit_right
        } else {
            hit_left
        }
    }

    pub fn bounding_box(&self) -> (r: AABB)
        ensures
            r == self.bbox,
    {
        self.bbox
    }
}

/// The key objects are ordered by: the lower bound of the box on the
/// chosen axis.
pub open spec fn spec_axis_key(o: Arc<HittableObject>, axis: int) -> int {
    crate::aabb::spec_aabb_axis(spec_bounding_box(deref_obj(o)), axis).min as int
}

/// `s[lo..hi]` is ordered by the chosen axis key.
pub open spec fn sorted_range(s: Seq<Arc<HittableObject>>, lo: int, hi: int, axis: int) -> bool {
    forall|p: int, q: int|
        lo <= p <= q < hi ==> #[trigger] spec_axis_key(s[p], axis) <= #[trigger] spec_axis_key(
            s[q],
            axis,
        )
}

fn axis_min_key(o: &HittableObject, axis: i32) -> (r: i64)
    requires
        0 <= axis <= 2,
    ensures
        r == crate::aabb::spec_aabb_axis(spec_bounding_box(*o), axis as int).min,
{
    o.bounding_box().axis(axis).min
}

/// Recursively partition `objects[lo..hi]` into a tree.
fn build(objects: &mut Vec<Arc<HittableObject>>, lo: usize, hi: usize) -> (res: HittableObject)
    requires
        lo < hi <= old(objects)@.len(),
        forall|k: int|
            0 <= k < old(objects)@.len() ==> wf_hittable(*(#[trigger] old(objects)@[k]))
                && aabb_in_range(spec_bounding_box(*old(objects)@[k])),
    ensures
        final(objects)@.len() == old(objects)@.len(),
        forall|k: int|
            0 <= k < old(objects)@.len() && !(lo <= k < hi) ==> final(objects)@[k] == old(
                objects,
            )@[k],
        forall|k: int|
            0 <= k < final(objects)@.len() ==> wf_hittable(*(#[trigger] final(objects)@[k]))
                && aabb_in_range(spec_bounding_box(*final(objects)@[k])),
        wf_hittable(res),
        aabb_in_range(spec_bounding_box(res)),
        final(objects)@.subrange(lo as int, hi as int).to_multiset() == old(
            objects,
        )@.subrange(lo as int, hi as int).to_multiset(),
        spec_tree_leaves(res) == seq_leaf_union(old(objects)@.subrange(lo as int, hi as int)),
    decreases hi - lo,
{
    let axis = rand_range(0, 3) as i32;
    let n = hi - lo;
    let (left, right): (Arc<HittableObject>, Arc<HittableObject>) = if n == 1 {
        let obj = arc_clone(&objects[lo]);
        proof {
            lemma_leaf_union_single(objects@, lo as int);
            assert(spec_tree_leaves(deref_obj(obj)).union(spec_tree_leaves(deref_obj(obj)))
                =~= spec_tree_leaves(deref_obj(obj)));
        }
        (arc_clone(&obj), obj)
    } else if n == 2 {
        let a = arc_clone(&objects[lo]);
        let b = arc_clone(&objects[lo + 1]);
        proof {
            lemma_leaf_union_split(objects@, lo as int, lo as int + 1, lo as int + 2);
            lemma_leaf_union_single(objects@, lo as int);
            lemma_leaf_union_single(objects@, lo as int + 1);
            assert(spec_tree_leaves(deref_obj(a)).union(spec_tree_leaves(deref_obj(b)))
                =~= spec_tree_leaves(deref_obj(b)).union(spec_tree_leaves(deref_obj(a))));
        }
        if axis_min_key(&a, axis) <= axis_min_key(&b, axis) {
            (a, b)
        } else {
            (b, a)
        }
    } else {
        sort_range(objects, lo, hi, axis);
        let ghost sorted = objects@;
        let mid = lo + n / 2;
        let l = Arc::new(build(objects, lo, mid));
        let ghost after_left = objects@;
        let r = Arc::new(build(objects, mid, hi));
        proof {
            let loi = lo as int;
            let midi = mid as int;
            let hii = hi as int;
            // the right half was untouched by the left build, and the
            // left half by the right build
            assert(after_left.subrange(midi, hii) =~= sorted.subrange(midi, hii));
            assert(objects@.subrange(loi, midi) =~= after_left.subrange(loi, midi));
            // leaves of the two subtrees cover the sorted halves
            lemma_leaf_union_from_multiset(
                after_left.subrange(loi, midi),
                sorted.subrange(loi, midi),
            );
            lemma_leaf_union_split(sorted, loi, midi, hii);
            assert(sorted.subrange(loi, hii) =~= sorted.subrange(0, sorted.len() as int).subrange(
                loi,
                hii,
            ));
            lemma_leaf_union_from_multiset(
                sorted.subrange(loi, hii),
                old(objects)@.subrange(loi, hii),
            );
            // and the final range still carries the input multiset
            lemma_multiset_split(objects@, loi, midi, hii);
            lemma_multiset_split(sorted, loi, midi, hii);
        }
        (l, r)
    };
    let bbox = AABB::union(&left.bounding_box(), &right.bounding_box());
    HittableObject::BvhNode(BvhNode { left, right, bbox })
}

/// The multiset of a range is the sum of the multisets of its halves.
proof fn lemma_multiset_split(s: Seq<Arc<HittableObject>>, lo: int, mid: int, hi: int)
    requires
        0 <= lo <= mid <= hi <= s.len(),
    ensures
        s.subrange(lo, hi).to_multiset() == s.subrange(lo, mid).to_multiset().add(
            s.subrange(mid, hi).to_multiset(),
        ),
{
    assert(s.subrange(lo, hi) =~= s.subrange(lo, mid) + s.subrange(mid, hi));
    vstd::seq_lib::lemma_multiset_commutative(s.subrange(lo, mid), s.subrange(mid, hi));
    assert(s.subrange(lo, hi).to_multiset() =~= s.subrange(lo, mid).to_multiset().add(
        s.subrange(mid, hi).to_multiset(),
    ));
}

/// Insertion sort of `objects[lo..hi]` by the chosen axis key; the
/// elements keep their values (only their order changes).
fn sort_range(objects: &mut Vec<Arc<HittableObject>>, lo: usize, hi: usize, axis: i32)
    requires
        0 <= axis <= 2,
        lo <= hi <= old(objects)@.len(),
        forall|k: int|
            0 <= k < old(objects)@.len() ==> wf_hittable(*(#[trigger] old(objects)@[k]))
                && aabb_in_range(spec_bounding_box(*old(objects)@[k])),
    ensures
        final(objects)@.len() == old(objects)@.len(),
        forall|k: int|
            0 <= k < old(objects)@.len() && !(lo <= k < hi) ==> final(objects)@[k] == old(
                objects,
            )@[k],
        forall|k: int|
            0 <= k < final(objects)@.len() ==> wf_hittable(*(#[trigger] final(objects)@[k]))
                && aabb_in_range(spec_bounding_box(*final(objects)@[k])),
        final(objects)@.subrange(lo as int, hi as int).to_multiset() == old(
            objects,
        )@.subrange(lo as int, hi as int).to_multiset(),
        sorted_range(final(objects)@, lo as int, hi as int, axis as int),
{
    let mut i: usize = lo;
    #[verifier::loop_isolation(false)]
    while i < hi
        invariant
            lo <= i <= hi,
            objects@.len() == old(objects)@.len(),
            forall|k: int|
                0 <= k < old(objects)@.len() && !(lo <= k < hi) ==> objects@[k] == old(
                    objects,
                )@[k],
            forall|k: int|
                0 <= k < objects@.len() ==> wf_hittable(*(#[trigger] objects@[k]))
                    && aabb_in_range(spec_bounding_box(*objects@[k])),
            objects@.subrange(lo as int, hi as int).to_multiset() == old(objects)@.subrange(
                lo as int,
                hi as int,
            ).to_multiset(),
            sorted_range(objects@, lo as int, i as int, axis as int),
        decreases hi - i,
    {
        let mut j: usize = i;
        #[verifier::loop_isolation(false)]
        while j > lo && axis_min_key(&objects[j - 1], axis) > axis_min_key(&objects[j], axis)
            invariant
                lo <= j <= i < hi,
                objects@.len() == old(objects)@.len(),
                forall|k: int|
                    0 <= k < old(objects)@.len() && !(lo <= k < hi) ==> objects@[k] == old(
                        objects,
                    )@[k],
                forall|k: int|
                    0 <= k < objects@.len() ==> wf_hittable(*(#[trigger] objects@[k]))
                        && aabb_in_range(spec_bounding_box(*objects@[k])),
                objects@.subrange(lo as int, hi as int).to_multiset() == old(objects)@.subrange(
                    lo as int,
                    hi as int,
                ).to_multiset(),
                forall|p: int, q: int|
                    lo <= p <= q <= i && p != j && q != j ==> #[trigger] spec_axis_key(
                        objects@[p],
                        axis as int,
                    ) <= #[trigger] spec_axis_key(objects@[q], axis as int),
                forall|q: int|
                    j < q <= i ==> spec_axis_key(objects@[j as int], axis as int)
                        <= #[trigger] spec_axis_key(objects@[q], axis as int),
            decreases j,
        {
            let a = arc_clone(&objects[j - 1]);
            let b = arc_clone(&objects[j]);
            let ghost before = objects@;
            objects.set(j - 1, b);
            objects.set(j, a);
            proof {
                lemma_swap_multiset(before, objects@, lo as int, hi as int, j - 1, j as int);
            }
            j = j - 1;
        }
        proof {
            let ji = j as int;
            let ax = axis as int;
            assert forall|p: int, q: int| lo <= p <= q <= i implies #[trigger] spec_axis_key(
                objects@[p],
                ax,
            ) <= #[trigger] spec_axis_key(objects@[q], ax) by {
                if p != ji && q != ji {
                } else if q == ji && p < ji {
                    assert(spec_axis_key(objects@[ji - 1], ax) <= spec_axis_key(
                        objects@[ji],
                        ax,
                    ));
                    if p < ji - 1 {
                        assert(spec_axis_key(objects@[p], ax) <= spec_axis_key(
                            objects@[ji - 1],
                            ax,
                        ));
                    }
                }
            }
        }
        i = i + 1;
    }
}

/// Swapping two entries of a range keeps the range's multiset.
proof fn lemma_swap_multiset(
    before: Seq<Arc<HittableObject>>,
    after: Seq<Arc<HittableObject>>,
    lo: int,
    hi: int,
    p: int,
    q: int,
)
    requires
        0 <= lo <= p < q < hi <= before.len(),
        after == before.update(p, before[q]).update(q, before[p]),
    ensures
        after.subrange(lo, hi).to_multiset() == before.subrange(lo, hi).to_multiset(),
{
    broadcast use vstd::multiset::group_multiset_axioms;

    let sub0 = before.subrange(lo, hi);
    let sub1 = sub0.update(p - lo, before[q]);
    let sub2 = sub1.update(q - lo, before[p]);
    assert(after.subrange(lo, hi) =~= sub2);
    vstd::seq_lib::to_multiset_update(sub0, p - lo, before[q]);
    vstd::seq_lib::to_multiset_update(sub1, q - lo, before[p]);
    assert(sub0[p - lo] == before[p]);
    assert(sub1[q - lo] == before[q]);
    broadcast use vstd::seq_lib::group_to_multiset_ensures;

    assert(sub0.contains(sub0[p - lo]));
    assert(sub0.to_multiset().count(before[p]) > 0);
    assert(sub2.to_multiset() =~= sub0.to_multiset()) by {
        let m0 = sub0.to_multiset();
        assert(sub2.to_multiset() == m0.insert(before[q]).remove(before[p]).insert(
            before[p],
        ).remove(before[q]));
        assert forall|x: Arc<HittableObject>|
            m0.insert(before[q]).remove(before[p]).insert(before[p]).remove(
                before[q],
            ).count(x) == m0.count(x) by {
            if x == before[p] && x == before[q] {
            } else if x == before[p] {
            } else if x == before[q] {
            }
        }
    }
}

} // verus!
