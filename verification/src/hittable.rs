//! The intersection protocol: everything a ray can hit, and the record a
//! successful hit produces.

pub mod bvh_node;
pub mod hittable_list;
pub mod quad;
pub mod sphere;

use vstd::prelude::*;

use std::sync::Arc;

use crate::aabb::{aabb_in_range, spec_aabb_hit, spec_aabb_union, AABB};
use crate::interval::Interval;
use crate::material::Material;
use crate::ray::Ray;
use crate::vec3::{in_range, spec_dot_raw, spec_neg, Point3, Vec3};

use self::bvh_node::BvhNode;
use self::hittable_list::HittableList;
use self::quad::{quad_wf, spec_quad_hit, Quad};
use self::sphere::{sphere_wf, spec_sphere_hit, Sphere};

verus! {

/// What a successful intersection reports: the point, the oriented
/// normal, the surface material and coordinates, and the ray parameter.
pub struct HitRecord {
    pub p: Point3,
    pub normal: Vec3,
    pub mat: Arc<Material>,
    pub t: i64,
    pub u: i64,
    pub v: i64,
    pub front_face: bool,
}

impl HitRecord {
    pub fn new(p: Point3, t: i64, m: Arc<Material>, u: i64, v: i64) -> (r: HitRecord)
        ensures
            r.p == p,
            r.t == t,
            r.mat == m,
            r.u == u,
            r.v == v,
            r.normal == (Vec3 { x: 0, y: 0, z: 0 }),
            r.front_face == true,
    {
        HitRecord { p, normal: Vec3 { x: 0, y: 0, z: 0 }, mat: m, t, u, v, front_face: true }
    }

    /// Orient the stored normal against the incoming ray: the hit is a
    /// front face when the ray runs against the outward normal.
    pub fn set_face_normal(&mut self, r: &Ray, outward_normal: &Vec3)
        requires
            in_range(r.dir),
        ensures
            final(self).front_face == (spec_dot_raw(r.dir, *outward_normal) < 0),
            final(self).normal == if spec_dot_raw(r.dir, *outward_normal) < 0 {
                *outward_normal
            } else {
                spec_neg(*outward_normal)
            },
            final(self).p == old(self).p,
            final(self).t == old(self).t,
            final(self).mat == old(self).mat,
            final(self).u == old(self).u,
            final(self).v == old(self).v,
    {
        proof {
            crate::vec3::lemma_dot_raw_bound2(
                r.dir,
                *outward_normal,
                0x10000000,
                0x8000000000000000,
            );
        }
        let raw: i128 = (r.dir.x as i128) * (outward_normal.x as i128) + (r.dir.y as i128)
            * (outward_normal.y as i128) + (r.dir.z as i128) * (outward_normal.z as i128);
        self.front_face = raw < 0;
        self.normal = if self.front_face {
            *outward_normal
        } else {
            outward_normal.neg()
        };
    }
}

/// The closed set of intersectable scene objects.
pub enum HittableObject {
    Sphere(Sphere),
    Quad(Quad),
    HittableList(HittableList),
    BvhNode(BvhNode),
}

/// Well-formedness of a whole object tree: primitives are in coordinate
/// range, cached boxes are the unions they claim to be.
pub open spec fn wf_hittable(h: HittableObject) -> bool
    decreases h,
{
    match h {
        HittableObject::Sphere(s) => sphere_wf(s),
        HittableObject::Quad(q) => quad_wf(q),
        HittableObject::HittableList(l) => wf_list_seq(l.objects@),
        HittableObject::BvhNode(n) => {
            &&& wf_hittable(*n.left)
            &&& wf_hittable(*n.right)
            &&& aabb_in_range(n.bbox)
            &&& n.bbox == spec_aabb_union(
                spec_bounding_box(*n.left),
                spec_bounding_box(*n.right),
            )
        },
    }
}

pub open spec fn wf_list_seq(s: Seq<Arc<HittableObject>>) -> bool
    decreases s,
{
    if s.len() == 0 {
        true
    } else {
        &&& wf_hittable(*s[0])
        &&& aabb_in_range(spec_bounding_box(*s[0]))
        &&& wf_list_seq(s.subrange(1, s.len() as int))
    }
}

/// The cached bounding box of an object.
pub open spec fn spec_bounding_box(h: HittableObject) -> AABB {
    match h {
        HittableObject::Sphere(s) => s.bbox,
        HittableObject::Quad(q) => q.bbox,
        HittableObject::HittableList(l) => l.bbox,
        HittableObject::BvhNode(n) => n.bbox,
    }
}

/// The hit an object reports for a ray within the open parameter window
/// `ray_t`.
pub open spec fn spec_hit(h: HittableObject, r: Ray, ray_t: Interval) -> Option<HitRecord>
    decreases h,
{
    match h {
        HittableObject::Sphere(s) => spec_sphere_hit(s, r, ray_t),
        HittableObject::Quad(q) => spec_quad_hit(q, r, ray_t),
        HittableObject::HittableList(l) => spec_list_scan(
            l.objects@,
            r,
            ray_t.min as int,
            ray_t.max as int,
            Option::None,
        ),
        HittableObject::BvhNode(n) => spec_bvh_hit(n, r, ray_t),
    }
}

/// Traversal of one tree node: prune on the cached box, search left,
/// then search right only below the left hit's parameter.
pub open spec fn spec_bvh_hit(n: BvhNode, r: Ray, ray_t: Interval) -> Option<HitRecord>
    decreases n,
{
    if !spec_aabb_hit(n.bbox, r, ray_t) {
        Option::None
    } else {
        let hl = spec_hit(*n.left, r, ray_t);
        let upper = match hl {
            Option::Some(h0) => h0.t,
            Option::None => ray_t.max,
        };
        let hr = spec_hit(*n.right, r, Interval { min: ray_t.min, max: upper });
        match hr {
            Option::Some(h1) => Option::Some(h1),
            Option::None => hl,
        }
    }
}

/// The linear scan of a list: each object is queried within the window
/// shrunk to the closest hit so far, so the last accepted hit is the
/// nearest.
pub open spec fn spec_list_scan(
    s: Seq<Arc<HittableObject>>,
    r: Ray,
    tmin: int,
    closest: int,
    best: Option<HitRecord>,
) -> Option<HitRecord>
    decreases s,
{
    if s.len() == 0 {
        best
    } else {
        match spec_hit(*s[0], r, Interval { min: tmin as i64, max: closest as i64 }) {
            Option::Some(h) => spec_list_scan(
                s.subrange(1, s.len() as int),
                r,
                tmin,
                h.t as int,
                Option::Some(h),
            ),
            Option::None => spec_list_scan(s.subrange(1, s.len() as int), r, tmin, closest, best),
        }
    }
}

impl HittableObject {
    pub fn hit(&self, r: &Ray, ray_t: Interval) -> (res: Option<HitRecord>)
        requires
            wf_hittable(*self),
            in_range(r.orig),
            in_range(r.dir),
            0 <= r.tm <= crate::fixed::SCALE,
        ensures
            res == spec_hit(*self, *r, ray_t),
        decreases *self,
    {
        match self {
            HittableObject::Sphere(s) => s.hit(r, ray_t),
            HittableObject::Quad(q) => q.hit(r, ray_t),
            HittableObject::HittableList(l) => {
                proof {
                    assert(decreases_to!(*self => *l));
                    assert(decreases_to!(*l => l.objects));
                    assert(decreases_to!(l.objects => l.objects@));
                }
                l.hit(r, ray_t)
            },
            HittableObject::BvhNode(n) => {
                proof {
                    assert(decreases_to!(*self => *n));
                }
                n.hit(r, ray_t)
            },
        }
    }

    pub fn bounding_box(&self) -> (r: AABB)
        ensures
            r == spec_bounding_box(*self),
    {
        match self {
            HittableObject::Sphere(s) => s.bounding_box(),
            HittableObject::Quad(q) => q.bounding_box(),
            HittableObject::HittableList(l) => l.bounding_box(),
            HittableObject::BvhNode(n) => n.bounding_box(),
        }
    }
}

/// The scene objects a built tree holds below it: tree nodes fan out,
/// anything else is a leaf of the build.
pub open spec fn spec_tree_leaves(h: HittableObject) -> Set<HittableObject>
    decreases h,
{
    match h {
        HittableObject::BvhNode(n) => spec_tree_leaves(*n.left).union(spec_tree_leaves(*n.right)),
        _ => Set::empty().insert(h),
    }
}

/// The union of the leaf sets of a pointer sequence's objects.
pub open spec fn seq_leaf_union(s: Seq<Arc<HittableObject>>) -> Set<HittableObject> {
    Set::new(
        |x: HittableObject|
            exists|i: int| 0 <= i < s.len() && spec_tree_leaves(deref_obj(s[i])).contains(x),
    )
}

/// Sequences with equal pointer multisets hold equal leaf unions.
pub proof fn lemma_leaf_union_from_multiset(
    a: Seq<Arc<HittableObject>>,
    b: Seq<Arc<HittableObject>>,
)
    requires
        a.to_multiset() == b.to_multiset(),
    ensures
        seq_leaf_union(a) == seq_leaf_union(b),
{
    broadcast use vstd::seq_lib::group_to_multiset_ensures;

    assert forall|x: HittableObject| seq_leaf_union(a).contains(x) implies seq_leaf_union(
        b,
    ).contains(x) by {
        let i = choose|i: int|
            0 <= i < a.len() && spec_tree_leaves(deref_obj(a[i])).contains(x);
        assert(a.contains(a[i]));
        assert(b.to_multiset().count(a[i]) > 0);
        assert(b.contains(a[i]));
        let j = choose|j: int| 0 <= j < b.len() && b[j] == a[i];
        assert(spec_tree_leaves(deref_obj(b[j])).contains(x));
    }
    assert forall|x: HittableObject| seq_leaf_union(b).contains(x) implies seq_leaf_union(
        a,
    ).contains(x) by {
        let i = choose|i: int|
            0 <= i < b.len() && spec_tree_leaves(deref_obj(b[i])).contains(x);
        assert(b.contains(b[i]));
        assert(a.to_multiset().count(b[i]) > 0);
        assert(a.contains(b[i]));
        let j = choose|j: int| 0 <= j < a.len() && a[j] == b[i];
        assert(spec_tree_leaves(deref_obj(a[j])).contains(x));
    }
    assert(seq_leaf_union(a) =~= seq_leaf_union(b));
}

/// Splitting a range splits its leaf union.
pub proof fn lemma_leaf_union_split(s: Seq<Arc<HittableObject>>, lo: int, mid: int, hi: int)
    requires
        0 <= lo <= mid <= hi <= s.len(),
    ensures
        seq_leaf_union(s.subrange(lo, hi)) == seq_leaf_union(s.subrange(lo, mid)).union(
            seq_leaf_union(s.subrange(mid, hi)),
        ),
{
    let whole = s.subrange(lo, hi);
    let left = s.subrange(lo, mid);
    let right = s.subrange(mid, hi);
    assert forall|x: HittableObject| seq_leaf_union(whole).contains(x) implies seq_leaf_union(
        left,
    ).union(seq_leaf_union(right)).contains(x) by {
        let i = choose|i: int|
            0 <= i < whole.len() && spec_tree_leaves(deref_obj(whole[i])).contains(x);
        if i < mid - lo {
            assert(left[i] == whole[i]);
            assert(spec_tree_leaves(deref_obj(left[i])).contains(x));
        } else {
            assert(right[i - (mid - lo)] == whole[i]);
            assert(spec_tree_leaves(deref_obj(right[i - (mid - lo)])).contains(x));
        }
    }
    assert forall|x: HittableObject|
        seq_leaf_union(left).union(seq_leaf_union(right)).contains(x) implies seq_leaf_union(
        whole,
    ).contains(x) by {
        if seq_leaf_union(left).contains(x) {
            let i = choose|i: int|
                0 <= i < left.len() && spec_tree_leaves(deref_obj(left[i])).contains(x);
            assert(whole[i] == left[i]);
            assert(spec_tree_leaves(deref_obj(whole[i])).contains(x));
        } else {
            let i = choose|i: int|
                0 <= i < right.len() && spec_tree_leaves(deref_obj(right[i])).contains(x);
            assert(whole[i + (mid - lo)] == right[i]);
            assert(spec_tree_leaves(deref_obj(whole[i + (mid - lo)])).contains(x));
        }
    }
    assert(seq_leaf_union(whole) =~= seq_leaf_union(left).union(seq_leaf_union(right)));
}

/// A one-element range's leaf union is its object's leaf set.
pub proof fn lemma_leaf_union_single(s: Seq<Arc<HittableObject>>, i: int)
    requires
        0 <= i < s.len(),
    ensures
        seq_leaf_union(s.subrange(i, i + 1)) == spec_tree_leaves(deref_obj(s[i])),
{
    let sub = s.subrange(i, i + 1);
    assert(sub[0] == s[i]);
    assert forall|x: HittableObject|
        spec_tree_leaves(deref_obj(s[i])).contains(x) implies seq_leaf_union(sub).contains(
        x,
    ) by {
        assert(spec_tree_leaves(deref_obj(sub[0])).contains(x));
    }
    assert(seq_leaf_union(sub) =~= spec_tree_leaves(deref_obj(s[i])));
}

/// The hit parameter of an optional record.
pub open spec fn hit_t(o: Option<HitRecord>) -> Option<int> {
    match o {
        Option::Some(rec) => Option::Some(rec.t as int),
        Option::None => Option::None,
    }
}

/// The smaller of two optional parameters.
pub open spec fn min_t(a: Option<int>, b: Option<int>) -> Option<int> {
    match (a, b) {
        (Option::Some(x), Option::Some(y)) => Option::Some(
            if x <= y {
                x
            } else {
                y
            },
        ),
        (Option::Some(x), Option::None) => Option::Some(x),
        (Option::None, Option::Some(y)) => Option::Some(y),
        (Option::None, Option::None) => Option::None,
    }
}

/// An object's answer is consistent under shrinking the upper end of the
/// search window to `u`: a nearer hit is kept unchanged, a farther one
/// disappears, and a hit exactly at `u` either disappears or is kept.
pub open spec fn window_consistent(h: HittableObject, r: Ray, ray_t: Interval, u: int) -> bool {
    let shrunk = Interval { min: ray_t.min, max: u as i64 };
    match spec_hit(h, r, ray_t) {
        Option::None => spec_hit(h, r, shrunk) is None,
        Option::Some(rec) => {
            &&& (rec.t < u ==> spec_hit(h, r, shrunk) == Option::Some(rec))
            &&& (rec.t > u ==> spec_hit(h, r, shrunk) is None)
            &&& (rec.t == u ==> spec_hit(h, r, shrunk) is None || spec_hit(h, r, shrunk)
                == Option::Some(rec))
        },
    }
}

/// The elementwise minimum hit parameter of a set of objects over a
/// fixed window: the ground truth the scan and the tree must both reach.
pub open spec fn scan_min_t(s: Seq<Arc<HittableObject>>, r: Ray, w: Interval) -> Option<int>
    decreases s,
{
    if s.len() == 0 {
        Option::None
    } else {
        min_t(hit_t(spec_hit(*s[0], r, w)), scan_min_t(s.subrange(1, s.len() as int), r, w))
    }
}

/// Every element answers consistently under every representable shrink
/// of the window.
pub open spec fn seq_window_consistent(
    s: Seq<Arc<HittableObject>>,
    r: Ray,
    m: int,
    cmax: int,
) -> bool {
    forall|i: int, c: int, u: int|
        0 <= i < s.len() && i64::MIN <= u <= c <= cmax && c <= i64::MAX
            ==> #[trigger] window_consistent(
            deref_obj(s[i]),
            r,
            Interval { min: m as i64, max: c as i64 },
            u,
        )
}

/// A scene object that is itself a primitive shape.
pub open spec fn is_primitive(h: HittableObject) -> bool {
    h is Sphere || h is Quad
}

/// A sequence of primitive shapes satisfies the window-consistency
/// hypothesis of the nearest-hit lemmas outright.
pub proof fn lemma_primitive_seq_window_consistent(
    s: Seq<Arc<HittableObject>>,
    r: Ray,
    m: int,
    cmax: int,
)
    requires
        forall|i: int| 0 <= i < s.len() ==> is_primitive(deref_obj(#[trigger] s[i])),
    ensures
        seq_window_consistent(s, r, m, cmax),
{
    assert forall|i: int, c: int, u: int|
        0 <= i < s.len() && i64::MIN <= u <= c <= cmax && c <= i64::MAX
            implies #[trigger] window_consistent(
        deref_obj(s[i]),
        r,
        Interval { min: m as i64, max: c as i64 },
        u,
    ) by {
        let w = Interval { min: m as i64, max: c as i64 };
        assert(is_primitive(deref_obj(s[i])));
        match deref_obj(s[i]) {
            HittableObject::Sphere(sp) => {
                crate::hittable::sphere::lemma_sphere_window_consistent(sp, r, w, u);
            },
            HittableObject::Quad(qd) => {
                crate::hittable::quad::lemma_quad_window_consistent(qd, r, w, u);
            },
            _ => {},
        }
    }
}

/// Shrinking the window does not change the minimum below the shrink
/// point.
proof fn lemma_scan_min_clip(s: Seq<Arc<HittableObject>>, r: Ray, m: int, c: int, u: int)
    requires
        seq_window_consistent(s, r, m, c),
        u <= c,
        i64::MIN <= m <= i64::MAX,
        i64::MIN <= u <= i64::MAX,
        i64::MIN <= c <= i64::MAX,
    ensures
        min_t(
            scan_min_t(s, r, Interval { min: m as i64, max: u as i64 }),
            Option::Some(u),
        ) == min_t(
            scan_min_t(s, r, Interval { min: m as i64, max: c as i64 }),
            Option::Some(u),
        ),
    decreases s,
{
    if s.len() > 0 {
        let big = Interval { min: m as i64, max: c as i64 };
        let small = Interval { min: m as i64, max: u as i64 };
        assert(window_consistent(deref_obj(s[0]), r, big, u));
        assert(window_consistent(deref_obj(s[0]), r, Interval { min: m as i64, max: u as i64 }, u));
        let rest = s.subrange(1, s.len() as int);
        assert forall|i: int, cc: int, uu: int|
            0 <= i < rest.len() && i64::MIN <= uu <= cc <= c && cc <= i64::MAX
                implies #[trigger] window_consistent(
            deref_obj(rest[i]),
            r,
            Interval { min: m as i64, max: cc as i64 },
            uu,
        ) by {
            assert(rest[i] == s[i + 1]);
            assert(window_consistent(
                deref_obj(s[i + 1]),
                r,
                Interval { min: m as i64, max: cc as i64 },
                uu,
            ));
        }
        lemma_scan_min_clip(rest, r, m, c, u);
        // the small window itself is a member of the consistent family
        match spec_hit(deref_obj(s[0]), r, big) {
            Option::None => {},
            Option::Some(rec) => {},
        }
    }
}

/// The scan over a list computes exactly the elementwise minimum hit
/// parameter, provided every element answers consistently as the window
/// shrinks to each closer hit.
pub proof fn lemma_list_scan_nearest(
    s: Seq<Arc<HittableObject>>,
    r: Ray,
    m: int,
    c: int,
    best: Option<HitRecord>,
)
    requires
        seq_window_consistent(s, r, m, c),
        best matches Option::Some(b) ==> b.t == c,
        i64::MIN <= m <= i64::MAX,
        i64::MIN <= c <= i64::MAX,
    ensures
        hit_t(spec_list_scan(s, r, m, c, best)) == min_t(
            scan_min_t(s, r, Interval { min: m as i64, max: c as i64 }),
            hit_t(best),
        ),
    decreases s,
{
    if s.len() > 0 {
        let w = Interval { min: m as i64, max: c as i64 };
        assert(window_consistent(deref_obj(s[0]), r, w, c));
        let rest = s.subrange(1, s.len() as int);
        assert forall|i: int, cc: int, uu: int|
            0 <= i < rest.len() && i64::MIN <= uu <= cc <= c && cc <= i64::MAX
                implies #[trigger] window_consistent(
            deref_obj(rest[i]),
            r,
            Interval { min: m as i64, max: cc as i64 },
            uu,
        ) by {
            assert(rest[i] == s[i + 1]);
            assert(window_consistent(
                deref_obj(s[i + 1]),
                r,
                Interval { min: m as i64, max: cc as i64 },
                uu,
            ));
        }
        match spec_hit(deref_obj(s[0]), r, w) {
            Option::Some(h) => {
                lemma_list_scan_nearest(rest, r, m, h.t as int, Option::Some(h));
                lemma_scan_min_clip(rest, r, m, c, h.t as int);
            },
            Option::None => {
                lemma_list_scan_nearest(rest, r, m, c, best);
            },
        }
    }
}

/// A flat list object reports exactly the elementwise minimum hit
/// parameter, under the same consistency condition.
pub proof fn lemma_list_hit_nearest(l: HittableList, r: Ray, ray_t: Interval)
    requires
        seq_window_consistent(l.objects@, r, ray_t.min as int, ray_t.max as int),
    ensures
        hit_t(spec_hit(HittableObject::HittableList(l), r, ray_t)) == scan_min_t(
            l.objects@,
            r,
            ray_t,
        ),
{
    lemma_list_scan_nearest(l.objects@, r, ray_t.min as int, ray_t.max as int, Option::None);
    assert(ray_t == (Interval { min: ray_t.min, max: ray_t.max }));
}

/// A flat list of primitive shapes reports exactly the elementwise
/// minimum hit parameter, with no hypotheses left: the shapes' own
/// window consistency is a theorem.
pub proof fn lemma_primitive_list_nearest(l: HittableList, r: Ray, ray_t: Interval)
    requires
        forall|i: int|
            0 <= i < l.objects@.len() ==> is_primitive(deref_obj(#[trigger] l.objects@[i])),
    ensures
        hit_t(spec_hit(HittableObject::HittableList(l), r, ray_t)) == scan_min_t(
            l.objects@,
            r,
            ray_t,
        ),
{
    lemma_primitive_seq_window_consistent(l.objects@, r, ray_t.min as int, ray_t.max as int);
    lemma_list_hit_nearest(l, r, ray_t);
}

/// The traversal of one tree node returns the nearest of its two
/// children's hits, provided the box test prunes only rays that miss
/// both children, and the right child answers consistently under the
/// shrunk window.  Tree shape therefore affects performance, never which
/// parameter is returned.
pub proof fn lemma_bvh_traversal_nearest(n: BvhNode, r: Ray, ray_t: Interval)
    requires
        !spec_aabb_hit(n.bbox, r, ray_t) ==> spec_hit(deref_obj(n.left), r, ray_t) is None
            && spec_hit(deref_obj(n.right), r, ray_t) is None,
        window_consistent(
            deref_obj(n.right),
            r,
            ray_t,
            match spec_hit(deref_obj(n.left), r, ray_t) {
                Option::Some(h0) => h0.t as int,
                Option::None => ray_t.max as int,
            },
        ),
    ensures
        hit_t(spec_bvh_hit(n, r, ray_t)) == min_t(
            hit_t(spec_hit(deref_obj(n.left), r, ray_t)),
            hit_t(spec_hit(deref_obj(n.right), r, ray_t)),
        ),
{
    let hl = spec_hit(deref_obj(n.left), r, ray_t);
    let hr_full = spec_hit(deref_obj(n.right), r, ray_t);
    if !spec_aabb_hit(n.bbox, r, ray_t) {
    } else {
        let upper = match hl {
            Option::Some(h0) => h0.t as int,
            Option::None => ray_t.max as int,
        };
        let shrunk = Interval { min: ray_t.min, max: upper as i64 };
        let hr = spec_hit(deref_obj(n.right), r, shrunk);
        match hl {
            Option::None => {
                assert(shrunk == ray_t);
            },
            Option::Some(recl) => {
                match hr_full {
                    Option::None => {
                        assert(hr is None);
                    },
                    Option::Some(recr) => {},
                }
            },
        }
    }
}

/// Ghost projection out of a shared pointer.
pub open spec fn deref_obj(a: Arc<HittableObject>) -> HittableObject {
    *a
}

/// Any hit a well-formed object reports carries a well-formed material.
pub proof fn lemma_hit_mat_wf(h: HittableObject, r: Ray, rt: Interval)
    requires
        wf_hittable(h),
    ensures
        spec_hit(h, r, rt) matches Option::Some(rec) ==> crate::material::material_wf(*rec.mat),
    decreases h,
{
    match h {
        HittableObject::Sphere(s) => {},
        HittableObject::Quad(q) => {},
        HittableObject::HittableList(l) => {
            lemma_scan_mat_wf(l.objects@, r, rt.min as int, rt.max as int, Option::None);
        },
        HittableObject::BvhNode(n) => {
            lemma_hit_mat_wf(deref_obj(n.left), r, rt);
            let hl = spec_hit(deref_obj(n.left), r, rt);
            let upper = match hl {
                Option::Some(h0) => h0.t,
                Option::None => rt.max,
            };
            lemma_hit_mat_wf(deref_obj(n.right), r, Interval { min: rt.min, max: upper });
        },
    }
}

/// The scan preserves material well-formedness of its best candidate.
pub proof fn lemma_scan_mat_wf(
    s: Seq<Arc<HittableObject>>,
    r: Ray,
    tmin: int,
    closest: int,
    best: Option<HitRecord>,
)
    requires
        wf_list_seq(s),
        best matches Option::Some(b) ==> crate::material::material_wf(*b.mat),
    ensures
        spec_list_scan(s, r, tmin, closest, best) matches Option::Some(rec)
            ==> crate::material::material_wf(*rec.mat),
    decreases s,
{
    if s.len() > 0 {
        lemma_hit_mat_wf(deref_obj(s[0]), r, Interval { min: tmin as i64, max: closest as i64 });
        match spec_hit(deref_obj(s[0]), r, Interval { min: tmin as i64, max: closest as i64 }) {
            Option::Some(h0) => {
                lemma_scan_mat_wf(
                    s.subrange(1, s.len() as int),
                    r,
                    tmin,
                    h0.t as int,
                    Option::Some(h0),
                );
            },
            Option::None => {
                lemma_scan_mat_wf(s.subrange(1, s.len() as int), r, tmin, closest, best);
            },
        }
    }
}

/// Well-formedness spelled per element, equivalent to the recursive
/// definition; handy for loops.
pub proof fn lemma_wf_list_index(s: Seq<Arc<HittableObject>>)
    requires
        wf_list_seq(s),
    ensures
        forall|i: int|
            0 <= i < s.len() ==> wf_hittable(*(#[trigger] s[i])) && aabb_in_range(
                spec_bounding_box(*s[i]),
            ),
    decreases s.len(),
{
    if s.len() > 0 {
        lemma_wf_list_index(s.subrange(1, s.len() as int));
        assert forall|i: int| 0 <= i < s.len() implies wf_hittable(*(#[trigger] s[i]))
            && aabb_in_range(spec_bounding_box(*s[i])) by {
            if i > 0 {
                assert(s.subrange(1, s.len() as int)[i - 1] == s[i]);
            }
        }
    }
}

/// And back: elementwise well-formedness gives the recursive form.
pub proof fn lemma_wf_list_from_index(s: Seq<Arc<HittableObject>>)
    requires
        forall|i: int|
            0 <= i < s.len() ==> wf_hittable(*(#[trigger] s[i])) && aabb_in_range(
                spec_bounding_box(*s[i]),
            ),
    ensures
        wf_list_seq(s),
    decreases s.len(),
{
    if s.len() > 0 {
        assert forall|i: int|
            0 <= i < s.subrange(1, s.len() as int).len() implies wf_hittable(
            *(#[trigger] s.subrange(1, s.len() as int)[i]),
        ) && aabb_in_range(spec_bounding_box(*s.subrange(1, s.len() as int)[i])) by {
            assert(s.subrange(1, s.len() as int)[i] == s[i + 1]);
        }
        lemma_wf_list_from_index(s.subrange(1, s.len() as int));
    }
}

} // verus!
