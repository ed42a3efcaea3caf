//! The bounding volume hierarchy: a binary tree over an arena of objects,
//! split along the widest axis, searched with pruning by the nearest hit found.

use vstd::prelude::*;
use crate::aabb::{in_slab, surrounding_box, union_box, AABB};
use crate::geom::{Param, Ray, MAX_COORD, MAX_LOCAL_ORIGIN};
use crate::hittable::{index_set, lemma_combine, lemma_nearest_unique, nearest_in, union_all, HittableList, Object};
use crate::object::HitRecord;

verus! {

/// The most objects a leaf holds.
pub const MAX_LEAF: usize = 2;

/// A node of the hierarchy: a leaf of object indices, or two subtrees with a
/// box bounding every object below them.
pub enum BvhTree {
    Leaf(Vec<usize>),
    Inner(Box<BvhTree>, Box<BvhTree>, AABB),
}

/// Why a hierarchy could not be built.
#[derive(Clone, Copy, Debug, PartialEq, Eq)]
pub enum BvhError {
    /// There were no objects to build it over.
    Empty,
}

/// A hierarchy over the objects it owns, addressed by index.
pub struct BVHNode {
    pub objects: Vec<Object>,
    pub root: BvhTree,
}

/// The values held in `s`, as integers.
pub open spec fn seq_set(s: Seq<usize>) -> Set<int> {
    Set::new(|i: int| exists|k: int| 0 <= k < s.len() && s[k] as int == i)
}

/// Every object is well formed.
pub open spec fn objs_wf(objs: Seq<Object>) -> bool {
    forall|i: int| 0 <= i < objs.len() ==> #[trigger] objs[i].wf()
}

/// Every index names an object.
pub open spec fn indices_ok(idx: Seq<usize>, n: int) -> bool {
    forall|k: int| 0 <= k < idx.len() ==> #[trigger] idx[k] < n
}

/// The union of the boxes of the objects at the indices of a non-empty `idx`.
pub open spec fn union_idx(objs: Seq<Object>, idx: Seq<usize>) -> AABB
    decreases idx.len(),
{
    if idx.len() <= 1 {
        objs[idx[0] as int].bbox()
    } else {
        union_box(union_idx(objs, idx.drop_last()), objs[idx.last() as int].bbox())
    }
}

/// The sort key along `axis`: the sum of the box's two bounds there.
pub open spec fn centroid_key(o: Object, axis: int) -> int {
    o.bbox().min.get(axis) + o.bbox().max.get(axis)
}

/// The indices are in order of their objects' keys along `axis`.
pub open spec fn sorted_by_key(objs: Seq<Object>, idx: Seq<usize>, axis: int) -> bool {
    forall|a: int, b: int|
        0 <= a < b < idx.len() ==> centroid_key(objs[idx[a] as int], axis) <= centroid_key(
            objs[idx[b] as int],
            axis,
        )
}

pub open spec fn extent(b: AABB, axis: int) -> int {
    b.max.get(axis) - b.min.get(axis)
}

/// `b` is widest along `axis`, and every object below `r` comes no later
/// along it, by its key, than every object below `l`.
pub open spec fn split_along(l: BvhTree, r: BvhTree, b: AABB, objs: Seq<Object>, axis: int) -> bool {
    &&& forall|a: int| 0 <= a < 3 ==> extent(b, a) <= extent(b, axis)
    &&& forall|i: int, j: int| #![trigger r.indices().contains(i), l.indices().contains(j)]
        r.indices().contains(i) && l.indices().contains(j) ==> centroid_key(objs[i], axis) <= centroid_key(objs[j], axis)
}

impl BvhTree {
    /// The indices of all objects below this node.
    pub open spec fn indices(self) -> Set<int>
        decreases self,
    {
        match self {
            BvhTree::Leaf(v) => seq_set(v@),
            BvhTree::Inner(l, r, _) => l.indices().union(r.indices()),
        }
    }

    /// The box of this node: the union of a leaf's objects, or an inner node's own box.
    pub open spec fn bounds(self, objs: Seq<Object>) -> AABB {
        match self {
            BvhTree::Leaf(v) => union_idx(objs, v@),
            BvhTree::Inner(_, _, b) => b,
        }
    }

    /// Leaves hold one to `MAX_LEAF` valid indices; an inner node's box is
    /// the union of its children's boxes, and its children are split along
    /// the axis where that box is widest.
    pub open spec fn wf(self, objs: Seq<Object>) -> bool
        decreases self,
    {
        match self {
            BvhTree::Leaf(v) => 1 <= v@.len() <= MAX_LEAF && indices_ok(v@, objs.len() as int),
            BvhTree::Inner(l, r, b) => {
                &&& l.wf(objs)
                &&& r.wf(objs)
                &&& b == union_box(l.bounds(objs), r.bounds(objs))
                &&& exists|axis: int| 0 <= axis < 3 && #[trigger] split_along(*l, *r, b, objs, axis)
            },
        }
    }

    /// Every index below a node names an object; the node's box encloses the
    /// box of each, and each face of it is a face of one of them.
    pub proof fn lemma_bounds(self, objs: Seq<Object>)
        requires
            self.wf(objs),
            objs_wf(objs),
        ensures
            self.bounds(objs).wf(),
            forall|i: int| #[trigger] self.indices().contains(i) ==> 0 <= i < objs.len() && self.bounds(objs).encloses(
                objs[i].bbox(),
            ),
            attained(self.bounds(objs), objs, self.indices()),
        decreases self,
    {
        match self {
            BvhTree::Leaf(v) => {
                lemma_union_idx(objs, v@);
                assert forall|i: int| #[trigger] self.indices().contains(i) implies 0 <= i < objs.len()
                    && self.bounds(objs).encloses(objs[i].bbox()) by {
                    assert(seq_set(v@).contains(i));
                }
            },
            BvhTree::Inner(l, r, b) => {
                l.lemma_bounds(objs);
                r.lemma_bounds(objs);
                lemma_union_attained(l.bounds(objs), r.bounds(objs), objs, l.indices(), r.indices());
                assert forall|i: int| #[trigger] self.indices().contains(i) implies 0 <= i < objs.len()
                    && self.bounds(objs).encloses(objs[i].bbox()) by {
                    assert(l.indices().union(r.indices()).contains(i));
                    if l.indices().contains(i) {
                        assert(0 <= i < objs.len());
                    } else {
                        assert(r.indices().contains(i));
                    }
                }
            },
        }
    }
}

impl BvhTree {
    /// Every node holds at least one index.
    pub proof fn lemma_nonempty(self, objs: Seq<Object>)
        requires
            self.wf(objs),
        ensures
            exists|i: int| #[trigger] self.indices().contains(i),
        decreases self,
    {
        match self {
            BvhTree::Leaf(v) => {
                assert(seq_set(v@).contains(v@[0] as int));
                assert(self.indices().contains(v@[0] as int));
            },
            BvhTree::Inner(l, r, _) => {
                l.lemma_nonempty(objs);
                let i = choose|i: int| #[trigger] l.indices().contains(i);
                assert(self.indices().contains(i));
            },
        }
    }
}

/// Coordinate `axis` of the upper corner of `b` when `hi`, else of the lower.
pub open spec fn face(b: AABB, axis: int, hi: bool) -> i64 {
    if hi {
        b.max.get(axis)
    } else {
        b.min.get(axis)
    }
}

/// The face of `b` along `axis` on side `hi` is that face of the box of some
/// object named in `idx`.
pub open spec fn face_attained(b: AABB, objs: Seq<Object>, idx: Set<int>, axis: int, hi: bool) -> bool {
    exists|i: int| #[trigger] idx.contains(i) && face(objs[i].bbox(), axis, hi) == face(b, axis, hi)
}

/// Each face of `b` is a face of the box of some object named in `idx`.
pub open spec fn attained(b: AABB, objs: Seq<Object>, idx: Set<int>) -> bool {
    forall|axis: int, hi: bool| 0 <= axis < 3 ==> #[trigger] face_attained(b, objs, idx, axis, hi)
}

/// The union of two boxes takes each face from one of them.
pub proof fn lemma_union_attained(b1: AABB, b2: AABB, objs: Seq<Object>, s1: Set<int>, s2: Set<int>)
    requires
        attained(b1, objs, s1),
        attained(b2, objs, s2),
    ensures
        attained(union_box(b1, b2), objs, s1.union(s2)),
{
    let u = union_box(b1, b2);
    assert forall|axis: int, hi: bool| 0 <= axis < 3 implies face_attained(u, objs, s1.union(s2), axis, hi) by {
        if face(u, axis, hi) == face(b1, axis, hi) {
            assert(face_attained(b1, objs, s1, axis, hi));
            let i = choose|i: int| #[trigger] s1.contains(i) && face(objs[i].bbox(), axis, hi) == face(b1, axis, hi);
            assert(s1.union(s2).contains(i));
        } else {
            assert(face(u, axis, hi) == face(b2, axis, hi));
            assert(face_attained(b2, objs, s2, axis, hi));
            let i = choose|i: int| #[trigger] s2.contains(i) && face(objs[i].bbox(), axis, hi) == face(b2, axis, hi);
            assert(s1.union(s2).contains(i));
        }
    }
}

/// Two boxes that enclose the same objects and take every face from one of
/// them are the same box: the least box enclosing them all.
pub proof fn lemma_tight_unique(b1: AABB, b2: AABB, objs: Seq<Object>, idx: Set<int>)
    requires
        forall|i: int| #[trigger] idx.contains(i) ==> b1.encloses(objs[i].bbox()) && b2.encloses(objs[i].bbox()),
        attained(b1, objs, idx),
        attained(b2, objs, idx),
    ensures
        b1 == b2,
{
    assert forall|axis: int, hi: bool| 0 <= axis < 3 implies face(b1, axis, hi) == face(b2, axis, hi) by {
        assert(face_attained(b1, objs, idx, axis, hi));
        let i = choose|i: int| #[trigger] idx.contains(i) && face(objs[i].bbox(), axis, hi) == face(b1, axis, hi);
        assert(face_attained(b2, objs, idx, axis, hi));
        let j = choose|j: int| #[trigger] idx.contains(j) && face(objs[j].bbox(), axis, hi) == face(b2, axis, hi);
        assert(b1.encloses(objs[j].bbox()) && b2.encloses(objs[i].bbox()));
    }
    assert(face(b1, 0, false) == face(b2, 0, false) && face(b1, 1, false) == face(b2, 1, false) && face(b1, 2, false) == face(b2, 2, false));
    assert(face(b1, 0, true) == face(b2, 0, true) && face(b1, 1, true) == face(b2, 1, true) && face(b1, 2, true) == face(b2, 2, true));
}

/// The union of all boxes, from the first on, encloses each and takes every face from one.
pub proof fn lemma_union_all(objs: Seq<Object>)
    requires
        objs.len() >= 1,
    ensures
        forall|i: int| #[trigger] index_set(objs.len() as int).contains(i) ==> union_all(objs).encloses(objs[i].bbox()),
        attained(union_all(objs), objs, index_set(objs.len() as int)),
    decreases objs.len(),
{
    let n = objs.len() as int;
    if n == 1 {
        assert forall|axis: int, hi: bool| 0 <= axis < 3 implies face_attained(union_all(objs), objs, index_set(n), axis, hi) by {
            assert(index_set(n).contains(0));
        }
    } else {
        let front = objs.drop_last();
        let m = n - 1;
        lemma_union_all(front);
        assert(forall|i: int| 0 <= i < n - 1 ==> #[trigger] front[i] == objs[i]);
        assert forall|axis: int, hi: bool| 0 <= axis < 3 implies face_attained(union_all(front), objs, index_set(m), axis, hi) by {
            assert(face_attained(union_all(front), front, index_set(m), axis, hi));
            let i = choose|i: int| #[trigger] index_set(m).contains(i)
                && face(front[i].bbox(), axis, hi) == face(union_all(front), axis, hi);
            assert(front[i] == objs[i]);
        }
        assert forall|axis: int, hi: bool| 0 <= axis < 3 implies face_attained(objs.last().bbox(), objs, set![m], axis, hi) by {
            assert(set![m].contains(n - 1));
        }
        lemma_union_attained(union_all(front), objs.last().bbox(), objs, index_set(m), set![m]);
        assert(index_set(m).union(set![m]) =~= index_set(n));
        assert forall|i: int| #[trigger] index_set(n).contains(i) implies union_all(objs).encloses(objs[i].bbox()) by {
            if i < n - 1 {
                assert(index_set(m).contains(i));
                assert(front[i] == objs[i]);
            }
        }
    }
}

pub proof fn lemma_bbox_wf(o: Object)
    requires
        o.wf(),
    ensures
        o.bbox().wf(),
    decreases o,
{
    match o {
        Object::Solid(_) => {},
        Object::Flip(f) => lemma_bbox_wf(*f.object),
        Object::Moved(_) => {},
    }
}

/// The union over `idx` is well formed and encloses the box of each object named.
pub proof fn lemma_union_idx(objs: Seq<Object>, idx: Seq<usize>)
    requires
        idx.len() >= 1,
        indices_ok(idx, objs.len() as int),
        objs_wf(objs),
    ensures
        union_idx(objs, idx).wf(),
        forall|i: int| #[trigger] seq_set(idx).contains(i) ==> 0 <= i < objs.len() && union_idx(objs, idx).encloses(
            objs[i].bbox(),
        ),
        attained(union_idx(objs, idx), objs, seq_set(idx)),
    decreases idx.len(),
{
    lemma_bbox_wf(objs[idx.last() as int]);
    lemma_bbox_wf(objs[idx[0] as int]);
    let last = idx.last() as int;
    assert(seq_set(idx).contains(last));
    assert forall|axis: int, hi: bool| 0 <= axis < 3 implies face_attained(objs[last].bbox(), objs, set![last], axis, hi) by {
        assert(set![last].contains(last));
    }
    if idx.len() > 1 {
        let front = idx.drop_last();
        lemma_union_idx(objs, front);
        lemma_union_attained(union_idx(objs, front), objs[last].bbox(), objs, seq_set(front), set![last]);
        assert forall|i: int| #[trigger] seq_set(front).union(set![last]).contains(i) implies seq_set(idx).contains(i) by {
            if seq_set(front).contains(i) {
                let k = choose|k: int| 0 <= k < front.len() && front[k] as int == i;
                assert(idx[k] == front[k]);
            }
        }
        lemma_attained_subset(union_idx(objs, idx), objs, seq_set(front).union(set![last]), seq_set(idx));
        assert forall|i: int| #[trigger] seq_set(idx).contains(i) implies 0 <= i < objs.len() && union_idx(
            objs,
            idx,
        ).encloses(objs[i].bbox()) by {
            let k = choose|k: int| 0 <= k < idx.len() && idx[k] as int == i;
            if k < idx.len() - 1 {
                assert(front[k] == idx[k]);
                assert(seq_set(front).contains(i));
            }
        }
    } else {
        assert forall|i: int| #[trigger] seq_set(idx).contains(i) implies 0 <= i < objs.len() && union_idx(
            objs,
            idx,
        ).encloses(objs[i].bbox()) by {
            let k = choose|k: int| 0 <= k < idx.len() && idx[k] as int == i;
            assert(k == 0);
        }
        lemma_attained_subset(union_idx(objs, idx), objs, set![last], seq_set(idx));
    }
}

/// Faces taken from the objects of a set are taken from those of any larger set.
pub proof fn lemma_attained_subset(b: AABB, objs: Seq<Object>, s: Set<int>, t: Set<int>)
    requires
        attained(b, objs, s),
        forall|i: int| #[trigger] s.contains(i) ==> t.contains(i),
    ensures
        attained(b, objs, t),
{
    assert forall|axis: int, hi: bool| 0 <= axis < 3 implies face_attained(b, objs, t, axis, hi) by {
        assert(face_attained(b, objs, s, axis, hi));
        let i = choose|i: int| #[trigger] s.contains(i) && face(objs[i].bbox(), axis, hi) == face(b, axis, hi);
        assert(t.contains(i));
    }
}

/// A box that encloses another holds every point the other holds.
pub proof fn lemma_encloses_holds(outer: AABB, inner: AABB, ray: Ray, t: Param)
    requires
        outer.wf(),
        inner.wf(),
        ray.wf_local(),
        outer.encloses(inner),
        inner.holds_at(ray, t),
        t.den > 0,
    ensures
        outer.holds_at(ray, t),
{
    lemma_axis_widen(ray.orig.x, ray.dir.x, outer.min.x, outer.max.x, inner.min.x, inner.max.x, t);
    lemma_axis_widen(ray.orig.y, ray.dir.y, outer.min.y, outer.max.y, inner.min.y, inner.max.y, t);
    lemma_axis_widen(ray.orig.z, ray.dir.z, outer.min.z, outer.max.z, inner.min.z, inner.max.z, t);
}

proof fn lemma_axis_widen(o: i64, d: i64, lo: i64, hi: i64, ilo: i64, ihi: i64, t: Param)
    requires
        -MAX_LOCAL_ORIGIN <= o <= MAX_LOCAL_ORIGIN,
        -MAX_COORD <= lo <= MAX_COORD,
        -MAX_COORD <= hi <= MAX_COORD,
        -MAX_COORD <= ilo <= MAX_COORD,
        -MAX_COORD <= ihi <= MAX_COORD,
        lo <= ilo,
        ihi <= hi,
        t.den > 0,
        in_slab(crate::aabb::axis_slab(o, d, ilo, ihi), t),
    ensures
        in_slab(crate::aabb::axis_slab(o, d, lo, hi), t),
{
    let (oi, di, l, h, il, ih, n, e) = (
        o as int,
        d as int,
        lo as int,
        hi as int,
        ilo as int,
        ihi as int,
        t.num as int,
        t.den as int,
    );
    if d > 0 {
        assert((l - oi) * e <= (il - oi) * e) by (nonlinear_arith)
            requires
                l <= il,
                e > 0,
        ;
        assert((ih - oi) * e <= (h - oi) * e) by (nonlinear_arith)
            requires
                ih <= h,
                e > 0,
        ;
        assert(n * di <= (h - oi) * e) by (nonlinear_arith)
            requires
                n * di <= (ih - oi) * e,
                (ih - oi) * e <= (h - oi) * e,
        ;
    } else if d < 0 {
        assert((oi - h) * e <= (oi - ih) * e) by (nonlinear_arith)
            requires
                ih <= h,
                e > 0,
        ;
        assert((oi - il) * e <= (oi - l) * e) by (nonlinear_arith)
            requires
                l <= il,
                e > 0,
        ;
    }
}

/// The union of the boxes of the objects named in `idx`.
fn union_of(objs: &Vec<Object>, idx: &Vec<usize>) -> (r: AABB)
    requires
        idx@.len() >= 1,
        indices_ok(idx@, objs@.len() as int),
    ensures
        r == union_idx(objs@, idx@),
{
    let mut b = objs[idx[0]].bounding_box().unwrap();
    let mut k: usize = 1;
    while k < idx.len()
        invariant
            1 <= k <= idx@.len(),
            indices_ok(idx@, objs@.len() as int),
            b == union_idx(objs@, idx@.take(k as int)),
        decreases idx@.len() - k,
    {
        let bb = objs[idx[k]].bounding_box().unwrap();
        proof {
            assert(idx@.take(k + 1).drop_last() =~= idx@.take(k as int));
        }
        b = surrounding_box(b, bb);
        k = k + 1;
    }
    proof {
        assert(idx@.take(k as int) =~= idx@);
    }
    b
}

/// The axis along which `b` is widest; the first such axis on a tie.
fn widest_axis(b: &AABB) -> (r: usize)
    requires
        b.wf(),
    ensures
        r < 3,
        forall|a: int| 0 <= a < 3 ==> extent(*b, a) <= extent(*b, r as int),
{
    let ex = b.max.x - b.min.x;
    let ey = b.max.y - b.min.y;
    let ez = b.max.z - b.min.z;
    if ex >= ey && ex >= ez {
        0
    } else if ey >= ez {
        1
    } else {
        2
    }
}

fn key_of(objs: &Vec<Object>, i: usize, axis: usize) -> (r: i64)
    requires
        i < objs@.len(),
        objs[i as int].wf(),
        axis < 3,
    ensures
        r == centroid_key(objs@[i as int], axis as int),
{
    proof {
        lemma_bbox_wf(objs@[i as int]);
    }
    let b = objs[i].bounding_box().unwrap();
    b.min.axis(axis) + b.max.axis(axis)
}

/// The indices reordered by their objects' keys along `axis`, by insertion.
fn sort_by_key(objs: &Vec<Object>, idx: Vec<usize>, axis: usize) -> (r: Vec<usize>)
    requires
        objs_wf(objs@),
        indices_ok(idx@, objs@.len() as int),
        axis < 3,
    ensures
        r@.len() == idx@.len(),
        seq_set(r@) == seq_set(idx@),
        indices_ok(r@, objs@.len() as int),
        sorted_by_key(objs@, r@, axis as int),
{
    let mut sorted: Vec<usize> = Vec::new();
    let mut i: usize = 0;
    proof {
        assert(seq_set(sorted@) =~= seq_set(idx@.take(0)));
    }
    while i < idx.len()
        invariant
            objs_wf(objs@),
            indices_ok(idx@, objs@.len() as int),
            axis < 3,
            i <= idx@.len(),
            sorted@.len() == i,
            seq_set(sorted@) == seq_set(idx@.take(i as int)),
            indices_ok(sorted@, objs@.len() as int),
            sorted_by_key(objs@, sorted@, axis as int),
        decreases idx@.len() - i,
    {
        let x = idx[i];
        let kx = key_of(objs, x, axis);
        let mut p: usize = 0;
        while p < sorted.len() && key_of(objs, sorted[p], axis) <= kx
            invariant
                objs_wf(objs@),
                indices_ok(sorted@, objs@.len() as int),
                axis < 3,
                p <= sorted@.len(),
                kx == centroid_key(objs@[x as int], axis as int),
                forall|q: int| 0 <= q < p ==> centroid_key(objs@[sorted@[q] as int], axis as int) <= kx,
            decreases sorted@.len() - p,
        {
            p = p + 1;
        }
        let ghost old_sorted = sorted@;
        sorted.insert(p, x);
        proof {
            let s = old_sorted;
            let ns = sorted@;
            assert(ns =~= s.insert(p as int, x));
            assert forall|a: int, b: int| 0 <= a < b < ns.len() implies centroid_key(objs@[ns[a] as int], axis as int)
                <= centroid_key(objs@[ns[b] as int], axis as int) by {
                if p < s.len() {
                    assert(centroid_key(objs@[s[p as int] as int], axis as int) > kx);
                }
                if b == p && a < p {
                } else if a == p && b > p {
                    assert(ns[b] == s[b - 1]);
                } else if a < p && b > p {
                    assert(ns[b] == s[b - 1]);
                } else if a > p {
                    assert(ns[a] == s[a - 1] && ns[b] == s[b - 1]);
                }
            }
            let t0 = idx@.take(i as int);
            let t1 = idx@.take(i + 1);
            assert forall|v: int| seq_set(ns).contains(v) <==> seq_set(t1).contains(v) by {
                if seq_set(ns).contains(v) {
                    let k = choose|k: int| 0 <= k < ns.len() && ns[k] as int == v;
                    if k < p {
                        assert(seq_set(s).contains(v));
                    } else if k == p {
                        assert(t1[i as int] == x);
                    } else {
                        assert(ns[k] == s[k - 1]);
                        assert(seq_set(s).contains(v));
                    }
                    if seq_set(t0).contains(v) {
                        let j = choose|j: int| 0 <= j < t0.len() && t0[j] as int == v;
                        assert(t1[j] == t0[j]);
                    }
                }
                if seq_set(t1).contains(v) {
                    let j = choose|j: int| 0 <= j < t1.len() && t1[j] as int == v;
                    if j < i {
                        assert(t0[j] == t1[j]);
                        assert(seq_set(t0).contains(v));
                        assert(seq_set(s).contains(v));
                        let k = choose|k: int| 0 <= k < s.len() && s[k] as int == v;
                        if k < p {
                            assert(ns[k] == s[k]);
                        } else {
                            assert(ns[k + 1] == s[k]);
                        }
                    } else {
                        assert(ns[p as int] == x);
                    }
                }
            }
            assert(seq_set(ns) =~= seq_set(t1));
        }
        i = i + 1;
    }
    proof {
        assert(idx@.take(i as int) =~= idx@);
    }
    sorted
}

/// The box of a built node.
fn tree_box(objs: &Vec<Object>, tree: &BvhTree) -> (r: AABB)
    requires
        tree.wf(objs@),
    ensures
        r == tree.bounds(objs@),
{
    match tree {
        BvhTree::Leaf(v) => union_of(objs, v),
        BvhTree::Inner(_, _, b) => *b,
    }
}

/// Builds the subtree over the objects named in `idx`.
fn build_tree(objs: &Vec<Object>, idx: Vec<usize>, depth: u32) -> (r: BvhTree)
    requires
        objs_wf(objs@),
        idx@.len() >= 1,
        indices_ok(idx@, objs@.len() as int),
    ensures
        r.wf(objs@),
        r.indices() == seq_set(idx@),
        idx@.len() <= MAX_LEAF ==> (r matches BvhTree::Leaf(v) && v@.len() == idx@.len()),
    decreases idx@.len(),
{
    let all = union_of(objs, &idx);
    proof {
        lemma_union_idx(objs@, idx@);
    }
    let axis = widest_axis(&all);
    let mut sorted = sort_by_key(objs, idx, axis);
    if sorted.len() <= MAX_LEAF {
        return BvhTree::Leaf(sorted);
    }
    let ghost whole = sorted@;
    let half = sorted.len() / 2;
    let upper = sorted.split_off(half);
    let next = if depth < 0xffff_ffff { depth + 1 } else { depth };
    let left = build_tree(objs, upper, next);
    let right = build_tree(objs, sorted, next);
    let lb = tree_box(objs, &left);
    let rb = tree_box(objs, &right);
    proof {
        left.lemma_bounds(objs@);
        right.lemma_bounds(objs@);
        assert forall|v: int| seq_set(whole).contains(v) <==> left.indices().union(right.indices()).contains(v) by {
            if seq_set(whole).contains(v) {
                let k = choose|k: int| 0 <= k < whole.len() && whole[k] as int == v;
                if k < half {
                    assert(sorted@[k] == whole[k]);
                    assert(seq_set(sorted@).contains(v));
                } else {
                    assert(upper@[k - half] == whole[k]);
                    assert(seq_set(upper@).contains(v));
                }
            }
            if seq_set(sorted@).contains(v) {
                let k = choose|k: int| 0 <= k < sorted@.len() && sorted@[k] as int == v;
                assert(whole[k] == sorted@[k]);
            }
            if seq_set(upper@).contains(v) {
                let k = choose|k: int| 0 <= k < upper@.len() && upper@[k] as int == v;
                assert(whole[k + half] == upper@[k]);
            }
        }
        assert(seq_set(whole) =~= left.indices().union(right.indices()));
    }
    let bbox = surrounding_box(lb, rb);
    proof {
        let node = BvhTree::Inner(Box::new(left), Box::new(right), bbox);
        lemma_union_attained(lb, rb, objs@, left.indices(), right.indices());
        assert forall|i: int| #[trigger] seq_set(whole).contains(i) implies bbox.encloses(objs@[i].bbox()) by {
            assert(left.indices().union(right.indices()).contains(i));
        }
        lemma_attained_subset(bbox, objs@, left.indices().union(right.indices()), seq_set(whole));
        lemma_tight_unique(bbox, all, objs@, seq_set(whole));
        assert forall|i: int, j: int| #![trigger right.indices().contains(i), left.indices().contains(j)]
            right.indices().contains(i) && left.indices().contains(j) implies centroid_key(objs@[i], axis as int)
            <= centroid_key(objs@[j], axis as int) by {
            let k1 = choose|k: int| 0 <= k < sorted@.len() && sorted@[k] as int == i;
            let k2 = choose|k: int| 0 <= k < upper@.len() && upper@[k] as int == j;
            assert(whole[k1] == sorted@[k1]);
            assert(whole[k2 + half] == upper@[k2]);
        }
        assert(split_along(left, right, bbox, objs@, axis as int));
    }
    BvhTree::Inner(Box::new(left), Box::new(right), bbox)
}

/// The nearest hit over the objects below `tree`.
fn hit_tree(tree: &BvhTree, objs: &Vec<Object>, ray: &Ray, t_min: Param, t_max: Param) -> (r: Option<HitRecord>)
    requires
        tree.wf(objs@),
        objs_wf(objs@),
        ray.wf(),
        t_min.wf(),
        t_max.wf(),
    ensures
        nearest_in(r, objs@, tree.indices(), *ray, t_min, t_max),
        (tree matches BvhTree::Leaf(v) && v@.len() == 1 && r == objs@[v@[0] as int].hit_spec(*ray, t_min, t_max))
            || !(tree matches BvhTree::Leaf(v) && v@.len() == 1),
    decreases tree,
{
    match tree {
        BvhTree::Leaf(v) => scan_leaf(objs, v, ray, t_min, t_max),
        BvhTree::Inner(l, r, b) => {
            proof {
                tree.lemma_bounds(objs@);
            }
            if !b.hit(ray, t_min, t_max) {
                proof {
                    assert forall|i: int, t: Param|
                        tree.indices().contains(i) && t.den > 0 && t_min.le(t) && t.le(t_max)
                            && #[trigger] objs@[i].surface(*ray, t) implies false by {
                        assert(tree.indices().contains(i));
                        objs@[i].lemma_first(*ray, t_min, t_max);
                        lemma_encloses_holds(*b, objs@[i].bbox(), *ray, t);
                        assert(b.holds_at(*ray, t));
                    }
                }
                return None;
            }
            let left_hit = hit_tree(l, objs, ray, t_min, t_max);
            let t_hi = match &left_hit {
                Some(h) => h.t,
                None => t_max,
            };
            let right_hit = hit_tree(r, objs, ray, t_min, t_hi);
            proof {
                r.lemma_bounds(objs@);
                assert forall|i: int| #[trigger] r.indices().contains(i) implies 0 <= i < objs@.len() && objs@[i].wf() by {
                }
                lemma_combine(left_hit, right_hit, objs@, l.indices(), r.indices(), *ray, t_min, t_max);
            }
            match (left_hit, right_hit) {
                (None, None) => None,
                (None, Some(h)) => Some(h),
                (Some(h), None) => Some(h),
                (Some(lh), Some(rh)) => {
                    if lh.t.below(&rh.t) {
                        Some(lh)
                    } else {
                        Some(rh)
                    }
                },
            }
        },
    }
}

/// The nearest hit over the objects of a leaf, each searched up to the nearest found so far.
fn scan_leaf(objs: &Vec<Object>, v: &Vec<usize>, ray: &Ray, t_min: Param, t_max: Param) -> (r: Option<HitRecord>)
    requires
        indices_ok(v@, objs@.len() as int),
        objs_wf(objs@),
        ray.wf(),
        t_min.wf(),
        t_max.wf(),
    ensures
        nearest_in(r, objs@, seq_set(v@), *ray, t_min, t_max),
        v@.len() == 1 ==> r == objs@[v@[0] as int].hit_spec(*ray, t_min, t_max),
{
    let mut closest: Option<HitRecord> = None;
    let mut t_hi = t_max;
    let mut k: usize = 0;
    proof {
        crate::aabb::lemma_le_refl(t_max);
        assert(seq_set(v@.take(0)) =~= Set::<int>::empty());
    }
    while k < v.len()
        invariant
            indices_ok(v@, objs@.len() as int),
            objs_wf(objs@),
            ray.wf(),
            t_min.wf(),
            t_max.wf(),
            k <= v@.len(),
            t_hi.wf(),
            t_hi == (match closest { Some(h) => h.t, None => t_max }),
            nearest_in(closest, objs@, seq_set(v@.take(k as int)), *ray, t_min, t_max),
            k >= 1 && v@.len() == 1 ==> closest == objs@[v@[0] as int].hit_spec(*ray, t_min, t_max),
        decreases v@.len() - k,
    {
        let i = v[k];
        let res = objs[i].hit(ray, t_min, t_hi);
        proof {
            Object::lemma_hit_single(objs@, i as int, *ray, t_min, t_hi);
            lemma_combine(closest, res, objs@, seq_set(v@.take(k as int)), set![i as int], *ray, t_min, t_max);
            let t0 = v@.take(k as int);
            let t1 = v@.take(k + 1);
            assert forall|x: int| seq_set(t1).contains(x) <==> seq_set(t0).union(set![i as int]).contains(x) by {
                if seq_set(t1).contains(x) {
                    let j = choose|j: int| 0 <= j < t1.len() && t1[j] as int == x;
                    if j < k {
                        assert(t0[j] == v@[j]);
                    }
                }
                if seq_set(t0).contains(x) {
                    let j = choose|j: int| 0 <= j < t0.len() && t0[j] as int == x;
                    assert(t1[j] == v@[j]);
                }
                if x == i {
                    assert(t1[k as int] == i);
                }
            }
            assert(seq_set(t1) =~= seq_set(t0).union(set![i as int]));
        }
        if let Some(h) = res {
            t_hi = h.t;
            closest = Some(h);
        }
        k = k + 1;
    }
    proof {
        assert(v@.take(k as int) =~= v@);
    }
    closest
}

impl BVHNode {
    /// Every object is well formed, the tree is, and it holds every index of the arena.
    pub open spec fn wf(self) -> bool {
        &&& objs_wf(self.objects@)
        &&& self.root.wf(self.objects@)
        &&& self.root.indices() == index_set(self.objects@.len() as int)
        &&& self.objects@.len() == 1 ==> (self.root matches BvhTree::Leaf(v) && v@ == seq![0usize])
    }

    /// The root's box is the union of the boxes of all objects.
    pub proof fn lemma_root_box(self)
        requires
            self.wf(),
        ensures
            self.root.bounds(self.objects@) == union_all(self.objects@),
    {
        let objs = self.objects@;
        let n = objs.len() as int;
        self.root.lemma_bounds(objs);
        self.root.lemma_nonempty(objs);
        let i = choose|i: int| #[trigger] self.root.indices().contains(i);
        assert(index_set(n).contains(i));
        lemma_union_all(objs);
        lemma_tight_unique(self.root.bounds(objs), union_all(objs), objs, index_set(n));
    }

    /// Builds a hierarchy over `objects`; an empty list is refused.
    pub fn build(objects: Vec<Object>, depth: u32) -> (r: Result<BVHNode, BvhError>)
        requires
            objs_wf(objects@),
        ensures
            objects@.len() == 0 <==> r is Err,
            r matches Ok(n) ==> n.wf() && n.objects@ == objects@,
            r matches Ok(n) ==> n.root.bounds(n.objects@) == union_all(objects@),
    {
        if objects.len() == 0 {
            return Err(BvhError::Empty);
        }
        let mut idx: Vec<usize> = Vec::new();
        let mut i: usize = 0;
        while i < objects.len()
            invariant
                i <= objects@.len(),
                idx@.len() == i,
                forall|k: int| 0 <= k < i ==> #[trigger] idx@[k] == k,
            decreases objects@.len() - i,
        {
            idx.push(i);
            i = i + 1;
        }
        proof {
            assert forall|v: int| seq_set(idx@).contains(v) <==> index_set(objects@.len() as int).contains(v) by {
                if 0 <= v < objects@.len() {
                    assert(idx@[v] == v);
                }
            }
            assert(seq_set(idx@) =~= index_set(objects@.len() as int));
        }
        let root = build_tree(&objects, idx, depth);
        let node = BVHNode { objects, root };
        proof {
            if node.objects@.len() == 1 {
                if let BvhTree::Leaf(v) = &node.root {
                    assert(seq_set(v@).contains(v@[0] as int));
                    assert(index_set(1).contains(v@[0] as int));
                    assert(v@ =~= seq![0usize]);
                }
            }
            node.lemma_root_box();
        }
        Ok(node)
    }

    /// The nearest hit in `[t_min, t_max]` over every object of the hierarchy.
    pub fn hit(&self, ray: &Ray, t_min: Param, t_max: Param) -> (r: Option<HitRecord>)
        requires
            self.wf(),
            ray.wf(),
            t_min.wf(),
            t_max.wf(),
        ensures
            nearest_in(r, self.objects@, index_set(self.objects@.len() as int), *ray, t_min, t_max),
            self.objects@.len() == 1 ==> r == self.objects@[0].hit_spec(*ray, t_min, t_max),
    {
        hit_tree(&self.root, &self.objects, ray, t_min, t_max)
    }

    /// The box of the root, which encloses every object.
    pub fn bounding_box(&self) -> (r: Option<AABB>)
        requires
            self.wf(),
        ensures
            r == Some(self.root.bounds(self.objects@)),
            r == Some(union_all(self.objects@)),
            forall|i: int| 0 <= i < self.objects@.len() ==> self.root.bounds(self.objects@).encloses(
                #[trigger] self.objects@[i].bbox(),
            ),
    {
        proof {
            self.lemma_root_box();
            self.root.lemma_bounds(self.objects@);
            assert forall|i: int| 0 <= i < self.objects@.len() implies self.root.bounds(self.objects@).encloses(
                #[trigger] self.objects@[i].bbox(),
            ) by {
                assert(index_set(self.objects@.len() as int).contains(i));
            }
        }
        Some(tree_box(&self.objects, &self.root))
    }
}

/// The hierarchy and a linear scan of the same objects find the nearest hit at
/// the same parameter for every ray and range, and miss together.
pub proof fn lemma_bvh_matches_linear_scan(
    bvh: BVHNode,
    list: HittableList,
    ray: Ray,
    t_min: Param,
    t_max: Param,
    from_bvh: Option<HitRecord>,
    from_list: Option<HitRecord>,
)
    requires
        bvh.objects@ == list.objects@,
        nearest_in(from_bvh, bvh.objects@, index_set(bvh.objects@.len() as int), ray, t_min, t_max),
        nearest_in(from_list, list.objects@, index_set(list.objects@.len() as int), ray, t_min, t_max),
    ensures
        from_bvh.is_some() == from_list.is_some(),
        from_bvh matches Some(a) ==> (from_list matches Some(b) && a.t.same(b.t)),
{
    lemma_nearest_unique(from_bvh, from_list, bvh.objects@, index_set(bvh.objects@.len() as int), ray, t_min, t_max);
}

} // verus!
