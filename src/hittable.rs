//! The object composite: one closed set of variants behind a single hit query,
//! the face-flipping adapter, and lists scanned for the nearest hit.

use vstd::prelude::*;
use crate::aabb::{surrounding_box, union_box, AABB};
use crate::geom::{lemma_le_trans, Param, Ray, MAX_SLAB_NUM};
use crate::object::{AABox, HitRecord};
use crate::transform::{lemma_surface_in_box, Transform};

verus! {

/// Wraps an object and reports every hit of it from the other side.
pub struct FlipFace {
    pub object: Box<Object>,
}

/// Anything a ray query can be put to.
pub enum Object {
    Solid(AABox),
    Flip(FlipFace),
    Moved(Transform),
}

impl Object {
    pub open spec fn wf(self) -> bool
        decreases self,
    {
        match self {
            Object::Solid(b) => b.wf(),
            Object::Flip(f) => f.object.wf(),
            Object::Moved(tr) => tr.wf(),
        }
    }

    /// The box bounding every point where the object can be hit.
    pub open spec fn bbox(self) -> AABB
        decreases self,
    {
        match self {
            Object::Solid(b) => b.bbox,
            Object::Flip(f) => f.object.bbox(),
            Object::Moved(tr) => tr.bbox,
        }
    }

    /// The ray crosses the object's surface at `t`.
    pub open spec fn surface(self, ray: Ray, t: Param) -> bool
        decreases self,
    {
        match self {
            Object::Solid(b) => b.surface(ray, t),
            Object::Flip(f) => f.object.surface(ray, t),
            Object::Moved(tr) => tr.object.surface(tr.moved(ray), t),
        }
    }

    /// The smallest surface crossing in `[t_min, t_max]`.
    pub open spec fn first(self, ray: Ray, t_min: Param, t_max: Param) -> Option<Param>
        decreases self,
    {
        match self {
            Object::Solid(b) => b.first(ray, t_min, t_max),
            Object::Flip(f) => f.object.first(ray, t_min, t_max),
            Object::Moved(tr) => tr.object.first(tr.moved(ray), t_min, t_max),
        }
    }

    /// What the object reports of a crossing at `t`.
    pub open spec fn record_at(self, ray: Ray, t: Param) -> HitRecord
        decreases self,
    {
        match self {
            Object::Solid(b) => b.record_at(ray, t),
            Object::Flip(f) => {
                let h = f.object.record_at(ray, t);
                HitRecord { t: h.t, p: h.p, normal: h.normal, front_face: !h.front_face, material: h.material, uv: h.uv }
            },
            Object::Moved(tr) => tr.record_at(ray, t),
        }
    }

    /// The record of the nearest crossing in `[t_min, t_max]`, if any.
    pub open spec fn hit_spec(self, ray: Ray, t_min: Param, t_max: Param) -> Option<HitRecord> {
        match self.first(ray, t_min, t_max) {
            Some(t) => Some(self.record_at(ray, t)),
            None => None,
        }
    }

    pub fn hit(&self, ray: &Ray, t_min: Param, t_max: Param) -> (r: Option<HitRecord>)
        requires
            self.wf(),
            ray.wf(),
            t_min.wf(),
            t_max.wf(),
        ensures
            r == self.hit_spec(*ray, t_min, t_max),
        decreases self,
    {
        match self {
            Object::Solid(b) => b.hit(ray, t_min, t_max),
            Object::Flip(f) => match f.object.hit(ray, t_min, t_max) {
                Some(h) => Some(HitRecord { t: h.t, p: h.p, normal: h.normal, front_face: !h.front_face, material: h.material, uv: h.uv }),
                None => None,
            },
            Object::Moved(tr) => tr.hit(ray, t_min, t_max),
        }
    }

    pub fn bounding_box(&self) -> (r: Option<AABB>)
        ensures
            r == Some(self.bbox()),
        decreases self,
    {
        match self {
            Object::Solid(b) => b.bounding_box(),
            Object::Flip(f) => f.object.bounding_box(),
            Object::Moved(tr) => tr.bounding_box(),
        }
    }

    /// `first` is the smallest crossing in range, and every crossing lies in `bbox`.
    pub proof fn lemma_first(self, ray: Ray, t_min: Param, t_max: Param)
        requires
            self.wf(),
            ray.wf(),
            t_min.wf(),
            t_max.wf(),
        ensures
            self.first(ray, t_min, t_max) matches Some(f) ==> f.wf() && -MAX_SLAB_NUM <= f.num <= MAX_SLAB_NUM
                && t_min.le(f) && f.le(t_max) && self.surface(ray, f),
            forall|t: Param| t.den > 0 && t_min.le(t) && t.le(t_max) && #[trigger] self.surface(ray, t) ==>
                (self.first(ray, t_min, t_max) matches Some(g) && g.le(t)),
            forall|t: Param| t.den > 0 && #[trigger] self.surface(ray, t) ==> self.bbox().holds_at(ray, t),
            self.bbox().wf(),
        decreases self,
    {
        match self {
            Object::Solid(b) => {
                b.lemma_first(ray, t_min, t_max);
                assert forall|t: Param| t.den > 0 && #[trigger] self.surface(ray, t) implies
                    self.bbox().holds_at(ray, t) && (t_min.le(t) && t.le(t_max) ==>
                        (self.first(ray, t_min, t_max) matches Some(g) && g.le(t))) by {
                    assert(b.surface(ray, t));
                }

            },
            Object::Flip(f) => {
                f.object.lemma_first(ray, t_min, t_max);
                assert forall|t: Param| t.den > 0 && #[trigger] self.surface(ray, t) implies
                    self.bbox().holds_at(ray, t) && (t_min.le(t) && t.le(t_max) ==>
                        (self.first(ray, t_min, t_max) matches Some(g) && g.le(t))) by {
                    assert(f.object.surface(ray, t));
                }
            },
            Object::Moved(tr) => {
                let m = tr.moved(ray);
                tr.lemma_moved(ray);
                tr.object.lemma_first(m, t_min, t_max);
                assert forall|t: Param| t.den > 0 && #[trigger] self.surface(ray, t) implies
                    self.bbox().holds_at(ray, t) && (t_min.le(t) && t.le(t_max) ==>
                        (self.first(ray, t_min, t_max) matches Some(g) && g.le(t))) by {
                    assert(tr.object.surface(m, t));
                    lemma_surface_in_box(tr, ray, t);
                }
            },
        }
    }

    /// The first crossing up to `t_hi` is still the first up to any later `t_max`.
    pub proof fn lemma_first_shrink(self, ray: Ray, t_min: Param, t_hi: Param, t_max: Param)
        requires
            self.wf(),
            ray.wf(),
            t_min.wf(),
            t_hi.wf(),
            t_max.wf(),
            t_hi.le(t_max),
            self.first(ray, t_min, t_hi) is Some,
        ensures
            self.first(ray, t_min, t_max) == self.first(ray, t_min, t_hi),
        decreases self,
    {
        match self {
            Object::Solid(b) => b.lemma_first_shrink(ray, t_min, t_hi, t_max),
            Object::Flip(f) => f.object.lemma_first_shrink(ray, t_min, t_hi, t_max),
            Object::Moved(tr) => {
                tr.lemma_moved(ray);
                tr.object.lemma_first_shrink(tr.moved(ray), t_min, t_hi, t_max);
            },
        }
    }

    /// A record made at `t` reports `t`.
    pub proof fn lemma_record_t(self, ray: Ray, t: Param)
        ensures
            self.record_at(ray, t).t == t,
        decreases self,
    {
        match self {
            Object::Solid(b) => {},
            Object::Flip(f) => f.object.lemma_record_t(ray, t),
            Object::Moved(_) => {},
        }
    }

    /// The object's hit is the nearest over the one index `i` of `objs`.
    pub proof fn lemma_hit_single(objs: Seq<Object>, i: int, ray: Ray, t_min: Param, t_max: Param)
        requires
            0 <= i < objs.len(),
            objs[i].wf(),
            ray.wf(),
            t_min.wf(),
            t_max.wf(),
        ensures
            nearest_in(objs[i].hit_spec(ray, t_min, t_max), objs, set![i], ray, t_min, t_max),
    {
        objs[i].lemma_first(ray, t_min, t_max);
        let r = objs[i].hit_spec(ray, t_min, t_max);
        if let Some(g) = objs[i].first(ray, t_min, t_max) {
            objs[i].lemma_record_t(ray, g);
        }
        if let Some(h) = r {
            assert(set![i].contains(i));
        }
        assert forall|j: int, t: Param|
            set![i].contains(j) && t.den > 0 && t_min.le(t) && t.le(t_max) && #[trigger] objs[j].surface(ray, t) implies
            (r matches Some(h) && h.t.le(t)) by {
            assert(j == i);
            assert(objs[i].surface(ray, t));
        }
    }
}

impl FlipFace {
    pub fn new(object: Object) -> (r: FlipFace)
        ensures
            *r.object == object,
    {
        FlipFace { object: Box::new(object) }
    }

    pub fn boxed(self) -> (r: Box<FlipFace>)
        ensures
            *r == self,
    {
        Box::new(self)
    }

    /// The wrapped object's hit, with the face flag inverted.
    pub fn hit(&self, ray: &Ray, t_min: Param, t_max: Param) -> (r: Option<HitRecord>)
        requires
            self.object.wf(),
            ray.wf(),
            t_min.wf(),
            t_max.wf(),
        ensures
            r == Object::Flip(*self).hit_spec(*ray, t_min, t_max),
    {
        match self.object.hit(ray, t_min, t_max) {
            Some(h) => Some(HitRecord { t: h.t, p: h.p, normal: h.normal, front_face: !h.front_face, material: h.material, uv: h.uv }),
            None => None,
        }
    }

    pub fn bounding_box(&self) -> (r: Option<AABB>)
        ensures
            r == Some(self.object.bbox()),
    {
        self.object.bounding_box()
    }
}

/// `r` is the nearest hit in `[t_min, t_max]` over the objects of `objs` at the
/// indices in `idx`: it is a crossing of one of them, recorded as that one
/// records it, and no crossing of any of them in range comes before it; `None`
/// when none of them is crossed in range.
pub open spec fn nearest_in(
    r: Option<HitRecord>,
    objs: Seq<Object>,
    idx: Set<int>,
    ray: Ray,
    t_min: Param,
    t_max: Param,
) -> bool {
    &&& r matches Some(h) ==> {
        &&& h.t.wf()
        &&& -MAX_SLAB_NUM <= h.t.num <= MAX_SLAB_NUM
        &&& t_min.le(h.t)
        &&& h.t.le(t_max)
        &&& exists|i: int| #![trigger objs[i]]
            idx.contains(i) && 0 <= i < objs.len() && objs[i].surface(ray, h.t) && objs[i].hit_spec(ray, t_min, t_max) == Some(h)
    }
    &&& forall|i: int, t: Param|
        idx.contains(i) && t.den > 0 && t_min.le(t) && t.le(t_max) && #[trigger] objs[i].surface(ray, t) ==>
            (r matches Some(h) && h.t.le(t))
}

/// The indices `0 .. n`.
pub open spec fn index_set(n: int) -> Set<int> {
    Set::new(|i: int| 0 <= i < n)
}

/// A search over `s1` in `[t_min, t_max]`, then over `s2` up to the first hit
/// found: the second hit if there is one, else the first, is the nearest over both.
pub proof fn lemma_combine(
    r1: Option<HitRecord>,
    r2: Option<HitRecord>,
    objs: Seq<Object>,
    s1: Set<int>,
    s2: Set<int>,
    ray: Ray,
    t_min: Param,
    t_max: Param,
)
    requires
        t_min.wf(),
        t_max.wf(),
        ray.wf(),
        forall|i: int| #[trigger] s2.contains(i) ==> 0 <= i < objs.len() && objs[i].wf(),
        nearest_in(r1, objs, s1, ray, t_min, t_max),
        nearest_in(r2, objs, s2, ray, t_min, match r1 { Some(h) => h.t, None => t_max }),
    ensures
        nearest_in(if r2.is_some() { r2 } else { r1 }, objs, s1.union(s2), ray, t_min, t_max),
{
    let hi = match r1 {
        Some(h) => h.t,
        None => t_max,
    };
    let r = if r2.is_some() { r2 } else { r1 };
    if let Some(h2) = r2 {
        lemma_le_trans(h2.t, hi, t_max);
        let i = choose|i: int| #![trigger objs[i]]
            s2.contains(i) && 0 <= i < objs.len() && objs[i].surface(ray, h2.t) && objs[i].hit_spec(ray, t_min, hi) == Some(h2);
        assert(s1.union(s2).contains(i));
        objs[i].lemma_first_shrink(ray, t_min, hi, t_max);
    }
    if let Some(h1) = r1 {
        if r2.is_none() {
            let i = choose|i: int| #![trigger objs[i]]
                s1.contains(i) && 0 <= i < objs.len() && objs[i].surface(ray, h1.t) && objs[i].hit_spec(ray, t_min, t_max) == Some(h1);
            assert(s1.union(s2).contains(i));
        }
    }
    assert forall|i: int, t: Param|
        s1.union(s2).contains(i) && t.den > 0 && t_min.le(t) && t.le(t_max) && #[trigger] objs[i].surface(ray, t) implies
        (r matches Some(h) && h.t.le(t)) by {
        if s2.contains(i) && t.le(hi) {
            assert(r2 is Some);
        } else if let (Some(h1), Some(h2)) = (r1, r2) {
            // the second hit comes no later than the first, which comes no later than t
            lemma_le_trans(h2.t, h1.t, t);
        }
    }
}

/// Two nearest hits over the same objects lie at the same parameter, or both are `None`.
pub proof fn lemma_nearest_unique(
    r1: Option<HitRecord>,
    r2: Option<HitRecord>,
    objs: Seq<Object>,
    idx: Set<int>,
    ray: Ray,
    t_min: Param,
    t_max: Param,
)
    requires
        nearest_in(r1, objs, idx, ray, t_min, t_max),
        nearest_in(r2, objs, idx, ray, t_min, t_max),
    ensures
        r1.is_some() == r2.is_some(),
        r1 matches Some(h1) ==> (r2 matches Some(h2) && h1.t.same(h2.t)),
{
    if let Some(h1) = r1 {
        let i = choose|i: int| #![trigger objs[i]]
            idx.contains(i) && 0 <= i < objs.len() && objs[i].surface(ray, h1.t) && objs[i].hit_spec(ray, t_min, t_max) == Some(h1);
        assert(objs[i].surface(ray, h1.t));
    }
    if let Some(h2) = r2 {
        let i = choose|i: int| #![trigger objs[i]]
            idx.contains(i) && 0 <= i < objs.len() && objs[i].surface(ray, h2.t) && objs[i].hit_spec(ray, t_min, t_max) == Some(h2);
        assert(objs[i].surface(ray, h2.t));
    }
}

/// A sequence of objects, searched one after another.
pub struct HittableList {
    pub objects: Vec<Object>,
}

impl HittableList {
    pub open spec fn wf(self) -> bool {
        forall|i: int| 0 <= i < self.objects@.len() ==> #[trigger] self.objects@[i].wf()
    }

    pub fn new() -> (r: HittableList)
        ensures
            r.objects@.len() == 0,
    {
        HittableList { objects: Vec::new() }
    }

    pub fn push(&mut self, hittable: Object)
        ensures
            final(self).objects@ == old(self).objects@.push(hittable),
    {
        self.objects.push(hittable);
    }

    /// The nearest hit over all members: each member is searched up to the
    /// nearest hit found so far.
    pub fn hit(&self, ray: &Ray, t_min: Param, t_max: Param) -> (r: Option<HitRecord>)
        requires
            self.wf(),
            ray.wf(),
            t_min.wf(),
            t_max.wf(),
        ensures
            nearest_in(r, self.objects@, index_set(self.objects@.len() as int), *ray, t_min, t_max),
    {
        let objs = Ghost(self.objects@);
        let mut hit_closest: Option<HitRecord> = None;
        let mut closest_so_far = t_max;
        let n = self.objects.len();
        let mut i: usize = 0;
        proof {
            crate::aabb::lemma_le_refl(t_max);
            assert(index_set(0) =~= Set::<int>::empty());
        }
        while i < n
            invariant
                n == objs@.len(),
                objs@ == self.objects@,
                self.wf(),
                ray.wf(),
                t_min.wf(),
                t_max.wf(),
                i <= n,
                closest_so_far.wf(),
                closest_so_far == (match hit_closest { Some(h) => h.t, None => t_max }),
                nearest_in(hit_closest, objs@, index_set(i as int), *ray, t_min, t_max),
            decreases n - i,
        {
            let res = self.objects[i].hit(ray, t_min, closest_so_far);
            proof {
                Object::lemma_hit_single(objs@, i as int, *ray, t_min, closest_so_far);
                lemma_combine(hit_closest, res, objs@, index_set(i as int), set![i as int], *ray, t_min, t_max);
                assert(index_set(i as int).union(set![i as int]) =~= index_set(i + 1));
            }
            if let Some(h) = res {
                closest_so_far = h.t;
                hit_closest = Some(h);
            }
            i = i + 1;
        }
        hit_closest
    }

    /// The union of the members' boxes; `None` for an empty list.
    pub fn bounding_box(&self) -> (r: Option<AABB>)
        requires
            self.wf(),
        ensures
            self.objects@.len() == 0 <==> r.is_none(),
            r matches Some(b) ==> b == union_all(self.objects@),
    {
        if self.objects.len() == 0 {
            return None;
        }
        let mut output_box = self.objects[0].bounding_box().unwrap();
        let mut i: usize = 1;
        while i < self.objects.len()
            invariant
                1 <= i <= self.objects@.len(),
                output_box == union_all(self.objects@.take(i as int)),
            decreases self.objects@.len() - i,
        {
            let bb = self.objects[i].bounding_box().unwrap();
            proof {
                assert(self.objects@.take(i + 1).drop_last() =~= self.objects@.take(i as int));
            }
            output_box = surrounding_box(output_box, bb);
            i = i + 1;
        }
        proof {
            assert(self.objects@.take(i as int) =~= self.objects@);
        }
        Some(output_box)
    }
}

/// The union of the boxes of a non-empty sequence of objects, from the first on.
pub open spec fn union_all(objs: Seq<Object>) -> AABB
    decreases objs.len(),
{
    if objs.len() <= 1 {
        objs[0].bbox()
    } else {
        union_box(union_all(objs.drop_last()), objs.last().bbox())
    }
}

} // verus!
