//! Axis-aligned bounding boxes: the slab test and the union of two boxes.

use vstd::prelude::*;
use crate::geom::{lemma_le_trans, Param, Ray, Vec3, MAX_COORD, MAX_DEN, MAX_LOCAL_ORIGIN, MAX_SLAB_NUM};

verus! {

/// The parameters at which a ray lies between two planes: none, all, or a closed range.
#[derive(Clone, Copy, Debug)]
pub enum Slab {
    Empty,
    Full,
    Range(Param, Param),
}

pub open spec fn slab_param_ok(p: Param) -> bool {
    1 <= p.den <= MAX_DEN && -MAX_SLAB_NUM <= p.num <= MAX_SLAB_NUM
}

/// A range runs between two well-formed parameters, the first at most the second.
pub open spec fn slab_ok(s: Slab) -> bool {
    match s {
        Slab::Range(a, b) => a.wf() && b.wf() && a.le(b),
        _ => true,
    }
}

/// Both ends of a range are plane-crossing parameters of the grid.
pub open spec fn slab_tight(s: Slab) -> bool {
    match s {
        Slab::Range(a, b) => slab_param_ok(a) && slab_param_ok(b),
        _ => true,
    }
}

/// Parameter `t` lies in slab `s`.
pub open spec fn in_slab(s: Slab, t: Param) -> bool {
    match s {
        Slab::Empty => false,
        Slab::Full => true,
        Slab::Range(a, b) => a.le(t) && t.le(b),
    }
}

/// The slab of the planes `lo` and `hi` along one axis, for origin `o` and direction `d`.
pub open spec fn axis_slab(o: i64, d: i64, lo: i64, hi: i64) -> Slab {
    if d > 0 {
        Slab::Range(Param { num: (lo - o) as i64, den: d }, Param { num: (hi - o) as i64, den: d })
    } else if d < 0 {
        Slab::Range(
            Param { num: (o - hi) as i64, den: (-d) as i64 },
            Param { num: (o - lo) as i64, den: (-d) as i64 },
        )
    } else if lo <= o <= hi {
        Slab::Full
    } else {
        Slab::Empty
    }
}

/// The intersection of two slabs.
pub open spec fn meet(s1: Slab, s2: Slab) -> Slab {
    match (s1, s2) {
        (Slab::Empty, _) => Slab::Empty,
        (_, Slab::Empty) => Slab::Empty,
        (Slab::Full, s) => s,
        (s, Slab::Full) => s,
        (Slab::Range(a, b), Slab::Range(c, d)) => {
            let lo = if a.le(c) { c } else { a };
            let hi = if b.le(d) { b } else { d };
            if lo.le(hi) {
                Slab::Range(lo, hi)
            } else {
                Slab::Empty
            }
        },
    }
}

pub proof fn lemma_meet(s1: Slab, s2: Slab)
    requires
        slab_ok(s1),
        slab_ok(s2),
    ensures
        slab_ok(meet(s1, s2)),
        slab_tight(s1) && slab_tight(s2) ==> slab_tight(meet(s1, s2)),
        forall|t: Param| t.den > 0 ==> (in_slab(meet(s1, s2), t) <==> (in_slab(s1, t) && in_slab(s2, t))),
{
    if let (Slab::Range(a, b), Slab::Range(c, d)) = (s1, s2) {
        let lo = if a.le(c) { c } else { a };
        let hi = if b.le(d) { b } else { d };
        assert forall|t: Param| t.den > 0 implies (in_slab(meet(s1, s2), t) <==> (in_slab(s1, t) && in_slab(s2, t))) by {
            if in_slab(s1, t) && in_slab(s2, t) {
                lemma_le_trans(lo, t, hi);
            }
            if in_slab(meet(s1, s2), t) {
                lemma_le_trans(a, lo, t);
                lemma_le_trans(c, lo, t);
                lemma_le_trans(t, hi, b);
                lemma_le_trans(t, hi, d);
            }
        }
    }
}

/// `<=` on parameters is reflexive.
pub proof fn lemma_le_refl(a: Param)
    ensures
        a.le(a),
{
}

/// Every slab but an empty one holds a parameter; a range holds both of its ends.
pub proof fn lemma_range_ends(s: Slab)
    requires
        slab_ok(s),
    ensures
        s matches Slab::Range(a, b) ==> in_slab(s, a) && in_slab(s, b),
{
    if let Slab::Range(a, b) = s {
        lemma_le_refl(a);
        lemma_le_refl(b);
    }
}

/// The slab of one axis is a well-formed range when the direction is not zero.
pub proof fn lemma_axis_slab_ok(o: i64, d: i64, lo: i64, hi: i64)
    requires
        -MAX_LOCAL_ORIGIN <= o <= MAX_LOCAL_ORIGIN,
        -MAX_COORD <= d <= MAX_COORD,
        -MAX_COORD <= lo <= MAX_COORD,
        -MAX_COORD <= hi <= MAX_COORD,
        lo <= hi,
    ensures
        slab_ok(axis_slab(o, d, lo, hi)),
        slab_tight(axis_slab(o, d, lo, hi)),
{
    let (oi, di, l, h) = (o as int, d as int, lo as int, hi as int);
    if d > 0 {
        assert((l - oi) * di <= (h - oi) * di) by (nonlinear_arith)
            requires
                l <= h,
                di > 0,
        ;
    } else if d < 0 {
        assert((oi - h) * (-di) <= (oi - l) * (-di)) by (nonlinear_arith)
            requires
                l <= h,
                di < 0,
        ;
    }
}

/// The slab test read as a point test: the ray at `t` lies between the two planes.
pub proof fn lemma_in_slab_point(o: i64, d: i64, lo: i64, hi: i64, t: Param)
    requires
        -MAX_LOCAL_ORIGIN <= o <= MAX_LOCAL_ORIGIN,
        -MAX_COORD <= d <= MAX_COORD,
        -MAX_COORD <= lo <= MAX_COORD,
        -MAX_COORD <= hi <= MAX_COORD,
        t.den > 0,
    ensures
        in_slab(axis_slab(o, d, lo, hi), t) <==> (lo * t.den <= o * t.den + t.num * d && o * t.den + t.num * d
            <= hi * t.den),
{
    let (oi, di, l, h, n, e) = (o as int, d as int, lo as int, hi as int, t.num as int, t.den as int);
    assert((l - oi) * e == l * e - oi * e && (h - oi) * e == h * e - oi * e) by (nonlinear_arith);
    assert((oi - l) * e == oi * e - l * e && (oi - h) * e == oi * e - h * e) by (nonlinear_arith);
    assert(n * (-di) == -(n * di)) by (nonlinear_arith);
    if d == 0 {
        assert(n * di == 0) by (nonlinear_arith)
            requires
                di == 0,
        ;
        assert((l <= oi && oi <= h) <==> (l * e <= oi * e && oi * e <= h * e)) by (nonlinear_arith)
            requires
                e > 0,
        ;
    }
}

/// The slab of one axis, computed.
pub fn slab_of(o: i64, d: i64, lo: i64, hi: i64) -> (r: Slab)
    requires
        -MAX_LOCAL_ORIGIN <= o <= MAX_LOCAL_ORIGIN,
        -MAX_COORD <= d <= MAX_COORD,
        -MAX_COORD <= lo <= MAX_COORD,
        -MAX_COORD <= hi <= MAX_COORD,
        lo <= hi,
    ensures
        r == axis_slab(o, d, lo, hi),
        slab_ok(r),
        slab_tight(r),
{
    proof {
        lemma_axis_slab_ok(o, d, lo, hi);
    }
    if d > 0 {
        Slab::Range(Param { num: lo - o, den: d }, Param { num: hi - o, den: d })
    } else if d < 0 {
        Slab::Range(Param { num: o - hi, den: -d }, Param { num: o - lo, den: -d })
    } else if lo <= o && o <= hi {
        Slab::Full
    } else {
        Slab::Empty
    }
}

/// The intersection of two slabs, computed.
pub fn meet_of(s1: Slab, s2: Slab) -> (r: Slab)
    requires
        slab_ok(s1),
        slab_ok(s2),
    ensures
        r == meet(s1, s2),
        slab_ok(r),
{
    proof {
        lemma_meet(s1, s2);
    }
    match (s1, s2) {
        (Slab::Empty, _) => Slab::Empty,
        (_, Slab::Empty) => Slab::Empty,
        (Slab::Full, s) => s,
        (s, Slab::Full) => s,
        (Slab::Range(a, b), Slab::Range(c, d)) => {
            let lo = if a.at_most(&c) { c } else { a };
            let hi = if b.at_most(&d) { b } else { d };
            if lo.at_most(&hi) {
                Slab::Range(lo, hi)
            } else {
                Slab::Empty
            }
        },
    }
}

/// An axis-aligned box `[min, max]` on the grid.
#[derive(Clone, Copy, Debug)]
pub struct AABB {
    pub min: Vec3,
    pub max: Vec3,
}

impl AABB {
    /// Corners within the grid bound, `min <= max` on every axis.
    pub open spec fn wf(self) -> bool {
        &&& self.min.bounded(MAX_COORD as int)
        &&& self.max.bounded(MAX_COORD as int)
        &&& self.min.x <= self.max.x
        &&& self.min.y <= self.max.y
        &&& self.min.z <= self.max.z
    }

    /// `self` holds `o` on every axis.
    pub open spec fn encloses(self, o: AABB) -> bool {
        &&& self.min.x <= o.min.x && o.max.x <= self.max.x
        &&& self.min.y <= o.min.y && o.max.y <= self.max.y
        &&& self.min.z <= o.min.z && o.max.z <= self.max.z
    }

    /// The slab of the box along `axis` for `ray`.
    pub open spec fn slab(self, ray: Ray, axis: int) -> Slab {
        axis_slab(ray.orig.get(axis), ray.dir.get(axis), self.min.get(axis), self.max.get(axis))
    }

    /// The ray at parameter `t` lies in the box.
    pub open spec fn holds_at(self, ray: Ray, t: Param) -> bool {
        &&& in_slab(self.slab(ray, 0), t)
        &&& in_slab(self.slab(ray, 1), t)
        &&& in_slab(self.slab(ray, 2), t)
    }

    /// The parameters at which the whole line of the ray lies in the box.
    pub open spec fn line_slab(self, ray: Ray) -> Slab {
        meet(meet(self.slab(ray, 0), self.slab(ray, 1)), self.slab(ray, 2))
    }

    /// The ray meets the box at a parameter in `[t_min, t_max]`.
    pub open spec fn meets(self, ray: Ray, t_min: Param, t_max: Param) -> bool {
        exists|t: Param| #![trigger self.holds_at(ray, t)]
            t.den > 0 && t_min.le(t) && t.le(t_max) && self.holds_at(ray, t)
    }

    pub proof fn lemma_line_slab(self, ray: Ray)
        requires
            self.wf(),
            ray.wf_local(),
        ensures
            slab_ok(self.line_slab(ray)),
            slab_tight(self.line_slab(ray)),
            forall|t: Param| t.den > 0 ==> (in_slab(self.line_slab(ray), t) <==> self.holds_at(ray, t)),
    {
        let (s0, s1, s2) = (self.slab(ray, 0), self.slab(ray, 1), self.slab(ray, 2));
        lemma_axis_slab_ok(ray.orig.x, ray.dir.x, self.min.x, self.max.x);
        lemma_axis_slab_ok(ray.orig.y, ray.dir.y, self.min.y, self.max.y);
        lemma_axis_slab_ok(ray.orig.z, ray.dir.z, self.min.z, self.max.z);
        lemma_meet(s0, s1);
        lemma_meet(meet(s0, s1), s2);
    }

    /// Where the whole line of the ray lies in the box: a range from the
    /// entry parameter to the exit parameter, no parameter, or every one.
    pub fn line_interval(&self, ray: &Ray) -> (r: Slab)
        requires
            self.wf(),
            ray.wf_local(),
        ensures
            r == self.line_slab(*ray),
            slab_ok(r),
            slab_tight(r),
            forall|t: Param| t.den > 0 ==> (in_slab(r, t) <==> self.holds_at(*ray, t)),
    {
        proof {
            self.lemma_line_slab(*ray);
        }
        let sx = slab_of(ray.orig.x, ray.dir.x, self.min.x, self.max.x);
        let sy = slab_of(ray.orig.y, ray.dir.y, self.min.y, self.max.y);
        let sz = slab_of(ray.orig.z, ray.dir.z, self.min.z, self.max.z);
        meet_of(meet_of(sx, sy), sz)
    }

    /// The slab test: whether the ray lies in the box at some parameter of `[t_min, t_max]`.
    pub fn hit(&self, ray: &Ray, t_min: Param, t_max: Param) -> (r: bool)
        requires
            self.wf(),
            ray.wf_local(),
            t_min.wf(),
            t_max.wf(),
        ensures
            r == self.meets(*ray, t_min, t_max),
    {
        if !t_min.at_most(&t_max) {
            proof {
                if self.meets(*ray, t_min, t_max) {
                    let t = choose|t: Param| #![trigger self.holds_at(*ray, t)]
                        t.den > 0 && t_min.le(t) && t.le(t_max) && self.holds_at(*ray, t);
                    lemma_le_trans(t_min, t, t_max);
                }
            }
            return false;
        }
        let s = self.line_interval(ray);
        let whole = Slab::Range(t_min, t_max);
        proof {
            lemma_meet(s, whole);
            lemma_range_ends(meet(s, whole));
            if self.meets(*ray, t_min, t_max) {
                let t = choose|t: Param| #![trigger self.holds_at(*ray, t)]
                    t.den > 0 && t_min.le(t) && t.le(t_max) && self.holds_at(*ray, t);
                assert(in_slab(s, t));
                assert(in_slab(whole, t));
                assert(in_slab(meet(s, whole), t));
            }
            if let Slab::Range(a, b) = meet(s, whole) {
                assert(in_slab(meet(s, whole), a));
                assert(in_slab(s, a));
                assert(self.holds_at(*ray, a));
            }
        }
        match meet_of(s, whole) {
            Slab::Range(_, _) => true,
            _ => false,
        }
    }

    /// The box holding only the origin.
    pub fn zero() -> (r: AABB)
        ensures
            r.wf(),
            r.min.is_zero(),
            r.max.is_zero(),
    {
        AABB { min: Vec3 { x: 0, y: 0, z: 0 }, max: Vec3 { x: 0, y: 0, z: 0 } }
    }
}

pub open spec fn min_i64(a: i64, b: i64) -> i64 {
    if a <= b { a } else { b }
}

pub open spec fn max_i64(a: i64, b: i64) -> i64 {
    if a >= b { a } else { b }
}

/// The smallest box holding both boxes: the least corner of the two minima,
/// the greatest of the two maxima.
pub open spec fn union_box(a: AABB, b: AABB) -> AABB {
    AABB {
        min: Vec3 { x: min_i64(a.min.x, b.min.x), y: min_i64(a.min.y, b.min.y), z: min_i64(a.min.z, b.min.z) },
        max: Vec3 { x: max_i64(a.max.x, b.max.x), y: max_i64(a.max.y, b.max.y), z: max_i64(a.max.z, b.max.z) },
    }
}

/// The union of two boxes, component by component.
pub fn surrounding_box(box0: AABB, box1: AABB) -> (r: AABB)
    ensures
        r == union_box(box0, box1),
        box0.wf() && box1.wf() ==> r.wf(),
{
    let min = Vec3 {
        x: if box0.min.x <= box1.min.x { box0.min.x } else { box1.min.x },
        y: if box0.min.y <= box1.min.y { box0.min.y } else { box1.min.y },
        z: if box0.min.z <= box1.min.z { box0.min.z } else { box1.min.z },
    };
    let max = Vec3 {
        x: if box0.max.x >= box1.max.x { box0.max.x } else { box1.max.x },
        y: if box0.max.y >= box1.max.y { box0.max.y } else { box1.max.y },
        z: if box0.max.z >= box1.max.z { box0.max.z } else { box1.max.z },
    };
    AABB { min, max }
}

/// The union of two boxes encloses both of them on every axis.
pub proof fn lemma_surrounding_box_contains(a: AABB, b: AABB)
    ensures
        union_box(a, b).encloses(a),
        union_box(a, b).encloses(b),
{
}

/// The union of two boxes does not depend on their order.
pub proof fn lemma_surrounding_box_commutes(a: AABB, b: AABB)
    ensures
        union_box(a, b) == union_box(b, a),
{
}

/// Uniting boxes in either grouping gives the same box.
pub proof fn lemma_surrounding_box_associates(a: AABB, b: AABB, c: AABB)
    ensures
        union_box(union_box(a, b), c) == union_box(a, union_box(b, c)),
{
}

} // verus!
