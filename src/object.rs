//! Objects a ray can hit: axis-aligned boxes and rectangles, the face-flipping
//! adapter, and lists scanned for the nearest hit.

use vstd::prelude::*;
use crate::aabb::{
    axis_slab, lemma_le_refl, in_slab, slab_ok, slab_tight, surrounding_box, union_box, Slab, AABB,
};
use crate::geom::{lemma_le_trans, point_on, Param, Point, Ray, Vec3, MAX_COORD, MAX_DEN, MAX_SLAB_NUM};

verus! {

/// What a ray query reports: the parameter, the point, the normal facing the
/// ray, whether the ray came from the front, and the material met.
#[derive(Clone, Copy, Debug)]
pub struct HitRecord {
    pub t: Param,
    pub p: Point,
    pub normal: Vec3,
    pub front_face: bool,
    pub material: usize,
    pub uv: Uv,
}

/// Surface coordinates `(u_num / u_den, v_num / v_den)`, each in `[0, 1]`
/// across the face hit.
#[derive(Clone, Copy, Debug)]
pub struct Uv {
    pub u_num: i64,
    pub u_den: i64,
    pub v_num: i64,
    pub v_den: i64,
}

/// Where coordinate `c / den` lies across `[lo, hi]`, as a fraction; 0 for a
/// flat extent.
pub open spec fn across(c: i64, den: i64, lo: i64, hi: i64) -> (i64, i64) {
    if lo < hi {
        ((c - lo * den) as i64, (den * (hi - lo)) as i64)
    } else {
        (0, 1)
    }
}

/// The two axes in the plane of a face across `axis`, in order.
pub open spec fn plane_axes(axis: int) -> (int, int) {
    if axis == 0 {
        (1, 2)
    } else if axis == 1 {
        (0, 2)
    } else {
        (0, 1)
    }
}

/// The surface coordinates of point `p` on the face of `b` across `axis`.
pub open spec fn face_uv(b: AABB, axis: int, p: Point) -> Uv {
    let (j, k) = plane_axes(axis);
    let (un, ud) = across(p.get(j), p.den, b.min.get(j), b.max.get(j));
    let (vn, vd) = across(p.get(k), p.den, b.min.get(k), b.max.get(k));
    Uv { u_num: un, u_den: ud, v_num: vn, v_den: vd }
}

fn across_of(c: i64, den: i64, lo: i64, hi: i64) -> (r: (i64, i64))
    requires
        -0x20_0000_0000_0000 <= c <= 0x20_0000_0000_0000,
        1 <= den <= MAX_DEN,
        -MAX_COORD <= lo <= MAX_COORD,
        -MAX_COORD <= hi <= MAX_COORD,
    ensures
        r == across(c, den, lo, hi),
{
    proof {
        assert(-0x1_0000_0000_0000 <= lo * den <= 0x1_0000_0000_0000 && den * (hi - lo) <= 0x1_0000_0000_0000)
            by (nonlinear_arith)
            requires
                -1048576 <= lo <= 1048576,
                -1048576 <= hi <= 1048576,
                1 <= den <= 1048576,
        ;
    }
    if lo < hi {
        (c - lo * den, den * (hi - lo))
    } else {
        (0, 1)
    }
}

pub open spec fn dot(a: Vec3, b: Vec3) -> int {
    a.x * b.x + a.y * b.y + a.z * b.z
}

pub open spec fn neg(v: Vec3) -> Vec3 {
    Vec3 { x: -v.x as i64, y: -v.y as i64, z: -v.z as i64 }
}

/// A unit vector along one axis.
pub open spec fn unit_axis(v: Vec3) -> bool {
    ||| (v.x == 1 || v.x == -1) && v.y == 0 && v.z == 0
    ||| v.x == 0 && (v.y == 1 || v.y == -1) && v.z == 0
    ||| v.x == 0 && v.y == 0 && (v.z == 1 || v.z == -1)
}

/// The record of a hit at `t`, with the normal turned to face the ray.
pub open spec fn record(t: Param, p: Point, outward: Vec3, ray: Ray, material: usize, uv: Uv) -> HitRecord {
    let front = dot(ray.dir, outward) < 0;
    HitRecord { t, p, normal: if front { outward } else { neg(outward) }, front_face: front, material, uv }
}

impl HitRecord {
    /// Records a hit whose surface has `outward_normal`: the ray meets the front
    /// face when it runs against that normal.
    pub fn new(t: Param, p: Point, outward_normal: Vec3, ray: &Ray, material: usize, uv: Uv) -> (r: HitRecord)
        requires
            ray.dir.bounded(MAX_COORD as int),
            outward_normal.bounded(MAX_COORD as int),
        ensures
            r == record(t, p, outward_normal, *ray, material, uv),
    {
        proof {
            lemma_dot_bound(ray.dir, outward_normal);
        }
        let d = ray.dir;
        let n = outward_normal;
        let front_face = d.x * n.x + d.y * n.y + d.z * n.z < 0;
        let normal = if front_face { n } else { Vec3 { x: -n.x, y: -n.y, z: -n.z } };
        HitRecord { t, p, normal, front_face, material, uv }
    }

    /// Sets the face flag and the normal from the surface's `outward_normal`.
    pub fn set_face_normal(&mut self, ray: &Ray, outward_normal: Vec3)
        requires
            ray.dir.bounded(MAX_COORD as int),
            outward_normal.bounded(MAX_COORD as int),
        ensures
            *final(self) == record(old(self).t, old(self).p, outward_normal, *ray, old(self).material, old(self).uv),
    {
        proof {
            lemma_dot_bound(ray.dir, outward_normal);
        }
        let d = ray.dir;
        let n = outward_normal;
        self.front_face = d.x * n.x + d.y * n.y + d.z * n.z < 0;
        self.normal = if self.front_face { n } else { Vec3 { x: -n.x, y: -n.y, z: -n.z } };
    }
}

proof fn lemma_dot_bound(a: Vec3, b: Vec3)
    requires
        a.bounded(MAX_COORD as int),
        b.bounded(MAX_COORD as int),
    ensures
        -0x1_0000_0000_0000 <= a.x * b.x <= 0x1_0000_0000_0000,
        -0x1_0000_0000_0000 <= a.y * b.y <= 0x1_0000_0000_0000,
        -0x1_0000_0000_0000 <= a.z * b.z <= 0x1_0000_0000_0000,
{
    assert(forall|u: int, w: int|
        -1048576 <= u <= 1048576 && -1048576 <= w <= 1048576 ==> -0x1_0000_0000_0000 <= #[trigger] (u * w)
            <= 0x1_0000_0000_0000) by (nonlinear_arith);
}

/// The three kinds of axis-aligned rectangle, by the plane they lie in.
#[derive(Clone, Copy, Debug)]
pub enum AARectType {
    XY,
    XZ,
    YZ,
}

/// The unit vector along `axis`, with sign `s`.
pub open spec fn axis_unit(axis: int, s: i64) -> Vec3 {
    if axis == 0 {
        Vec3 { x: s, y: 0, z: 0 }
    } else if axis == 1 {
        Vec3 { x: 0, y: s, z: 0 }
    } else {
        Vec3 { x: 0, y: 0, z: s }
    }
}

/// Parameter `t` is literally an end of the box's slab along `axis`.
pub open spec fn ends_at(b: AABB, ray: Ray, axis: int, t: Param) -> bool {
    match b.slab(ray, axis) {
        Slab::Range(l, h) => l == t || h == t,
        _ => false,
    }
}

/// The first axis whose slab ends at `t`: the face the ray crosses there.
pub open spec fn face_axis(b: AABB, ray: Ray, t: Param) -> int {
    if ends_at(b, ray, 0, t) {
        0
    } else if ends_at(b, ray, 1, t) {
        1
    } else {
        2
    }
}

/// The outward normal of the face crossed at `t`. A flat box faces the positive
/// axis; otherwise the entry face faces against the ray and the exit face with it.
pub open spec fn outward_at(b: AABB, ray: Ray, t: Param) -> Vec3 {
    let i = face_axis(b, ray, t);
    let d = ray.dir.get(i);
    if b.min.get(i) == b.max.get(i) {
        axis_unit(i, 1)
    } else if (b.slab(ray, i) matches Slab::Range(l, _) && l == t) {
        axis_unit(i, if d > 0 { -1i64 } else { 1i64 })
    } else {
        axis_unit(i, if d > 0 { 1i64 } else { -1i64 })
    }
}

/// A solid axis-aligned box with a material; a flat one is a rectangle.
#[derive(Clone, Copy, Debug)]
pub struct AABox {
    pub bbox: AABB,
    pub material: usize,
}

impl AABox {
    pub open spec fn wf(self) -> bool {
        self.bbox.wf()
    }

    /// The smallest parameter in `[t_min, t_max]` where the ray crosses the
    /// surface: the entry if it lies there, else the exit.
    pub open spec fn first(self, ray: Ray, t_min: Param, t_max: Param) -> Option<Param> {
        match self.bbox.line_slab(ray) {
            Slab::Range(a, c) => if t_min.le(a) && a.le(t_max) {
                Some(a)
            } else if t_min.le(c) && c.le(t_max) {
                Some(c)
            } else {
                None
            },
            _ => None,
        }
    }

    /// The ray crosses the surface at `t`: at the entry or the exit of its line.
    pub open spec fn surface(self, ray: Ray, t: Param) -> bool {
        match self.bbox.line_slab(ray) {
            Slab::Range(a, c) => t.same(a) || t.same(c),
            _ => false,
        }
    }

    pub open spec fn record_at(self, ray: Ray, t: Param) -> HitRecord {
        let p = point_on(ray.orig, ray.dir, t);
        record(t, p, outward_at(self.bbox, ray, t), ray, self.material, face_uv(self.bbox, face_axis(self.bbox, ray, t), p))
    }

    /// The box spanned by two corners, in either order.
    pub fn new(p0: Vec3, p1: Vec3, material: usize) -> (r: AABox)
        requires
            p0.bounded(MAX_COORD as int),
            p1.bounded(MAX_COORD as int),
        ensures
            r.wf(),
            r.bbox == union_box(AABB { min: p0, max: p0 }, AABB { min: p1, max: p1 }),
            r.material == material,
    {
        AABox { bbox: surrounding_box(AABB { min: p0, max: p0 }, AABB { min: p1, max: p1 }), material }
    }

    /// The rectangle `[a0, a1] x [b0, b1]` at height `k` in the plane of `kind`.
    pub fn rect(kind: AARectType, a0: i64, a1: i64, b0: i64, b1: i64, k: i64, material: usize) -> (r: AABox)
        requires
            -MAX_COORD <= a0 <= MAX_COORD,
            -MAX_COORD <= a1 <= MAX_COORD,
            -MAX_COORD <= b0 <= MAX_COORD,
            -MAX_COORD <= b1 <= MAX_COORD,
            -MAX_COORD <= k <= MAX_COORD,
        ensures
            r.wf(),
            r.material == material,
            kind matches AARectType::XY ==> r.bbox == union_box(
                AABB { min: Vec3 { x: a0, y: b0, z: k }, max: Vec3 { x: a0, y: b0, z: k } },
                AABB { min: Vec3 { x: a1, y: b1, z: k }, max: Vec3 { x: a1, y: b1, z: k } },
            ),
            kind matches AARectType::XZ ==> r.bbox == union_box(
                AABB { min: Vec3 { x: a0, y: k, z: b0 }, max: Vec3 { x: a0, y: k, z: b0 } },
                AABB { min: Vec3 { x: a1, y: k, z: b1 }, max: Vec3 { x: a1, y: k, z: b1 } },
            ),
            kind matches AARectType::YZ ==> r.bbox == union_box(
                AABB { min: Vec3 { x: k, y: a0, z: b0 }, max: Vec3 { x: k, y: a0, z: b0 } },
                AABB { min: Vec3 { x: k, y: a1, z: b1 }, max: Vec3 { x: k, y: a1, z: b1 } },
            ),
    {
        match kind {
            AARectType::XY => AABox::new(Vec3 { x: a0, y: b0, z: k }, Vec3 { x: a1, y: b1, z: k }, material),
            AARectType::XZ => AABox::new(Vec3 { x: a0, y: k, z: b0 }, Vec3 { x: a1, y: k, z: b1 }, material),
            AARectType::YZ => AABox::new(Vec3 { x: k, y: a0, z: b0 }, Vec3 { x: k, y: a1, z: b1 }, material),
        }
    }

    pub fn bounding_box(&self) -> (r: Option<AABB>)
        ensures
            r == Some(self.bbox),
    {
        Some(self.bbox)
    }

    /// The nearest crossing of the surface in `[t_min, t_max]`.
    pub fn hit(&self, ray: &Ray, t_min: Param, t_max: Param) -> (r: Option<HitRecord>)
        requires
            self.wf(),
            ray.wf_local(),
            t_min.wf(),
            t_max.wf(),
        ensures
            r == (match self.first(*ray, t_min, t_max) {
                Some(t) => Some(self.record_at(*ray, t)),
                None => None,
            }),
    {
        let s = self.bbox.line_interval(ray);
        match s {
            Slab::Range(a, c) => {
                if t_min.at_most(&a) && a.at_most(&t_max) {
                    Some(self.record(ray, a))
                } else if t_min.at_most(&c) && c.at_most(&t_max) {
                    Some(self.record(ray, c))
                } else {
                    None
                }
            },
            _ => None,
        }
    }

    /// The record of the crossing at `t`, an end of the line's range.
    fn record(&self, ray: &Ray, t: Param) -> (r: HitRecord)
        requires
            self.wf(),
            ray.wf_local(),
            self.bbox.line_slab(*ray) matches Slab::Range(a, c) && (t == a || t == c),
        ensures
            r == self.record_at(*ray, t),
    {
        proof {
            self.bbox.lemma_line_slab(*ray);
            lemma_end_of_line(self.bbox, *ray, t);
        }
        let p = ray.point_at_parameter(t);
        let b = self.bbox;
        let s0 = crate::aabb::slab_of(ray.orig.x, ray.dir.x, b.min.x, b.max.x);
        let s1 = crate::aabb::slab_of(ray.orig.y, ray.dir.y, b.min.y, b.max.y);
        let s2 = crate::aabb::slab_of(ray.orig.z, ray.dir.z, b.min.z, b.max.z);
        let axis: usize = if slab_ends_at(&s0, &t) {
            0
        } else if slab_ends_at(&s1, &t) {
            1
        } else {
            2
        };
        let (lo, hi, d, s) = if axis == 0 {
            (b.min.x, b.max.x, ray.dir.x, s0)
        } else if axis == 1 {
            (b.min.y, b.max.y, ray.dir.y, s1)
        } else {
            (b.min.z, b.max.z, ray.dir.z, s2)
        };
        let entry = match s {
            Slab::Range(l, _) => l.num == t.num && l.den == t.den,
            _ => false,
        };
        let sign: i64 = if lo == hi {
            1
        } else if entry {
            if d > 0 { -1 } else { 1 }
        } else {
            if d > 0 { 1 } else { -1 }
        };
        let outward = if axis == 0 {
            Vec3 { x: sign, y: 0, z: 0 }
        } else if axis == 1 {
            Vec3 { x: 0, y: sign, z: 0 }
        } else {
            Vec3 { x: 0, y: 0, z: sign }
        };
        proof {
            crate::geom::lemma_point_bound(ray.orig.x as int, ray.dir.x as int, t);
            crate::geom::lemma_point_bound(ray.orig.y as int, ray.dir.y as int, t);
            crate::geom::lemma_point_bound(ray.orig.z as int, ray.dir.z as int, t);
        }
        let (u, v) = if axis == 0 {
            (across_of(p.y, p.den, b.min.y, b.max.y), across_of(p.z, p.den, b.min.z, b.max.z))
        } else if axis == 1 {
            (across_of(p.x, p.den, b.min.x, b.max.x), across_of(p.z, p.den, b.min.z, b.max.z))
        } else {
            (across_of(p.x, p.den, b.min.x, b.max.x), across_of(p.y, p.den, b.min.y, b.max.y))
        };
        let uv = Uv { u_num: u.0, u_den: u.1, v_num: v.0, v_den: v.1 };
        HitRecord::new(t, p, outward, ray, self.material, uv)
    }
}

impl AABox {
    /// `first` is the smallest surface crossing in `[t_min, t_max]`, and every
    /// crossing lies in the box.
    pub proof fn lemma_first(self, ray: Ray, t_min: Param, t_max: Param)
        requires
            self.wf(),
            ray.wf_local(),
            t_min.wf(),
            t_max.wf(),
        ensures
            self.first(ray, t_min, t_max) matches Some(f) ==> f.wf() && -MAX_SLAB_NUM <= f.num <= MAX_SLAB_NUM
                && t_min.le(f) && f.le(t_max) && self.surface(ray, f),
            forall|t: Param| t.den > 0 && t_min.le(t) && t.le(t_max) && #[trigger] self.surface(ray, t) ==>
                (self.first(ray, t_min, t_max) matches Some(g) && g.le(t)),
            forall|t: Param| t.den > 0 && #[trigger] self.surface(ray, t) ==> self.bbox.holds_at(ray, t),
    {
        let b = self.bbox;
        b.lemma_line_slab(ray);
        if let Slab::Range(a, c) = b.line_slab(ray) {
            crate::aabb::lemma_range_ends(b.line_slab(ray));
            assert forall|t: Param| t.den > 0 && #[trigger] self.surface(ray, t) implies b.holds_at(ray, t) by {
                if t.same(a) {
                    lemma_le_trans(t, a, c);
                } else {
                    lemma_le_trans(a, c, t);
                }
                assert(in_slab(b.line_slab(ray), t));
            }
            assert forall|t: Param|
                t.den > 0 && t_min.le(t) && t.le(t_max) && #[trigger] self.surface(ray, t) implies
                (self.first(ray, t_min, t_max) matches Some(f) && f.le(t)) by {
                if t.same(a) {
                    lemma_le_trans(t_min, t, a);
                    lemma_le_trans(a, t, t_max);
                } else {
                    lemma_le_trans(t_min, t, c);
                    lemma_le_trans(c, t, t_max);
                    lemma_le_trans(a, c, t);
                }
            }
            if self.first(ray, t_min, t_max) == Some(a) {
                assert(self.surface(ray, a));
            }
            if self.first(ray, t_min, t_max) == Some(c) {
                assert(self.surface(ray, c));
            }
        }
    }
}

impl AABox {
    /// The first crossing up to `t_hi` is still the first up to any later `t_max`.
    pub proof fn lemma_first_shrink(self, ray: Ray, t_min: Param, t_hi: Param, t_max: Param)
        requires
            self.wf(),
            ray.wf_local(),
            t_min.wf(),
            t_hi.wf(),
            t_max.wf(),
            t_hi.le(t_max),
            self.first(ray, t_min, t_hi) is Some,
        ensures
            self.first(ray, t_min, t_max) == self.first(ray, t_min, t_hi),
    {
        self.bbox.lemma_line_slab(ray);
        if let Slab::Range(a, c) = self.bbox.line_slab(ray) {
            if t_min.le(a) && a.le(t_hi) {
                lemma_le_trans(a, t_hi, t_max);
            } else {
                lemma_le_trans(c, t_hi, t_max);
                if t_min.le(a) {
                    lemma_le_trans(a, c, t_hi);
                }
            }
        }
    }
}

/// The outward normal of a crossing is a unit axis vector, and so is the recorded normal.
pub proof fn lemma_unit_outward(b: AABB, ray: Ray, t: Param)
    ensures
        unit_axis(outward_at(b, ray, t)),
        forall|m: usize, uv: Uv| (#[trigger] record(t, point_on(ray.orig, ray.dir, t), outward_at(b, ray, t), ray, m, uv)).normal.bounded(1),
{
}

fn slab_ends_at(s: &Slab, t: &Param) -> (r: bool)
    ensures
        r == (match *s {
            Slab::Range(l, h) => l == *t || h == *t,
            _ => false,
        }),
{
    match s {
        Slab::Range(l, h) => (l.num == t.num && l.den == t.den) || (h.num == t.num && h.den == t.den),
        _ => false,
    }
}

/// An end of the line's range is an end of one axis slab, so it is bounded
/// like every plane-crossing parameter.
proof fn lemma_end_of_line(b: AABB, ray: Ray, t: Param)
    requires
        b.wf(),
        ray.wf_local(),
        b.line_slab(ray) matches Slab::Range(a, c) && (t == a || t == c),
    ensures
        t.wf(),
        -MAX_SLAB_NUM <= t.num <= MAX_SLAB_NUM,
        ends_at(b, ray, 0, t) || ends_at(b, ray, 1, t) || ends_at(b, ray, 2, t),
{
    b.lemma_line_slab(ray);
}

} // verus!
