//! Placing a box in the world by an axis-aligned rotation and an offset.

use vstd::prelude::*;
use crate::aabb::{axis_slab, in_slab, lemma_in_slab_point, max_i64, min_i64, surrounding_box, union_box, AABB};
use crate::geom::{lemma_point_bound, point_on, Param, Point, Ray, Vec3, MAX_COORD, MAX_DEN, MAX_LOCAL_ORIGIN, MAX_ORIGIN, MAX_SLAB_NUM};
use crate::object::{unit_axis, AABox};

verus! {

/// Largest magnitude of a coordinate numerator of a hit point.
pub const MAX_POINT_NUM: i64 = 35184372088832;

/// A rotation by quarter turns: coordinate `i` of the image is coordinate
/// `axis(i)` of the vector, times `sign(i)`. Only proper rotations are well formed.
#[derive(Clone, Copy, Debug)]
pub struct Rotation {
    pub ax: usize,
    pub ay: usize,
    pub az: usize,
    pub sx: i64,
    pub sy: i64,
    pub sz: i64,
}

/// `v` with sign `s` applied.
pub open spec fn signed(s: i64, v: i64) -> i64 {
    if s == 1 {
        v
    } else {
        (-v) as i64
    }
}

fn signed_of(s: i64, v: i64) -> (r: i64)
    requires
        v > i64::MIN,
    ensures
        r == signed(s, v),
{
    if s == 1 {
        v
    } else {
        -v
    }
}

pub open spec fn unit_sign(s: i64) -> bool {
    s == 1 || s == -1
}

/// `(a, b, c)` is an even arrangement of `(0, 1, 2)`.
pub open spec fn even_perm(a: usize, b: usize, c: usize) -> bool {
    (a == 0 && b == 1 && c == 2) || (a == 1 && b == 2 && c == 0) || (a == 2 && b == 0 && c == 1)
}

impl Rotation {
    pub open spec fn wf(self) -> bool {
        &&& self.ax < 3 && self.ay < 3 && self.az < 3
        &&& self.ax != self.ay && self.ay != self.az && self.ax != self.az
        &&& unit_sign(self.sx) && unit_sign(self.sy) && unit_sign(self.sz)
        &&& if even_perm(self.ax, self.ay, self.az) {
            signed(self.sx, signed(self.sy, self.sz)) == 1
        } else {
            signed(self.sx, signed(self.sy, self.sz)) == -1
        }
    }

    /// `R v`.
    pub open spec fn apply(self, v: Vec3) -> Vec3 {
        Vec3 {
            x: signed(self.sx, v.get(self.ax as int)),
            y: signed(self.sy, v.get(self.ay as int)),
            z: signed(self.sz, v.get(self.az as int)),
        }
    }

    /// The coordinate `k` of `R^-1 w`.
    pub open spec fn unapply_at(self, w: Vec3, k: int) -> i64 {
        if self.ax as int == k {
            signed(self.sx, w.x)
        } else if self.ay as int == k {
            signed(self.sy, w.y)
        } else {
            signed(self.sz, w.z)
        }
    }

    /// `R^-1 w`, the transpose applied.
    pub open spec fn unapply(self, w: Vec3) -> Vec3 {
        Vec3 { x: self.unapply_at(w, 0), y: self.unapply_at(w, 1), z: self.unapply_at(w, 2) }
    }

    /// `R p` for a rational point.
    pub open spec fn apply_point(self, p: Point) -> Point {
        Point {
            x: signed(self.sx, p.get(self.ax as int)),
            y: signed(self.sy, p.get(self.ay as int)),
            z: signed(self.sz, p.get(self.az as int)),
            den: p.den,
        }
    }

    /// The rotation given by its axes and signs, if it is a proper rotation.
    pub fn new(ax: usize, ay: usize, az: usize, sx: i64, sy: i64, sz: i64) -> (r: Option<Rotation>)
        ensures
            r is Some <==> (Rotation { ax, ay, az, sx, sy, sz }).wf(),
            r matches Some(q) ==> q == (Rotation { ax, ay, az, sx, sy, sz }),
    {
        let q = Rotation { ax, ay, az, sx, sy, sz };
        if !(ax < 3 && ay < 3 && az < 3 && ax != ay && ay != az && ax != az) {
            return None;
        }
        if !((sx == 1 || sx == -1) && (sy == 1 || sy == -1) && (sz == 1 || sz == -1)) {
            return None;
        }
        let even = (ax == 0 && ay == 1 && az == 2) || (ax == 1 && ay == 2 && az == 0) || (ax == 2 && ay == 0
            && az == 1);
        let prod = signed_of(sx, signed_of(sy, sz));
        if (even && prod == 1) || (!even && prod == -1) {
            Some(q)
        } else {
            None
        }
    }

    pub fn identity() -> (r: Rotation)
        ensures
            r.wf(),
            forall|v: Vec3| r.apply(v) == v,
    {
        Rotation { ax: 0, ay: 1, az: 2, sx: 1, sy: 1, sz: 1 }
    }

    pub fn rotate(&self, v: &Vec3) -> (r: Vec3)
        requires
            self.wf(),
            v.bounded(MAX_LOCAL_ORIGIN as int),
        ensures
            r == self.apply(*v),
    {
        Vec3 {
            x: signed_of(self.sx, v.axis(self.ax)),
            y: signed_of(self.sy, v.axis(self.ay)),
            z: signed_of(self.sz, v.axis(self.az)),
        }
    }

    pub fn unrotate(&self, w: &Vec3) -> (r: Vec3)
        requires
            self.wf(),
            w.bounded(MAX_LOCAL_ORIGIN as int),
        ensures
            r == self.unapply(*w),
    {
        let (ax, ay) = (self.ax, self.ay);
        let (a, b, c) = (signed_of(self.sx, w.x), signed_of(self.sy, w.y), signed_of(self.sz, w.z));
        Vec3 {
            x: if ax == 0 { a } else if ay == 0 { b } else { c },
            y: if ax == 1 { a } else if ay == 1 { b } else { c },
            z: if ax == 2 { a } else if ay == 2 { b } else { c },
        }
    }

    pub fn rotate_point(&self, p: &Point) -> (r: Point)
        requires
            self.wf(),
            -MAX_POINT_NUM <= p.x <= MAX_POINT_NUM,
            -MAX_POINT_NUM <= p.y <= MAX_POINT_NUM,
            -MAX_POINT_NUM <= p.z <= MAX_POINT_NUM,
        ensures
            r == self.apply_point(*p),
    {
        let g = |k: usize| -> (c: i64)
            requires
                k < 3,
            ensures
                c == p.get(k as int),
            {
                if k == 0 {
                    p.x
                } else if k == 1 {
                    p.y
                } else {
                    p.z
                }
            };
        Point {
            x: signed_of(self.sx, g(self.ax)),
            y: signed_of(self.sy, g(self.ay)),
            z: signed_of(self.sz, g(self.az)),
            den: p.den,
        }
    }
}

proof fn lemma_offset_bound(c: int, den: int)
    requires
        -MAX_COORD <= c <= MAX_COORD,
        1 <= den <= MAX_DEN,
    ensures
        -1099511627776 <= c * den <= 1099511627776,
{
    assert(-1099511627776 <= c * den <= 1099511627776) by (nonlinear_arith)
        requires
            -1048576 <= c <= 1048576,
            1 <= den <= 1048576,
    ;
}

/// `v + w`.
pub open spec fn plus(v: Vec3, w: Vec3) -> Vec3 {
    Vec3 { x: (v.x + w.x) as i64, y: (v.y + w.y) as i64, z: (v.z + w.z) as i64 }
}

/// `v - w`.
pub open spec fn minus(v: Vec3, w: Vec3) -> Vec3 {
    Vec3 { x: (v.x - w.x) as i64, y: (v.y - w.y) as i64, z: (v.z - w.z) as i64 }
}

/// The world box of a local box: the union of its two corners rotated and offset.
pub open spec fn placed_box(b: AABB, r: Rotation, off: Vec3) -> AABB {
    let p = plus(r.apply(b.min), off);
    let q = plus(r.apply(b.max), off);
    union_box(AABB { min: p, max: p }, AABB { min: q, max: q })
}

/// A box placed in the world: rotated about its local origin, then offset.
#[derive(Clone, Copy, Debug)]
pub struct Transform {
    pub object: AABox,
    pub offset: Vec3,
    pub rotation: Rotation,
    pub bbox: AABB,
}

impl Transform {
    pub open spec fn wf(self) -> bool {
        &&& self.object.wf()
        &&& self.rotation.wf()
        &&& self.offset.bounded(MAX_COORD as int)
        &&& self.bbox == placed_box(self.object.bbox, self.rotation, self.offset)
        &&& self.bbox.wf()
    }

    /// The ray in the box's local frame: `R^-1 (o - offset)`, `R^-1 d`.
    pub open spec fn moved(self, ray: Ray) -> Ray {
        Ray {
            orig: self.rotation.unapply(minus(ray.orig, self.offset)),
            dir: self.rotation.unapply(ray.dir),
            albedo_normal_ray: ray.albedo_normal_ray,
            debug: ray.debug,
        }
    }

    /// A local point taken to the world: `R p + offset`.
    pub open spec fn place(self, p: Point) -> Point {
        let q = self.rotation.apply_point(p);
        Point {
            x: (q.x + self.offset.x * p.den) as i64,
            y: (q.y + self.offset.y * p.den) as i64,
            z: (q.z + self.offset.z * p.den) as i64,
            den: p.den,
        }
    }

    /// The box's record of a local hit at `t`, with point and normal taken to the world.
    pub open spec fn record_at(self, ray: Ray, t: Param) -> crate::object::HitRecord {
        let h = self.object.record_at(self.moved(ray), t);
        crate::object::HitRecord {
            t: h.t,
            p: self.place(h.p),
            normal: self.rotation.apply(h.normal),
            front_face: h.front_face,
            material: h.material,
            uv: h.uv,
        }
    }

    /// Places `object` by `rotation` and then `offset`, bounding it by its two
    /// transformed corners (exact for quarter-turn rotations).
    pub fn new(object: AABox, offset: Vec3, rotation: Rotation) -> (r: Transform)
        requires
            object.wf(),
            rotation.wf(),
            offset.bounded(MAX_COORD as int),
            placed_box(object.bbox, rotation, offset).wf(),
        ensures
            r.wf(),
            r.object == object,
            r.offset == offset,
            r.rotation == rotation,
    {
        let rmin = rotation.rotate(&object.bbox.min);
        let rmax = rotation.rotate(&object.bbox.max);
        let p = Vec3 { x: rmin.x + offset.x, y: rmin.y + offset.y, z: rmin.z + offset.z };
        let q = Vec3 { x: rmax.x + offset.x, y: rmax.y + offset.y, z: rmax.z + offset.z };
        let bbox = surrounding_box(AABB { min: p, max: p }, AABB { min: q, max: q });
        Transform { object, offset, rotation, bbox }
    }

    pub fn bounding_box(&self) -> (r: Option<AABB>)
        ensures
            r == Some(self.bbox),
    {
        Some(self.bbox)
    }

    pub proof fn lemma_moved(self, ray: Ray)
        requires
            self.wf(),
            ray.wf(),
        ensures
            self.moved(ray).wf_local(),
    {
    }

    /// What the box records at a crossing on the local ray stays within the
    /// bounds of a hit point.
    pub proof fn lemma_local_record(self, ray: Ray, t: Param)
        requires
            self.wf(),
            ray.wf(),
            t.wf(),
            -MAX_SLAB_NUM <= t.num <= MAX_SLAB_NUM,
        ensures
            ({
                let h = self.object.record_at(self.moved(ray), t);
                &&& -MAX_POINT_NUM <= h.p.x <= MAX_POINT_NUM
                &&& -MAX_POINT_NUM <= h.p.y <= MAX_POINT_NUM
                &&& -MAX_POINT_NUM <= h.p.z <= MAX_POINT_NUM
                &&& 1 <= h.p.den <= MAX_DEN
                &&& h.normal.bounded(1)
            }),
    {
        let m = self.moved(ray);
        lemma_point_bound(m.orig.x as int, m.dir.x as int, t);
        lemma_point_bound(m.orig.y as int, m.dir.y as int, t);
        lemma_point_bound(m.orig.z as int, m.dir.z as int, t);
        crate::object::lemma_unit_outward(self.object.bbox, m, t);
    }

    /// A local point taken to the world, computed.
    pub fn place_point(&self, p: &Point) -> (r: Point)
        requires
            self.wf(),
            -MAX_POINT_NUM <= p.x <= MAX_POINT_NUM,
            -MAX_POINT_NUM <= p.y <= MAX_POINT_NUM,
            -MAX_POINT_NUM <= p.z <= MAX_POINT_NUM,
            1 <= p.den <= MAX_DEN,
        ensures
            r == self.place(*p),
    {
        proof {
            lemma_offset_bound(self.offset.x as int, p.den as int);
            lemma_offset_bound(self.offset.y as int, p.den as int);
            lemma_offset_bound(self.offset.z as int, p.den as int);
        }
        let q = self.rotation.rotate_point(p);
        let off = self.offset;
        Point { x: q.x + off.x * p.den, y: q.y + off.y * p.den, z: q.z + off.z * p.den, den: p.den }
    }

    /// The ray in the local frame, computed.
    pub fn moved_ray(&self, ray: &Ray) -> (r: Ray)
        requires
            self.wf(),
            ray.wf(),
        ensures
            r == self.moved(*ray),
    {
        let o = ray.orig;
        let off = self.offset;
        let diff = Vec3 { x: o.x - off.x, y: o.y - off.y, z: o.z - off.z };
        Ray {
            orig: self.rotation.unrotate(&diff),
            dir: self.rotation.unrotate(&ray.dir),
            albedo_normal_ray: ray.albedo_normal_ray,
            debug: ray.debug,
        }
    }

    /// The box's hit on the ray taken to its local frame, with the point and
    /// normal taken back to the world.
    pub fn hit(&self, ray: &Ray, t_min: Param, t_max: Param) -> (r: Option<crate::object::HitRecord>)
        requires
            self.wf(),
            ray.wf(),
            t_min.wf(),
            t_max.wf(),
        ensures
            r == (match self.object.first(self.moved(*ray), t_min, t_max) {
                Some(t) => Some(self.record_at(*ray, t)),
                None => None,
            }),
    {
        let moved = self.moved_ray(ray);
        proof {
            self.object.lemma_first(moved, t_min, t_max);
        }
        match self.object.hit(&moved, t_min, t_max) {
            Some(h) => {
                proof {
                    self.lemma_local_record(*ray, h.t);
                }
                let p = self.place_point(&h.p);
                let n = self.rotation.rotate(&h.normal);
                Some(crate::object::HitRecord { t: h.t, p, normal: n, front_face: h.front_face, material: h.material, uv: h.uv })
            },
            None => None,
        }
    }
}

/// One world axis of a placed box: where the local ray lies between the local
/// planes, the world ray lies between the placed planes.
proof fn lemma_axis_placed(o: i64, d: i64, off: i64, s: i64, lo: i64, hi: i64, t: Param)
    requires
        unit_sign(s),
        -MAX_ORIGIN <= o <= MAX_ORIGIN,
        -MAX_COORD <= d <= MAX_COORD,
        -MAX_COORD <= off <= MAX_COORD,
        -MAX_COORD <= lo <= MAX_COORD,
        -MAX_COORD <= hi <= MAX_COORD,
        lo <= hi,
        -MAX_COORD <= signed(s, lo) + off <= MAX_COORD,
        -MAX_COORD <= signed(s, hi) + off <= MAX_COORD,
        t.den > 0,
        in_slab(axis_slab(signed(s, (o - off) as i64), signed(s, d), lo, hi), t),
    ensures
        in_slab(
            axis_slab(
                o,
                d,
                min_i64((signed(s, lo) + off) as i64, (signed(s, hi) + off) as i64),
                max_i64((signed(s, lo) + off) as i64, (signed(s, hi) + off) as i64),
            ),
            t,
        ),
{
    let lo_w = min_i64((signed(s, lo) + off) as i64, (signed(s, hi) + off) as i64);
    let hi_w = max_i64((signed(s, lo) + off) as i64, (signed(s, hi) + off) as i64);
    lemma_in_slab_point(signed(s, (o - off) as i64), signed(s, d), lo, hi, t);
    lemma_in_slab_point(o, d, lo_w, hi_w, t);
    let (oi, di, f, l, h, n, e) = (o as int, d as int, off as int, lo as int, hi as int, t.num as int, t.den as int);
    assert((oi - f) * e == oi * e - f * e && (f - oi) * e == f * e - oi * e) by (nonlinear_arith);
    assert(n * (-di) == -(n * di)) by (nonlinear_arith);
    assert((l + f) * e == l * e + f * e && (h + f) * e == h * e + f * e) by (nonlinear_arith);
    assert((-h + f) * e == -(h * e) + f * e && (-l + f) * e == -(l * e) + f * e) by (nonlinear_arith);
}

/// One world coordinate of a local point taken back to the world.
proof fn lemma_axis_round_trip(o: i64, d: i64, off: i64, s: i64, t: Param)
    requires
        unit_sign(s),
        -MAX_ORIGIN <= o <= MAX_ORIGIN,
        -MAX_COORD <= d <= MAX_COORD,
        -MAX_COORD <= off <= MAX_COORD,
        t.wf(),
        -MAX_SLAB_NUM <= t.num <= MAX_SLAB_NUM,
    ensures
        ({
            let local = signed(s, (o - off) as i64) * t.den + t.num * signed(s, d);
            signed(s, local as i64) + off * t.den == o * t.den + t.num * d
        }),
        -MAX_POINT_NUM <= signed(s, (o - off) as i64) * t.den + t.num * signed(s, d) <= MAX_POINT_NUM,
{
    let (oi, di, f, n, e) = (o as int, d as int, off as int, t.num as int, t.den as int);
    lemma_point_bound(signed(s, (o - off) as i64) as int, signed(s, d) as int, t);
    assert((oi - f) * e == oi * e - f * e && (f - oi) * e == f * e - oi * e) by (nonlinear_arith);
    assert(n * (-di) == -(n * di)) by (nonlinear_arith);
}

/// Of a placed box, a crossing of the local ray lies in the world box.
pub proof fn lemma_surface_in_box(tr: Transform, ray: Ray, t: Param)
    requires
        tr.wf(),
        ray.wf(),
        t.den > 0,
        tr.object.surface(tr.moved(ray), t),
    ensures
        tr.bbox.holds_at(ray, t),
{
    let m = tr.moved(ray);
    let z = Param { num: 0, den: 1 };
    tr.object.lemma_first(m, z, z);
    assert(tr.object.bbox.holds_at(m, t));
    lemma_world_axis(tr, ray, t, 0);
    lemma_world_axis(tr, ray, t, 1);
    lemma_world_axis(tr, ray, t, 2);
}

/// World axis `i` of a placed box holds the world ray wherever the local ray
/// lies in the local box.
proof fn lemma_world_axis(tr: Transform, ray: Ray, t: Param, i: int)
    requires
        tr.wf(),
        ray.wf(),
        t.den > 0,
        0 <= i < 3,
        tr.object.bbox.holds_at(tr.moved(ray), t),
    ensures
        in_slab(tr.bbox.slab(ray, i), t),
{
    let m = tr.moved(ray);
    let b = tr.object.bbox;
    let r = tr.rotation;
    let w = minus(ray.orig, tr.offset);
    let (a, s) = if i == 0 {
        (r.ax as int, r.sx)
    } else if i == 1 {
        (r.ay as int, r.sy)
    } else {
        (r.az as int, r.sz)
    };
    assert(in_slab(b.slab(m, a), t)) by {
        if a == 0 {
        } else if a == 1 {
        } else {
        }
    }
    assert(m.orig.get(a) == signed(s, w.get(i)) && m.dir.get(a) == signed(s, ray.dir.get(i))) by {
        if a == 0 {
        } else if a == 1 {
        } else {
        }
    }
    let p = plus(r.apply(b.min), tr.offset);
    let q = plus(r.apply(b.max), tr.offset);
    assert(p.get(i) == (signed(s, b.min.get(a)) + tr.offset.get(i)) as i64);
    assert(q.get(i) == (signed(s, b.max.get(a)) + tr.offset.get(i)) as i64);
    assert(b.min.get(a) <= b.max.get(a)) by {
        if a == 0 {
        } else if a == 1 {
        } else {
        }
    }
    lemma_axis_placed(ray.orig.get(i), ray.dir.get(i), tr.offset.get(i), s, b.min.get(a), b.max.get(a), t);
}

/// A hit point found in a box's local frame and taken back by `R p + offset`
/// is the point of the world ray at the same parameter.
pub proof fn lemma_transform_round_trip(tr: Transform, ray: Ray, t: Param)
    requires
        tr.wf(),
        ray.wf(),
        t.wf(),
        -MAX_SLAB_NUM <= t.num <= MAX_SLAB_NUM,
    ensures
        tr.record_at(ray, t).p == tr.place(tr.object.record_at(tr.moved(ray), t).p),
        tr.object.record_at(tr.moved(ray), t).p == point_on(tr.moved(ray).orig, tr.moved(ray).dir, t),
        tr.place(point_on(tr.moved(ray).orig, tr.moved(ray).dir, t)) == point_on(ray.orig, ray.dir, t),
{
    let r = tr.rotation;
    lemma_axis_round_trip(ray.orig.x, ray.dir.x, tr.offset.x, r.sx, t);
    lemma_axis_round_trip(ray.orig.y, ray.dir.y, tr.offset.y, r.sy, t);
    lemma_axis_round_trip(ray.orig.z, ray.dir.z, tr.offset.z, r.sz, t);
}

} // verus!
