//! Participating media: where a ray runs inside a medium's boundary, and
//! whether a sampled free path ends there.

use vstd::prelude::*;
use crate::aabb::{axis_slab, in_slab, lemma_in_slab_point, Slab, AABB};
use crate::material::random_below;
use crate::geom::{lemma_le_trans, point_on, Param, Point, Ray, Vec3, MAX_COORD, MAX_DEN, MAX_LOCAL_ORIGIN, MAX_NUM};
use crate::object::{record, AABox, HitRecord, Uv};

verus! {

/// Fog of constant density filling a box; a scatter inside takes the phase
/// material.
#[derive(Clone, Copy, Debug)]
pub struct ConstantMedium {
    pub boundary: AABox,
    /// Scattering events per unit of path length, in units of 1/65536.
    pub density: u32,
    pub phase_function: usize,
}

pub open spec fn max_param(a: Param, b: Param) -> Param {
    if a.le(b) { b } else { a }
}

pub open spec fn min_param(a: Param, b: Param) -> Param {
    if a.le(b) { a } else { b }
}

/// The free path from `enter`, `path_num / enter.den` in parameter units,
/// ends at or before `exit`.
pub open spec fn ends_inside(enter: Param, exit: Param, path_num: int) -> bool {
    (enter.num + path_num) * exit.den <= exit.num * enter.den
}

/// `ends_inside`, computed.
fn path_ends_inside(enter: Param, exit: Param, path_num: u64) -> (r: bool)
    requires
        enter.wf(),
        exit.wf(),
        path_num <= 0x3fff_ffff_ffff_ffff,
    ensures
        r == ends_inside(enter, exit, path_num as int),
{
    let lhs = (enter.num as i128 + path_num as i128);
    proof {
        assert(-0x1_0000_0000_0000_0000_0000_0000_i128 <= lhs * exit.den <= 0x1_0000_0000_0000_0000_0000_0000_i128) by (nonlinear_arith)
            requires
                -MAX_NUM <= lhs <= 0x3fff_ffff_ffff_ffff + MAX_NUM,
                1 <= exit.den <= 1048576,
        ;
        assert(-0x1_0000_0000_0000_0000_0000_0000_i128 <= exit.num * enter.den <= 0x1_0000_0000_0000_0000_0000_0000_i128) by (nonlinear_arith)
            requires
                -MAX_NUM <= exit.num <= MAX_NUM,
                1 <= enter.den <= 1048576,
        ;
    }
    lhs * (exit.den as i128) <= (exit.num as i128) * (enter.den as i128)
}

/// The part of `[t_min, t_max]` a ray spends inside a boundary box, from the
/// entry (not before 0) to the exit; none for a probe ray, for a boundary
/// crossed at a single parameter, or when the part so clipped is empty.
pub open spec fn span_spec(boundary: AABox, ray: Ray, t_min: Param, t_max: Param) -> Option<(Param, Param)> {
    if ray.albedo_normal_ray {
        None
    } else {
        match boundary.bbox.line_slab(ray) {
            Slab::Range(a, c) => {
                let enter = max_param(max_param(a, t_min), Param { num: 0, den: 1 });
                let exit = min_param(c, t_max);
                if a.lt(c) && enter.lt(exit) {
                    Some((enter, exit))
                } else {
                    None
                }
            },
            _ => None,
        }
    }
}

fn medium_span(boundary: &AABox, ray: &Ray, t_min: Param, t_max: Param) -> (r: Option<(Param, Param)>)
    requires
        boundary.wf(),
        ray.wf_local(),
        t_min.wf(),
        t_max.wf(),
    ensures
        r == span_spec(*boundary, *ray, t_min, t_max),
        r matches Some((a, b)) ==> a.wf() && b.wf(),
{
    if ray.albedo_normal_ray {
        return None;
    }
    match boundary.bbox.line_interval(ray) {
        Slab::Range(a, c) => {
            let clipped = if a.at_most(&t_min) { t_min } else { a };
            let zero = Param::new(0, 1);
            let enter = if clipped.at_most(&zero) { zero } else { clipped };
            let exit = if c.at_most(&t_max) { c } else { t_max };
            if a.below(&c) && enter.below(&exit) {
                Some((enter, exit))
            } else {
                None
            }
        },
        _ => None,
    }
}

/// The scatter `path_num / enter.den` parameter units past the entry, when
/// the path ends inside: the point there, with the phase material.
pub open spec fn interior_spec(
    boundary: AABox,
    ray: Ray,
    t_min: Param,
    t_max: Param,
    path_num: int,
    material: usize,
) -> Option<HitRecord> {
    match span_spec(boundary, ray, t_min, t_max) {
        Some((enter, exit)) => if ends_inside(enter, exit, path_num) {
            let t = Param { num: (enter.num + path_num) as i64, den: enter.den };
            Some(record(t, point_on(ray.orig, ray.dir, t), Vec3 { x: 1, y: 0, z: 0 }, ray, material, Uv { u_num: 0, u_den: 1, v_num: 0, v_den: 1 }))
        } else {
            None
        },
        None => None,
    }
}

/// A span lies within the line's range through the box.
proof fn lemma_span_inside(boundary: AABox, ray: Ray, t_min: Param, t_max: Param)
    requires
        boundary.wf(),
        ray.wf_local(),
        t_min.wf(),
        t_max.wf(),
    ensures
        span_spec(boundary, ray, t_min, t_max) matches Some((e, x)) ==> (boundary.bbox.line_slab(ray) matches Slab::Range(a, c)
            && a.le(e) && x.le(c) && e.le(x) && e.wf() && x.wf() && 0 <= e.num),
{
    if let Some((e, x)) = span_spec(boundary, ray, t_min, t_max) {
        boundary.bbox.lemma_line_slab(ray);
        if let Slab::Range(a, c) = boundary.bbox.line_slab(ray) {
            let m = max_param(a, t_min);
            crate::aabb::lemma_le_refl(a);
            crate::aabb::lemma_le_refl(m);
            crate::aabb::lemma_le_refl(c);
            lemma_le_trans(a, m, e);
        }
    }
}

/// The interior hit, computed.
fn interior_hit(
    boundary: &AABox,
    ray: &Ray,
    t_min: Param,
    t_max: Param,
    path_num: u64,
    material: usize,
) -> (r: Option<HitRecord>)
    requires
        boundary.wf(),
        ray.wf_local(),
        t_min.wf(),
        t_max.wf(),
        path_num <= 0x3fff_ffff_ffff_ffff,
    ensures
        r == interior_spec(*boundary, *ray, t_min, t_max, path_num as int, material),
        r matches Some(h) ==> boundary.bbox.holds_at(*ray, h.t),
{
    proof {
        lemma_span_inside(*boundary, *ray, t_min, t_max);
    }
    match medium_span(boundary, ray, t_min, t_max) {
        Some((enter, exit)) => {
            if !path_ends_inside(enter, exit, path_num) {
                return None;
            }
            let t = Param { num: enter.num + path_num as i64, den: enter.den };
            proof {
                let (en, e, p) = (enter.num as int, enter.den as int, path_num as int);
                assert(en * e <= (en + p) * e) by (nonlinear_arith)
                    requires
                        p >= 0,
                        e > 0,
                ;
                assert(enter.le(t));
                assert(t.le(exit));
                boundary.bbox.lemma_line_slab(*ray);
                if let Slab::Range(a, c) = boundary.bbox.line_slab(*ray) {
                    lemma_le_trans(a, enter, t);
                    lemma_le_trans(t, exit, c);
                    assert(in_slab(boundary.bbox.line_slab(*ray), t));
                }
                assert(boundary.bbox.holds_at(*ray, t));
            }
            let p = point_in_box(&boundary.bbox, ray, t);
            let uv = Uv { u_num: 0, u_den: 1, v_num: 0, v_den: 1 };
            Some(HitRecord::new(t, p, Vec3 { x: 1, y: 0, z: 0 }, ray, material, uv))
        },
        None => None,
    }
}

/// The point of the ray at `t`, where the ray lies in the box.
fn point_in_box(b: &AABB, ray: &Ray, t: Param) -> (r: Point)
    requires
        b.wf(),
        ray.wf_local(),
        1 <= t.den <= MAX_DEN,
        b.holds_at(*ray, t),
    ensures
        r == point_on(ray.orig, ray.dir, t),
{
    proof {
        lemma_axis_point(ray.orig.x, ray.dir.x, b.min.x, b.max.x, t);
        lemma_axis_point(ray.orig.y, ray.dir.y, b.min.y, b.max.y, t);
        lemma_axis_point(ray.orig.z, ray.dir.z, b.min.z, b.max.z, t);
    }
    Point {
        x: ray.orig.x * t.den + t.num * ray.dir.x,
        y: ray.orig.y * t.den + t.num * ray.dir.y,
        z: ray.orig.z * t.den + t.num * ray.dir.z,
        den: t.den,
    }
}

/// Inside the slab of one axis, the terms of the point's numerator stay small.
proof fn lemma_axis_point(o: i64, d: i64, lo: i64, hi: i64, t: Param)
    requires
        -MAX_LOCAL_ORIGIN <= o <= MAX_LOCAL_ORIGIN,
        -MAX_COORD <= d <= MAX_COORD,
        -MAX_COORD <= lo <= MAX_COORD,
        -MAX_COORD <= hi <= MAX_COORD,
        1 <= t.den <= MAX_DEN,
        in_slab(axis_slab(o, d, lo, hi), t),
    ensures
        -0x10_0000_0000_0000 <= o * t.den <= 0x10_0000_0000_0000,
        -0x10_0000_0000_0000 <= t.num * d <= 0x10_0000_0000_0000,
        -0x10_0000_0000_0000 <= o * t.den + t.num * d <= 0x10_0000_0000_0000,
{
    lemma_in_slab_point(o, d, lo, hi, t);
    let (oi, e, l, h) = (o as int, t.den as int, lo as int, hi as int);
    assert(-0x8_0000_0000_0000 <= oi * e <= 0x8_0000_0000_0000) by (nonlinear_arith)
        requires
            -8388608 <= oi <= 8388608,
            1 <= e <= 1048576,
    ;
    assert(-0x1_0000_0000_0000 <= l * e <= 0x1_0000_0000_0000 && -0x1_0000_0000_0000 <= h * e <= 0x1_0000_0000_0000) by (nonlinear_arith)
        requires
            -1048576 <= l <= 1048576,
            -1048576 <= h <= 1048576,
            1 <= e <= 1048576,
    ;
}

impl ConstantMedium {
    pub open spec fn wf(self) -> bool {
        self.boundary.wf()
    }

    pub fn new(boundary: AABox, density: u32, phase_function: usize) -> (r: ConstantMedium)
        ensures
            r == (ConstantMedium { boundary, density, phase_function }),
    {
        ConstantMedium { boundary, density, phase_function }
    }

    pub fn bounding_box(&self) -> (r: Option<AABB>)
        ensures
            r == Some(self.boundary.bbox),
    {
        self.boundary.bounding_box()
    }

    /// Where the ray runs inside the medium within `[t_min, t_max]`.
    pub fn span(&self, ray: &Ray, t_min: Param, t_max: Param) -> (r: Option<(Param, Param)>)
        requires
            self.wf(),
            ray.wf_local(),
            t_min.wf(),
            t_max.wf(),
        ensures
            r == span_spec(self.boundary, *ray, t_min, t_max),
            r matches Some((a, b)) ==> a.wf() && b.wf(),
    {
        medium_span(&self.boundary, ray, t_min, t_max)
    }

    /// Whether a free path of `path_num / enter.den` parameter units, drawn
    /// from the entry, ends before the exit: a scatter there, else the ray
    /// passes through.
    pub fn scatters(&self, enter: Param, exit: Param, path_num: u64) -> (r: bool)
        requires
            enter.wf(),
            exit.wf(),
            path_num <= 0x3fff_ffff_ffff_ffff,
        ensures
            r == ends_inside(enter, exit, path_num as int),
    {
        path_ends_inside(enter, exit, path_num)
    }

    /// The medium's hit for a free path of `path_num / enter.den` parameter
    /// units drawn from the entry of its span: the point there, with the phase
    /// material; none when the ray passes through.
    pub fn hit_at(&self, ray: &Ray, t_min: Param, t_max: Param, path_num: u64) -> (r: Option<HitRecord>)
        requires
            self.wf(),
            ray.wf_local(),
            t_min.wf(),
            t_max.wf(),
            path_num <= 0x3fff_ffff_ffff_ffff,
        ensures
            r == interior_spec(self.boundary, *ray, t_min, t_max, path_num as int, self.phase_function),
            r matches Some(h) ==> self.boundary.bbox.holds_at(*ray, h.t),
    {
        interior_hit(&self.boundary, ray, t_min, t_max, path_num, self.phase_function)
    }
}

/// Fog whose density varies from point to point, bounded by `max_density`;
/// a free path is tracked by tentative steps drawn for the bound, each kept
/// with chance `density / max_density`.
#[derive(Clone, Copy, Debug)]
pub struct NonUniformMedium {
    pub boundary: AABox,
    /// The bound on the density, in the units of `ConstantMedium::density`.
    pub max_density: u32,
    pub phase_function: usize,
}

/// Where tracking stands after a tentative step.
#[derive(Clone, Copy, Debug, PartialEq, Eq)]
pub enum Tracking {
    /// Still inside, `path_num / enter.den` parameter units past the entry:
    /// the density there decides whether the step is kept.
    Probe(u64),
    /// The path left through the exit: the ray passes through.
    Pass,
}

impl NonUniformMedium {
    pub open spec fn wf(self) -> bool {
        self.boundary.wf() && self.max_density > 0
    }

    pub fn new(boundary: AABox, max_density: u32, phase_function: usize) -> (r: NonUniformMedium)
        ensures
            r == (NonUniformMedium { boundary, max_density, phase_function }),
    {
        NonUniformMedium { boundary, max_density, phase_function }
    }

    pub fn bounding_box(&self) -> (r: Option<AABB>)
        ensures
            r == Some(self.boundary.bbox),
    {
        self.boundary.bounding_box()
    }

    /// Where the ray runs inside the medium within `[t_min, t_max]`.
    pub fn span(&self, ray: &Ray, t_min: Param, t_max: Param) -> (r: Option<(Param, Param)>)
        requires
            self.wf(),
            ray.wf_local(),
            t_min.wf(),
            t_max.wf(),
        ensures
            r == span_spec(self.boundary, *ray, t_min, t_max),
            r matches Some((a, b)) ==> a.wf() && b.wf(),
    {
        medium_span(&self.boundary, ray, t_min, t_max)
    }

    /// One tentative step of `step_num` units after `travelled`: a probe at
    /// the new distance while it stays before the exit, else a pass.
    pub fn advance(&self, enter: Param, exit: Param, travelled: u64, step_num: u64) -> (r: Tracking)
        requires
            enter.wf(),
            exit.wf(),
            travelled <= 0x1fff_ffff_ffff_ffff,
            step_num <= 0x1fff_ffff_ffff_ffff,
        ensures
            ends_inside(enter, exit, travelled + step_num) ==> r == Tracking::Probe((travelled + step_num) as u64),
            !ends_inside(enter, exit, travelled + step_num) ==> r == Tracking::Pass,
    {
        let d = travelled + step_num;
        if path_ends_inside(enter, exit, d) {
            Tracking::Probe(d)
        } else {
            Tracking::Pass
        }
    }

    /// The medium's hit once tracking keeps a step `travelled / enter.den`
    /// parameter units past the entry: the point there, with the phase
    /// material; none when that lies beyond the exit.
    pub fn hit_at(&self, ray: &Ray, t_min: Param, t_max: Param, travelled: u64) -> (r: Option<HitRecord>)
        requires
            self.wf(),
            ray.wf_local(),
            t_min.wf(),
            t_max.wf(),
            travelled <= 0x3fff_ffff_ffff_ffff,
        ensures
            r == interior_spec(self.boundary, *ray, t_min, t_max, travelled as int, self.phase_function),
            r matches Some(h) ==> self.boundary.bbox.holds_at(*ray, h.t),
    {
        interior_hit(&self.boundary, ray, t_min, t_max, travelled, self.phase_function)
    }

    /// Whether a step is kept where the density is `density`: with the draw
    /// `y` below 2^32, when `density / max_density > y / 2^32`.
    pub fn keeps(&self, density: u32, y: u64) -> (r: bool)
        requires
            self.wf(),
        ensures
            r == (density as int * 0x1_0000_0000 > y as int * self.max_density as int),
    {
        proof {
            assert(y as int * self.max_density as int <= 0xffff_ffff_ffff_ffff * 0xffff_ffff) by (nonlinear_arith)
                requires
                    y <= 0xffff_ffff_ffff_ffff,
                    self.max_density <= 0xffff_ffff,
            ;
        }
        (density as u128) * 0x1_0000_0000 > (y as u128) * (self.max_density as u128)
    }

    /// Draws for a probe where the density is `density`: whether the step is
    /// kept, with chance `density / max_density` (certain at or above the bound).
    pub fn probe(&self, density: u32) -> (r: bool)
        requires
            self.wf(),
        ensures
            density >= self.max_density ==> r,
            density == 0 ==> !r,
    {
        let y = random_below(0x1_0000_0000);
        proof {
            if density >= self.max_density {
                assert(density as int * 0x1_0000_0000 > y as int * self.max_density as int) by (nonlinear_arith)
                    requires
                        density >= self.max_density,
                        self.max_density > 0,
                        y < 0x1_0000_0000,
                ;
            }
        }
        self.keeps(density, y)
    }
}

} // verus!
