//! Grid vectors, rational ray parameters and rays.

use vstd::prelude::*;

verus! {

/// Largest magnitude of a box corner coordinate or a direction component.
pub const MAX_COORD: i64 = 1048576;

/// Largest magnitude of a ray origin coordinate in world space.
pub const MAX_ORIGIN: i64 = 4194304;

/// Largest magnitude of a ray origin coordinate in an object's local frame.
pub const MAX_LOCAL_ORIGIN: i64 = 8388608;

/// Largest magnitude of the numerator of a ray parameter.
pub const MAX_NUM: i64 = 1099511627776;

/// Largest denominator of a ray parameter.
pub const MAX_DEN: i64 = 1048576;

/// Largest magnitude of the numerator of a parameter where a ray crosses a box plane.
pub const MAX_SLAB_NUM: i64 = 16777216;

/// A vector of grid coordinates.
#[derive(Clone, Copy, Debug)]
pub struct Vec3 {
    pub x: i64,
    pub y: i64,
    pub z: i64,
}

impl Vec3 {
    pub open spec fn get(self, axis: int) -> i64 {
        if axis == 0 {
            self.x
        } else if axis == 1 {
            self.y
        } else {
            self.z
        }
    }

    pub open spec fn bounded(self, b: int) -> bool {
        &&& -b <= self.x <= b
        &&& -b <= self.y <= b
        &&& -b <= self.z <= b
    }

    pub open spec fn is_zero(self) -> bool {
        self.x == 0 && self.y == 0 && self.z == 0
    }

    pub fn new(x: i64, y: i64, z: i64) -> (r: Vec3)
        ensures
            r == (Vec3 { x, y, z }),
    {
        Vec3 { x, y, z }
    }

    pub fn zero() -> (r: Vec3)
        ensures
            r.is_zero(),
    {
        Vec3 { x: 0, y: 0, z: 0 }
    }

    /// The coordinate along `axis` (0, 1 or 2).
    pub fn axis(&self, axis: usize) -> (r: i64)
        requires
            axis < 3,
        ensures
            r == self.get(axis as int),
    {
        if axis == 0 {
            self.x
        } else if axis == 1 {
            self.y
        } else {
            self.z
        }
    }
}

/// A ray parameter `num / den`, an exact rational with a positive denominator.
#[derive(Clone, Copy, Debug)]
pub struct Param {
    pub num: i64,
    pub den: i64,
}

impl Param {
    pub open spec fn wf(self) -> bool {
        &&& 1 <= self.den <= MAX_DEN
        &&& -MAX_NUM <= self.num <= MAX_NUM
    }

    /// `self <= o` as rationals.
    pub open spec fn le(self, o: Param) -> bool {
        self.num * o.den <= o.num * self.den
    }

    /// `self < o` as rationals.
    pub open spec fn lt(self, o: Param) -> bool {
        self.num * o.den < o.num * self.den
    }

    /// `self == o` as rationals.
    pub open spec fn same(self, o: Param) -> bool {
        self.num * o.den == o.num * self.den
    }

    pub fn new(num: i64, den: i64) -> (r: Param)
        requires
            1 <= den <= MAX_DEN,
            -MAX_NUM <= num <= MAX_NUM,
        ensures
            r == (Param { num, den }),
            r.wf(),
    {
        Param { num, den }
    }

    /// The parameter that stands beyond every box of the grid.
    pub fn far() -> (r: Param)
        ensures
            r.wf(),
            r.num == MAX_NUM,
            r.den == 1,
    {
        Param { num: MAX_NUM, den: 1 }
    }

    /// `self <= o`.
    pub fn at_most(&self, o: &Param) -> (r: bool)
        requires
            self.wf(),
            o.wf(),
        ensures
            r == self.le(*o),
    {
        proof {
            lemma_cross_bound(*self, *o);
            lemma_cross_bound(*o, *self);
        }
        self.num * o.den <= o.num * self.den
    }

    /// `self < o`.
    pub fn below(&self, o: &Param) -> (r: bool)
        requires
            self.wf(),
            o.wf(),
        ensures
            r == self.lt(*o),
    {
        proof {
            lemma_cross_bound(*self, *o);
            lemma_cross_bound(*o, *self);
        }
        self.num * o.den < o.num * self.den
    }
}

pub proof fn lemma_cross_bound(a: Param, b: Param)
    requires
        a.wf(),
        b.wf(),
    ensures
        -1152921504606846976 <= a.num * b.den <= 1152921504606846976,
{
    assert(-1152921504606846976 <= a.num * b.den <= 1152921504606846976) by (nonlinear_arith)
        requires
            1 <= b.den <= 1048576,
            -1099511627776 <= a.num <= 1099511627776,
    ;
}

/// `<=` on parameters is transitive.
pub proof fn lemma_le_trans(a: Param, b: Param, c: Param)
    requires
        a.den > 0,
        b.den > 0,
        c.den > 0,
        a.le(b),
        b.le(c),
    ensures
        a.le(c),
{
    let (an, ad, bn, bd, cn, cd) = (a.num as int, a.den as int, b.num as int, b.den as int, c.num as int, c.den as int);
    assert(an * cd <= cn * ad) by (nonlinear_arith)
        requires
            ad > 0,
            bd > 0,
            cd > 0,
            an * bd <= bn * ad,
            bn * cd <= cn * bd,
    {
        assert(an * bd * cd <= bn * ad * cd);
        assert(bn * cd * ad <= cn * bd * ad);
        assert(an * cd * bd <= cn * ad * bd);
    }
}

/// A point with rational coordinates `(x / den, y / den, z / den)`.
#[derive(Clone, Copy, Debug)]
pub struct Point {
    pub x: i64,
    pub y: i64,
    pub z: i64,
    pub den: i64,
}

impl Point {
    pub open spec fn get(self, axis: int) -> i64 {
        if axis == 0 {
            self.x
        } else if axis == 1 {
            self.y
        } else {
            self.z
        }
    }
}

/// A ray `origin + t * direction` on the grid.
#[derive(Clone, Copy, Debug)]
pub struct Ray {
    pub orig: Vec3,
    pub dir: Vec3,
    /// Probes albedo and normals only: media let such a ray pass.
    pub albedo_normal_ray: bool,
    /// Marks a ray whose path is traced for inspection.
    pub debug: bool,
}

/// The point `o + t * d` over the denominator of `t`.
pub open spec fn point_on(o: Vec3, d: Vec3, t: Param) -> Point {
    Point {
        x: (o.x * t.den + t.num * d.x) as i64,
        y: (o.y * t.den + t.num * d.y) as i64,
        z: (o.z * t.den + t.num * d.z) as i64,
        den: t.den,
    }
}

impl Ray {
    /// Origin within the world bound, direction within the coordinate bound.
    pub open spec fn wf(self) -> bool {
        self.orig.bounded(MAX_ORIGIN as int) && self.dir.bounded(MAX_COORD as int)
    }

    /// Origin within the bound of an object's local frame.
    pub open spec fn wf_local(self) -> bool {
        self.orig.bounded(MAX_LOCAL_ORIGIN as int) && self.dir.bounded(MAX_COORD as int)
    }

    pub fn new(a: Vec3, b: Vec3) -> (r: Ray)
        ensures
            r.orig == a,
            r.dir == b,
            !r.albedo_normal_ray,
            !r.debug,
    {
        Ray { orig: a, dir: b, albedo_normal_ray: false, debug: false }
    }

    pub fn origin(&self) -> (r: Vec3)
        ensures
            r == self.orig,
    {
        self.orig
    }

    pub fn direction(&self) -> (r: Vec3)
        ensures
            r == self.dir,
    {
        self.dir
    }

    /// The point at parameter `t`, as a rational point over `t.den`.
    pub fn point_at_parameter(&self, t: Param) -> (r: Point)
        requires
            self.wf_local(),
            t.wf(),
            -MAX_SLAB_NUM <= t.num <= MAX_SLAB_NUM,
        ensures
            r == point_on(self.orig, self.dir, t),
    {
        proof {
            lemma_point_bound(self.orig.x as int, self.dir.x as int, t);
            lemma_point_bound(self.orig.y as int, self.dir.y as int, t);
            lemma_point_bound(self.orig.z as int, self.dir.z as int, t);
        }
        Point {
            x: self.orig.x * t.den + t.num * self.dir.x,
            y: self.orig.y * t.den + t.num * self.dir.y,
            z: self.orig.z * t.den + t.num * self.dir.z,
            den: t.den,
        }
    }

    pub fn at(&self, t: Param) -> (r: Point)
        requires
            self.wf_local(),
            t.wf(),
            -MAX_SLAB_NUM <= t.num <= MAX_SLAB_NUM,
        ensures
            r == point_on(self.orig, self.dir, t),
    {
        self.point_at_parameter(t)
    }
}

pub proof fn lemma_point_bound(o: int, d: int, t: Param)
    requires
        -8388608 <= o <= 8388608,
        -1048576 <= d <= 1048576,
        1 <= t.den <= 1048576,
        -16777216 <= t.num <= 16777216,
    ensures
        -8796093022208 <= o * t.den <= 8796093022208,
        -17592186044416 <= t.num * d <= 17592186044416,
{
    let (n, e) = (t.num as int, t.den as int);
    assert(-8796093022208 <= o * e <= 8796093022208) by (nonlinear_arith)
        requires
            -8388608 <= o <= 8388608,
            1 <= e <= 1048576,
    ;
    assert(-17592186044416 <= n * d <= 17592186044416) by (nonlinear_arith)
        requires
            -1048576 <= d <= 1048576,
            -16777216 <= n <= 16777216,
    ;
}

} // verus!
