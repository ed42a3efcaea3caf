//! Sampling densities and their uniform mixture, the balance heuristic of
//! multiple importance sampling.

use rand::Rng;
use vstd::prelude::*;
use crate::geom::Vec3;

verus! {

/// Density units in one steradian⁻¹.
pub const DENSITY_SCALE: u64 = 65536;

/// The uniform density over the sphere, 1/(4π) per steradian, in density units.
pub const UNIFORM_SPHERE_UNITS: u32 = 5215;

/// A density per steradian, in units of 1/65536.
#[derive(Clone, Copy, Debug)]
pub struct Density {
    pub units: u32,
}

/// The same density in every direction of the sphere.
#[derive(Clone, Copy, Debug)]
pub struct UniformPdf {}

impl UniformPdf {
    pub fn value(&self, _direction: &Vec3) -> (r: Density)
        ensures
            r.units == UNIFORM_SPHERE_UNITS,
    {
        Density { units: UNIFORM_SPHERE_UNITS }
    }
}

/// A density given outright, the same for every direction.
#[derive(Clone, Copy, Debug)]
pub struct ConstantPdf {
    pub density: Density,
}

/// The densities a mixture can hold.
#[derive(Clone, Copy, Debug)]
pub enum Pdf {
    Uniform(UniformPdf),
    Constant(ConstantPdf),
}

impl Pdf {
    /// The density toward `direction`, in density units.
    pub open spec fn density(self, direction: Vec3) -> u32 {
        match self {
            Pdf::Uniform(_) => UNIFORM_SPHERE_UNITS,
            Pdf::Constant(c) => c.density.units,
        }
    }

    pub fn value(&self, direction: &Vec3) -> (r: Density)
        ensures
            r.units == self.density(*direction),
    {
        match self {
            Pdf::Uniform(u) => u.value(direction),
            Pdf::Constant(c) => c.density,
        }
    }
}

/// An exact mean density: `total / count` density units.
#[derive(Clone, Copy, Debug)]
pub struct MeanDensity {
    pub total: u64,
    pub count: u64,
}

/// The sum of the members' densities toward `direction`.
pub open spec fn sum_density(pdfs: Seq<Pdf>, direction: Vec3) -> int
    decreases pdfs.len(),
{
    if pdfs.len() == 0 {
        0
    } else {
        sum_density(pdfs.drop_last(), direction) + pdfs.last().density(direction)
    }
}

/// Each member weighted `1/n`.
pub struct MixturePdf {
    pub pdfs: Vec<Pdf>,
}

/// Relies on rand's `Rng::gen_range` over `0..n` with the thread-local
/// generator: the result lies in that range, which is not empty.
#[verifier::external_body]
pub(crate) fn random_index(n: usize) -> (r: usize)
    requires
        n > 0,
    ensures
        r < n,
{
    rand::thread_rng().gen_range(0..n)
}

impl MixturePdf {
    pub fn new_uniform(pdfs: Vec<Pdf>) -> (r: MixturePdf)
        ensures
            r.pdfs@ == pdfs@,
    {
        MixturePdf { pdfs }
    }

    /// The arithmetic mean of the members' densities toward `direction`.
    pub fn value(&self, direction: &Vec3) -> (r: MeanDensity)
        requires
            1 <= self.pdfs@.len() <= 0xffff_ffff,
        ensures
            r.total == sum_density(self.pdfs@, *direction),
            r.count == self.pdfs@.len(),
    {
        let mut total: u64 = 0;
        let mut i: usize = 0;
        while i < self.pdfs.len()
            invariant
                i <= self.pdfs@.len() <= 0xffff_ffff,
                total == sum_density(self.pdfs@.take(i as int), *direction),
                total <= i * 0xffff_ffff,
            decreases self.pdfs@.len() - i,
        {
            proof {
                assert(self.pdfs@.take(i + 1).drop_last() =~= self.pdfs@.take(i as int));
                assert((i + 1) * 0xffff_ffff <= 0xffff_ffff * 0xffff_ffff) by (nonlinear_arith)
                    requires
                        i + 1 <= 0xffff_ffff,
                ;
                assert(i * 0xffff_ffff + 0xffff_ffff == (i + 1) * 0xffff_ffff) by (nonlinear_arith);
            }
            let v = self.pdfs[i].value(direction);
            total = total + v.units as u64;
            i = i + 1;
        }
        proof {
            assert(self.pdfs@.take(i as int) =~= self.pdfs@);
        }
        MeanDensity { total, count: self.pdfs.len() as u64 }
    }

    /// The member that draws the next direction, each with chance `1/n`.
    pub fn generate_index(&self) -> (r: usize)
        requires
            self.pdfs@.len() > 0,
        ensures
            r < self.pdfs@.len(),
    {
        random_index(self.pdfs.len())
    }
}

/// A mixture of two densities that are constant everywhere, `c1` and `c2`,
/// has the density `(c1 + c2) / 2` toward every direction: what `value`
/// returns is the total `c1 + c2` over the count 2.
pub proof fn lemma_mixture_of_constants(m: MixturePdf, c1: Density, c2: Density, direction: Vec3, r: MeanDensity)
    requires
        m.pdfs@ == seq![Pdf::Constant(ConstantPdf { density: c1 }), Pdf::Constant(ConstantPdf { density: c2 })],
        r.total == sum_density(m.pdfs@, direction),
        r.count == m.pdfs@.len(),
    ensures
        r.total == c1.units + c2.units,
        r.count == 2,
{
    let pdfs = m.pdfs@;
    let one = pdfs.drop_last();
    assert(one.len() == 1 && one.last() == pdfs[0]);
    assert(sum_density(one.drop_last(), direction) == 0);
    assert(sum_density(one, direction) == c1.units);
}

} // verus!
