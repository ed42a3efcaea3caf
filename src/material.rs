//! Materials and environments as the estimator sees them, and the importance
//! map that picks environment pixels in proportion to their weight.

use rand::Rng;
use vstd::prelude::*;

verus! {

/// A material that neither scatters nor emits.
#[derive(Clone, Copy, Debug)]
pub struct EmptyMaterial {}

/// A sky that fades from white at the horizon to blue overhead.
#[derive(Clone, Copy, Debug)]
pub struct SimpleEnvironment {}

/// The pixel of linear index `n` in an image `w` pixels wide: column and row.
pub fn n_to_xy(n: usize, w: u32, h: u32) -> (r: (u32, u32))
    requires
        w > 0,
        (n as int) / (w as int) <= u32::MAX,
    ensures
        r.0 == (n as int) % (w as int),
        r.1 == (n as int) / (w as int),
{
    let x = (n % (w as usize)) as u32;
    let y = (n / (w as usize)) as u32;
    (x, y)
}

/// The linear index of pixel `(x, y)` in an image `w` pixels wide.
pub fn xy_to_n(x: u32, y: u32, w: u32) -> (r: usize)
    requires
        y * w + x <= u32::MAX,
    ensures
        r == y * w + x,
{
    (y * w + x) as usize
}

/// The sum of the first `n` weights.
pub open spec fn prefix_sum(w: Seq<u32>, n: int) -> int
    decreases n,
{
    if n <= 0 {
        0
    } else {
        prefix_sum(w, n - 1) + w[n - 1]
    }
}

proof fn lemma_prefix_sum_bound(w: Seq<u32>, n: int)
    requires
        0 <= n <= w.len(),
    ensures
        0 <= prefix_sum(w, n) <= n * 0xffff_ffff,
    decreases n,
{
    if n > 0 {
        lemma_prefix_sum_bound(w, n - 1);
    }
}

proof fn lemma_prefix_sum_mono(w: Seq<u32>, i: int, j: int)
    requires
        0 <= i <= j <= w.len(),
    ensures
        prefix_sum(w, i) <= prefix_sum(w, j),
    decreases j - i,
{
    if i < j {
        lemma_prefix_sum_mono(w, i, j - 1);
    }
}

/// The running sums of the weights: entry `i` sums the weights `0 ..= i`.
pub fn cum_sum(pdf: &Vec<u32>) -> (r: Vec<u64>)
    requires
        pdf@.len() <= 0xffff_ffff,
    ensures
        r@.len() == pdf@.len(),
        forall|i: int| 0 <= i < r@.len() ==> #[trigger] r@[i] == prefix_sum(pdf@, i + 1),
{
    let mut acc: Vec<u64> = Vec::new();
    let mut total: u64 = 0;
    let mut i: usize = 0;
    while i < pdf.len()
        invariant
            i <= pdf@.len() <= 0xffff_ffff,
            acc@.len() == i,
            total == prefix_sum(pdf@, i as int),
            forall|k: int| 0 <= k < i ==> #[trigger] acc@[k] == prefix_sum(pdf@, k + 1),
        decreases pdf@.len() - i,
    {
        proof {
            lemma_prefix_sum_bound(pdf@, i + 1);
            assert((i + 1) * 0xffff_ffff <= 0xffff_ffff * 0xffff_ffff) by (nonlinear_arith)
                requires
                    i + 1 <= 0xffff_ffff,
            ;
        }
        total = total + pdf[i] as u64;
        acc.push(total);
        i = i + 1;
    }
    acc
}

/// The first index whose running sum exceeds `r`: with `r` drawn uniformly
/// below the total, index `i` comes with chance proportional to weight `i`.
pub fn sample_cdf(cum: &Vec<u64>, r: u64) -> (i: usize)
    requires
        cum@.len() > 0,
        r < cum@[cum@.len() - 1],
        forall|a: int, b: int| 0 <= a <= b < cum@.len() ==> cum@[a] <= cum@[b],
    ensures
        i < cum@.len(),
        r < cum@[i as int],
        i == 0 || cum@[i - 1] <= r,
{
    let mut lo: usize = 0;
    let mut hi: usize = cum.len() - 1;
    while lo < hi
        invariant
            0 <= lo <= hi < cum@.len(),
            r < cum@[hi as int],
            lo == 0 || cum@[lo - 1] <= r,
            forall|a: int, b: int| 0 <= a <= b < cum@.len() ==> cum@[a] <= cum@[b],
        decreases hi - lo,
    {
        let mid = lo + (hi - lo) / 2;
        if cum[mid] <= r {
            lo = mid + 1;
        } else {
            hi = mid;
        }
    }
    lo
}

/// An environment's pixels with integer weights, sampled by the inverse of
/// their cumulative distribution.
pub struct ImportanceMap {
    pub width: u32,
    pub height: u32,
    pub cum_pdf: Vec<u64>,
}

/// Relies on rand's `Rng::gen_range` over `0..n` with the thread-local
/// generator: the result lies in that range, which is not empty.
#[verifier::external_body]
pub(crate) fn random_below(n: u64) -> (r: u64)
    requires
        n > 0,
    ensures
        r < n,
{
    rand::thread_rng().gen_range(0..n)
}

impl ImportanceMap {
    /// One weight per pixel, row by row, with a positive total.
    pub open spec fn wf(self) -> bool {
        &&& self.width > 0
        &&& self.cum_pdf@.len() == self.width * self.height
        &&& self.cum_pdf@.len() > 0
        &&& self.cum_pdf@[self.cum_pdf@.len() - 1] > 0
        &&& forall|a: int, b: int| 0 <= a <= b < self.cum_pdf@.len() ==> self.cum_pdf@[a] <= self.cum_pdf@[b]
    }

    /// The map over `pdf`, a `width` by `height` image of weights; `None`
    /// when the sizes disagree or every weight is zero.
    pub fn new(pdf: &Vec<u32>, width: u32, height: u32) -> (r: Option<ImportanceMap>)
        requires
            pdf@.len() <= 0xffff_ffff,
        ensures
            r is Some <==> (width > 0 && pdf@.len() == width * height && pdf@.len() > 0 && prefix_sum(
                pdf@,
                pdf@.len() as int,
            ) > 0),
            r matches Some(m) ==> m.wf() && m.width == width && m.height == height && (forall|i: int|
                0 <= i < pdf@.len() ==> #[trigger] m.cum_pdf@[i] == prefix_sum(pdf@, i + 1)),
    {
        proof {
            assert((width as int) * (height as int) <= 0xffff_ffff * 0xffff_ffff) by (nonlinear_arith)
                requires
                    width <= 0xffff_ffff,
                    height <= 0xffff_ffff,
            ;
        }
        if width == 0 || (pdf.len() as u64) != (width as u64) * (height as u64) || pdf.len() == 0 {
            return None;
        }
        let cum = cum_sum(pdf);
        if cum[cum.len() - 1] == 0 {
            return None;
        }
        proof {
            assert forall|a: int, b: int| 0 <= a <= b < cum@.len() implies cum@[a] <= cum@[b] by {
                lemma_prefix_sum_mono(pdf@, a + 1, b + 1);
            }
        }
        Some(ImportanceMap { width, height, cum_pdf: cum })
    }

    /// The pixel chosen for the draw `r`, below the total weight.
    pub fn pixel_for(&self, r: u64) -> (p: (u32, u32))
        requires
            self.wf(),
            r < self.cum_pdf@[self.cum_pdf@.len() - 1],
        ensures
            ({
                let n = p.1 * self.width + p.0;
                &&& p.0 < self.width
                &&& 0 <= n < self.cum_pdf@.len()
                &&& r < self.cum_pdf@[n]
                &&& (n == 0 || self.cum_pdf@[n - 1] <= r)
            }),
    {
        let n = sample_cdf(&self.cum_pdf, r);
        proof {
            assert((n as int) / (self.width as int) <= u32::MAX) by {
                vstd::arithmetic::div_mod::lemma_div_is_ordered(n as int, (self.width * self.height) as int, self.width as int);
                vstd::arithmetic::div_mod::lemma_div_by_multiple(self.height as int, self.width as int);
                vstd::arithmetic::mul::lemma_mul_is_commutative(self.width as int, self.height as int);
            }
            vstd::arithmetic::div_mod::lemma_fundamental_div_mod(n as int, self.width as int);
            vstd::arithmetic::mul::lemma_mul_is_commutative(self.width as int, (n as int) / (self.width as int));
        }
        n_to_xy(n, self.width, self.height)
    }

    /// Draws a pixel, each with chance proportional to its weight: whatever
    /// the draw, the pixel has a positive weight.
    pub fn sample(&self) -> (p: (u32, u32))
        requires
            self.wf(),
        ensures
            p.0 < self.width,
            p.1 * self.width + p.0 < self.cum_pdf@.len(),
            ({
                let n = p.1 * self.width + p.0;
                self.cum_pdf@[n] > (if n == 0 { 0int } else { self.cum_pdf@[n - 1] as int })
            }),
    {
        let r = random_below(self.cum_pdf[self.cum_pdf.len() - 1]);
        self.pixel_for(r)
    }
}

} // verus!
