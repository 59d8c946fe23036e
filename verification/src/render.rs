//! How the work of rendering is shared out: the scan-lines among the
//! workers, and the samples of a pixel about the middle of their sub-pixel.
//!
//! Rows are counted as the renderer walks them, from the bottom of the image
//! up.

use vstd::prelude::*;
use crate::math::{Real, ONE};

verus! {

/// Which half of the tent filter a sample falls in, given a number drawn
/// uniformly from 0 up to 2: below 1 the sample lies before the middle of
/// its sub-pixel, at `sqrt(r) - 1`; from 1 on it lies behind it, at
/// `1 - sqrt(2 - r)`.
pub fn before_middle(r: Real) -> (b: bool)
    ensures
        b == r.less(Real::of(ONE)),
{
    r.lt(Real::from_bits(ONE))
}

/// A run of scan-lines: the rows from `bot` up to, not including, `top`.
#[derive(Clone, Copy, Debug, PartialEq, Eq, Structural)]
pub struct Band {
    pub bot: usize,
    pub top: usize,
}

impl Band {
    /// Whether row `y` lies in the band.
    pub open spec fn contains(self, y: int) -> bool {
        self.bot <= y < self.top
    }
}

/// The number of rows in each band.
pub open spec fn band_rows(height: int, workers: int) -> int {
    height / workers
}

/// The first row of worker `t`.
pub open spec fn band_bot(height: int, workers: int, t: int) -> int {
    band_rows(height, workers) * t
}

/// The row after the last row of worker `t`.
pub open spec fn band_top(height: int, workers: int, t: int) -> int {
    band_rows(height, workers) * (t + 1)
}

/// Whether row `y` is one of the rows of worker `t`.
pub open spec fn in_band(height: int, workers: int, t: int, y: int) -> bool {
    0 <= t < workers && band_bot(height, workers, t) <= y < band_top(height, workers, t)
}

/// The number of rows that belong to some band: the rows from 0 up to this
/// number are rendered, the rows from it on are not.
pub open spec fn scheduled_rows(height: int, workers: int) -> int {
    band_rows(height, workers) * workers
}

/// The bands follow one another and end within the image.
pub proof fn lemma_band_bounds(height: int, workers: int, t: int)
    requires
        0 <= height,
        0 < workers,
        0 <= t < workers,
    ensures
        0 <= band_bot(height, workers, t),
        band_top(height, workers, t) == band_bot(height, workers, t) + band_rows(height, workers),
        band_bot(height, workers, t) <= band_top(height, workers, t),
        band_top(height, workers, t) <= scheduled_rows(height, workers),
        scheduled_rows(height, workers) <= height,
{
    let rows = band_rows(height, workers);
    vstd::arithmetic::div_mod::lemma_fundamental_div_mod(height, workers);
    vstd::arithmetic::div_mod::lemma_div_pos_is_pos(height, workers);
    assert(0 <= rows * t && rows * (t + 1) == rows * t + rows && rows * (t + 1) <= rows * workers)
        by (nonlinear_arith)
        requires
            0 <= rows,
            0 <= t < workers,
    ;
    assert(rows * workers == workers * rows) by (nonlinear_arith);
}

/// The rows that worker `t` of `workers` renders.
pub fn band(height: usize, workers: usize, t: usize) -> (b: Band)
    requires
        0 < workers,
        t < workers,
    ensures
        b.bot == band_bot(height as int, workers as int, t as int),
        b.top == band_top(height as int, workers as int, t as int),
        b.bot <= b.top <= height,
{
    let rows: usize = height / workers;
    proof {
        lemma_band_bounds(height as int, workers as int, t as int);
    }
    Band { bot: rows * t, top: rows * (t + 1) }
}

/// The bands of all workers, in the workers' order.
pub fn bands(height: usize, workers: usize) -> (plan: Vec<Band>)
    requires
        0 < workers,
    ensures
        plan.len() == workers,
        forall|t: int|
            0 <= t < workers ==> {
                &&& (#[trigger] plan[t]).bot == band_bot(height as int, workers as int, t)
                &&& plan[t].top == band_top(height as int, workers as int, t)
            },
{
    let mut plan: Vec<Band> = Vec::new();
    let mut t: usize = 0;
    while t < workers
        invariant
            0 < workers,
            t <= workers,
            plan.len() == t,
            forall|k: int|
                0 <= k < t ==> {
                    &&& (#[trigger] plan[k]).bot == band_bot(height as int, workers as int, k)
                    &&& plan[k].top == band_top(height as int, workers as int, k)
                },
        decreases workers - t,
    {
        plan.push(band(height, workers, t));
        t = t + 1;
    }
    plan
}

/// The number of processors that this process can use. Calls
/// `num_cpus::get`, which counts the logical processors of the machine and,
/// on Linux, keeps to the process's affinity mask and cgroup quota. Its
/// documentation says that the count is never below 1; nothing else is
/// claimed of it.
#[verifier::external_body]
fn logical_cpus() -> (n: usize)
    ensures
        1 <= n,
{
    num_cpus::get()
}

/// The bands for one worker on each processor of the machine. The number of
/// bands is the number of workers; whatever that number is, the bands are
/// those that `bands` gives for it.
pub fn machine_bands(height: usize) -> (plan: Vec<Band>)
    ensures
        1 <= plan.len(),
        forall|t: int|
            0 <= t < plan.len() ==> {
                &&& (#[trigger] plan[t]).bot == band_bot(height as int, plan.len() as int, t)
                &&& plan[t].top == band_top(height as int, plan.len() as int, t)
            },
{
    bands(height, logical_cpus())
}

/// Every row below `scheduled_rows` lies in the band of exactly one worker,
/// and every row from there on lies in none: where the height is no
/// multiple of the number of workers, the `height % workers` rows left over
/// are not rendered.
pub proof fn lemma_bands_partition(height: int, workers: int, y: int)
    requires
        0 <= height,
        0 < workers,
        0 <= y,
    ensures
        scheduled_rows(height, workers) == height - height % workers,
        y < scheduled_rows(height, workers) ==> {
            &&& 0 < band_rows(height, workers)
            &&& in_band(height, workers, y / band_rows(height, workers), y)
        },
        forall|t: int| #[trigger]
            in_band(height, workers, t, y) ==> {
                &&& y < scheduled_rows(height, workers)
                &&& t == y / band_rows(height, workers)
            },
{
    let rows = band_rows(height, workers);
    vstd::arithmetic::div_mod::lemma_fundamental_div_mod(height, workers);
    vstd::arithmetic::div_mod::lemma_div_pos_is_pos(height, workers);
    assert(rows * workers == workers * rows) by (nonlinear_arith);
    if y < rows * workers {
        assert(0 < rows) by (nonlinear_arith)
            requires
                0 <= y < rows * workers,
                0 <= rows,
                0 < workers,
        ;
        let t = y / rows;
        vstd::arithmetic::div_mod::lemma_fundamental_div_mod(y, rows);
        vstd::arithmetic::div_mod::lemma_mod_bound(y, rows);
        vstd::arithmetic::div_mod::lemma_div_pos_is_pos(y, rows);
        assert(t < workers) by (nonlinear_arith)
            requires
                rows * t <= y,
                y < rows * workers,
                0 < rows,
        ;
        lemma_band_bounds(height, workers, t);
    }
    assert forall|t: int| #[trigger] in_band(height, workers, t, y) implies y < scheduled_rows(
        height,
        workers,
    ) && t == y / band_rows(height, workers) by {
        lemma_band_bounds(height, workers, t);
        assert(0 < rows);
        assert(y == t * rows + (y - rows * t)) by (nonlinear_arith);
        vstd::arithmetic::div_mod::lemma_fundamental_div_mod_converse(y, rows, t, y - rows * t);
    }
}

} // verus!
