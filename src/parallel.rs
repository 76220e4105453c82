use vstd::prelude::*;
use vstd::arithmetic::div_mod::lemma_fundamental_div_mod;
use crate::element::Element;
use crate::matrix::{
    Matrix,
    compose,
    compose_factors,
    is_product_band,
    lemma_band_concat,
    lemma_product_from_band,
    product_rows,
};

verus! {

/// First row of band `k` when `nrow` rows are split among `threads` workers:
/// each band has `nrow / threads` rows.
pub open spec fn band_start(k: int, nrow: int, threads: int) -> int {
    k * (nrow / threads)
}

/// End (exclusive) of band `k`; the last band also takes the rows that
/// remain after the division.
pub open spec fn band_end(k: int, nrow: int, threads: int) -> int {
    if k == threads - 1 {
        nrow
    } else {
        (k + 1) * (nrow / threads)
    }
}

proof fn lemma_band_fits(k: int, nrow: int, threads: int)
    requires
        0 <= k < threads <= nrow,
    ensures
        0 <= band_start(k, nrow, threads) <= (k + 1) * (nrow / threads) <= nrow,
        band_start(k, nrow, threads) <= band_end(k, nrow, threads) <= nrow,
{
    let rpb = nrow / threads;
    lemma_fundamental_div_mod(nrow, threads);
    assert(0 <= rpb);
    assert(0 <= k * rpb <= (k + 1) * rpb <= threads * rpb) by (nonlinear_arith)
        requires
            0 <= k < threads,
            0 <= rpb,
    ;
}

/// The row range of each band, in order: band `k` starts at
/// `k * (nrow / threads)`, and the last one ends at `nrow`.
pub fn band_bounds(nrow: usize, threads: usize) -> (r: Vec<(usize, usize)>)
    requires
        1 < threads <= nrow,
    ensures
        r@.len() == threads,
        forall|k: int|
            #![trigger r@[k]]
            0 <= k < threads ==> r@[k].0 as int == band_start(k, nrow as int, threads as int) && r@[k].1 as int
                == band_end(k, nrow as int, threads as int),
{
    let rows_per_band = nrow / threads;
    let mut r: Vec<(usize, usize)> = Vec::new();
    let mut k: usize = 0;
    while k < threads
        invariant
            1 < threads <= nrow,
            rows_per_band == nrow / threads,
            k <= threads,
            r@.len() == k,
            forall|t: int|
                #![trigger r@[t]]
                0 <= t < k ==> r@[t].0 as int == band_start(t, nrow as int, threads as int) && r@[t].1 as int
                == band_end(t, nrow as int, threads as int),
        decreases threads - k,
    {
        proof {
            lemma_band_fits(k as int, nrow as int, threads as int);
        }
        let lo = k * rows_per_band;
        let hi = if k + 1 == threads {
            nrow
        } else {
            (k + 1) * rows_per_band
        };
        r.push((lo, hi));
        k = k + 1;
    }
    r
}

/// Relies on crossbeam::scope and ScopedJoinHandle::join: every band is
/// computed by `product_rows` on a scoped thread of its own, the scope joins
/// them all, and the results come back in the order of `bands`.
#[verifier::external_body]
fn compute_bands<T: Element>(a: &Matrix<T>, b: &Matrix<T>, bands: &Vec<(usize, usize)>) -> (r: Vec<
    Vec<T>,
>)
    requires
        a.wf(),
        b.wf(),
        a.ncol == b.nrow,
        a.nrow * b.ncol <= usize::MAX,
        forall|k: int| 0 <= k < bands@.len() ==> #[trigger] bands@[k].0 <= bands@[k].1 <= a.nrow,
    ensures
        r@.len() == bands@.len(),
        forall|k: int|
            0 <= k < bands@.len() ==> is_product_band(
                #[trigger] r@[k]@,
                a,
                b,
                bands@[k].0 as int,
                bands@[k].1 as int,
            ),
{
    crossbeam::scope(|s| {
        let handles: Vec<_> = bands.iter().map(
            |&(lo, hi)| s.spawn(move |_| product_rows(a, b, lo, hi)),
        ).collect();
        handles.into_iter().map(|h| h.join().unwrap()).collect()
    }).unwrap()
}

impl<T: Element> Matrix<T> {
    /// Product `m1` x `m2` computed on `threads` workers, one per band of
    /// result rows; the raw result is that of `mul`, and so is the factor.
    pub fn mul_threads(m1: &Matrix<T>, m2: &Matrix<T>, threads: u8) -> (r: Matrix<T>)
        requires
            m1.wf(),
            m2.wf(),
            m1.ncol == m2.nrow,
            1 < threads,
            threads <= m1.nrow,
            m1.nrow * m2.ncol <= usize::MAX,
        ensures
            r.is_product_of(m1, m2),
            r.const_mult == compose(m1.const_mult, m2.const_mult),
    {
        let nthreads = threads as usize;
        let bands = band_bounds(m1.nrow, nthreads);
        proof {
            assert forall|k: int| 0 <= k < bands@.len() implies #[trigger] bands@[k].0
                <= bands@[k].1 <= m1.nrow by {
                lemma_band_fits(k, m1.nrow as int, nthreads as int);
            }
        }
        let mut parts = compute_bands(m1, m2, &bands);
        let mut m: Vec<T> = Vec::new();
        let mut k: usize = 0;
        while k < nthreads
            invariant
                m1.wf(),
                m2.wf(),
                m1.ncol == m2.nrow,
                1 < nthreads <= m1.nrow,
                bands@.len() == nthreads,
                forall|t: int|
                    #![trigger bands@[t]]
                    0 <= t < nthreads ==> bands@[t].0 as int == band_start(t, m1.nrow as int, nthreads as int) && bands@[t].1 as int
                == band_end(t, m1.nrow as int, nthreads as int),
                k <= nthreads,
                parts@.len() == nthreads - k,
                forall|t: int|
                    0 <= t < parts@.len() ==> is_product_band(
                        #[trigger] parts@[t]@,
                        m1,
                        m2,
                        bands@[k + t].0 as int,
                        bands@[k + t].1 as int,
                    ),
                is_product_band(
                    m@,
                    m1,
                    m2,
                    0,
                    if k < nthreads {
                        band_start(k as int, m1.nrow as int, nthreads as int)
                    } else {
                        m1.nrow as int
                    },
                ),
            decreases nthreads - k,
        {
            let ghost before = parts@;
            let mut part = parts.remove(0);
            proof {
                let lo = band_start(k as int, m1.nrow as int, nthreads as int);
                let hi = band_end(k as int, m1.nrow as int, nthreads as int);
                lemma_band_fits(k as int, m1.nrow as int, nthreads as int);
                assert(bands@[k as int].0 as int == lo);
                assert(bands@[k as int].1 as int == hi);
                assert(is_product_band(part@, m1, m2, lo, hi));
                lemma_band_concat(m@, part@, m1, m2, 0, lo, hi);
                assert forall|t: int| 0 <= t < parts@.len() implies is_product_band(
                    #[trigger] parts@[t]@,
                    m1,
                    m2,
                    bands@[k + 1 + t].0 as int,
                    bands@[k + 1 + t].1 as int,
                ) by {
                    assert(parts@[t] == before[t + 1]);
                }
            }
            m.append(&mut part);
            k = k + 1;
        }
        let const_mult = compose_factors(m1.const_mult, m2.const_mult);
        let r = Matrix { m, nrow: m1.nrow, ncol: m2.ncol, const_mult };
        proof {
            lemma_product_from_band(&r, m1, m2);
        }
        r
    }
}

} // verus!
