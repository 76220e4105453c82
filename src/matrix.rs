use vstd::prelude::*;
use vstd::arithmetic::div_mod::lemma_fundamental_div_mod;
use crate::element::Element;

verus! {

/// A `nrow` x `ncol` matrix stored row by row in `m`: the cell in row `r`
/// and column `c` lives at index `r * ncol + c`. When `const_mult` holds a
/// factor, the logical value of every cell is its stored value times that
/// factor; the stored values are never rescaled.
pub struct Matrix<T> {
    pub m: Vec<T>,
    pub nrow: usize,
    pub ncol: usize,
    pub const_mult: Option<T>,
}

impl<T: Element> Matrix<T> {
    /// The buffer holds exactly one value per cell.
    pub open spec fn wf(&self) -> bool {
        &&& self.m@.len() == self.nrow * self.ncol
        &&& self.nrow * self.ncol <= usize::MAX
    }

    /// The stored (raw) value of cell (`r`, `c`).
    pub open spec fn cell(&self, r: int, c: int) -> T {
        self.m@[r * self.ncol + c]
    }

    /// The logical value of cell (`r`, `c`): the raw value times the
    /// outstanding factor, if there is one.
    pub open spec fn effective(&self, r: int, c: int) -> T {
        match self.const_mult {
            Some(f) => T::spec_times(self.cell(r, c), f),
            None => self.cell(r, c),
        }
    }

    /// Matrix [nrow] x [ncol], every cell zero, with no factor.
    pub fn new(nrow: usize, ncol: usize) -> (r: Matrix<T>)
        requires
            nrow * ncol <= usize::MAX,
        ensures
            r.wf(),
            r.nrow == nrow,
            r.ncol == ncol,
            r.const_mult.is_none(),
            forall|k: int| 0 <= k < r.m@.len() ==> r.m@[k] == T::spec_zero(),
    {
        let n: usize = nrow * ncol;
        let mut m: Vec<T> = Vec::with_capacity(n);
        let mut k: usize = 0;
        while k < n
            invariant
                k <= n,
                m@.len() == k,
                forall|i: int| 0 <= i < k ==> m@[i] == T::spec_zero(),
            decreases n - k,
        {
            m.push(T::zero());
            k = k + 1;
        }
        Matrix { m, nrow, ncol, const_mult: None }
    }

    /// The value stored in cell (`row`, `col`), ignoring the factor.
    pub fn get(&self, row: usize, col: usize) -> (r: T)
        requires
            self.wf(),
            row < self.nrow,
            col < self.ncol,
        ensures
            r == self.cell(row as int, col as int),
    {
        proof {
            lemma_cell_index(row as int, col as int, self.nrow as int, self.ncol as int);
        }
        self.m[row * self.ncol + col]
    }

    /// The logical value of cell (`row`, `col`): the stored value times the
    /// factor, if there is one.
    pub fn get_effective(&self, row: usize, col: usize) -> (r: T)
        requires
            self.wf(),
            row < self.nrow,
            col < self.ncol,
        ensures
            r == self.effective(row as int, col as int),
    {
        let x = self.get(row, col);
        match self.const_mult {
            Some(f) => x.times(f),
            None => x,
        }
    }

    /// Stores `x` in cell (`row`, `col`); the shape, the factor and every
    /// other cell stay as they were.
    pub fn set(&mut self, row: usize, col: usize, x: T)
        requires
            old(self).wf(),
            row < old(self).nrow,
            col < old(self).ncol,
        ensures
            final(self).nrow == old(self).nrow,
            final(self).ncol == old(self).ncol,
            final(self).const_mult == old(self).const_mult,
            final(self).m@ == old(self).m@.update(row * old(self).ncol + col, x),
            final(self).wf(),
            final(self).cell(row as int, col as int) == x,
    {
        proof {
            lemma_cell_index(row as int, col as int, self.nrow as int, self.ncol as int);
        }
        let index = row * self.ncol + col;
        self.m.set(index, x);
    }

    /// Number of cells, `nrow * ncol`.
    pub fn count_of_cells(&self) -> (r: usize)
        requires
            self.wf(),
        ensures
            r == self.nrow * self.ncol,
    {
        self.nrow * self.ncol
    }

    /// Elementwise difference `m1 - m2` of the raw values; the result has
    /// no factor.
    pub fn sub(m1: &Matrix<T>, m2: &Matrix<T>) -> (r: Matrix<T>)
        requires
            m1.wf(),
            m2.wf(),
            m1.nrow == m2.nrow,
            m1.ncol == m2.ncol,
        ensures
            r.wf(),
            r.nrow == m1.nrow,
            r.ncol == m1.ncol,
            r.const_mult.is_none(),
            forall|k: int|
                0 <= k < r.m@.len() ==> #[trigger] r.m@[k] == T::spec_minus(m1.m@[k], m2.m@[k]),
    {
        let n = m1.m.len();
        let mut m: Vec<T> = Vec::with_capacity(n);
        let mut k: usize = 0;
        while k < n
            invariant
                m1.wf(),
                m2.wf(),
                m1.nrow == m2.nrow,
                m1.ncol == m2.ncol,
                n == m1.m@.len(),
                k <= n,
                m@.len() == k,
                forall|i: int| 0 <= i < k ==> #[trigger] m@[i] == T::spec_minus(m1.m@[i], m2.m@[i]),
            decreases n - k,
        {
            m.push(m1.m[k].minus(m2.m[k]));
            k = k + 1;
        }
        Matrix { m, nrow: m1.nrow, ncol: m1.ncol, const_mult: None }
    }

    /// Elementwise sum `m1 + m2` of the raw values; the result has no
    /// factor.
    pub fn add(m1: &Matrix<T>, m2: &Matrix<T>) -> (r: Matrix<T>)
        requires
            m1.wf(),
            m2.wf(),
            m1.nrow == m2.nrow,
            m1.ncol == m2.ncol,
        ensures
            r.wf(),
            r.nrow == m1.nrow,
            r.ncol == m1.ncol,
            r.const_mult.is_none(),
            forall|k: int|
                0 <= k < r.m@.len() ==> #[trigger] r.m@[k] == T::spec_plus(m1.m@[k], m2.m@[k]),
    {
        let n = m1.m.len();
        let mut m: Vec<T> = Vec::with_capacity(n);
        let mut k: usize = 0;
        while k < n
            invariant
                m1.wf(),
                m2.wf(),
                m1.nrow == m2.nrow,
                m1.ncol == m2.ncol,
                n == m1.m@.len(),
                k <= n,
                m@.len() == k,
                forall|i: int| 0 <= i < k ==> #[trigger] m@[i] == T::spec_plus(m1.m@[i], m2.m@[i]),
            decreases n - k,
        {
            m.push(m1.m[k].plus(m2.m[k]));
            k = k + 1;
        }
        Matrix { m, nrow: m1.nrow, ncol: m1.ncol, const_mult: None }
    }

    /// Holds when `self` is the transpose of `a`: shape swapped, cell
    /// (`i`, `j`) equal to cell (`j`, `i`) of `a`, and the same factor.
    pub open spec fn is_transpose_of(&self, a: &Matrix<T>) -> bool {
        &&& self.wf()
        &&& self.nrow == a.ncol
        &&& self.ncol == a.nrow
        &&& self.const_mult == a.const_mult
        &&& forall|i: int, j: int|
            0 <= i < a.ncol && 0 <= j < a.nrow ==> self.cell(i, j) == #[trigger] a.cell(j, i)
    }

    /// The transposed matrix; the factor is carried over unchanged.
    pub fn t(&self) -> (r: Matrix<T>)
        requires
            self.wf(),
        ensures
            r.is_transpose_of(self),
    {
        let rows = self.ncol;
        let cols = self.nrow;
        let mut out: Vec<T> = Vec::new();
        let mut i: usize = 0;
        while i < rows
            invariant
                self.wf(),
                rows == self.ncol,
                cols == self.nrow,
                i <= rows,
                out@.len() == i * cols,
                forall|i2: int, j2: int|
                    0 <= i2 < i && 0 <= j2 < cols ==> out@[i2 * cols + j2] == #[trigger] self.cell(
                        j2,
                        i2,
                    ),
            decreases rows - i,
        {
            let ghost base = out@.len();
            let mut j: usize = 0;
            while j < cols
                invariant
                    self.wf(),
                    rows == self.ncol,
                    cols == self.nrow,
                    i < rows,
                    base == i * cols,
                    j <= cols,
                    out@.len() == base + j,
                    forall|i2: int, j2: int|
                        0 <= i2 < i && 0 <= j2 < cols ==> out@[i2 * cols + j2]
                            == #[trigger] self.cell(j2, i2),
                    forall|j2: int| 0 <= j2 < j ==> out@[base + j2] == self.cell(j2, i as int),
                decreases cols - j,
            {
                let x = self.get(j, i);
                let ghost before = out@;
                out.push(x);
                proof {
                    assert forall|i2: int, j2: int| 0 <= i2 < i && 0 <= j2 < cols implies out@[i2
                        * cols + j2] == #[trigger] self.cell(j2, i2) by {
                        lemma_row_before(i2, j2, i as int, cols as int);
                        assert(out@[i2 * cols + j2] == before[i2 * cols + j2]);
                    }
                    assert forall|j2: int| 0 <= j2 < j + 1 implies out@[base + j2] == self.cell(
                        j2,
                        i as int,
                    ) by {
                        if j2 < j {
                            assert(out@[base + j2] == before[base + j2]);
                        }
                    }
                }
                j = j + 1;
            }
            proof {
                assert(i * cols + cols == (i + 1) * cols) by (nonlinear_arith);
            }
            i = i + 1;
        }
        proof {
            assert(rows * cols == cols * rows) by (nonlinear_arith);
        }
        Matrix { m: out, nrow: rows, ncol: cols, const_mult: self.const_mult }
    }

    /// Turns `vector` into a 1 x `vector.len()` matrix holding it as its
    /// row, with no factor.
    pub fn vec_to_matrix(vector: Vec<T>) -> (r: Matrix<T>)
        ensures
            r.wf(),
            r.nrow == 1,
            r.ncol == vector@.len(),
            r.m@ == vector@,
            r.const_mult.is_none(),
    {
        let ncol = vector.len();
        Matrix { m: vector, nrow: 1, ncol, const_mult: None }
    }

    /// A fresh matrix with the shape and raw values of `self` and no
    /// factor.
    pub fn copy(&self) -> (r: Matrix<T>)
        requires
            self.wf(),
        ensures
            r.wf(),
            r.nrow == self.nrow,
            r.ncol == self.ncol,
            r.m@ == self.m@,
            r.const_mult.is_none(),
    {
        let n = self.nrow * self.ncol;
        let mut m: Vec<T> = Vec::with_capacity(n);
        let mut k: usize = 0;
        while k < n
            invariant
                self.wf(),
                n == self.m@.len(),
                k <= n,
                m@ == self.m@.subrange(0, k as int),
            decreases n - k,
        {
            m.push(self.m[k]);
            k = k + 1;
        }
        assert(m@ == self.m@);
        Matrix { m, nrow: self.nrow, ncol: self.ncol, const_mult: None }
    }

    /// Holds when `self` is the product `a` x `b` on raw values: shape
    /// (`a.nrow`, `b.ncol`), each cell the sum `dot` of row and column.
    pub open spec fn is_product_of(&self, a: &Matrix<T>, b: &Matrix<T>) -> bool {
        &&& self.wf()
        &&& self.nrow == a.nrow
        &&& self.ncol == b.ncol
        &&& forall|i: int, j: int|
            0 <= i < a.nrow && 0 <= j < b.ncol ==> #[trigger] self.cell(i, j) == dot(
                a,
                b,
                i,
                j,
                a.ncol as int,
            )
    }

    /// Raw product `m1` x `m2`; the factor of the result composes those of
    /// the operands.
    pub fn mul(m1: &Matrix<T>, m2: &Matrix<T>) -> (r: Matrix<T>)
        requires
            m1.wf(),
            m2.wf(),
            m1.ncol == m2.nrow,
            m1.nrow * m2.ncol <= usize::MAX,
        ensures
            r.is_product_of(m1, m2),
            r.const_mult == compose(m1.const_mult, m2.const_mult),
    {
        let m = product_rows(m1, m2, 0, m1.nrow);
        let const_mult = compose_factors(m1.const_mult, m2.const_mult);
        let r = Matrix { m, nrow: m1.nrow, ncol: m2.ncol, const_mult };
        proof {
            lemma_product_from_band(&r, m1, m2);
        }
        r
    }
}

/// `r * nc + c` indexes a cell of an `nr` x `nc` buffer.
pub proof fn lemma_cell_index(r: int, c: int, nr: int, nc: int)
    requires
        0 <= r < nr,
        0 <= c < nc,
    ensures
        0 <= r * nc,
        r * nc + c < nr * nc,
{
    assert(0 <= r * nc && r * nc + c < nr * nc) by (nonlinear_arith)
        requires
            0 <= r < nr,
            0 <= c < nc,
    ;
}

/// Cells of an earlier row come before every cell of a later row.
pub proof fn lemma_row_before(r1: int, c1: int, r2: int, nc: int)
    requires
        0 <= r1 < r2,
        0 <= c1 < nc,
    ensures
        r1 * nc + c1 < r2 * nc,
{
    assert(r1 * nc + c1 < r2 * nc) by (nonlinear_arith)
        requires
            0 <= r1 < r2,
            0 <= c1 < nc,
    ;
}

/// An index below `n * d` splits into a quotient below `n` and a remainder
/// below `d`.
pub proof fn lemma_split_index(x: int, n: int, d: int)
    requires
        0 <= x < n * d,
        0 <= d,
    ensures
        0 < d,
        0 <= x / d < n,
        0 <= x % d < d,
{
    assert(d != 0) by (nonlinear_arith)
        requires
            0 <= x < n * d,
    ;
    lemma_fundamental_div_mod(x, d);
    let q = x / d;
    assert(0 <= q < n) by (nonlinear_arith)
        requires
            x == d * q + x % d,
            0 <= x % d < d,
            0 <= x < n * d,
    ;
}

/// Composition of two optional factors: an absent factor is the identity.
pub open spec fn compose<T: Element>(a: Option<T>, b: Option<T>) -> Option<T> {
    match (a, b) {
        (Some(x), Some(y)) => Some(T::spec_times(x, y)),
        (Some(x), None) => Some(x),
        (None, Some(y)) => Some(y),
        (None, None) => None,
    }
}

/// The factor of a product of matrices with factors `a` and `b`.
pub fn compose_factors<T: Element>(a: Option<T>, b: Option<T>) -> (r: Option<T>)
    ensures
        r == compose(a, b),
{
    match (a, b) {
        (Some(x), Some(y)) => Some(x.times(y)),
        (Some(x), None) => Some(x),
        (None, Some(y)) => Some(y),
        (None, None) => None,
    }
}

/// Sum, from the left and starting at zero, of the first `n` terms
/// `a[i, k] * b[k, j]`.
pub open spec fn dot<T: Element>(a: &Matrix<T>, b: &Matrix<T>, i: int, j: int, n: int) -> T
    decreases n,
{
    if n <= 0 {
        T::spec_zero()
    } else {
        T::spec_plus(dot(a, b, i, j, n - 1), T::spec_times(a.cell(i, n - 1), b.cell(n - 1, j)))
    }
}

/// Row `i` of `a` times column `j` of `b`, summed in order of `k`.
fn dot_at<T: Element>(a: &Matrix<T>, b: &Matrix<T>, i: usize, j: usize) -> (r: T)
    requires
        a.wf(),
        b.wf(),
        a.ncol == b.nrow,
        i < a.nrow,
        j < b.ncol,
    ensures
        r == dot(a, b, i as int, j as int, a.ncol as int),
{
    let mut acc = T::zero();
    let mut k: usize = 0;
    while k < a.ncol
        invariant
            a.wf(),
            b.wf(),
            a.ncol == b.nrow,
            i < a.nrow,
            j < b.ncol,
            k <= a.ncol,
            acc == dot(a, b, i as int, j as int, k as int),
        decreases a.ncol - k,
    {
        acc = acc.plus(a.get(i, k).times(b.get(k, j)));
        k = k + 1;
    }
    acc
}

/// Holds when `s` is rows `lo` up to `hi` of the raw product `a` x `b`,
/// row by row.
pub open spec fn is_product_band<T: Element>(
    s: Seq<T>,
    a: &Matrix<T>,
    b: &Matrix<T>,
    lo: int,
    hi: int,
) -> bool {
    &&& s.len() == (hi - lo) * b.ncol
    &&& forall|i: int, j: int|
        lo <= i < hi && 0 <= j < b.ncol ==> s[(i - lo) * b.ncol + j] == #[trigger] dot(
            a,
            b,
            i,
            j,
            a.ncol as int,
        )
}

/// A matrix of the product's shape whose buffer is the band of all rows is
/// the product.
pub proof fn lemma_product_from_band<T: Element>(r: &Matrix<T>, a: &Matrix<T>, b: &Matrix<T>)
    requires
        r.nrow == a.nrow,
        r.ncol == b.ncol,
        a.nrow * b.ncol <= usize::MAX,
        is_product_band(r.m@, a, b, 0, a.nrow as int),
    ensures
        r.is_product_of(a, b),
{
    assert forall|i: int, j: int| 0 <= i < a.nrow && 0 <= j < b.ncol implies #[trigger] r.cell(i, j)
        == dot(a, b, i, j, a.ncol as int) by {
        assert(r.m@[(i - 0) * b.ncol + j] == dot(a, b, i, j, a.ncol as int));
    }
}

/// Two consecutive bands of a product, one after the other, form the band
/// that covers both.
pub proof fn lemma_band_concat<T: Element>(
    s1: Seq<T>,
    s2: Seq<T>,
    a: &Matrix<T>,
    b: &Matrix<T>,
    lo: int,
    mid: int,
    hi: int,
)
    requires
        lo <= mid <= hi,
        is_product_band(s1, a, b, lo, mid),
        is_product_band(s2, a, b, mid, hi),
    ensures
        is_product_band(s1 + s2, a, b, lo, hi),
{
    let n = b.ncol as int;
    let s = s1 + s2;
    assert((mid - lo) * n + (hi - mid) * n == (hi - lo) * n) by (nonlinear_arith);
    assert forall|i: int, j: int| lo <= i < hi && 0 <= j < n implies s[(i - lo) * n + j]
        == #[trigger] dot(a, b, i, j, a.ncol as int) by {
        if i < mid {
            lemma_cell_index(i - lo, j, mid - lo, n);
        } else {
            assert((i - lo) * n == (mid - lo) * n + (i - mid) * n) by (nonlinear_arith);
            lemma_cell_index(i - mid, j, hi - mid, n);
            assert(s[(i - lo) * n + j] == s2[(i - mid) * n + j]);
        }
    }
}

/// Rows `lo` up to `hi` of the raw product `a` x `b`, row by row.
pub fn product_rows<T: Element>(a: &Matrix<T>, b: &Matrix<T>, lo: usize, hi: usize) -> (r: Vec<T>)
    requires
        a.wf(),
        b.wf(),
        a.ncol == b.nrow,
        lo <= hi <= a.nrow,
        a.nrow * b.ncol <= usize::MAX,
    ensures
        is_product_band(r@, a, b, lo as int, hi as int),
{
    let n = b.ncol;
    let mut out: Vec<T> = Vec::new();
    let mut i: usize = lo;
    while i < hi
        invariant
            a.wf(),
            b.wf(),
            a.ncol == b.nrow,
            n == b.ncol,
            lo <= i <= hi <= a.nrow,
            out@.len() == (i - lo) * n,
            forall|i2: int, j2: int|
                lo <= i2 < i && 0 <= j2 < n ==> out@[(i2 - lo) * n + j2] == #[trigger] dot(
                    a,
                    b,
                    i2,
                    j2,
                    a.ncol as int,
                ),
        decreases hi - i,
    {
        let ghost base = out@.len();
        let mut j: usize = 0;
        while j < n
            invariant
                a.wf(),
                b.wf(),
                a.ncol == b.nrow,
                n == b.ncol,
                lo <= i < hi <= a.nrow,
                base == (i - lo) * n,
                j <= n,
                out@.len() == base + j,
                forall|i2: int, j2: int|
                    lo <= i2 < i && 0 <= j2 < n ==> out@[(i2 - lo) * n + j2] == #[trigger] dot(
                        a,
                        b,
                        i2,
                        j2,
                        a.ncol as int,
                    ),
                forall|j2: int| 0 <= j2 < j ==> out@[base + j2] == dot(a, b, i as int, j2, a.ncol as int),
            decreases n - j,
        {
            let x = dot_at(a, b, i, j);
            let ghost before = out@;
            out.push(x);
            proof {
                assert forall|i2: int, j2: int| lo <= i2 < i && 0 <= j2 < n implies out@[(i2 - lo)
                    * n + j2] == #[trigger] dot(a, b, i2, j2, a.ncol as int) by {
                    lemma_row_before(i2 - lo, j2, i - lo, n as int);
                    assert(out@[(i2 - lo) * n + j2] == before[(i2 - lo) * n + j2]);
                }
                assert forall|j2: int| 0 <= j2 < j + 1 implies out@[base + j2] == dot(
                    a,
                    b,
                    i as int,
                    j2,
                    a.ncol as int,
                ) by {
                    if j2 < j {
                        assert(out@[base + j2] == before[base + j2]);
                    }
                }
            }
            j = j + 1;
        }
        proof {
            assert((i - lo) * n + n == (i + 1 - lo) * n) by (nonlinear_arith);
        }
        i = i + 1;
    }
    out
}

} // verus!
