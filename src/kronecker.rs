use vstd::prelude::*;
use vstd::arithmetic::div_mod::lemma_fundamental_div_mod_converse;
use crate::element::Element;
use crate::matrix::{
    Matrix,
    compose,
    compose_factors,
    lemma_cell_index,
    lemma_row_before,
    lemma_split_index,
};

verus! {

/// Cell (`row`, `col`) of the Kronecker product of `a` and `b`: the row and
/// column split into a cell of `a` and a cell of `b`.
pub open spec fn kron_value<T: Element>(a: &Matrix<T>, b: &Matrix<T>, row: int, col: int) -> T {
    T::spec_times(a.cell(row / b.nrow as int, col / b.ncol as int), b.cell(row % b.nrow as int, col % b.ncol as int))
}

impl<T: Element> Matrix<T> {
    /// Holds when `self` is the Kronecker product of `a` and `b`: shape
    /// (`a.nrow * b.nrow`, `a.ncol * b.ncol`), and for cells (`i1`, `j1`) of
    /// `a` and (`i2`, `j2`) of `b`, cell (`i1 * b.nrow + i2`,
    /// `j1 * b.ncol + j2`) is their raw product.
    pub open spec fn is_kronecker_of(&self, a: &Matrix<T>, b: &Matrix<T>) -> bool {
        &&& self.wf()
        &&& self.nrow == a.nrow * b.nrow
        &&& self.ncol == a.ncol * b.ncol
        &&& forall|i1: int, j1: int, i2: int, j2: int|
            0 <= i1 < a.nrow && 0 <= j1 < a.ncol && 0 <= i2 < b.nrow && 0 <= j2 < b.ncol
                ==> self.cell(i1 * b.nrow + i2, j1 * b.ncol + j2) == T::spec_times(
                #[trigger] a.cell(i1, j1),
                #[trigger] b.cell(i2, j2),
            )
    }

    /// Kronecker (tensor) product of `m1` and `m2` on raw values; the factor
    /// of the result composes those of the operands.
    pub fn kroneker_product(m1: &Matrix<T>, m2: &Matrix<T>) -> (r: Matrix<T>)
        requires
            m1.wf(),
            m2.wf(),
            m1.nrow * m2.nrow <= usize::MAX,
            m1.ncol * m2.ncol <= usize::MAX,
            (m1.nrow * m2.nrow) * (m1.ncol * m2.ncol) <= usize::MAX,
        ensures
            r.is_kronecker_of(m1, m2),
            r.const_mult == compose(m1.const_mult, m2.const_mult),
    {
        let rows = m1.nrow * m2.nrow;
        let cols = m1.ncol * m2.ncol;
        let p = m2.nrow;
        let q = m2.ncol;
        let mut out: Vec<T> = Vec::new();
        let mut row: usize = 0;
        while row < rows
            invariant
                m1.wf(),
                m2.wf(),
                rows == m1.nrow * m2.nrow,
                cols == m1.ncol * m2.ncol,
                rows * cols <= usize::MAX,
                p == m2.nrow,
                q == m2.ncol,
                row <= rows,
                out@.len() == row * cols,
                forall|r2: int, c2: int|
                    0 <= r2 < row && 0 <= c2 < cols ==> out@[r2 * cols + c2] == #[trigger] kron_value(
                        m1,
                        m2,
                        r2,
                        c2,
                    ),
            decreases rows - row,
        {
            let ghost base = out@.len();
            proof {
                lemma_split_index(row as int, m1.nrow as int, p as int);
            }
            let i1 = row / p;
            let i2 = row % p;
            let mut col: usize = 0;
            while col < cols
                invariant
                    m1.wf(),
                    m2.wf(),
                    rows == m1.nrow * m2.nrow,
                    cols == m1.ncol * m2.ncol,
                    p == m2.nrow,
                    q == m2.ncol,
                    row < rows,
                    0 < p,
                    i1 == row / p,
                    i2 == row % p,
                    i1 < m1.nrow,
                    i2 < p,
                    base == row * cols,
                    col <= cols,
                    out@.len() == base + col,
                    forall|r2: int, c2: int|
                        0 <= r2 < row && 0 <= c2 < cols ==> out@[r2 * cols + c2]
                            == #[trigger] kron_value(m1, m2, r2, c2),
                    forall|c2: int| 0 <= c2 < col ==> out@[base + c2] == kron_value(m1, m2, row as int, c2),
                decreases cols - col,
            {
                proof {
                    lemma_split_index(col as int, m1.ncol as int, q as int);
                }
                let x = m1.get(i1, col / q).times(m2.get(i2, col % q));
                let ghost before = out@;
                out.push(x);
                proof {
                    assert forall|r2: int, c2: int| 0 <= r2 < row && 0 <= c2 < cols implies out@[r2
                        * cols + c2] == #[trigger] kron_value(m1, m2, r2, c2) by {
                        lemma_row_before(r2, c2, row as int, cols as int);
                        assert(out@[r2 * cols + c2] == before[r2 * cols + c2]);
                    }
                    assert forall|c2: int| 0 <= c2 < col + 1 implies out@[base + c2] == kron_value(
                        m1,
                        m2,
                        row as int,
                        c2,
                    ) by {
                        if c2 < col {
                            assert(out@[base + c2] == before[base + c2]);
                        }
                    }
                }
                col = col + 1;
            }
            proof {
                assert(row * cols + cols == (row + 1) * cols) by (nonlinear_arith);
            }
            row = row + 1;
        }
        let const_mult = compose_factors(m1.const_mult, m2.const_mult);
        let r = Matrix { m: out, nrow: rows, ncol: cols, const_mult };
        proof {
            assert forall|i1: int, j1: int, i2: int, j2: int|
                0 <= i1 < m1.nrow && 0 <= j1 < m1.ncol && 0 <= i2 < m2.nrow && 0 <= j2
                    < m2.ncol implies r.cell(i1 * m2.nrow + i2, j1 * m2.ncol + j2) == T::spec_times(
                #[trigger] m1.cell(i1, j1),
                #[trigger] m2.cell(i2, j2),
            ) by {
                let row2 = i1 * m2.nrow + i2;
                let col2 = j1 * m2.ncol + j2;
                lemma_cell_index(i1, i2, m1.nrow as int, m2.nrow as int);
                lemma_cell_index(j1, j2, m1.ncol as int, m2.ncol as int);
                lemma_fundamental_div_mod_converse(row2, m2.nrow as int, i1, i2);
                lemma_fundamental_div_mod_converse(col2, m2.ncol as int, j1, j2);
                lemma_cell_index(row2, col2, rows as int, cols as int);
                assert(out@[row2 * cols + col2] == kron_value(m1, m2, row2, col2));
            }
        }
        r
    }
}

} // verus!
