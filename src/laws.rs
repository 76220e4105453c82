use vstd::prelude::*;
use vstd::arithmetic::div_mod::lemma_fundamental_div_mod;
use crate::element::Element;
use crate::matrix::{Matrix, compose, dot, lemma_split_index};

verus! {

/// Two well-formed matrices of one shape whose cells agree hold the same
/// buffer.
pub proof fn lemma_cells_determine_buffer<T: Element>(x: &Matrix<T>, y: &Matrix<T>)
    requires
        x.wf(),
        y.wf(),
        x.nrow == y.nrow,
        x.ncol == y.ncol,
        forall|i: int, j: int|
            0 <= i < x.nrow && 0 <= j < x.ncol ==> #[trigger] x.cell(i, j) == y.cell(i, j),
    ensures
        x.m@ == y.m@,
{
    assert forall|k: int| 0 <= k < x.m@.len() implies x.m@[k] == y.m@[k] by {
        let n = x.ncol as int;
        lemma_split_index(k, x.nrow as int, n);
        lemma_fundamental_div_mod(k, n);
        assert(k == (k / n) * n + k % n) by (nonlinear_arith)
            requires
                k == n * (k / n) + k % n,
        ;
        assert(x.cell(k / n, k % n) == y.cell(k / n, k % n));
    }
    assert(x.m@ =~= y.m@);
}

/// Transposing twice gives back the shape, the raw values and the factor
/// of the original matrix.
pub proof fn lemma_transpose_twice<T: Element>(a: &Matrix<T>, b: &Matrix<T>, c: &Matrix<T>)
    requires
        a.wf(),
        b.is_transpose_of(a),
        c.is_transpose_of(b),
    ensures
        c.nrow == a.nrow,
        c.ncol == a.ncol,
        c.m@ == a.m@,
        c.const_mult == a.const_mult,
{
    assert forall|i: int, j: int| 0 <= i < c.nrow && 0 <= j < c.ncol implies #[trigger] c.cell(i, j)
        == a.cell(i, j) by {
        assert(c.cell(i, j) == b.cell(j, i));
    }
    lemma_cells_determine_buffer(c, a);
}

/// Any two products of the same operands hold the same raw values: the
/// parallel product equals the sequential one, whatever the number of
/// workers.
pub proof fn lemma_products_agree<T: Element>(
    a: &Matrix<T>,
    b: &Matrix<T>,
    p: &Matrix<T>,
    s: &Matrix<T>,
)
    requires
        p.is_product_of(a, b),
        s.is_product_of(a, b),
    ensures
        p.nrow == s.nrow,
        p.ncol == s.ncol,
        p.m@ == s.m@,
{
    assert forall|i: int, j: int| 0 <= i < p.nrow && 0 <= j < p.ncol implies #[trigger] p.cell(i, j)
        == s.cell(i, j) by {
        assert(p.cell(i, j) == dot(a, b, i, j, a.ncol as int));
    }
    lemma_cells_determine_buffer(p, s);
}

/// With factors `alpha` on `a` and `beta` on `b`, their product carries
/// the factor `alpha * beta`, and the logical value of each of its cells is
/// the raw sum of products times `alpha * beta`.
pub proof fn lemma_product_factor<T: Element>(
    a: &Matrix<T>,
    b: &Matrix<T>,
    c: &Matrix<T>,
    alpha: T,
    beta: T,
    i: int,
    j: int,
)
    requires
        a.const_mult == Some(alpha),
        b.const_mult == Some(beta),
        c.is_product_of(a, b),
        c.const_mult == compose(a.const_mult, b.const_mult),
        0 <= i < a.nrow,
        0 <= j < b.ncol,
    ensures
        c.const_mult == Some(T::spec_times(alpha, beta)),
        c.effective(i, j) == T::spec_times(
            dot(a, b, i, j, a.ncol as int),
            T::spec_times(alpha, beta),
        ),
{
    assert(c.cell(i, j) == dot(a, b, i, j, a.ncol as int));
}

} // verus!
