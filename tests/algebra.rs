use matrix::parallel::band_bounds;
use matrix::Matrix;

fn from_rows(rows: &[&[i64]]) -> Matrix<i64> {
    let nrow = rows.len();
    let ncol = if nrow == 0 { 0 } else { rows[0].len() };
    let mut m = Matrix::new(nrow, ncol);
    for (i, row) in rows.iter().enumerate() {
        for (j, x) in row.iter().enumerate() {
            m.set(i, j, *x);
        }
    }
    m
}

fn numbered(nrow: usize, ncol: usize, seed: i64) -> Matrix<i64> {
    let mut m = Matrix::new(nrow, ncol);
    for i in 0..nrow {
        for j in 0..ncol {
            m.set(i, j, seed + (i * ncol + j) as i64 * 3 - 7);
        }
    }
    m
}

#[test]
fn new_is_zero_without_factor() {
    let m: Matrix<i64> = Matrix::new(3, 4);
    assert_eq!(m.m, vec![0; 12]);
    assert_eq!(m.const_mult, None);
    assert_eq!(m.count_of_cells(), 12);
}

#[test]
fn empty_shapes_are_allowed() {
    let m: Matrix<i32> = Matrix::new(0, 5);
    assert_eq!(m.count_of_cells(), 0);
    assert!(m.m.is_empty());
    let t = m.t();
    assert_eq!((t.nrow, t.ncol), (5, 0));
    let p = Matrix::mul(&t, &m);
    assert_eq!((p.nrow, p.ncol), (5, 5));
    assert_eq!(p.m, vec![0; 25]);
}

#[test]
fn set_changes_one_cell_only() {
    let mut m = numbered(3, 3, 1);
    let before = m.copy();
    m.set(1, 2, 100);
    for i in 0..3 {
        for j in 0..3 {
            if (i, j) == (1, 2) {
                assert_eq!(m.get(i, j), 100);
            } else {
                assert_eq!(m.get(i, j), before.get(i, j));
            }
        }
    }
}

#[test]
fn add_and_sub_use_raw_values_and_drop_factors() {
    let mut a = from_rows(&[&[1, 2, 3], &[4, 5, 6]]);
    let mut b = from_rows(&[&[10, 20, 30], &[40, 50, 60]]);
    a.const_mult = Some(2);
    b.const_mult = Some(5);
    let s = Matrix::add(&a, &b);
    assert_eq!(s.m, vec![11, 22, 33, 44, 55, 66]);
    assert_eq!(s.const_mult, None);
    let d = Matrix::sub(&a, &b);
    assert_eq!(d.m, vec![-9, -18, -27, -36, -45, -54]);
    assert_eq!(d.const_mult, None);
    assert_eq!((d.nrow, d.ncol), (2, 3));
}

#[test]
fn integer_arithmetic_wraps() {
    let a = Matrix::vec_to_matrix(vec![i32::MAX, i32::MIN]);
    let b = Matrix::vec_to_matrix(vec![1, 1]);
    assert_eq!(Matrix::add(&a, &b).m, vec![i32::MIN, i32::MIN + 1]);
    assert_eq!(Matrix::sub(&a, &b).m, vec![i32::MAX - 1, i32::MAX]);
}

#[test]
fn transpose_swaps_and_keeps_factor() {
    let mut a = from_rows(&[&[1, 2, 3], &[4, 5, 6]]);
    a.const_mult = Some(7);
    let t = a.t();
    assert_eq!((t.nrow, t.ncol), (3, 2));
    assert_eq!(t.m, vec![1, 4, 2, 5, 3, 6]);
    assert_eq!(t.const_mult, Some(7));
}

#[test]
fn transpose_twice_is_identity() {
    let mut a = numbered(4, 7, 2);
    a.const_mult = Some(-3);
    let back = a.t().t();
    assert_eq!((back.nrow, back.ncol), (a.nrow, a.ncol));
    assert_eq!(back.m, a.m);
    assert_eq!(back.const_mult, a.const_mult);
}

#[test]
fn mul_shape_and_values() {
    let a = from_rows(&[&[1, 2, 3], &[4, 5, 6]]);
    let b = from_rows(&[&[7, 8], &[9, 10], &[11, 12]]);
    let c = Matrix::mul(&a, &b);
    assert_eq!((c.nrow, c.ncol), (2, 2));
    assert_eq!(c.m, vec![58, 64, 139, 154]);
    assert_eq!(c.const_mult, None);
    let d = Matrix::mul(&b, &a);
    assert_eq!((d.nrow, d.ncol), (3, 3));
    assert_eq!(d.m, vec![39, 54, 69, 49, 68, 87, 59, 82, 105]);
}

#[test]
fn mul_composes_one_sided_factor() {
    let mut a = from_rows(&[&[1, 2], &[3, 4]]);
    let b = from_rows(&[&[5, 6], &[7, 8]]);
    a.const_mult = Some(4);
    assert_eq!(Matrix::mul(&a, &b).const_mult, Some(4));
    assert_eq!(Matrix::mul(&b, &a).const_mult, Some(4));
}

#[test]
fn mul_effective_value_applies_combined_factor() {
    let mut a = from_rows(&[&[1, 2], &[3, 4]]);
    let mut b = from_rows(&[&[5, 6], &[7, 8]]);
    a.const_mult = Some(2);
    b.const_mult = Some(3);
    let c = Matrix::mul(&a, &b);
    assert_eq!(c.const_mult, Some(6));
    assert_eq!(c.get(0, 0), 19);
    assert_eq!(c.get_effective(0, 0), 114);
    assert_eq!(c.get_effective(1, 1), 300);
    assert_eq!(a.get_effective(1, 0), 6);
}

#[test]
fn band_bounds_last_band_takes_remainder() {
    assert_eq!(band_bounds(10, 4), vec![(0, 2), (2, 4), (4, 6), (6, 10)]);
    assert_eq!(band_bounds(8, 2), vec![(0, 4), (4, 8)]);
    assert_eq!(band_bounds(9, 3), vec![(0, 3), (3, 6), (6, 9)]);
}

#[test]
fn mul_threads_matches_mul() {
    for nrow in [8usize, 9, 10, 11] {
        let a = numbered(nrow, 5, 1);
        let b = numbered(5, 6, -4);
        let s = Matrix::mul(&a, &b);
        for k in [2u8, 3, 4] {
            let p = Matrix::mul_threads(&a, &b, k);
            assert_eq!((p.nrow, p.ncol), (s.nrow, s.ncol));
            assert_eq!(p.m, s.m);
        }
    }
}

#[test]
fn mul_threads_with_as_many_workers_as_rows() {
    let a = numbered(3, 2, 5);
    let b = numbered(2, 4, 1);
    let p = Matrix::mul_threads(&a, &b, 3);
    assert_eq!(p.m, Matrix::mul(&a, &b).m);
}

#[test]
fn kronecker_of_rectangles() {
    let a = from_rows(&[&[1, 2, 3]]);
    let b = from_rows(&[&[1], &[10]]);
    let k = Matrix::kroneker_product(&a, &b);
    assert_eq!((k.nrow, k.ncol), (2, 3));
    assert_eq!(k.m, vec![1, 2, 3, 10, 20, 30]);
    let a2 = numbered(2, 3, 0);
    let b2 = numbered(4, 5, 1);
    let k2 = Matrix::kroneker_product(&a2, &b2);
    assert_eq!((k2.nrow, k2.ncol), (8, 15));
    assert_eq!(k2.get(1 * 4 + 3, 2 * 5 + 4), a2.get(1, 2) * b2.get(3, 4));
}

#[test]
fn kronecker_composes_factors() {
    let mut a = from_rows(&[&[1, 2], &[3, 4]]);
    let mut b = from_rows(&[&[0, 5], &[6, 7]]);
    a.const_mult = Some(2);
    b.const_mult = Some(-1);
    assert_eq!(Matrix::kroneker_product(&a, &b).const_mult, Some(-2));
}

#[test]
fn vec_to_matrix_is_one_row() {
    let m = Matrix::vec_to_matrix(vec![4u64, 5, 6]);
    assert_eq!((m.nrow, m.ncol), (1, 3));
    assert_eq!(m.get(0, 2), 6);
    assert_eq!(m.const_mult, None);
    let e: Matrix<u32> = Matrix::vec_to_matrix(Vec::new());
    assert_eq!((e.nrow, e.ncol), (1, 0));
}

#[test]
fn copy_is_independent_and_drops_factor() {
    let mut a = from_rows(&[&[1, 2], &[3, 4]]);
    a.const_mult = Some(9);
    let mut c = a.copy();
    assert_eq!(c.m, a.m);
    assert_eq!(c.const_mult, None);
    c.set(0, 0, 42);
    assert_eq!(a.get(0, 0), 1);
    assert_eq!(c.get(0, 0), 42);
    assert_eq!(a.const_mult, Some(9));
}
