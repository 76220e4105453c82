use matrix::Matrix;

#[test]
fn render_two_by_two() {
    let mut m = Matrix::new(2, 2);
    m.set(0, 0, 1);
    m.set(0, 1, -23);
    m.set(1, 0, 345);
    m.set(1, 1, 12345);
    assert_eq!(m.render(), "\u{239B}    1  -23  \u{239E}\n\u{239D}  345 12345  \u{23A0}\n");
}

#[test]
fn render_single_row() {
    let m = Matrix::vec_to_matrix(vec![7i64, 8]);
    assert_eq!(m.render(), "\u{27EE}    7    8  \u{27EF}\n");
}

#[test]
fn render_middle_rows() {
    let m: Matrix<u32> = Matrix::new(3, 1);
    assert_eq!(
        m.render(),
        "\u{239B}    0  \u{239E}\n\u{239C}    0  \u{239F}\n\u{239D}    0  \u{23A0}\n"
    );
}

#[test]
fn render_with_factor() {
    let mut m = Matrix::new(2, 1);
    m.const_mult = Some(12);
    m.set(0, 0, 1);
    m.set(1, 0, 2);
    assert_eq!(m.render(), "12 * \u{239B}    1  \u{239E}\n     \u{239D}    2  \u{23A0}\n");
}

#[test]
fn render_truncates_large_matrices() {
    let mut m: Matrix<i32> = Matrix::new(20, 12);
    m.set(19, 11, 9);
    m.set(0, 10, 5);
    let text = m.render();
    let lines: Vec<&str> = text.lines().collect();
    assert_eq!(lines.len(), 17);
    let plain = "   0 ";
    let first = format!("\u{239B} {} ... {} \u{239E}", plain.repeat(10), plain);
    assert_eq!(lines[0], first);
    let marker = format!("\u{239C} {} \u{239F}", " ... ".repeat(12));
    assert_eq!(lines[15], marker);
    let last = format!("\u{239D} {} ...    9  \u{23A0}", plain.repeat(10));
    assert_eq!(lines[16], last);
}

#[test]
fn render_keeps_sixteen_rows_whole() {
    let m: Matrix<i64> = Matrix::new(16, 10);
    let text = m.render();
    assert_eq!(text.lines().count(), 16);
    assert!(!text.contains("..."));
}
