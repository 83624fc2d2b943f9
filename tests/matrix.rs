use easy_shell_core::matrix::Matrix;

#[test]
fn matrix_from_str() {
    let s = r#"
    test
1111
"#;
    let a = Matrix::from_str(&s[1..s.len() - 1]).unwrap();
    let b = Matrix::new(vec![
        vec![' ', ' ', ' ', ' ', 't', 'e', 's', 't'],
        vec!['1', '1', '1', '1'],
    ]);
    assert_eq!(a, b)
}

#[test]
fn matrix_print() {
    println!(
        "{}",
        Matrix::new(vec![
            vec![' ', ' ', ' ', ' ', 't', 'e', 's', 't'],
            vec!['1', '1', '1', '1'],
        ])
        .to_string()
    )
}

#[test]
fn new_pads_rows_with_default() {
    let m = Matrix::new(vec![vec![1u8, 2, 3], vec![4]]);
    assert_eq!(m.y_len(), 2);
    assert_eq!(m.x_len(), 3);
    assert_eq!(m.get_y(1), Some(&vec![4u8, 0, 0]));
    assert_eq!(m.get_y(2), None);
}

#[test]
fn sizes_and_bounds() {
    let m: Matrix<u8> = Matrix::with_size(3, 2);
    assert_eq!((m.x_len(), m.y_len()), (3, 2));
    assert!(m.is_safe_x(2) && !m.is_safe_x(3));
    assert!(m.is_safe_y(1) && !m.is_safe_y(2));
    assert!(m.exist(2, 1) && !m.exist(3, 1) && !m.exist(0, 2));
    assert_eq!(m.get_xy(2, 1), Some(&0));
    let e: Matrix<u8> = Matrix::with_size(0, 0);
    assert_eq!(e.x_len(), 0);
    assert!(!e.exist(0, 0));
}

#[test]
fn set_and_get() {
    let mut m = Matrix::with_size_v(2, 2, 'x');
    m.set_xy(1, 0, 'y');
    m.set_xy(5, 5, 'z');
    assert_eq!(m.get_xy(1, 0), Some(&'y'));
    assert_eq!(m.get_xy(0, 0), Some(&'x'));
    assert_eq!(m.get_xy(5, 5), None);
    if let Some(v) = m.get_mut_xy(0, 1) {
        *v = 'w';
    }
    assert_eq!(m.get_xy(0, 1), Some(&'w'));
    if let Some(row) = m.get_mut_y(1) {
        row[1] = 'v';
    }
    assert_eq!(m.get_y(1), Some(&vec!['w', 'v']));
    assert!(m.get_mut_y(2).is_none());
}

#[test]
fn expand_adds_one_row() {
    let mut m = Matrix::with_size_v(1, 1, 7u8);
    m.expand_size(3, 4, 9);
    assert_eq!(m.y_len(), 2);
    assert_eq!(m.get_y(0), Some(&vec![7u8, 9, 9]));
    assert_eq!(m.get_y(1), Some(&vec![9u8, 9, 9]));
    m.fix_size(1);
    assert_eq!(m.y_len(), 2);
}

#[test]
fn text_form() {
    let m = Matrix::from_str("ab\r\nc").unwrap();
    assert_eq!(m.to_string(), "a\tb\nc\t\0\n");
    let e = Matrix::from_str("").unwrap();
    assert_eq!(e.y_len(), 0);
    assert_eq!(e.to_string(), "");
    let one = Matrix::from_str("\n").unwrap();
    assert_eq!(one.y_len(), 1);
}
