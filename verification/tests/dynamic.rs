use glucose::dynamic::{DMatrix, DVector};
use glucose::error::MatrixError;

fn matrix(columns: Vec<Vec<i64>>) -> DMatrix<i64> {
    DMatrix::new(columns).unwrap()
}

#[test]
fn parsing_a_matrix_gives_its_columns() {
    let m = DMatrix::<i64>::from_str("4 3 2;2 2 -1").unwrap();
    assert_eq!(m.size, (3, 2));
    assert_eq!(m.data[0][0], 4);
    assert_eq!(m.data[1][2], -1);
    assert_eq!(m.data, vec![vec![4, 3, 2], vec![2, 2, -1]]);
}

#[test]
fn parsing_a_matrix_of_one_element() {
    let m = DMatrix::<i64>::from_str("-7").unwrap();
    assert_eq!(m.size, (1, 1));
    assert_eq!(m.data, vec![vec![-7]]);
}

#[test]
fn parsing_refuses_the_first_bad_token() {
    assert_eq!(
        DMatrix::<i64>::from_str("4 x 2;2 y -1").unwrap_err(),
        MatrixError::ParseError { column: 0, token: 1 }
    );
    assert_eq!(
        DMatrix::<i64>::from_str("4 3 2;2 2.5 -1").unwrap_err(),
        MatrixError::ParseError { column: 1, token: 1 }
    );
    assert_eq!(DMatrix::<i64>::from_str("").unwrap_err(), MatrixError::ParseError { column: 0, token: 0 });
    assert_eq!(DMatrix::<i64>::from_str("1 2;").unwrap_err(), MatrixError::ParseError { column: 1, token: 0 });
    assert_eq!(DMatrix::<i64>::from_str("1  2").unwrap_err(), MatrixError::ParseError { column: 0, token: 1 });
    assert_eq!(DVector::<i64>::from_str("1 2 three").unwrap_err(), MatrixError::ParseError { column: 0, token: 2 });
    assert_eq!(DVector::<i64>::from_str(" 1").unwrap_err(), MatrixError::ParseError { column: 0, token: 0 });
}

#[test]
fn a_bad_token_is_reported_before_an_uneven_column() {
    assert_eq!(
        DMatrix::<i64>::from_str("1 2;3;4 x").unwrap_err(),
        MatrixError::ParseError { column: 2, token: 1 }
    );
}

#[test]
fn parsing_refuses_uneven_columns() {
    assert_eq!(
        DMatrix::<i64>::from_str("1 2;3 4;5").unwrap_err(),
        MatrixError::RaggedInput { column: 2, expected: 2, found: 1 }
    );
}

#[test]
fn new_refuses_uneven_columns() {
    assert_eq!(
        DMatrix::new(vec![vec![1i64, 2], vec![3], vec![4, 5, 6]]).unwrap_err(),
        MatrixError::RaggedInput { column: 1, expected: 2, found: 1 }
    );
    assert_eq!(
        DMatrix::new(vec![vec![], vec![3i64]]).unwrap_err(),
        MatrixError::RaggedInput { column: 1, expected: 0, found: 1 }
    );
}

#[test]
fn new_takes_its_size_from_the_columns() {
    let m = matrix(vec![vec![1, 2, 3], vec![4, 5, 6]]);
    assert_eq!(m.size, (3, 2));
    assert_eq!(m.data, vec![vec![1, 2, 3], vec![4, 5, 6]]);
    let empty = DMatrix::<i64>::new(vec![]).unwrap();
    assert_eq!(empty.size, (0, 0));
    let no_rows = DMatrix::<i64>::new(vec![vec![], vec![]]).unwrap();
    assert_eq!(no_rows.size, (0, 2));
}

#[test]
fn a_vector_goes_to_a_matrix_and_back() {
    let v = DVector::<i64>::from_str("1 2 3").unwrap();
    assert_eq!(v.data, vec![1, 2, 3]);
    let m = DMatrix::from_vector(v);
    assert_eq!(m.size, (3, 1));
    assert_eq!(m.data, vec![vec![1, 2, 3]]);
    let back = DVector::from_matrix(m).unwrap();
    assert_eq!(back.len, 3);
    assert_eq!(back.data, vec![1, 2, 3]);
}

#[test]
fn only_a_matrix_of_one_column_becomes_a_vector() {
    let m = matrix(vec![vec![1, 2], vec![3, 4]]);
    assert_eq!(
        DVector::from_matrix(m).unwrap_err(),
        MatrixError::DimensionMismatch { left: (2, 2), right: (2, 1) }
    );
    let empty = DMatrix::<i64>::default();
    assert_eq!(
        DVector::from_matrix(empty).unwrap_err(),
        MatrixError::DimensionMismatch { left: (0, 0), right: (0, 1) }
    );
}

#[test]
fn adding_matrices_of_unlike_shape_fails() {
    let a = matrix(vec![vec![1, 2], vec![3, 4]]);
    let b = matrix(vec![vec![1, 2, 3], vec![4, 5, 6], vec![7, 8, 9]]);
    assert_eq!(
        a.add(b).unwrap_err(),
        MatrixError::DimensionMismatch { left: (2, 2), right: (3, 3) }
    );
}

#[test]
fn operators_in_place_leave_the_matrix_on_a_mismatch() {
    let mut a = matrix(vec![vec![1, 2], vec![3, 4]]);
    let b = matrix(vec![vec![1, 2, 3]]);
    let mismatch = MatrixError::DimensionMismatch { left: (2, 2), right: (3, 1) };
    assert_eq!(a.add_assign(b.clone()).unwrap_err(), mismatch);
    assert_eq!(a.sub_assign(b.clone()).unwrap_err(), mismatch);
    assert_eq!(a.mul_assign(b.clone()).unwrap_err(), mismatch);
    assert_eq!(a.clone().sub(b.clone()).unwrap_err(), mismatch);
    assert_eq!(a.clone().mul(b).unwrap_err(), mismatch);
    assert_eq!(a.data, vec![vec![1, 2], vec![3, 4]]);
    assert_eq!(a.size, (2, 2));
}

#[test]
fn subtracting_what_was_added_gives_the_matrix_back() {
    let a = matrix(vec![vec![1, -2, i64::MAX], vec![3, 4, i64::MIN]]);
    let b = matrix(vec![vec![10, 20, 30], vec![-40, i64::MAX, -1]]);
    let sum = a.clone().add(b.clone()).unwrap();
    assert_eq!(sum.data, vec![vec![11, 18, i64::MIN + 29], vec![-37, i64::MIN + 3, i64::MAX]]);
    let back = sum.sub(b).unwrap();
    assert_eq!(back.data, a.data);
    assert_eq!(back.size, a.size);
}

#[test]
fn sub_and_sub_assign_subtract_each_element() {
    let a = matrix(vec![vec![5, 7], vec![9, 11]]);
    let b = matrix(vec![vec![1, 2], vec![3, 4]]);
    assert_eq!(a.clone().sub(b.clone()).unwrap().data, vec![vec![4, 5], vec![6, 7]]);
    let mut c = a;
    c.sub_assign(b).unwrap();
    assert_eq!(c.data, vec![vec![4, 5], vec![6, 7]]);
}

#[test]
fn the_product_has_the_rows_of_the_left_and_the_columns_of_the_right() {
    let a = matrix(vec![vec![1, 4], vec![2, 5], vec![3, 6]]);
    let b = matrix(vec![vec![7, 9, 11], vec![8, 10, 12]]);
    let ab = a.clone().mul(b.clone()).unwrap();
    assert_eq!(ab.size, (2, 2));
    assert_eq!(ab.data, vec![vec![58, 139], vec![64, 154]]);
    let ba = b.mul(a).unwrap();
    assert_eq!(ba.size, (3, 3));
    assert_eq!(ba.data, vec![vec![39, 49, 59], vec![54, 68, 82], vec![69, 87, 105]]);
}

#[test]
fn the_product_is_associative() {
    let a = matrix(vec![vec![1, 4], vec![2, 5], vec![3, 6]]);
    let b = matrix(vec![vec![7, 9, 11], vec![8, 10, 12]]);
    let c = matrix(vec![vec![2, -1], vec![0, 3], vec![5, 5], vec![-4, 1]]);
    let left = a.clone().mul(b.clone()).unwrap().mul(c.clone()).unwrap();
    let right = a.mul(b.mul(c).unwrap()).unwrap();
    assert_eq!(left.size, (2, 4));
    assert_eq!(left.data, right.data);
    assert_eq!(left.data, vec![vec![52, 124], vec![192, 462], vec![610, 1465], vec![-168, -402]]);
}

#[test]
fn mul_assign_puts_the_product_in_place() {
    let mut a = matrix(vec![vec![1, 4], vec![2, 5], vec![3, 6]]);
    let b = matrix(vec![vec![7, 9, 11], vec![8, 10, 12]]);
    a.mul_assign(b).unwrap();
    assert_eq!(a.size, (2, 2));
    assert_eq!(a.data, vec![vec![58, 139], vec![64, 154]]);
}

#[test]
fn a_matrix_times_a_vector_is_a_vector() {
    let a = matrix(vec![vec![1, 4], vec![2, 5], vec![3, 6]]);
    let v = DVector::new(vec![7i64, 9, 11]);
    let av = a.clone().mul_vector(v).unwrap();
    assert_eq!(av.len, 2);
    assert_eq!(av.data, vec![58, 139]);
    let short = DVector::new(vec![7i64, 9]);
    assert_eq!(
        a.mul_vector(short).unwrap_err(),
        MatrixError::DimensionMismatch { left: (2, 3), right: (2, 1) }
    );
}

#[test]
fn scalars_scale_and_divide_each_element() {
    let a = matrix(vec![vec![1, -4], vec![7, 9]]);
    assert_eq!(a.clone().mul_scalar(3).data, vec![vec![3, -12], vec![21, 27]]);
    assert_eq!(a.clone().div_scalar(2).data, vec![vec![0, -2], vec![3, 4]]);
    let mut b = a.clone();
    b.mul_scalar_assign(-2);
    assert_eq!(b.data, vec![vec![-2, 8], vec![-14, -18]]);
    let mut c = a;
    c.div_scalar_assign(-3);
    assert_eq!(c.data, vec![vec![0, 1], vec![-2, -3]]);
    assert_eq!(c.size, (2, 2));
}

#[test]
fn default_with_size_fills_with_zero() {
    let m = DMatrix::<i64>::default_with_size((3, 2));
    assert_eq!(m.size, (3, 2));
    assert_eq!(m.data, vec![vec![0, 0, 0], vec![0, 0, 0]]);
    let v = DVector::<i64>::default_with_size(4);
    assert_eq!(v.len, 4);
    assert_eq!(v.data, vec![0, 0, 0, 0]);
    let none = DMatrix::<i64>::default_with_size((2, 0));
    assert_eq!(none.size, (2, 0));
    assert!(none.data.is_empty());
}

#[test]
fn the_default_containers_are_empty() {
    let m = DMatrix::<i64>::default();
    assert_eq!(m.size, (0, 0));
    assert!(m.data.is_empty());
    let v = DVector::<i64>::default();
    assert_eq!(v.len, 0);
    assert!(v.data.is_empty());
}

#[test]
fn from_array_copies_the_columns() {
    let m = DMatrix::from_array([[7i64, 9, 11], [8, 10, 12]]);
    assert_eq!(m.size, (3, 2));
    assert_eq!(m.data, vec![vec![7, 9, 11], vec![8, 10, 12]]);
}

#[test]
fn vectors_add_subtract_and_multiply() {
    let a = DVector::new(vec![1i64, 2, 3]);
    let b = DVector::new(vec![4i64, -5, 6]);
    assert_eq!(a.len, 3);
    assert_eq!(a.dot(b.clone()).unwrap(), 4 - 10 + 18);
    assert_eq!(a.clone().add(b.clone()).unwrap().data, vec![5, -3, 9]);
    assert_eq!(a.clone().sub(b.clone()).unwrap().data, vec![-3, 7, -3]);
    assert_eq!(a.clone().add(b.clone()).unwrap().sub(b.clone()).unwrap().data, a.data);
    let mut c = a.clone();
    c.add_assign(b.clone()).unwrap();
    assert_eq!(c.data, vec![5, -3, 9]);
    c.sub_assign(b).unwrap();
    assert_eq!(c.data, vec![1, 2, 3]);
}

#[test]
fn vectors_of_unlike_length_are_refused() {
    let a = DVector::new(vec![1i64, 2, 3]);
    let b = DVector::new(vec![4i64, 5]);
    let mismatch = MatrixError::DimensionMismatch { left: (3, 1), right: (2, 1) };
    assert_eq!(a.dot(b.clone()).unwrap_err(), mismatch);
    assert_eq!(a.clone().add(b.clone()).unwrap_err(), mismatch);
    assert_eq!(a.clone().sub(b.clone()).unwrap_err(), mismatch);
    let mut c = a;
    assert_eq!(c.add_assign(b.clone()).unwrap_err(), mismatch);
    assert_eq!(c.sub_assign(b).unwrap_err(), mismatch);
    assert_eq!(c.data, vec![1, 2, 3]);
}

#[test]
fn the_dot_product_of_empty_vectors_is_zero() {
    let a = DVector::<i64>::new(vec![]);
    let b = DVector::<i64>::new(vec![]);
    assert_eq!(a.dot(b).unwrap(), 0);
}

#[test]
fn a_matrix_is_drawn_row_by_row() {
    let m = DMatrix::<i64>::from_str("4 3 2;2 2 -1").unwrap();
    assert_eq!(m.render(), "|4  2|\n|3  2|\n|2  -1|\n");
    let wide = DMatrix::<i64>::from_str("4 300;2 -10;5 6").unwrap();
    assert_eq!(wide.render(), "|4    2    5|\n|300  -10  6|\n");
    let narrow = DMatrix::<i64>::from_str("1000 2;3 4").unwrap();
    assert_eq!(narrow.render(), "|1000 3|\n|2  4|\n");
    let row = DMatrix::<i64>::from_str("1;22;333").unwrap();
    assert_eq!(row.render(), "|1 22 333|\n");
    let column = DMatrix::<i64>::from_str("1 22 333").unwrap();
    assert_eq!(column.render(), "|1|\n|22|\n|333|\n");
    assert_eq!(DMatrix::<i64>::default().render(), "");
    assert_eq!(DMatrix::<i64>::default_with_size((2, 0)).render(), "||\n||\n");
}

#[test]
fn to_string_vec_keeps_the_shape() {
    let m = DMatrix::<i64>::from_str("4 3 2;2 2 -1").unwrap();
    let texts = m.to_string_vec();
    assert_eq!(texts.size, (3, 2));
    assert_eq!(
        texts.data,
        vec![
            vec!["4".to_string(), "3".to_string(), "2".to_string()],
            vec!["2".to_string(), "2".to_string(), "-1".to_string()],
        ]
    );
}

#[test]
fn a_clone_has_the_same_elements() {
    let m = matrix(vec![vec![1, 2], vec![3, 4]]);
    let n = m.clone();
    assert_eq!(n.size, (2, 2));
    assert_eq!(n.data, m.data);
    let v = DVector::new(vec![1i64, 2]);
    let w = v.clone();
    assert_eq!(w.len, 2);
    assert_eq!(w.data, v.data);
}
