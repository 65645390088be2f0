use glucose::error::MatrixError;
use glucose::mat::{Matrix, MemoryLayout, SquareMatrix};

#[test]
fn the_size_is_rows_then_columns() {
    let m = Matrix::<i64, 3, 2>::new([[1, 2, 3], [4, 5, 6]]);
    assert_eq!(m.size(), (3, 2));
    assert_eq!(m.len(), 6);
    assert_eq!(m.to_vectors(), [[1, 2, 3], [4, 5, 6]]);
    assert_eq!(m.data, [[1, 2, 3], [4, 5, 6]]);
}

#[test]
fn an_index_is_a_column_and_a_row() {
    let mut m = Matrix::<i64, 3, 2>::new([[1, 2, 3], [4, 5, 6]]);
    assert_eq!(*m.index([1, 2]), 6);
    assert_eq!(*m.index([0, 1]), 2);
    *m.index_mut([1, 0]) = 40;
    m.set(0, 2, 30);
    assert_eq!(m.data, [[1, 2, 30], [40, 5, 6]]);
}

#[test]
fn broadcast_zero_and_one_fill_the_matrix() {
    assert_eq!(Matrix::<i64, 2, 3>::broadcast(7).data, [[7, 7], [7, 7], [7, 7]]);
    assert_eq!(Matrix::<i64, 2, 2>::zero().data, [[0, 0], [0, 0]]);
    assert_eq!(Matrix::<i64, 2, 2>::one().data, [[1, 1], [1, 1]]);
    assert_eq!(Matrix::<i64, 1, 2>::default().data, [[0], [0]]);
}

#[test]
fn subtracting_what_was_added_gives_the_fixed_matrix_back() {
    let a = Matrix::<i64, 2, 2>::new([[1, i64::MAX], [-3, i64::MIN]]);
    let b = Matrix::<i64, 2, 2>::new([[5, 1], [i64::MIN, -1]]);
    let sum = a.add(b);
    assert_eq!(sum.data, [[6, i64::MIN], [i64::MAX - 2, i64::MAX]]);
    assert_eq!(sum.sub(b).data, a.data);
}

#[test]
fn operators_in_place_do_as_those_that_copy() {
    let a = Matrix::<i64, 2, 2>::new([[1, 2], [3, 4]]);
    let b = Matrix::<i64, 2, 2>::new([[10, 20], [30, 40]]);
    let mut c = a;
    c.add_assign(b);
    assert_eq!(c.data, [[11, 22], [33, 44]]);
    c.sub_assign(a);
    assert_eq!(c.data, b.data);
    c.mul_scalar_assign(3);
    assert_eq!(c.data, [[30, 60], [90, 120]]);
    c.div_scalar_assign(-7);
    assert_eq!(c.data, [[-4, -8], [-12, -17]]);
}

#[test]
fn a_scalar_scales_the_copy_that_is_returned() {
    let a = Matrix::<i64, 2, 2>::new([[1, -2], [3, 4]]);
    assert_eq!(a.mul_scalar(5).data, [[5, -10], [15, 20]]);
    assert_eq!(a.div_scalar(2).data, [[0, -1], [1, 2]]);
    assert_eq!(a.data, [[1, -2], [3, 4]]);
}

#[test]
fn the_product_sums_over_the_shared_dimension() {
    let a = Matrix::<i64, 2, 3>::new([[1, 4], [2, 5], [3, 6]]);
    let b = Matrix::<i64, 3, 2>::new([[7, 9, 11], [8, 10, 12]]);
    let ab: Matrix<i64, 2, 2> = a.mul(b);
    assert_eq!(ab.data, [[58, 139], [64, 154]]);
    let ba: Matrix<i64, 3, 3> = b.mul(a);
    assert_eq!(ba.data, [[39, 49, 59], [54, 68, 82], [69, 87, 105]]);
}

#[test]
fn the_fixed_product_is_associative() {
    let a = Matrix::<i64, 2, 3>::new([[1, 4], [2, 5], [3, 6]]);
    let b = Matrix::<i64, 3, 2>::new([[7, 9, 11], [8, 10, 12]]);
    let c = Matrix::<i64, 2, 4>::new([[2, -1], [0, 3], [5, 5], [-4, 1]]);
    let left = a.mul(b).mul(c);
    let right = a.mul(b.mul(c));
    assert_eq!(left.data, right.data);
    assert_eq!(left.data, [[52, 124], [192, 462], [610, 1465], [-168, -402]]);
}

#[test]
fn the_product_is_associative_where_it_wraps() {
    let a = Matrix::<i64, 2, 2>::new([[i64::MAX, 3], [-7, i64::MIN]]);
    let b = Matrix::<i64, 2, 2>::new([[1 << 40, 5], [9, -(1 << 50)]]);
    let c = Matrix::<i64, 2, 2>::new([[i64::MAX - 4, 1 << 33], [12345678901234, 2]]);
    assert_eq!(a.mul(b).mul(c).data, a.mul(b.mul(c)).data);
}

#[test]
fn the_determinant_has_its_closed_forms() {
    assert_eq!(SquareMatrix::<i64, 0>::new([]).determinant(), Ok(1));
    assert_eq!(SquareMatrix::<i64, 1>::new([[-9]]).determinant(), Ok(-9));
    assert_eq!(SquareMatrix::<i64, 2>::new([[2, 0], [0, 3]]).determinant(), Ok(6));
    assert_eq!(SquareMatrix::<i64, 2>::new([[1, 2], [3, 4]]).determinant(), Ok(-2));
    assert_eq!(SquareMatrix::<i64, 2>::new([[5, 2], [0, 4]]).determinant(), Ok(20));
    assert_eq!(SquareMatrix::<i64, 3>::new([[2, 0, 1], [1, 3, 2], [0, 1, 4]]).determinant(), Ok(21));
    assert_eq!(SquareMatrix::<i64, 3>::new([[1, 0, 0], [0, 1, 0], [0, 0, 1]]).determinant(), Ok(1));
}

#[test]
fn the_determinant_with_a_repeated_row_is_zero() {
    assert_eq!(SquareMatrix::<i64, 3>::new([[1, 1, 7], [4, 4, -2], [9, 9, 3]]).determinant(), Ok(0));
    assert_eq!(SquareMatrix::<i64, 3>::new([[1, 7, 1], [4, -2, 4], [9, 3, 9]]).determinant(), Ok(0));
    assert_eq!(SquareMatrix::<i64, 3>::new([[7, 1, 1], [-2, 4, 4], [3, 9, 9]]).determinant(), Ok(0));
}

#[test]
fn the_determinant_of_a_larger_matrix_is_refused() {
    assert_eq!(
        SquareMatrix::<i64, 4>::zero().determinant(),
        Err(MatrixError::UnsupportedDimension { size: 4 })
    );
    assert_eq!(
        SquareMatrix::<i64, 7>::one().determinant(),
        Err(MatrixError::UnsupportedDimension { size: 7 })
    );
}

#[test]
fn clamp_bounds_each_element() {
    let min = Matrix::<i64, 2, 2>::new([[0, 0], [0, 0]]);
    let max = Matrix::<i64, 2, 2>::new([[1, 1], [1, 1]]);
    let mut m = Matrix::<i64, 2, 2>::new([[0, 2], [1, -3]]);
    assert_eq!(m.clamped(min, max).data, [[0, 1], [1, 0]]);
    assert_eq!(m.data, [[0, 2], [1, -3]]);
    m.clamp(min, max);
    assert_eq!(m.data, [[0, 1], [1, 0]]);
}

#[test]
fn clamp_goes_by_the_bounds_at_each_place() {
    let min = Matrix::<i64, 2, 2>::new([[-5, 0], [10, 3]]);
    let max = Matrix::<i64, 2, 2>::new([[5, 0], [20, 2]]);
    let m = Matrix::<i64, 2, 2>::new([[-9, 9], [15, 7]]);
    assert_eq!(m.clamped(min, max).data, [[-5, 0], [15, 2]]);
}

#[test]
fn the_extrema_are_taken_by_component() {
    let a = Matrix::<i64, 2, 2>::new([[1, 8], [-3, 4]]);
    let b = Matrix::<i64, 2, 2>::new([[2, 7], [-3, i64::MIN]]);
    assert_eq!(a.max_by_component(&b).data, [[2, 8], [-3, 4]]);
    assert_eq!(a.min_by_component(&b).data, [[1, 7], [-3, i64::MIN]]);
}

#[test]
fn abs_takes_the_absolute_value_of_each_element() {
    let mut m = Matrix::<i64, 2, 2>::new([[1, -8], [0, i64::MIN]]);
    assert_eq!(m.abs_copy().data, [[1, 8], [0, i64::MIN]]);
    assert_eq!(m.data, [[1, -8], [0, i64::MIN]]);
    m.abs();
    assert_eq!(m.data, [[1, 8], [0, i64::MIN]]);
}

#[test]
fn map_and_apply_call_the_function_on_each_element() {
    let mut m = Matrix::<i64, 3, 2>::new([[1, 2, 3], [4, 5, 6]]);
    assert_eq!(m.map(|x| x * x).data, [[1, 4, 9], [16, 25, 36]]);
    m.apply(|x| x - 1);
    assert_eq!(m.data, [[0, 1, 2], [3, 4, 5]]);
}

#[test]
fn the_slice_holds_column_after_column() {
    let mut m = Matrix::<i64, 3, 2>::new([[1, 2, 3], [4, 5, 6]]);
    assert_eq!(m.as_slice(), &[1, 2, 3, 4, 5, 6]);
    m.as_slice_mut()[4] = 50;
    assert_eq!(m.data, [[1, 2, 3], [4, 50, 6]]);
    let empty = Matrix::<i64, 0, 2>::new([[], []]);
    assert!(empty.as_slice().is_empty());
}

#[test]
fn a_matrix_of_one_row_is_an_array() {
    let mut m = Matrix::<i64, 1, 3>::new([[1], [2], [3]]);
    assert_eq!(m.as_array(), &[1, 2, 3]);
    m.as_array_mut()[1] = 20;
    assert_eq!(m.data, [[1], [20], [3]]);
}

#[test]
fn the_layout_is_that_of_the_columns() {
    assert_eq!(Matrix::<i64, 3, 2>::layout(), MemoryLayout { size: 48, align: 8 });
    assert_eq!(Matrix::<u8, 3, 5>::layout(), MemoryLayout { size: 15, align: 1 });
}

#[test]
fn elements_of_one_layout_are_converted() {
    let m = Matrix::<i64, 2, 2>::new([[1, -1], [i64::MIN, 7]]);
    let r = Matrix::<u64, 2, 2>::from_other_type(m, |x| x as u64).unwrap();
    assert_eq!(r.data, [[1, u64::MAX], [1 << 63, 7]]);
}

#[test]
fn elements_of_another_layout_are_refused() {
    let m = Matrix::<i64, 2, 2>::new([[1, -1], [3, 7]]);
    assert_eq!(
        Matrix::<i32, 2, 2>::from_other_type(m, |x| x as i32).unwrap_err(),
        MatrixError::LayoutMismatch
    );
}

#[test]
fn a_fixed_matrix_is_drawn_row_by_row() {
    let m = Matrix::<i64, 2, 3>::new([[1, 2], [-30, 4], [5, 600]]);
    assert_eq!(m.render(), "|1 -30 5|\n|2 4 600|\n");
    assert_eq!(Matrix::<i64, 2, 0>::new([]).render(), "||\n||\n");
    assert_eq!(Matrix::<i64, 0, 2>::new([[], []]).render(), "");
}
