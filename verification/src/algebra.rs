//! The mathematics of the containers: a vector is a sequence of elements, a
//! matrix a sequence of columns, and each operator is a function on these.

use crate::scalar::{Extrema, Scalar, Signed};
use vstd::prelude::*;

verus! {

/// The vectors of `data`, each as the sequence of its elements.
pub open spec fn columns<T>(data: Vec<Vec<T>>) -> Seq<Seq<T>> {
    Seq::new(data@.len(), |c: int| data@[c]@)
}

/// Whether `m` has `cols` columns of `rows` elements each.
pub open spec fn shaped<T>(m: Seq<Seq<T>>, rows: nat, cols: nat) -> bool {
    &&& m.len() == cols
    &&& forall|c: int| 0 <= c < cols ==> (#[trigger] m[c]).len() == rows
}

/// Whether the columns of `m` are all as long as column 0.
pub open spec fn even<T>(m: Seq<Seq<T>>) -> bool {
    forall|c: int| 0 <= c < m.len() ==> (#[trigger] m[c]).len() == m[0].len()
}

/// Whether column `c` of `m` is not as long as column 0, and every column
/// before it is.
pub open spec fn first_uneven<T>(m: Seq<Seq<T>>, c: int) -> bool {
    &&& 0 <= c < m.len()
    &&& m[c].len() != m[0].len()
    &&& forall|k: int| 0 <= k < c ==> (#[trigger] m[k]).len() == m[0].len()
}

/// The sum of the first `n` values of `f`, taken from the left:
/// `((zero + f(0)) + f(1)) + ...`.
pub open spec fn total<T: Scalar>(f: spec_fn(int) -> T, n: nat) -> T
    decreases n,
{
    if n == 0 {
        T::zero_value()
    } else {
        total(f, (n - 1) as nat).plus(f(n - 1))
    }
}

/// The inner product of the first `n` elements of `a` and of `b`.
pub open spec fn inner<T: Scalar>(a: Seq<T>, b: Seq<T>, n: nat) -> T {
    total(|k: int| a[k].times(b[k]), n)
}

/// Row `r` of a matrix.
pub open spec fn row<T>(m: Seq<Seq<T>>, r: int) -> Seq<T> {
    Seq::new(m.len(), |c: int| m[c][r])
}

/// The vector whose elements are the sums of the elements of `a` and `b`.
pub open spec fn vector_sum<T: Scalar>(a: Seq<T>, b: Seq<T>) -> Seq<T> {
    Seq::new(a.len(), |i: int| a[i].plus(b[i]))
}

/// The vector whose elements are the differences of the elements of `a` and `b`.
pub open spec fn vector_difference<T: Scalar>(a: Seq<T>, b: Seq<T>) -> Seq<T> {
    Seq::new(a.len(), |i: int| a[i].minus(b[i]))
}

/// The matrix whose elements are the sums of the elements of `a` and `b`.
pub open spec fn sum<T: Scalar>(a: Seq<Seq<T>>, b: Seq<Seq<T>>) -> Seq<Seq<T>> {
    Seq::new(a.len(), |c: int| vector_sum(a[c], b[c]))
}

/// The matrix whose elements are the differences of the elements of `a` and `b`.
pub open spec fn difference<T: Scalar>(a: Seq<Seq<T>>, b: Seq<Seq<T>>) -> Seq<Seq<T>> {
    Seq::new(a.len(), |c: int| vector_difference(a[c], b[c]))
}

/// The matrix product of `a`, which has `rows` rows, and `b`: the element in
/// row `r` of column `c` is the inner product of row `r` of `a` and column
/// `c` of `b`.
pub open spec fn product<T: Scalar>(a: Seq<Seq<T>>, b: Seq<Seq<T>>, rows: nat) -> Seq<Seq<T>> {
    Seq::new(b.len(), |c: int| Seq::new(rows, |r: int| inner(row(a, r), b[c], a.len())))
}

/// Each element of `a` multiplied by `k`.
pub open spec fn scaled<T: Scalar>(a: Seq<Seq<T>>, k: T) -> Seq<Seq<T>> {
    Seq::new(a.len(), |c: int| Seq::new(a[c].len(), |r: int| a[c][r].times(k)))
}

/// Each element of `a` divided by `k`.
pub open spec fn divided<T: Scalar>(a: Seq<Seq<T>>, k: T) -> Seq<Seq<T>> {
    Seq::new(a.len(), |c: int| Seq::new(a[c].len(), |r: int| a[c][r].over(k)))
}

/// The matrix with `cols` columns of `rows` elements, each of them `value`.
pub open spec fn filled<T>(value: T, rows: nat, cols: nat) -> Seq<Seq<T>> {
    Seq::new(cols, |c: int| Seq::new(rows, |r: int| value))
}

/// The elements of a matrix of `rows` rows in one sequence, column after
/// column.
pub open spec fn flattened<T>(m: Seq<Seq<T>>, rows: nat) -> Seq<T> {
    Seq::new(m.len() * rows, |i: int| m[i / rows as int][i % rows as int])
}

/// The larger of two elements: `b` where `a` is at most `b`, else `a`.
pub open spec fn larger<T: Extrema>(a: T, b: T) -> T {
    if a.at_most(b) {
        b
    } else {
        a
    }
}

/// The smaller of two elements: `a` where `a` is at most `b`, else `b`.
pub open spec fn smaller<T: Extrema>(a: T, b: T) -> T {
    if a.at_most(b) {
        a
    } else {
        b
    }
}

/// At each place the larger of the elements of `a` and `b`.
pub open spec fn larger_elements<T: Extrema>(a: Seq<Seq<T>>, b: Seq<Seq<T>>) -> Seq<Seq<T>> {
    Seq::new(a.len(), |c: int| Seq::new(a[c].len(), |r: int| larger(a[c][r], b[c][r])))
}

/// At each place the smaller of the elements of `a` and `b`.
pub open spec fn smaller_elements<T: Extrema>(a: Seq<Seq<T>>, b: Seq<Seq<T>>) -> Seq<Seq<T>> {
    Seq::new(a.len(), |c: int| Seq::new(a[c].len(), |r: int| smaller(a[c][r], b[c][r])))
}

/// Each element of `a` raised to the element of `low` at its place where it
/// is below it, and then lowered to that of `high` where it is above it.
pub open spec fn bounded<T: Extrema>(a: Seq<Seq<T>>, low: Seq<Seq<T>>, high: Seq<Seq<T>>) -> Seq<Seq<T>> {
    smaller_elements(larger_elements(a, low), high)
}

/// The absolute value of each element of `a`.
pub open spec fn magnitudes<T: Signed>(a: Seq<Seq<T>>) -> Seq<Seq<T>> {
    Seq::new(a.len(), |c: int| Seq::new(a[c].len(), |r: int| a[c][r].magnitude()))
}

/// The determinant of a square matrix of at most three columns, by the
/// closed forms: one for the empty matrix, the element of a matrix of one, the
/// difference of the products of the two diagonals for two columns, and the
/// expansion along the first column for three.
pub open spec fn determinant_of<T: Scalar>(m: Seq<Seq<T>>) -> T {
    if m.len() == 0 {
        T::one_value()
    } else if m.len() == 1 {
        m[0][0]
    } else if m.len() == 2 {
        m[0][0].times(m[1][1]).minus(m[1][0].times(m[0][1]))
    } else {
        let minor_1 = m[1][1].times(m[2][2]).minus(m[2][1].times(m[1][2]));
        let minor_2 = m[1][0].times(m[2][2]).minus(m[2][0].times(m[1][2]));
        let minor_3 = m[1][0].times(m[2][1]).minus(m[2][0].times(m[1][1]));
        m[0][0].times(minor_1).minus(m[0][1].times(minor_2)).plus(m[0][2].times(minor_3))
    }
}

} // verus!
