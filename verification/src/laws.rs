//! What holds of the operators over a commutative ring.

use crate::algebra::{
    bounded, determinant_of, difference, larger, product, row, smaller, sum, total, vector_difference, vector_sum,
};
use crate::dynamic::{DMatrix, DVector};
use crate::mat::Matrix;
use crate::scalar::{Order, Ring, Scalar};
use vstd::prelude::*;

verus! {

/// Subtracting what was added gives the first summand back.
pub proof fn lemma_plus_minus<T: Ring>(a: T, b: T)
    ensures
        a.plus(b).minus(b) == a,
{
    let negation = T::zero_value().minus(b);
    T::minus_is_plus_negation(a.plus(b), b);
    T::plus_associates(a, b, negation);
    T::plus_negation(b);
    T::plus_zero(a);
}

/// Adding what was subtracted gives the first element back.
pub proof fn lemma_minus_plus<T: Ring>(a: T, b: T)
    ensures
        a.minus(b).plus(b) == a,
{
    let negation = T::zero_value().minus(b);
    T::minus_is_plus_negation(a, b);
    T::plus_associates(a, negation, b);
    T::plus_commutes(negation, b);
    T::plus_negation(b);
    T::plus_zero(a);
}

/// An element minus itself is zero.
pub proof fn lemma_minus_self<T: Ring>(a: T)
    ensures
        a.minus(a) == T::zero_value(),
{
    T::minus_is_plus_negation(a, a);
    T::plus_negation(a);
}

/// A product with zero is zero.
pub proof fn lemma_times_zero<T: Ring>(a: T)
    ensures
        a.times(T::zero_value()) == T::zero_value(),
        T::zero_value().times(a) == T::zero_value(),
{
    let zero = T::zero_value();
    let z = a.times(zero);
    T::plus_zero(zero);
    T::times_distributes(a, zero, zero);
    assert(z == z.plus(z));
    lemma_plus_minus(z, z);
    lemma_minus_self(z);
    T::times_commutes(a, zero);
}

/// A sum on the left of a product may be multiplied out.
pub proof fn lemma_times_distributes_right<T: Ring>(a: T, b: T, c: T)
    ensures
        a.plus(b).times(c) == a.times(c).plus(b.times(c)),
{
    T::times_commutes(a.plus(b), c);
    T::times_distributes(c, a, b);
    T::times_commutes(c, a);
    T::times_commutes(c, b);
}

/// Two sums added are the sum of the first summands plus that of the
/// second.
pub proof fn lemma_plus_interchange<T: Ring>(a: T, b: T, c: T, d: T)
    ensures
        a.plus(b).plus(c.plus(d)) == a.plus(c).plus(b.plus(d)),
{
    T::plus_associates(a, b, c.plus(d));
    T::plus_associates(b, c, d);
    T::plus_commutes(b, c);
    T::plus_associates(c, b, d);
    T::plus_associates(a, c, b.plus(d));
}

/// Functions that agree below `n` have the same total.
pub proof fn lemma_total_agrees<T: Ring>(f: spec_fn(int) -> T, g: spec_fn(int) -> T, n: nat)
    requires
        forall|i: int| 0 <= i < n ==> #[trigger] f(i) == g(i),
    ensures
        total(f, n) == total(g, n),
    decreases n,
{
    if n > 0 {
        lemma_total_agrees(f, g, (n - 1) as nat);
        assert(f(n - 1) == g(n - 1));
    }
}

/// The total of a sum of two functions is the sum of their totals.
pub proof fn lemma_total_plus<T: Ring>(f: spec_fn(int) -> T, g: spec_fn(int) -> T, n: nat)
    ensures
        total(|i: int| f(i).plus(g(i)), n) == total(f, n).plus(total(g, n)),
    decreases n,
{
    let h = |i: int| f(i).plus(g(i));
    if n == 0 {
        T::plus_zero(T::zero_value());
    } else {
        lemma_total_plus(f, g, (n - 1) as nat);
        lemma_plus_interchange(total(f, (n - 1) as nat), f(n - 1), total(g, (n - 1) as nat), g(n - 1));
        assert(h(n - 1) == f(n - 1).plus(g(n - 1)));
    }
}

/// A factor on the left of a total may be taken into it.
pub proof fn lemma_total_times_left<T: Ring>(a: T, f: spec_fn(int) -> T, n: nat)
    ensures
        total(|i: int| a.times(f(i)), n) == a.times(total(f, n)),
    decreases n,
{
    let h = |i: int| a.times(f(i));
    if n == 0 {
        lemma_times_zero(a);
    } else {
        lemma_total_times_left(a, f, (n - 1) as nat);
        T::times_distributes(a, total(f, (n - 1) as nat), f(n - 1));
        assert(h(n - 1) == a.times(f(n - 1)));
    }
}

/// A factor on the right of a total may be taken into it.
pub proof fn lemma_total_times_right<T: Ring>(f: spec_fn(int) -> T, a: T, n: nat)
    ensures
        total(|i: int| f(i).times(a), n) == total(f, n).times(a),
    decreases n,
{
    let h = |i: int| f(i).times(a);
    if n == 0 {
        lemma_times_zero(a);
    } else {
        lemma_total_times_right(f, a, (n - 1) as nat);
        lemma_times_distributes_right(total(f, (n - 1) as nat), f(n - 1), a);
        assert(h(n - 1) == f(n - 1).times(a));
    }
}

/// The total of zeros is zero.
pub proof fn lemma_total_zero<T: Ring>(n: nat)
    ensures
        total(|i: int| T::zero_value(), n) == T::zero_value(),
    decreases n,
{
    if n > 0 {
        lemma_total_zero::<T>((n - 1) as nat);
        T::plus_zero(T::zero_value());
    }
}

/// A total of totals may be taken in either order.
pub proof fn lemma_total_swap<T: Ring>(f: spec_fn(int, int) -> T, n: nat, m: nat)
    ensures
        total(|i: int| total(|j: int| f(i, j), m), n) == total(|j: int| total(|i: int| f(i, j), n), m),
    decreases n,
{
    let outer = |i: int| total(|j: int| f(i, j), m);
    let inner_n = |j: int| total(|i: int| f(i, j), n);
    if n == 0 {
        lemma_total_zero::<T>(m);
        lemma_total_agrees(inner_n, |j: int| T::zero_value(), m);
    } else {
        let k = (n - 1) as nat;
        let inner_k = |j: int| total(|i: int| f(i, j), k);
        let last = |j: int| f(n - 1, j);
        lemma_total_swap(f, k, m);
        lemma_total_agrees(outer, |i: int| total(|j: int| f(i, j), m), k);
        lemma_total_plus(inner_k, last, m);
        assert forall|j: int| 0 <= j < m implies #[trigger] inner_n(j) == inner_k(j).plus(last(j)) by {
            let column = |i: int| f(i, j);
            assert(column(n - 1) == f(n - 1, j));
        }
        lemma_total_agrees(inner_n, |j: int| inner_k(j).plus(last(j)), m);
        assert(outer(n - 1) == total(last, m)) by {
            lemma_total_agrees(|j: int| f(n - 1, j), last, m);
        }
    }
}

/// For matrices of like shape, subtracting what was added gives the first
/// matrix back.
pub proof fn lemma_sum_difference<T: Ring>(a: Seq<Seq<T>>, b: Seq<Seq<T>>)
    ensures
        difference(sum(a, b), b) == a,
{
    assert forall|c: int, r: int| 0 <= c < a.len() && 0 <= r < a[c].len() implies difference(sum(a, b), b)[c][r]
        == a[c][r] by {
        lemma_plus_minus(a[c][r], b[c][r]);
    }
    assert(difference(sum(a, b), b) =~~= a);
}

/// The matrix product is associative: with `a` of `rows` rows, the product
/// of `a` and `b`, times `c`, is `a` times the product of `b` and `c`.
pub proof fn lemma_product_associates<T: Ring>(a: Seq<Seq<T>>, b: Seq<Seq<T>>, c: Seq<Seq<T>>, rows: nat)
    ensures
        product(product(a, b, rows), c, rows) == product(a, product(b, c, a.len()), rows),
{
    let ab = product(a, b, rows);
    let bc = product(b, c, a.len());
    let n = a.len();
    let p = b.len();
    assert forall|l: int, i: int| 0 <= l < c.len() && 0 <= i < rows implies product(ab, c, rows)[l][i] == product(
        a,
        bc,
        rows,
    )[l][i] by {
        let f = |j: int, k: int| a[j][i].times(b[k][j]).times(c[l][k]);
        let left = |k: int| row(ab, i)[k].times(c[l][k]);
        let right = |j: int| row(a, i)[j].times(bc[l][j]);
        let by_k = |k: int| total(|j: int| f(j, k), n);
        let by_j = |j: int| total(|k: int| f(j, k), p);
        assert forall|k: int| 0 <= k < p implies #[trigger] left(k) == by_k(k) by {
            let terms = |j: int| row(a, i)[j].times(b[k][j]);
            lemma_total_times_right(terms, c[l][k], n);
            lemma_total_agrees(|j: int| terms(j).times(c[l][k]), |j: int| f(j, k), n);
            assert(row(ab, i)[k] == total(terms, n));
        }
        lemma_total_agrees(left, by_k, p);
        assert forall|j: int| 0 <= j < n implies #[trigger] right(j) == by_j(j) by {
            let terms = |k: int| row(b, j)[k].times(c[l][k]);
            lemma_total_times_left(a[j][i], terms, p);
            assert forall|k: int| 0 <= k < p implies (#[trigger] a[j][i].times(terms(k))) == f(j, k) by {
                T::times_associates(a[j][i], b[k][j], c[l][k]);
            }
            lemma_total_agrees(|k: int| a[j][i].times(terms(k)), |k: int| f(j, k), p);
            assert(bc[l][j] == total(terms, p));
        }
        lemma_total_agrees(right, by_j, n);
        lemma_total_swap(f, n, p);
        lemma_total_agrees(by_j, |j: int| total(|k: int| f(j, k), p), n);
        lemma_total_agrees(by_k, |k: int| total(|j: int| f(j, k), n), p);
    }
    assert(product(ab, c, rows) =~~= product(a, bc, rows));
}

/// Subtracting zero changes nothing.
pub proof fn lemma_minus_zero<T: Ring>(a: T)
    ensures
        a.minus(T::zero_value()) == a,
{
    T::minus_is_plus_negation(a, T::zero_value());
    lemma_minus_self(T::zero_value());
    T::plus_zero(a);
}

/// A difference and the difference the other way round add up to zero.
pub proof fn lemma_opposite_differences<T: Ring>(p: T, q: T)
    ensures
        p.minus(q).plus(q.minus(p)) == T::zero_value(),
{
    let negation = T::zero_value().minus(p);
    T::minus_is_plus_negation(q, p);
    T::plus_associates(p.minus(q), q, negation);
    lemma_minus_plus(p, q);
    T::plus_negation(p);
}

/// The determinant of a matrix of three columns in which two rows are
/// equal is zero.
pub proof fn lemma_determinant_repeated_row<T: Ring>(m: Seq<Seq<T>>, r1: int, r2: int)
    requires
        m.len() == 3,
        0 <= r1 < r2 < 3,
        forall|c: int| 0 <= c < 3 ==> (#[trigger] m[c])[r1] == m[c][r2],
    ensures
        determinant_of(m) == T::zero_value(),
{
    let zero = T::zero_value();
    let minor_1 = m[1][1].times(m[2][2]).minus(m[2][1].times(m[1][2]));
    let minor_2 = m[1][0].times(m[2][2]).minus(m[2][0].times(m[1][2]));
    let minor_3 = m[1][0].times(m[2][1]).minus(m[2][0].times(m[1][1]));
    assert(m[0][r1] == m[0][r2]);
    assert(m[1][r1] == m[1][r2]);
    assert(m[2][r1] == m[2][r2]);
    if r1 == 0 && r2 == 1 {
        assert(minor_1 == minor_2);
        T::times_commutes(m[1][0], m[2][0]);
        lemma_minus_self(m[1][0].times(m[2][0]));
        assert(minor_3 == zero);
        lemma_minus_self(m[0][0].times(minor_1));
        lemma_times_zero(m[0][2]);
        T::plus_zero(zero);
    } else if r1 == 1 && r2 == 2 {
        T::times_commutes(m[1][1], m[2][1]);
        lemma_minus_self(m[1][1].times(m[2][1]));
        assert(minor_1 == zero);
        assert(minor_2 == minor_3);
        lemma_times_zero(m[0][0]);
        lemma_minus_plus(zero, m[0][1].times(minor_2));
    } else {
        T::times_commutes(m[1][0], m[2][0]);
        lemma_minus_self(m[1][0].times(m[2][0]));
        assert(minor_2 == zero);
        lemma_times_zero(m[0][1]);
        lemma_minus_zero(m[0][0].times(minor_1));
        T::times_commutes(m[1][1], m[2][0]);
        T::times_commutes(m[2][1], m[1][0]);
        let p = m[1][1].times(m[2][0]);
        let q = m[2][1].times(m[1][0]);
        assert(minor_1 == p.minus(q));
        assert(minor_3 == q.minus(p));
        T::times_distributes(m[0][0], minor_1, minor_3);
        lemma_opposite_differences(p, q);
        lemma_times_zero(m[0][0]);
    }
}

/// What bounding from below and then from above makes of `x`, where the
/// lower bound is at most the upper: `x` itself between the bounds, and
/// else the bound that it is beyond.
pub proof fn lemma_bounded_element<T: Order>(x: T, low: T, high: T)
    requires
        low.at_most(high),
    ensures
        low.at_most(x) && x.at_most(high) ==> smaller(larger(x, low), high) == x,
        !low.at_most(x) ==> smaller(larger(x, low), high) == low,
        !x.at_most(high) ==> smaller(larger(x, low), high) == high,
{
    T::at_most_total(x, low);
    T::at_most_total(x, high);
    if x.at_most(low) {
        if low.at_most(x) {
            T::at_most_antisymmetric(x, low);
        }
        if !x.at_most(high) {
            T::at_most_transitive(x, low, high);
        }
    }
}

/// Clamping between bounds of which the lower is at most the upper leaves an
/// element between its bounds as it is, and puts any other on the bound that
/// it is beyond.
pub proof fn law_clamp<T: Order + Scalar, const M: usize, const N: usize>(
    a: Matrix<T, M, N>,
    min: Matrix<T, M, N>,
    max: Matrix<T, M, N>,
    c: int,
    r: int,
)
    requires
        0 <= c < N,
        0 <= r < M,
        min.at(c, r).at_most(max.at(c, r)),
    ensures
        min.at(c, r).at_most(a.at(c, r)) && a.at(c, r).at_most(max.at(c, r)) ==> bounded(a@, min@, max@)[c][r]
            == a.at(c, r),
        !min.at(c, r).at_most(a.at(c, r)) ==> bounded(a@, min@, max@)[c][r] == min.at(c, r),
        !a.at(c, r).at_most(max.at(c, r)) ==> bounded(a@, min@, max@)[c][r] == max.at(c, r),
{
    a.lemma_view();
    min.lemma_view();
    max.lemma_view();
    assert(a@[c][r] == a.at(c, r));
    assert(min@[c][r] == min.at(c, r));
    assert(max@[c][r] == max.at(c, r));
    lemma_bounded_element(a.at(c, r), min.at(c, r), max.at(c, r));
}

/// For two matrices of one type, `(a + b) - b` is `a`.
pub proof fn law_add_sub<T: Ring, const M: usize, const N: usize>(a: Matrix<T, M, N>, b: Matrix<T, M, N>)
    ensures
        difference(sum(a@, b@), b@) == a@,
{
    lemma_sum_difference(a@, b@);
}

/// For two dynamic matrices of one shape, `(a + b) - b` is `a`.
pub proof fn law_add_sub_dynamic<T: Ring>(a: DMatrix<T>, b: DMatrix<T>)
    requires
        a.wf(),
        b.wf(),
        a.size == b.size,
    ensures
        difference(sum(a@, b@), b@) == a@,
{
    lemma_sum_difference(a@, b@);
}

/// For two dynamic vectors of one length, `(a + b) - b` is `a`.
pub proof fn law_add_sub_vector<T: Ring>(a: DVector<T>, b: DVector<T>)
    requires
        a.wf(),
        b.wf(),
        a.len == b.len,
    ensures
        vector_difference(vector_sum(a@, b@), b@) == a@,
{
    assert forall|i: int| 0 <= i < a@.len() implies vector_difference(vector_sum(a@, b@), b@)[i] == a@[i] by {
        lemma_plus_minus(a@[i], b@[i]);
    }
    assert(vector_difference(vector_sum(a@, b@), b@) =~= a@);
}

/// For matrices whose types fit, `(a * b) * c` is `a * (b * c)`.
pub proof fn law_mul_associates<T: Ring, const M: usize, const N: usize, const P: usize, const Q: usize>(
    a: Matrix<T, M, N>,
    b: Matrix<T, N, P>,
    c: Matrix<T, P, Q>,
)
    ensures
        product(product(a@, b@, M as nat), c@, M as nat) == product(a@, product(b@, c@, N as nat), M as nat),
{
    lemma_product_associates(a@, b@, c@, M as nat);
}

/// For dynamic matrices whose shapes fit, `(a * b) * c` is `a * (b * c)`.
pub proof fn law_mul_associates_dynamic<T: Ring>(a: DMatrix<T>, b: DMatrix<T>, c: DMatrix<T>)
    requires
        a.wf(),
        b.wf(),
        c.wf(),
        a.size.1 == b.size.0,
        b.size.1 == c.size.0,
    ensures
        product(product(a@, b@, a.size.0 as nat), c@, a.size.0 as nat) == product(
            a@,
            product(b@, c@, b.size.0 as nat),
            a.size.0 as nat,
        ),
{
    lemma_product_associates(a@, b@, c@, a.size.0 as nat);
}

/// The determinant of a matrix of three rows and columns in which rows `r1`
/// and `r2` are equal is zero.
pub proof fn law_determinant_repeated_row<T: Ring>(m: Matrix<T, 3, 3>, r1: int, r2: int)
    requires
        0 <= r1 < 3,
        0 <= r2 < 3,
        r1 != r2,
        forall|c: int| 0 <= c < 3 ==> m.at(c, r1) == m.at(c, r2),
    ensures
        determinant_of(m@) == T::zero_value(),
{
    m.lemma_view();
    assert forall|c: int| 0 <= c < 3 implies (#[trigger] m@[c])[r1] == m@[c][r2] by {
        assert(m.at(c, r1) == m.at(c, r2));
    }
    if r1 < r2 {
        lemma_determinant_repeated_row(m@, r1, r2);
    } else {
        lemma_determinant_repeated_row(m@, r2, r1);
    }
}

} // verus!
