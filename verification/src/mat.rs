//! Matrices whose dimensions are part of the type.

use crate::algebra::{
    bounded, determinant_of, difference, divided, filled, flattened, inner, larger, larger_elements, magnitudes,
    product, row, scaled, shaped, smaller, smaller_elements, sum,
};
use crate::error::MatrixError;
use crate::format::{element_texts, grid_text, render_grid, texts};
use crate::scalar::{Extrema, Scalar, Signed, Token};
use vstd::prelude::*;

verus! {

/// A matrix of `M` rows and `N` columns, stored column by column:
/// `data[c][r]` is the element in column `c` and row `r`.
#[derive(Debug, Copy, Clone)]
pub struct Matrix<T, const M: usize, const N: usize> {
    pub data: [[T; M]; N],
}

/// A matrix with as many rows as columns.
pub type SquareMatrix<T, const N: usize> = Matrix<T, N, N>;

impl<T, const M: usize, const N: usize> View for Matrix<T, M, N> {
    type V = Seq<Seq<T>>;

    /// The columns of the matrix.
    open spec fn view(&self) -> Seq<Seq<T>> {
        Seq::new(N as nat, |c: int| self.data[c]@)
    }
}

impl<T, const M: usize, const N: usize> Matrix<T, M, N> {
    /// The element in column `col` and row `row`.
    pub open spec fn at(self, col: int, row: int) -> T {
        self.data[col][row]
    }

    /// The view has `N` columns of `M` elements, and holds the elements.
    pub proof fn lemma_view(self)
        ensures
            shaped(self@, M as nat, N as nat),
            forall|c: int, r: int| 0 <= c < N && 0 <= r < M ==> self@[c][r] == #[trigger] self.at(c, r),
    {
    }

    /// The matrix of the columns `data`.
    pub fn new(data: [[T; M]; N]) -> (r: Self)
        ensures
            r.data == data,
    {
        Self { data }
    }

    /// The number of elements.
    pub fn len(&self) -> (r: usize)
        requires
            M * N <= usize::MAX,
        ensures
            r == M * N,
    {
        M * N
    }

    /// The number of rows and the number of columns.
    pub fn size(&self) -> (r: (usize, usize))
        ensures
            r == (M, N),
    {
        (M, N)
    }

    /// The element at `index`, which is a column and a row.
    pub fn index(&self, index: [usize; 2]) -> (r: &T)
        requires
            index[0] < N,
            index[1] < M,
        ensures
            *r == self.at(index[0] as int, index[1] as int),
    {
        &self.data[index[0]][index[1]]
    }

    /// Puts `value` at column `col`, row `row`, and leaves the rest.
    pub fn set(&mut self, col: usize, row: usize, value: T)
        requires
            col < N,
            row < M,
        ensures
            final(self).at(col as int, row as int) == value,
            forall|c: int, r: int|
                0 <= c < N && 0 <= r < M && !(c == col && r == row) ==> #[trigger] final(self).at(c, r) == old(
                    self,
                ).at(c, r),
    {
        self.data[col][row] = value;
    }

    /// The place of the element at `index`, which is a column and a row.
    pub fn index_mut(&mut self, index: [usize; 2]) -> (r: &mut T)
        requires
            index[0] < N,
            index[1] < M,
        ensures
            *r == old(self).at(index[0] as int, index[1] as int),
            final(self).at(index[0] as int, index[1] as int) == *final(r),
            forall|c: int, r0: int|
                0 <= c < N && 0 <= r0 < M && !(c == index[0] && r0 == index[1])
                    ==> #[trigger] final(self).at(c, r0) == old(self).at(c, r0),
    {
        &mut self.data[index[0]][index[1]]
    }
}

impl<T: Copy, const M: usize, const N: usize> Matrix<T, M, N> {
    /// The stored columns, by value.
    pub fn to_vectors(&self) -> (r: [[T; M]; N])
        ensures
            r == self.data,
    {
        self.data
    }

    /// The matrix whose every element is `value`.
    pub fn broadcast(value: T) -> (r: Self)
        ensures
            r@ == filled(value, M as nat, N as nat),
    {
        let r = Self { data: [[value; M]; N] };
        assert(r@ =~~= filled(value, M as nat, N as nat));
        r
    }

    /// The matrix whose elements are what `f` gives for the elements of
    /// `self`; `f` is called once for each element.
    pub fn map<F: Fn(T) -> T>(&self, f: F) -> (r: Self)
        requires
            forall|c: int, r: int| 0 <= c < N && 0 <= r < M ==> call_requires(f, (#[trigger] self.at(c, r),)),
        ensures
            forall|c: int, r0: int|
                0 <= c < N && 0 <= r0 < M ==> call_ensures(f, (self.at(c, r0),), #[trigger] r.at(c, r0)),
    {
        let mut mat = *self;
        let mut c: usize = 0;
        while c < N
            invariant
                c <= N,
                forall|i: int, j: int| 0 <= i < N && 0 <= j < M ==> call_requires(f, (#[trigger] self.at(i, j),)),
                forall|i: int, j: int|
                    0 <= i < c && 0 <= j < M ==> call_ensures(f, (self.at(i, j),), #[trigger] mat.at(i, j)),
            decreases N - c,
        {
            let mut r: usize = 0;
            while r < M
                invariant
                    c < N,
                    r <= M,
                    forall|i: int, j: int|
                        0 <= i < N && 0 <= j < M ==> call_requires(f, (#[trigger] self.at(i, j),)),
                    forall|i: int, j: int|
                        0 <= i < c && 0 <= j < M ==> call_ensures(f, (self.at(i, j),), #[trigger] mat.at(i, j)),
                    forall|j: int| 0 <= j < r ==> call_ensures(f, (self.at(c as int, j),), #[trigger] mat.at(c as int, j)),
                decreases M - r,
            {
                assert(call_requires(f, (self.at(c as int, r as int),)));
                mat.set(c, r, f(self.data[c][r]));
                r += 1;
            }
            c += 1;
        }
        mat
    }

    /// Replaces each element by what `f` gives for it.
    pub fn apply<F: Fn(T) -> T>(&mut self, f: F)
        requires
            forall|c: int, r: int| 0 <= c < N && 0 <= r < M ==> call_requires(f, (#[trigger] old(self).at(c, r),)),
        ensures
            forall|c: int, r: int|
                0 <= c < N && 0 <= r < M ==> call_ensures(f, (old(self).at(c, r),), #[trigger] final(self).at(c, r)),
    {
        *self = self.map(f);
    }

    /// Whether the elements of the types `T` and `U` have one size and one
    /// alignment in memory.
    pub open spec fn same_layout<U>() -> bool {
        &&& vstd::layout::size_of::<T>() == vstd::layout::size_of::<U>()
        &&& vstd::layout::align_of::<T>() == vstd::layout::align_of::<U>()
    }

    /// The matrix of the elements of `rhs`, each turned into a `T` by
    /// `convert`. Element types that differ in size or alignment are refused.
    pub fn from_other_type<U: Copy, F: Fn(U) -> T>(rhs: Matrix<U, M, N>, convert: F) -> (r: Result<
        Self,
        MatrixError,
    >) where T: Default
        requires
            forall|u: U| call_requires(convert, (u,)),
        ensures
            Self::same_layout::<U>() ==> r is Ok && forall|c: int, r0: int|
                0 <= c < N && 0 <= r0 < M ==> call_ensures(convert, (rhs.at(c, r0),), #[trigger] r->Ok_0.at(c, r0)),
            !Self::same_layout::<U>() ==> r == Err::<Self, MatrixError>(MatrixError::LayoutMismatch),
    {
        if core::mem::size_of::<T>() != core::mem::size_of::<U>() || core::mem::align_of::<T>()
            != core::mem::align_of::<U>() {
            return Err(MatrixError::LayoutMismatch);
        }
        let mut mat = Self::broadcast(T::default());
        let mut c: usize = 0;
        while c < N
            invariant
                c <= N,
                forall|u: U| call_requires(convert, (u,)),
                forall|i: int, j: int|
                    0 <= i < c && 0 <= j < M ==> call_ensures(convert, (rhs.at(i, j),), #[trigger] mat.at(i, j)),
            decreases N - c,
        {
            let mut r: usize = 0;
            while r < M
                invariant
                    c < N,
                    r <= M,
                    forall|u: U| call_requires(convert, (u,)),
                    forall|i: int, j: int|
                        0 <= i < c && 0 <= j < M ==> call_ensures(convert, (rhs.at(i, j),), #[trigger] mat.at(i, j)),
                    forall|j: int|
                        0 <= j < r ==> call_ensures(
                            convert,
                            (rhs.at(c as int, j),),
                            #[trigger] mat.at(c as int, j),
                        ),
                decreases M - r,
            {
                mat.set(c, r, convert(rhs.data[c][r]));
                r += 1;
            }
            c += 1;
        }
        Ok(mat)
    }

    /// The matrix whose elements are what `f` gives for the elements of
    /// `self` and `other` at the same place.
    fn zip_with<F: Fn(T, T) -> T>(&self, other: &Self, f: F) -> (r: Self)
        requires
            forall|a: T, b: T| call_requires(f, (a, b)),
        ensures
            forall|c: int, r0: int|
                0 <= c < N && 0 <= r0 < M ==> call_ensures(
                    f,
                    (self.at(c, r0), other.at(c, r0)),
                    #[trigger] r.at(c, r0),
                ),
    {
        let mut mat = *self;
        let mut c: usize = 0;
        while c < N
            invariant
                c <= N,
                forall|a: T, b: T| call_requires(f, (a, b)),
                forall|i: int, j: int|
                    0 <= i < c && 0 <= j < M ==> call_ensures(
                        f,
                        (self.at(i, j), other.at(i, j)),
                        #[trigger] mat.at(i, j),
                    ),
            decreases N - c,
        {
            let mut r: usize = 0;
            while r < M
                invariant
                    c < N,
                    r <= M,
                    forall|a: T, b: T| call_requires(f, (a, b)),
                    forall|i: int, j: int|
                        0 <= i < c && 0 <= j < M ==> call_ensures(
                            f,
                            (self.at(i, j), other.at(i, j)),
                            #[trigger] mat.at(i, j),
                        ),
                    forall|j: int|
                        0 <= j < r ==> call_ensures(
                            f,
                            (self.at(c as int, j), other.at(c as int, j)),
                            #[trigger] mat.at(c as int, j),
                        ),
                decreases M - r,
            {
                mat.set(c, r, f(self.data[c][r], other.data[c][r]));
                r += 1;
            }
            c += 1;
        }
        mat
    }
}

impl<T: Default + Copy, const M: usize, const N: usize> Default for Matrix<T, M, N> {
    /// The matrix whose every element is the default of `T`.
    fn default() -> (r: Self)
        ensures
            exists|d: T| call_ensures(T::default, (), d) && r@ == #[trigger] filled(d, M as nat, N as nat),
    {
        let d = T::default();
        let r = Self::broadcast(d);
        assert(r@ == filled(d, M as nat, N as nat));
        r
    }
}

impl<T: Scalar, const M: usize, const N: usize> Matrix<T, M, N> {
    /// The matrix whose every element is zero.
    pub fn zero() -> (r: Self)
        ensures
            r@ == filled(T::zero_value(), M as nat, N as nat),
    {
        Self::broadcast(T::zero())
    }

    /// The matrix whose every element is one.
    pub fn one() -> (r: Self)
        ensures
            r@ == filled(T::one_value(), M as nat, N as nat),
    {
        Self::broadcast(T::one())
    }

    /// The sum, element by element.
    pub fn add(self, rhs: Self) -> (r: Self)
        ensures
            r@ == sum(self@, rhs@),
    {
        let r = self.zip_with(
            &rhs,
            |a: T, b: T| -> (s: T)
                ensures
                    s == a.plus(b)
                {
                    a.add(b)
                },
        );
        assert(r@ =~~= sum(self@, rhs@)) by {
            assert forall|c: int, r0: int| 0 <= c < N && 0 <= r0 < M implies r@[c][r0] == sum(self@, rhs@)[c][r0] by {
                assert(r.at(c, r0) == self.at(c, r0).plus(rhs.at(c, r0)));
            }
        }
        r
    }

    /// Adds `rhs` to `self`, element by element.
    pub fn add_assign(&mut self, rhs: Self)
        ensures
            final(self)@ == sum(old(self)@, rhs@),
    {
        *self = self.add(rhs);
    }

    /// The difference, element by element.
    pub fn sub(self, rhs: Self) -> (r: Self)
        ensures
            r@ == difference(self@, rhs@),
    {
        let r = self.zip_with(
            &rhs,
            |a: T, b: T| -> (s: T)
                ensures
                    s == a.minus(b)
                {
                    a.sub(b)
                },
        );
        assert(r@ =~~= difference(self@, rhs@)) by {
            assert forall|c: int, r0: int| 0 <= c < N && 0 <= r0 < M implies r@[c][r0] == difference(
                self@,
                rhs@,
            )[c][r0] by {
                assert(r.at(c, r0) == self.at(c, r0).minus(rhs.at(c, r0)));
            }
        }
        r
    }

    /// Subtracts `rhs` from `self`, element by element.
    pub fn sub_assign(&mut self, rhs: Self)
        ensures
            final(self)@ == difference(old(self)@, rhs@),
    {
        *self = self.sub(rhs);
    }

    /// The inner product of row `m` of `self` and column `p` of `rhs`.
    fn product_entry<const P: usize>(&self, rhs: &Matrix<T, N, P>, m: usize, p: usize) -> (r: T)
        requires
            m < M,
            p < P,
        ensures
            r == inner(row(self@, m as int), rhs@[p as int], N as nat),
    {
        let mut acc = T::zero();
        let mut n: usize = 0;
        while n < N
            invariant
                n <= N,
                m < M,
                p < P,
                acc == inner(row(self@, m as int), rhs@[p as int], n as nat),
            decreases N - n,
        {
            acc = acc.add(self.data[n][m].mul(rhs.data[p][n]));
            n += 1;
        }
        acc
    }

    /// The matrix product: the element in row `m` of column `p` is the inner
    /// product of row `m` of `self` and column `p` of `rhs`.
    pub fn mul<const P: usize>(self, rhs: Matrix<T, N, P>) -> (r: Matrix<T, M, P>)
        ensures
            r@ == product(self@, rhs@, M as nat),
    {
        let mut mat = Matrix::<T, M, P>::zero();
        let mut p: usize = 0;
        while p < P
            invariant
                p <= P,
                forall|i: int, j: int|
                    0 <= i < p && 0 <= j < M ==> #[trigger] mat.at(i, j) == inner(
                        row(self@, j),
                        rhs@[i],
                        N as nat,
                    ),
            decreases P - p,
        {
            let mut m: usize = 0;
            while m < M
                invariant
                    p < P,
                    m <= M,
                    forall|i: int, j: int|
                        0 <= i < p && 0 <= j < M ==> #[trigger] mat.at(i, j) == inner(
                            row(self@, j),
                            rhs@[i],
                            N as nat,
                        ),
                    forall|j: int|
                        0 <= j < m ==> #[trigger] mat.at(p as int, j) == inner(
                            row(self@, j),
                            rhs@[p as int],
                            N as nat,
                        ),
                decreases M - m,
            {
                let entry = self.product_entry(&rhs, m, p);
                mat.set(p, m, entry);
                m += 1;
            }
            p += 1;
        }
        assert(mat@ =~~= product(self@, rhs@, M as nat)) by {
            assert forall|c: int, r0: int| 0 <= c < P && 0 <= r0 < M implies mat@[c][r0] == product(
                self@,
                rhs@,
                M as nat,
            )[c][r0] by {
                assert(mat.at(c, r0) == inner(row(self@, r0), rhs@[c], N as nat));
            }
        }
        mat
    }

    /// Each element multiplied by `rhs`.
    pub fn mul_scalar(self, rhs: T) -> (r: Self)
        ensures
            r@ == scaled(self@, rhs),
    {
        let r = self.map(
            |a: T| -> (s: T)
                ensures
                    s == a.times(rhs)
                {
                    a.mul(rhs)
                },
        );
        assert(r@ =~~= scaled(self@, rhs)) by {
            assert forall|c: int, r0: int| 0 <= c < N && 0 <= r0 < M implies r@[c][r0] == scaled(self@, rhs)[c][r0] by {
                assert(r.at(c, r0) == self.at(c, r0).times(rhs));
            }
        }
        r
    }

    /// Multiplies each element by `rhs`.
    pub fn mul_scalar_assign(&mut self, rhs: T)
        ensures
            final(self)@ == scaled(old(self)@, rhs),
    {
        *self = self.mul_scalar(rhs);
    }

    /// Each element divided by `rhs`.
    pub fn div_scalar(self, rhs: T) -> (r: Self)
        requires
            rhs.is_divisor(),
        ensures
            r@ == divided(self@, rhs),
    {
        let r = self.map(
            |a: T| -> (s: T)
                ensures
                    s == a.over(rhs)
                {
                    a.div(rhs)
                },
        );
        assert(r@ =~~= divided(self@, rhs)) by {
            assert forall|c: int, r0: int| 0 <= c < N && 0 <= r0 < M implies r@[c][r0] == divided(self@, rhs)[c][r0] by {
                assert(r.at(c, r0) == self.at(c, r0).over(rhs));
            }
        }
        r
    }

    /// Divides each element by `rhs`.
    pub fn div_scalar_assign(&mut self, rhs: T)
        requires
            rhs.is_divisor(),
        ensures
            final(self)@ == divided(old(self)@, rhs),
    {
        *self = self.div_scalar(rhs);
    }
}

impl<T: Scalar + Signed, const M: usize, const N: usize> Matrix<T, M, N> {
    /// Replaces each element by its absolute value.
    pub fn abs(&mut self)
        ensures
            final(self)@ == magnitudes(old(self)@),
    {
        *self = self.abs_copy();
    }

    /// The matrix of the absolute values of the elements.
    pub fn abs_copy(&self) -> (r: Self)
        ensures
            r@ == magnitudes(self@),
    {
        let r = self.map(
            |a: T| -> (s: T)
                ensures
                    s == a.magnitude()
                {
                    a.abs()
                },
        );
        assert(r@ =~~= magnitudes(self@)) by {
            assert forall|c: int, r0: int| 0 <= c < N && 0 <= r0 < M implies r@[c][r0] == magnitudes(self@)[c][r0] by {
                assert(r.at(c, r0) == self.at(c, r0).magnitude());
            }
        }
        r
    }
}

impl<T: Scalar + Extrema, const M: usize, const N: usize> Matrix<T, M, N> {
    /// Bounds each element by the elements of `min` and `max` at its place:
    /// first from below, then from above.
    pub fn clamp(&mut self, min: Self, max: Self)
        ensures
            final(self)@ == bounded(old(self)@, min@, max@),
    {
        *self = self.clamped(min, max);
    }

    /// The matrix of the elements of `self`, each bounded by the elements of
    /// `min` and `max` at its place: first from below, then from above.
    pub fn clamped(&self, min: Self, max: Self) -> (r: Self)
        ensures
            r@ == bounded(self@, min@, max@),
    {
        self.max_by_component(&min).min_by_component(&max)
    }

    /// At each place the larger of the elements of `self` and `other`.
    pub fn max_by_component(&self, other: &Self) -> (r: Self)
        ensures
            r@ == larger_elements(self@, other@),
    {
        let r = self.zip_with(
            other,
            |a: T, b: T| -> (s: T)
                ensures
                    s == larger(a, b)
                {
                    a.maximum(b)
                },
        );
        assert(r@ =~~= larger_elements(self@, other@)) by {
            assert forall|c: int, r0: int| 0 <= c < N && 0 <= r0 < M implies r@[c][r0] == larger_elements(
                self@,
                other@,
            )[c][r0] by {
                assert(r.at(c, r0) == larger(self.at(c, r0), other.at(c, r0)));
            }
        }
        r
    }

    /// At each place the smaller of the elements of `self` and `other`.
    pub fn min_by_component(&self, other: &Self) -> (r: Self)
        ensures
            r@ == smaller_elements(self@, other@),
    {
        let r = self.zip_with(
            other,
            |a: T, b: T| -> (s: T)
                ensures
                    s == smaller(a, b)
                {
                    a.minimum(b)
                },
        );
        assert(r@ =~~= smaller_elements(self@, other@)) by {
            assert forall|c: int, r0: int| 0 <= c < N && 0 <= r0 < M implies r@[c][r0] == smaller_elements(
                self@,
                other@,
            )[c][r0] by {
                assert(r.at(c, r0) == smaller(self.at(c, r0), other.at(c, r0)));
            }
        }
        r
    }
}

impl<T: Scalar, const M: usize> Matrix<T, M, M> {
    /// The determinant, for at most three columns; a larger matrix is
    /// refused.
    pub fn determinant(&self) -> (r: Result<T, MatrixError>)
        ensures
            M <= 3 ==> r == Ok::<T, MatrixError>(determinant_of(self@)),
            M > 3 ==> r == Err::<T, MatrixError>(MatrixError::UnsupportedDimension { size: M }),
    {
        if M == 0 {
            Ok(T::one())
        } else if M == 1 {
            Ok(self.data[0][0])
        } else if M == 2 {
            Ok(self.data[0][0].mul(self.data[1][1]).sub(self.data[1][0].mul(self.data[0][1])))
        } else if M == 3 {
            let e11 = self.data[0][0];
            let e12 = self.data[0][1];
            let e13 = self.data[0][2];

            let e21 = self.data[1][0];
            let e22 = self.data[1][1];
            let e23 = self.data[1][2];

            let e31 = self.data[2][0];
            let e32 = self.data[2][1];
            let e33 = self.data[2][2];

            let minor_1 = e22.mul(e33).sub(e32.mul(e23));
            let minor_2 = e21.mul(e33).sub(e31.mul(e23));
            let minor_3 = e21.mul(e32).sub(e31.mul(e22));

            Ok(e11.mul(minor_1).sub(e12.mul(minor_2)).add(e13.mul(minor_3)))
        } else {
            Err(MatrixError::UnsupportedDimension { size: M })
        }
    }
}

impl<T: Token, const M: usize, const N: usize> Matrix<T, M, N> {
    /// The matrix as text: a line for each row, which holds between two bars
    /// the texts of the elements of the row with a space between them.
    pub fn render(&self) -> (r: String)
        ensures
            r@ == grid_text(element_texts(self@), None, M as nat),
    {
        let mut cells: Vec<Vec<String>> = Vec::with_capacity(N);
        let mut c: usize = 0;
        while c < N
            invariant
                c <= N,
                cells.len() == c,
                forall|k: int| 0 <= k < c ==> (#[trigger] cells[k]).len() == M,
                forall|k: int, i: int| 0 <= k < c && 0 <= i < M ==> (#[trigger] cells[k][i])@ == self.at(k, i).text(),
            decreases N - c,
        {
            let mut col: Vec<String> = Vec::with_capacity(M);
            let mut i: usize = 0;
            while i < M
                invariant
                    i <= M,
                    c < N,
                    col.len() == i,
                    forall|k: int| 0 <= k < i ==> (#[trigger] col[k])@ == self.at(c as int, k).text(),
                decreases M - i,
            {
                col.push(self.data[c][i].render());
                i += 1;
            }
            cells.push(col);
            c += 1;
        }
        proof {
            assert(texts(cells) =~~= element_texts(self@)) by {
                assert forall|k: int, i: int| 0 <= k < N && 0 <= i < M implies texts(cells)[k][i] == element_texts(
                    self@,
                )[k][i] by {
                    assert(cells[k][i]@ == self.at(k, i).text());
                }
            }
        }
        render_grid(&cells, M, None)
    }
}

/// The size and the alignment of a value in memory, in bytes.
#[derive(Debug, Clone, Copy, PartialEq, Eq, Structural)]
pub struct MemoryLayout {
    pub size: usize,
    pub align: usize,
}

/// The elements of the columns `data` as one slice, column after column.
///
/// Trusted: `as_flattened` of the standard library, on a slice of arrays,
/// gives the slice of the arrays' elements in their order; it does not return
/// where the number of elements is beyond `usize`.
#[verifier::external_body]
fn flat<T, const M: usize, const N: usize>(data: &[[T; M]; N]) -> (r: &[T])
    requires
        M * N <= usize::MAX,
    ensures
        r@ == flattened(Seq::new(N as nat, |c: int| data[c]@), M as nat),
{
    data.as_flattened()
}

/// The elements of the columns `data` as one slice that can be written to,
/// column after column.
///
/// Trusted: `as_flattened_mut` of the standard library, on a slice of
/// arrays, gives the slice of the arrays' elements in their order, and what is
/// written to it is written to the arrays; it does not return where the number
/// of elements is beyond `usize`.
#[verifier::external_body]
fn flat_mut<T, const M: usize, const N: usize>(data: &mut [[T; M]; N]) -> (r: &mut [T])
    requires
        M * N <= usize::MAX,
    ensures
        r@ == flattened(Seq::new(N as nat, |c: int| old(data)[c]@), M as nat),
        final(r)@ == flattened(Seq::new(N as nat, |c: int| final(data)[c]@), M as nat),
{
    data.as_flattened_mut()
}

/// The slice `s` of `N` elements as an array.
///
/// Trusted: `try_from` of the standard library makes of a slice of `N`
/// elements the array of these elements.
#[verifier::external_body]
fn array_of<T, const N: usize>(s: &[T]) -> (r: &[T; N])
    requires
        s@.len() == N,
    ensures
        r@ == s@,
{
    <&[T; N]>::try_from(s).unwrap()
}

/// The slice `s` of `N` elements as an array that can be written to.
///
/// Trusted: `try_from` of the standard library makes of a slice of `N`
/// elements the array of these elements, and what is written to the array
/// is written to the slice.
#[verifier::external_body]
fn array_of_mut<T, const N: usize>(s: &mut [T]) -> (r: &mut [T; N])
    requires
        old(s)@.len() == N,
    ensures
        r@ == old(s)@,
        final(r)@ == final(s)@,
{
    <&mut [T; N]>::try_from(s).unwrap()
}

impl<T, const M: usize, const N: usize> Matrix<T, M, N> {
    /// The size of a matrix and the alignment of a column.
    pub fn layout() -> (r: MemoryLayout)
        ensures
            r.size == vstd::layout::size_of::<Self>(),
            r.align == vstd::layout::align_of::<[T; M]>(),
    {
        MemoryLayout { size: core::mem::size_of::<Self>(), align: core::mem::align_of::<[T; M]>() }
    }

    /// The elements in one slice, column after column.
    pub fn as_slice(&self) -> (r: &[T])
        requires
            M * N <= usize::MAX,
        ensures
            r@ == flattened(self@, M as nat),
    {
        flat(&self.data)
    }

    /// The elements in one slice that can be written to, column after
    /// column.
    pub fn as_slice_mut(&mut self) -> (r: &mut [T])
        requires
            M * N <= usize::MAX,
        ensures
            r@ == flattened(old(self)@, M as nat),
            final(r)@ == flattened(final(self)@, M as nat),
    {
        flat_mut(&mut self.data)
    }

    /// The elements as an array, for a matrix that has as many elements as
    /// columns: one of a single row, or an empty one.
    pub fn as_array(&self) -> (r: &[T; N])
        requires
            M * N == N,
        ensures
            r@ == flattened(self@, M as nat),
    {
        assert(N * M == M * N) by (nonlinear_arith);
        array_of(self.as_slice())
    }

    /// The elements as an array that can be written to, for a matrix that has
    /// as many elements as columns: one of a single row, or an empty one.
    pub fn as_array_mut(&mut self) -> (r: &mut [T; N])
        requires
            M * N == N,
        ensures
            r@ == flattened(old(self)@, M as nat),
            final(r)@ == flattened(final(self)@, M as nat),
    {
        assert(N * M == M * N) by (nonlinear_arith);
        array_of_mut(self.as_slice_mut())
    }
}

} // verus!
