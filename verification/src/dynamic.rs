//! Matrices and vectors whose dimensions are known at run time.

use crate::algebra::{
    columns, difference, divided, even, filled, first_uneven, inner, product, row, scaled, shaped, sum,
    vector_difference, vector_sum,
};
use crate::error::MatrixError;
use crate::format::{element_texts, grid_text, render_grid, texts};
use crate::scalar::{Scalar, Token};
use crate::text::{
    all_columns_parsed, all_parsed, characters, column_tokens, elements, first_unparsed, first_unparsed_at,
    parse_tokens, parsed_columns, pieces, split, vector_tokens,
};
use vstd::prelude::*;
use vstd::string::StrSliceExecFns;

verus! {

/// The elements that `f` gives for the elements of `a`.
fn map_elements<T: Copy, F: Fn(T) -> T>(a: &Vec<T>, f: &F) -> (r: Vec<T>)
    requires
        forall|x: T| call_requires(*f, (x,)),
    ensures
        r.len() == a.len(),
        forall|i: int| 0 <= i < a.len() ==> call_ensures(*f, (a[i],), #[trigger] r[i]),
{
    let mut out: Vec<T> = Vec::with_capacity(a.len());
    let mut i: usize = 0;
    while i < a.len()
        invariant
            i <= a.len(),
            out.len() == i,
            forall|x: T| call_requires(*f, (x,)),
            forall|k: int| 0 <= k < i ==> call_ensures(*f, (a[k],), #[trigger] out[k]),
        decreases a.len() - i,
    {
        out.push(f(a[i]));
        i += 1;
    }
    out
}

/// The elements that `f` gives for the elements of `a` and `b` at the same
/// place.
fn zip_elements<T: Copy, F: Fn(T, T) -> T>(a: &Vec<T>, b: &Vec<T>, f: &F) -> (r: Vec<T>)
    requires
        a.len() == b.len(),
        forall|x: T, y: T| call_requires(*f, (x, y)),
    ensures
        r.len() == a.len(),
        forall|i: int| 0 <= i < a.len() ==> call_ensures(*f, (a[i], b[i]), #[trigger] r[i]),
{
    let mut out: Vec<T> = Vec::with_capacity(a.len());
    let mut i: usize = 0;
    while i < a.len()
        invariant
            i <= a.len(),
            a.len() == b.len(),
            out.len() == i,
            forall|x: T, y: T| call_requires(*f, (x, y)),
            forall|k: int| 0 <= k < i ==> call_ensures(*f, (a[k], b[k]), #[trigger] out[k]),
        decreases a.len() - i,
    {
        out.push(f(a[i], b[i]));
        i += 1;
    }
    out
}

/// The columns that `f` gives, element by element, for the columns of `a`.
fn map_columns<T: Copy, F: Fn(T) -> T>(a: &Vec<Vec<T>>, f: &F) -> (r: Vec<Vec<T>>)
    requires
        forall|x: T| call_requires(*f, (x,)),
    ensures
        r.len() == a.len(),
        forall|c: int| 0 <= c < a.len() ==> (#[trigger] r[c]).len() == a[c].len(),
        forall|c: int, i: int|
            0 <= c < a.len() && 0 <= i < a[c].len() ==> call_ensures(*f, (a[c][i],), #[trigger] r[c][i]),
{
    let mut out: Vec<Vec<T>> = Vec::with_capacity(a.len());
    let mut c: usize = 0;
    while c < a.len()
        invariant
            c <= a.len(),
            out.len() == c,
            forall|x: T| call_requires(*f, (x,)),
            forall|k: int| 0 <= k < c ==> (#[trigger] out[k]).len() == a[k].len(),
            forall|k: int, i: int|
                0 <= k < c && 0 <= i < a[k].len() ==> call_ensures(*f, (a[k][i],), #[trigger] out[k][i]),
        decreases a.len() - c,
    {
        out.push(map_elements(&a[c], f));
        c += 1;
    }
    out
}

/// The columns that `f` gives, element by element, for the columns of `a`
/// and `b`.
fn zip_columns<T: Copy, F: Fn(T, T) -> T>(a: &Vec<Vec<T>>, b: &Vec<Vec<T>>, f: &F) -> (r: Vec<Vec<T>>)
    requires
        a.len() == b.len(),
        forall|c: int| 0 <= c < a.len() ==> (#[trigger] a[c]).len() == b[c].len(),
        forall|x: T, y: T| call_requires(*f, (x, y)),
    ensures
        r.len() == a.len(),
        forall|c: int| 0 <= c < a.len() ==> (#[trigger] r[c]).len() == a[c].len(),
        forall|c: int, i: int|
            0 <= c < a.len() && 0 <= i < a[c].len() ==> call_ensures(*f, (a[c][i], b[c][i]), #[trigger] r[c][i]),
{
    let mut out: Vec<Vec<T>> = Vec::with_capacity(a.len());
    let mut c: usize = 0;
    while c < a.len()
        invariant
            c <= a.len(),
            a.len() == b.len(),
            out.len() == c,
            forall|k: int| 0 <= k < a.len() ==> (#[trigger] a[k]).len() == b[k].len(),
            forall|x: T, y: T| call_requires(*f, (x, y)),
            forall|k: int| 0 <= k < c ==> (#[trigger] out[k]).len() == a[k].len(),
            forall|k: int, i: int|
                0 <= k < c && 0 <= i < a[k].len() ==> call_ensures(
                    *f,
                    (a[k][i], b[k][i]),
                    #[trigger] out[k][i],
                ),
        decreases a.len() - c,
    {
        out.push(zip_elements(&a[c], &b[c], f));
        c += 1;
    }
    out
}

/// A vector of any length.
#[derive(Debug)]
pub struct DVector<T> {
    pub data: Vec<T>,
    pub len: usize,
}

impl<T> View for DVector<T> {
    type V = Seq<T>;

    /// The elements of the vector.
    open spec fn view(&self) -> Seq<T> {
        self.data@
    }
}

impl<T> Default for DVector<T> {
    /// The vector of no elements.
    fn default() -> (r: Self)
        ensures
            r.wf(),
            r@ == Seq::<T>::empty(),
    {
        DVector { data: Vec::new(), len: 0 }
    }
}

impl<T: Copy> Clone for DVector<T> {
    /// A vector of the same elements.
    fn clone(&self) -> (r: Self)
        ensures
            r@ == self@,
            r.len == self.len,
    {
        let f = |a: T| -> (s: T)
            ensures
                s == a
            {
                a
            };
        let data = map_elements(&self.data, &f);
        assert(data@ =~= self@);
        DVector { data, len: self.len }
    }
}

impl<T> DVector<T> {
    /// Whether the recorded length is that of the data.
    pub open spec fn wf(self) -> bool {
        self.len == self.data@.len()
    }

    /// The shape of the vector taken as a matrix of one column.
    pub open spec fn shape(self) -> (usize, usize) {
        (self.len, 1)
    }

    /// The vector of the elements of `data`.
    pub fn new(data: Vec<T>) -> (r: Self)
        ensures
            r.wf(),
            r.data == data,
    {
        let len = data.len();
        Self { data, len }
    }
}

impl<T: Scalar> DVector<T> {
    /// The vector of `size` elements, each of them zero.
    pub fn default_with_size(size: usize) -> (r: Self)
        ensures
            r.wf(),
            r@ == Seq::new(size as nat, |i: int| T::zero_value()),
    {
        let mut data: Vec<T> = Vec::with_capacity(size);
        let mut i: usize = 0;
        while i < size
            invariant
                i <= size,
                data@ == Seq::new(i as nat, |k: int| T::zero_value()),
            decreases size - i,
        {
            data.push(T::zero());
            assert(data@ =~= Seq::new((i + 1) as nat, |k: int| T::zero_value()));
            i += 1;
        }
        DVector { data, len: size }
    }

    /// The inner product of two vectors of one length.
    pub fn dot(&self, other: Self) -> (r: Result<T, MatrixError>)
        requires
            self.wf(),
            other.wf(),
        ensures
            self.len == other.len ==> r == Ok::<T, MatrixError>(inner(self@, other@, self@.len())),
            self.len != other.len ==> r == Err::<T, MatrixError>(
                MatrixError::DimensionMismatch { left: self.shape(), right: other.shape() },
            ),
    {
        if self.len != other.len {
            return Err(MatrixError::DimensionMismatch { left: (self.len, 1), right: (other.len, 1) });
        }
        let mut acc = T::zero();
        let mut i: usize = 0;
        while i < self.len
            invariant
                i <= self.len,
                self.wf(),
                other.wf(),
                self.len == other.len,
                acc == inner(self@, other@, i as nat),
            decreases self.len - i,
        {
            acc = acc.add(self.data[i].mul(other.data[i]));
            i += 1;
        }
        Ok(acc)
    }

    /// The sum, element by element, of two vectors of one length.
    pub fn add(self, rhs: Self) -> (r: Result<Self, MatrixError>)
        requires
            self.wf(),
            rhs.wf(),
        ensures
            self.len == rhs.len ==> r is Ok && r->Ok_0.wf() && r->Ok_0@ == vector_sum(self@, rhs@),
            self.len != rhs.len ==> r == Err::<Self, MatrixError>(
                MatrixError::DimensionMismatch { left: self.shape(), right: rhs.shape() },
            ),
    {
        if self.len != rhs.len {
            return Err(MatrixError::DimensionMismatch { left: (self.len, 1), right: (rhs.len, 1) });
        }
        let f = |a: T, b: T| -> (s: T)
            ensures
                s == a.plus(b)
            {
                a.add(b)
            };
        let data = zip_elements(&self.data, &rhs.data, &f);
        assert(data@ =~= vector_sum(self@, rhs@));
        Ok(DVector { data, len: self.len })
    }

    /// Adds `rhs` to `self`, element by element; a vector of another length
    /// is refused, and `self` stays as it is.
    pub fn add_assign(&mut self, rhs: Self) -> (r: Result<(), MatrixError>)
        requires
            old(self).wf(),
            rhs.wf(),
        ensures
            final(self).wf(),
            old(self).len == rhs.len ==> r is Ok && final(self)@ == vector_sum(old(self)@, rhs@),
            old(self).len != rhs.len ==> *final(self) == *old(self) && r == Err::<(), MatrixError>(
                MatrixError::DimensionMismatch { left: old(self).shape(), right: rhs.shape() },
            ),
    {
        if self.len != rhs.len {
            return Err(MatrixError::DimensionMismatch { left: (self.len, 1), right: (rhs.len, 1) });
        }
        let f = |a: T, b: T| -> (s: T)
            ensures
                s == a.plus(b)
            {
                a.add(b)
            };
        let data = zip_elements(&self.data, &rhs.data, &f);
        assert(data@ =~= vector_sum(self@, rhs@));
        self.data = data;
        Ok(())
    }

    /// The difference, element by element, of two vectors of one length.
    pub fn sub(self, rhs: Self) -> (r: Result<Self, MatrixError>)
        requires
            self.wf(),
            rhs.wf(),
        ensures
            self.len == rhs.len ==> r is Ok && r->Ok_0.wf() && r->Ok_0@ == vector_difference(self@, rhs@),
            self.len != rhs.len ==> r == Err::<Self, MatrixError>(
                MatrixError::DimensionMismatch { left: self.shape(), right: rhs.shape() },
            ),
    {
        if self.len != rhs.len {
            return Err(MatrixError::DimensionMismatch { left: (self.len, 1), right: (rhs.len, 1) });
        }
        let f = |a: T, b: T| -> (s: T)
            ensures
                s == a.minus(b)
            {
                a.sub(b)
            };
        let data = zip_elements(&self.data, &rhs.data, &f);
        assert(data@ =~= vector_difference(self@, rhs@));
        Ok(DVector { data, len: self.len })
    }

    /// Subtracts `rhs` from `self`, element by element; a vector of another
    /// length is refused, and `self` stays as it is.
    pub fn sub_assign(&mut self, rhs: Self) -> (r: Result<(), MatrixError>)
        requires
            old(self).wf(),
            rhs.wf(),
        ensures
            final(self).wf(),
            old(self).len == rhs.len ==> r is Ok && final(self)@ == vector_difference(old(self)@, rhs@),
            old(self).len != rhs.len ==> *final(self) == *old(self) && r == Err::<(), MatrixError>(
                MatrixError::DimensionMismatch { left: old(self).shape(), right: rhs.shape() },
            ),
    {
        if self.len != rhs.len {
            return Err(MatrixError::DimensionMismatch { left: (self.len, 1), right: (rhs.len, 1) });
        }
        let f = |a: T, b: T| -> (s: T)
            ensures
                s == a.minus(b)
            {
                a.sub(b)
            };
        let data = zip_elements(&self.data, &rhs.data, &f);
        assert(data@ =~= vector_difference(self@, rhs@));
        self.data = data;
        Ok(())
    }
}

impl<T: Copy> DVector<T> {
    /// The only column of `rhs`; a matrix of no or of several columns is
    /// refused.
    pub fn from_matrix(rhs: DMatrix<T>) -> (r: Result<Self, MatrixError>)
        requires
            rhs.wf(),
        ensures
            rhs.size.1 == 1 ==> r is Ok && r->Ok_0.wf() && r->Ok_0@ == rhs@[0],
            rhs.size.1 != 1 ==> r == Err::<Self, MatrixError>(
                MatrixError::DimensionMismatch { left: rhs.size, right: (rhs.size.0, 1) },
            ),
    {
        if rhs.size.1 != 1 {
            return Err(MatrixError::DimensionMismatch { left: rhs.size, right: (rhs.size.0, 1) });
        }
        let f = |a: T| -> (s: T)
            ensures
                s == a
            {
                a
            };
        let data = map_elements(&rhs.data[0], &f);
        assert(data@ =~= rhs@[0]);
        Ok(DVector { data, len: rhs.size.0 })
    }
}

impl<T: Token> DVector<T> {
    /// The vector that `text` stands for: its elements are the tokens
    /// between the spaces of `text`. The first token that stands for no
    /// element is refused, with its index.
    pub fn from_str(text: &str) -> (r: Result<Self, MatrixError>)
        ensures
            all_parsed::<T>(vector_tokens(text@)) ==> r is Ok && r->Ok_0.wf() && r->Ok_0@ == elements::<T>(
                vector_tokens(text@),
            ),
            !all_parsed::<T>(vector_tokens(text@)) ==> r is Err && exists|i: int|
                #[trigger] first_unparsed::<T>(vector_tokens(text@), i) && r->Err_0 == (MatrixError::ParseError {
                    column: 0,
                    token: i as usize,
                }),
    {
        let chars = characters(text);
        let tokens = split(chars.as_slice(), ' ');
        match parse_tokens::<T>(&tokens) {
            Ok(data) => {
                let len = data.len();
                Ok(DVector { data, len })
            },
            Err(i) => {
                assert(first_unparsed::<T>(vector_tokens(text@), i as int));
                Err(MatrixError::ParseError { column: 0, token: i })
            },
        }
    }
}

/// A matrix of any size, stored column by column: `data[c][r]` is the
/// element in column `c` and row `r`, and `size` holds the number of rows and
/// the number of columns.
#[derive(Debug)]
pub struct DMatrix<T> {
    pub data: Vec<Vec<T>>,
    pub size: (usize, usize),
}

impl<T> View for DMatrix<T> {
    type V = Seq<Seq<T>>;

    /// The columns of the matrix.
    open spec fn view(&self) -> Seq<Seq<T>> {
        columns(self.data)
    }
}

impl<T> Default for DMatrix<T> {
    /// The matrix of no columns.
    fn default() -> (r: Self)
        ensures
            r.wf(),
            r.size == (0usize, 0usize),
            r@ == Seq::<Seq<T>>::empty(),
    {
        let r = DMatrix { data: Vec::new(), size: (0, 0) };
        assert(r@ =~= Seq::<Seq<T>>::empty());
        r
    }
}

impl<T: Copy> Clone for DMatrix<T> {
    /// A matrix of the same elements.
    fn clone(&self) -> (r: Self)
        ensures
            r@ == self@,
            r.size == self.size,
    {
        let f = |a: T| -> (s: T)
            ensures
                s == a
            {
                a
            };
        let data = map_columns(&self.data, &f);
        let r = DMatrix { data, size: self.size };
        assert(r@ =~~= self@);
        r
    }
}

impl<T> DMatrix<T> {
    /// Whether the data has the recorded number of columns, each of the
    /// recorded number of rows.
    pub open spec fn wf(self) -> bool {
        shaped(self@, self.size.0 as nat, self.size.1 as nat)
    }

    /// What `wf` says of the stored columns.
    pub proof fn lemma_columns(self)
        requires
            self.wf(),
        ensures
            self.data.len() == self.size.1,
            forall|c: int| 0 <= c < self.size.1 ==> (#[trigger] self.data[c]).len() == self.size.0,
            forall|c: int| 0 <= c < self.size.1 ==> (#[trigger] self@[c]) == self.data[c]@,
    {
        assert forall|c: int| 0 <= c < self.size.1 implies (#[trigger] self.data[c]).len() == self.size.0 by {
            assert(self@[c].len() == self.size.0);
        }
    }

    /// The matrix whose columns are `data`. Columns of unequal length are
    /// refused, with the first column that differs from column 0.
    pub fn new(data: Vec<Vec<T>>) -> (r: Result<Self, MatrixError>)
        ensures
            even(columns(data)) ==> r is Ok && r->Ok_0.wf() && r->Ok_0.data == data && r->Ok_0.size == (
                if data.len() == 0 {
                    0
                } else {
                    data[0].len()
                },
                data.len(),
            ),
            !even(columns(data)) ==> r is Err && exists|c: int|
                #[trigger] first_uneven(columns(data), c) && r->Err_0 == (MatrixError::RaggedInput {
                    column: c as usize,
                    expected: data[0].len(),
                    found: data[c].len(),
                }),
    {
        let cols = data.len();
        let rows = if cols != 0 {
            data[0].len()
        } else {
            0
        };
        let mut c: usize = 0;
        while c < cols
            invariant
                c <= cols,
                cols == data.len(),
                cols != 0 ==> rows == data[0].len(),
                forall|k: int| 0 <= k < c ==> (#[trigger] data[k]).len() == rows,
            decreases cols - c,
        {
            if data[c].len() != rows {
                assert(first_uneven(columns(data), c as int));
                return Err(MatrixError::RaggedInput { column: c, expected: rows, found: data[c].len() });
            }
            c += 1;
        }
        assert(even(columns(data))) by {
            assert forall|k: int| 0 <= k < cols implies (#[trigger] columns(data)[k]).len() == columns(data)[0].len() by {
                assert(data[k].len() == rows);
            }
        }
        Ok(Self { data, size: (rows, cols) })
    }
}

impl<T: Copy> DMatrix<T> {
    /// The matrix of the `N` columns of `rhs`, of `M` elements each.
    pub fn from_array<const M: usize, const N: usize>(rhs: [[T; M]; N]) -> (r: Self)
        ensures
            r.wf(),
            r.size == (M, N),
            r@ == Seq::new(N as nat, |c: int| rhs[c]@),
    {
        let mut data: Vec<Vec<T>> = Vec::with_capacity(N);
        let mut n: usize = 0;
        while n < N
            invariant
                n <= N,
                data.len() == n,
                forall|c: int| 0 <= c < n ==> (#[trigger] data[c])@ == rhs[c]@,
            decreases N - n,
        {
            let mut col: Vec<T> = Vec::with_capacity(M);
            let mut m: usize = 0;
            while m < M
                invariant
                    n < N,
                    m <= M,
                    col.len() == m,
                    forall|i: int| 0 <= i < m ==> #[trigger] col[i] == rhs[n as int][i],
                decreases M - m,
            {
                col.push(rhs[n][m]);
                m += 1;
            }
            assert(col@ =~= rhs[n as int]@);
            data.push(col);
            n += 1;
        }
        let r = DMatrix { data, size: (M, N) };
        assert(r@ =~= Seq::new(N as nat, |c: int| rhs[c]@));
        r
    }

    /// The matrix whose only column is `rhs`.
    pub fn from_vector(rhs: DVector<T>) -> (r: Self)
        requires
            rhs.wf(),
        ensures
            r.wf(),
            r.size == (rhs.len, 1usize),
            r@ == seq![rhs@],
    {
        let len = rhs.len;
        let mut data: Vec<Vec<T>> = Vec::with_capacity(1);
        data.push(rhs.data);
        let r = DMatrix { data, size: (len, 1) };
        assert(r@ =~= seq![rhs@]);
        r
    }
}

impl<T: Scalar> DMatrix<T> {
    /// The matrix of `size.0` rows and `size.1` columns whose every element
    /// is zero.
    pub fn default_with_size(size: (usize, usize)) -> (r: Self)
        ensures
            r.wf(),
            r.size == size,
            r@ == filled(T::zero_value(), size.0 as nat, size.1 as nat),
    {
        let mut data: Vec<Vec<T>> = Vec::with_capacity(size.1);
        let mut c: usize = 0;
        while c < size.1
            invariant
                c <= size.1,
                data.len() == c,
                forall|k: int| 0 <= k < c ==> (#[trigger] data[k])@ == Seq::new(size.0 as nat, |i: int| T::zero_value()),
            decreases size.1 - c,
        {
            data.push(DVector::<T>::default_with_size(size.0).data);
            c += 1;
        }
        let r = DMatrix { data, size };
        assert(r@ =~~= filled(T::zero_value(), size.0 as nat, size.1 as nat));
        r
    }

    /// The sum, element by element, of two matrices of one shape.
    pub fn add(self, rhs: Self) -> (r: Result<Self, MatrixError>)
        requires
            self.wf(),
            rhs.wf(),
        ensures
            self.size == rhs.size ==> r is Ok && r->Ok_0.wf() && r->Ok_0.size == self.size && r->Ok_0@ == sum(
                self@,
                rhs@,
            ),
            self.size != rhs.size ==> r == Err::<Self, MatrixError>(
                MatrixError::DimensionMismatch { left: self.size, right: rhs.size },
            ),
    {
        if self.size.0 != rhs.size.0 || self.size.1 != rhs.size.1 {
            return Err(MatrixError::DimensionMismatch { left: self.size, right: rhs.size });
        }
        proof {
            self.lemma_columns();
            rhs.lemma_columns();
        }
        let f = |a: T, b: T| -> (s: T)
            ensures
                s == a.plus(b)
            {
                a.add(b)
            };
        let data = zip_columns(&self.data, &rhs.data, &f);
        let r = DMatrix { data, size: self.size };
        assert(r@ =~~= sum(self@, rhs@));
        Ok(r)
    }

    /// Adds `rhs` to `self`, element by element; a matrix of another shape
    /// is refused, and `self` stays as it is.
    pub fn add_assign(&mut self, rhs: Self) -> (r: Result<(), MatrixError>)
        requires
            old(self).wf(),
            rhs.wf(),
        ensures
            final(self).wf(),
            final(self).size == old(self).size,
            old(self).size == rhs.size ==> r is Ok && final(self)@ == sum(old(self)@, rhs@),
            old(self).size != rhs.size ==> *final(self) == *old(self) && r == Err::<(), MatrixError>(
                MatrixError::DimensionMismatch { left: old(self).size, right: rhs.size },
            ),
    {
        if self.size.0 != rhs.size.0 || self.size.1 != rhs.size.1 {
            return Err(MatrixError::DimensionMismatch { left: self.size, right: rhs.size });
        }
        proof {
            self.lemma_columns();
            rhs.lemma_columns();
        }
        let f = |a: T, b: T| -> (s: T)
            ensures
                s == a.plus(b)
            {
                a.add(b)
            };
        let data = zip_columns(&self.data, &rhs.data, &f);
        assert(columns(data) =~~= sum(self@, rhs@));
        self.data = data;
        Ok(())
    }

    /// The difference, element by element, of two matrices of one shape.
    pub fn sub(self, rhs: Self) -> (r: Result<Self, MatrixError>)
        requires
            self.wf(),
            rhs.wf(),
        ensures
            self.size == rhs.size ==> r is Ok && r->Ok_0.wf() && r->Ok_0.size == self.size && r->Ok_0@
                == difference(self@, rhs@),
            self.size != rhs.size ==> r == Err::<Self, MatrixError>(
                MatrixError::DimensionMismatch { left: self.size, right: rhs.size },
            ),
    {
        if self.size.0 != rhs.size.0 || self.size.1 != rhs.size.1 {
            return Err(MatrixError::DimensionMismatch { left: self.size, right: rhs.size });
        }
        proof {
            self.lemma_columns();
            rhs.lemma_columns();
        }
        let f = |a: T, b: T| -> (s: T)
            ensures
                s == a.minus(b)
            {
                a.sub(b)
            };
        let data = zip_columns(&self.data, &rhs.data, &f);
        let r = DMatrix { data, size: self.size };
        assert(r@ =~~= difference(self@, rhs@));
        Ok(r)
    }

    /// Subtracts `rhs` from `self`, element by element; a matrix of another
    /// shape is refused, and `self` stays as it is.
    pub fn sub_assign(&mut self, rhs: Self) -> (r: Result<(), MatrixError>)
        requires
            old(self).wf(),
            rhs.wf(),
        ensures
            final(self).wf(),
            final(self).size == old(self).size,
            old(self).size == rhs.size ==> r is Ok && final(self)@ == difference(old(self)@, rhs@),
            old(self).size != rhs.size ==> *final(self) == *old(self) && r == Err::<(), MatrixError>(
                MatrixError::DimensionMismatch { left: old(self).size, right: rhs.size },
            ),
    {
        if self.size.0 != rhs.size.0 || self.size.1 != rhs.size.1 {
            return Err(MatrixError::DimensionMismatch { left: self.size, right: rhs.size });
        }
        proof {
            self.lemma_columns();
            rhs.lemma_columns();
        }
        let f = |a: T, b: T| -> (s: T)
            ensures
                s == a.minus(b)
            {
                a.sub(b)
            };
        let data = zip_columns(&self.data, &rhs.data, &f);
        assert(columns(data) =~~= difference(self@, rhs@));
        self.data = data;
        Ok(())
    }

    /// The inner product of row `m` of `self` and column `p` of `rhs`.
    fn product_entry(&self, rhs: &Self, m: usize, p: usize) -> (r: T)
        requires
            self.wf(),
            rhs.wf(),
            self.size.1 == rhs.size.0,
            m < self.size.0,
            p < rhs.size.1,
        ensures
            r == inner(row(self@, m as int), rhs@[p as int], self@.len()),
    {
        proof {
            self.lemma_columns();
            rhs.lemma_columns();
        }
        let mut acc = T::zero();
        let mut n: usize = 0;
        while n < self.size.1
            invariant
                n <= self.size.1,
                self.wf(),
                rhs.wf(),
                self.size.1 == rhs.size.0,
                m < self.size.0,
                p < rhs.size.1,
                self.data.len() == self.size.1,
                forall|c: int| 0 <= c < self.size.1 ==> (#[trigger] self.data[c]).len() == self.size.0,
                rhs.data.len() == rhs.size.1,
                forall|c: int| 0 <= c < rhs.size.1 ==> (#[trigger] rhs.data[c]).len() == rhs.size.0,
                acc == inner(row(self@, m as int), rhs@[p as int], n as nat),
            decreases self.size.1 - n,
        {
            acc = acc.add(self.data[n][m].mul(rhs.data[p][n]));
            n += 1;
        }
        acc
    }

    /// The columns of the matrix product of `self` and `rhs`.
    fn product_columns(&self, rhs: &Self) -> (r: Vec<Vec<T>>)
        requires
            self.wf(),
            rhs.wf(),
            self.size.1 == rhs.size.0,
        ensures
            columns(r) == product(self@, rhs@, self.size.0 as nat),
    {
        let mut data: Vec<Vec<T>> = Vec::with_capacity(rhs.size.1);
        let mut p: usize = 0;
        while p < rhs.size.1
            invariant
                p <= rhs.size.1,
                self.wf(),
                rhs.wf(),
                self.size.1 == rhs.size.0,
                data.len() == p,
                forall|c: int|
                    0 <= c < p ==> (#[trigger] data[c])@ == Seq::new(
                        self.size.0 as nat,
                        |r: int| inner(row(self@, r), rhs@[c], self@.len()),
                    ),
            decreases rhs.size.1 - p,
        {
            let mut col: Vec<T> = Vec::with_capacity(self.size.0);
            let mut m: usize = 0;
            while m < self.size.0
                invariant
                    m <= self.size.0,
                    p < rhs.size.1,
                    self.wf(),
                    rhs.wf(),
                    self.size.1 == rhs.size.0,
                    col.len() == m,
                    forall|i: int|
                        0 <= i < m ==> #[trigger] col[i] == inner(row(self@, i), rhs@[p as int], self@.len()),
                decreases self.size.0 - m,
            {
                col.push(self.product_entry(rhs, m, p));
                m += 1;
            }
            assert(col@ =~= Seq::new(
                self.size.0 as nat,
                |r: int| inner(row(self@, r), rhs@[p as int], self@.len()),
            ));
            data.push(col);
            p += 1;
        }
        assert(columns(data) =~= product(self@, rhs@, self.size.0 as nat));
        data
    }

    /// The matrix product of `self` and `rhs`, which must have as many rows
    /// as `self` has columns: the element in row `m` of column `p` is the inner
    /// product of row `m` of `self` and column `p` of `rhs`.
    pub fn mul(self, rhs: Self) -> (r: Result<Self, MatrixError>)
        requires
            self.wf(),
            rhs.wf(),
        ensures
            self.size.1 == rhs.size.0 ==> r is Ok && r->Ok_0.wf() && r->Ok_0.size == (self.size.0, rhs.size.1)
                && r->Ok_0@ == product(self@, rhs@, self.size.0 as nat),
            self.size.1 != rhs.size.0 ==> r == Err::<Self, MatrixError>(
                MatrixError::DimensionMismatch { left: self.size, right: rhs.size },
            ),
    {
        if self.size.1 != rhs.size.0 {
            return Err(MatrixError::DimensionMismatch { left: self.size, right: rhs.size });
        }
        let data = self.product_columns(&rhs);
        Ok(DMatrix { data, size: (self.size.0, rhs.size.1) })
    }

    /// Replaces `self` by the matrix product of `self` and `rhs`; a matrix
    /// that has not as many rows as `self` has columns is refused, and `self`
    /// stays as it is.
    pub fn mul_assign(&mut self, rhs: Self) -> (r: Result<(), MatrixError>)
        requires
            old(self).wf(),
            rhs.wf(),
        ensures
            final(self).wf(),
            old(self).size.1 == rhs.size.0 ==> r is Ok && final(self).size == (old(self).size.0, rhs.size.1)
                && final(self)@ == product(old(self)@, rhs@, old(self).size.0 as nat),
            old(self).size.1 != rhs.size.0 ==> *final(self) == *old(self) && r == Err::<(), MatrixError>(
                MatrixError::DimensionMismatch { left: old(self).size, right: rhs.size },
            ),
    {
        if self.size.1 != rhs.size.0 {
            return Err(MatrixError::DimensionMismatch { left: self.size, right: rhs.size });
        }
        let data = self.product_columns(&rhs);
        self.data = data;
        self.size = (self.size.0, rhs.size.1);
        Ok(())
    }

    /// The product of `self` and the vector `rhs`, which must have as many
    /// elements as `self` has columns: the only column of the product of
    /// `self` and the matrix of the one column `rhs`.
    pub fn mul_vector(self, rhs: DVector<T>) -> (r: Result<DVector<T>, MatrixError>)
        requires
            self.wf(),
            rhs.wf(),
        ensures
            self.size.1 == rhs.len ==> r is Ok && r->Ok_0.wf() && r->Ok_0.len == self.size.0 && r->Ok_0@
                == product(self@, seq![rhs@], self.size.0 as nat)[0],
            self.size.1 != rhs.len ==> r == Err::<DVector<T>, MatrixError>(
                MatrixError::DimensionMismatch { left: self.size, right: rhs.shape() },
            ),
    {
        let column = DMatrix::from_vector(rhs);
        match self.mul(column) {
            Ok(m) => DVector::from_matrix(m),
            Err(e) => Err(e),
        }
    }

    /// Each element multiplied by `rhs`.
    pub fn mul_scalar(self, rhs: T) -> (r: Self)
        requires
            self.wf(),
        ensures
            r.wf(),
            r.size == self.size,
            r@ == scaled(self@, rhs),
    {
        let f = |a: T| -> (s: T)
            ensures
                s == a.times(rhs)
            {
                a.mul(rhs)
            };
        let data = map_columns(&self.data, &f);
        let r = DMatrix { data, size: self.size };
        assert(r@ =~~= scaled(self@, rhs));
        r
    }

    /// Multiplies each element by `rhs`.
    pub fn mul_scalar_assign(&mut self, rhs: T)
        requires
            old(self).wf(),
        ensures
            final(self).wf(),
            final(self).size == old(self).size,
            final(self)@ == scaled(old(self)@, rhs),
    {
        let f = |a: T| -> (s: T)
            ensures
                s == a.times(rhs)
            {
                a.mul(rhs)
            };
        let data = map_columns(&self.data, &f);
        assert(columns(data) =~~= scaled(self@, rhs));
        self.data = data;
    }

    /// Each element divided by `rhs`.
    pub fn div_scalar(self, rhs: T) -> (r: Self)
        requires
            self.wf(),
            rhs.is_divisor(),
        ensures
            r.wf(),
            r.size == self.size,
            r@ == divided(self@, rhs),
    {
        let f = |a: T| -> (s: T)
            ensures
                s == a.over(rhs)
            {
                a.div(rhs)
            };
        let data = map_columns(&self.data, &f);
        let r = DMatrix { data, size: self.size };
        assert(r@ =~~= divided(self@, rhs));
        r
    }

    /// Divides each element by `rhs`.
    pub fn div_scalar_assign(&mut self, rhs: T)
        requires
            old(self).wf(),
            rhs.is_divisor(),
        ensures
            final(self).wf(),
            final(self).size == old(self).size,
            final(self)@ == divided(old(self)@, rhs),
    {
        let f = |a: T| -> (s: T)
            ensures
                s == a.over(rhs)
            {
                a.div(rhs)
            };
        let data = map_columns(&self.data, &f);
        assert(columns(data) =~~= divided(self@, rhs));
        self.data = data;
    }
}

impl<T: Token> DMatrix<T> {
    /// The matrix that `text` stands for: its columns are the pieces of
    /// `text` between semicolons, and the elements of a column the tokens
    /// between its spaces. The first token that stands for no element is
    /// refused, with its column and its index there; where there is none, the
    /// first column that is not as long as column 0.
    pub fn from_str(text: &str) -> (r: Result<Self, MatrixError>)
        ensures
            all_columns_parsed::<T>(text@) && even(parsed_columns::<T>(text@)) ==> r is Ok && r->Ok_0.wf()
                && r->Ok_0@ == parsed_columns::<T>(text@) && r->Ok_0.size == (
                parsed_columns::<T>(text@)[0].len() as usize,
                parsed_columns::<T>(text@).len() as usize,
            ),
            !all_columns_parsed::<T>(text@) ==> r is Err && exists|c: int, i: int|
                #[trigger] first_unparsed_at::<T>(text@, c, i) && r->Err_0 == (MatrixError::ParseError {
                    column: c as usize,
                    token: i as usize,
                }),
            all_columns_parsed::<T>(text@) && !even(parsed_columns::<T>(text@)) ==> r is Err && exists|c: int|
                #[trigger] first_uneven(parsed_columns::<T>(text@), c) && r->Err_0 == (MatrixError::RaggedInput {
                    column: c as usize,
                    expected: parsed_columns::<T>(text@)[0].len() as usize,
                    found: parsed_columns::<T>(text@)[c].len() as usize,
                }),
    {
        let chars = characters(text);
        let cols = split(chars.as_slice(), ';');
        let mut data: Vec<Vec<T>> = Vec::with_capacity(cols.len());
        let mut c: usize = 0;
        while c < cols.len()
            invariant
                c <= cols.len(),
                data.len() == c,
                columns(cols) == pieces(text@, ';'),
                forall|k: int| 0 <= k < c ==> all_parsed::<T>(#[trigger] column_tokens(text@, k)),
                forall|k: int| 0 <= k < c ==> (#[trigger] data[k])@ == elements::<T>(column_tokens(text@, k)),
            decreases cols.len() - c,
        {
            assert(columns(cols)[c as int] == cols[c as int]@);
            let tokens = split(cols[c].as_slice(), ' ');
            match parse_tokens::<T>(&tokens) {
                Ok(column) => {
                    data.push(column);
                },
                Err(i) => {
                    assert(first_unparsed_at::<T>(text@, c as int, i as int));
                    assert(!all_parsed::<T>(column_tokens(text@, c as int)));
                    return Err(MatrixError::ParseError { column: c, token: i });
                },
            }
            c += 1;
        }
        assert(columns(data) =~= parsed_columns::<T>(text@));
        DMatrix::new(data)
    }

    /// The matrix of the texts of the elements.
    pub fn to_string_vec(&self) -> (r: DMatrix<String>)
        requires
            self.wf(),
        ensures
            r.wf(),
            r.size == self.size,
            forall|c: int, i: int|
                0 <= c < self.size.1 && 0 <= i < self.size.0 ==> (#[trigger] r@[c][i])@ == self@[c][i].text(),
    {
        proof {
            self.lemma_columns();
        }
        let mut data: Vec<Vec<String>> = Vec::with_capacity(self.size.1);
        let mut c: usize = 0;
        while c < self.size.1
            invariant
                c <= self.size.1,
                self.wf(),
                self.data.len() == self.size.1,
                forall|k: int| 0 <= k < self.size.1 ==> (#[trigger] self.data[k]).len() == self.size.0,
                data.len() == c,
                forall|k: int| 0 <= k < c ==> (#[trigger] data[k]).len() == self.size.0,
                forall|k: int, i: int|
                    0 <= k < c && 0 <= i < self.size.0 ==> (#[trigger] data[k][i])@ == self.data[k][i].text(),
            decreases self.size.1 - c,
        {
            let mut col: Vec<String> = Vec::with_capacity(self.size.0);
            let mut i: usize = 0;
            while i < self.size.0
                invariant
                    i <= self.size.0,
                    c < self.size.1,
                    self.data.len() == self.size.1,
                    self.data[c as int].len() == self.size.0,
                    col.len() == i,
                    forall|k: int| 0 <= k < i ==> (#[trigger] col[k])@ == self.data[c as int][k].text(),
                decreases self.size.0 - i,
            {
                col.push(self.data[c][i].render());
                i += 1;
            }
            data.push(col);
            c += 1;
        }
        let r = DMatrix { data, size: self.size };
        assert(r.wf());
        r
    }

    /// The width to which `render` aligns the columns: the length of the
    /// text of the element in column 1 and row 1, where there is one.
    pub open spec fn sample_width(self) -> Option<nat> {
        if self.size.0 > 1 && self.size.1 > 1 {
            Some(self@[1][1].text().len())
        } else {
            None
        }
    }

    /// The matrix as text: a line for each row, which holds between two bars
    /// the texts of the elements of the row, each but the last followed by a
    /// space and by the spaces that align the columns.
    pub fn render(&self) -> (r: String)
        requires
            self.wf(),
        ensures
            r@ == grid_text(element_texts(self@), self.sample_width(), self.size.0 as nat),
    {
        let cells = self.to_string_vec();
        proof {
            self.lemma_columns();
            cells.lemma_columns();
            assert(texts(cells.data) =~~= element_texts(self@)) by {
                assert forall|c: int, i: int| 0 <= c < self.size.1 && 0 <= i < self.size.0 implies texts(
                    cells.data,
                )[c][i] == element_texts(self@)[c][i] by {
                    assert(cells@[c][i]@ == self@[c][i].text());
                }
            }
        }
        let width = if self.size.0 > 1 && self.size.1 > 1 {
            assert(cells@[1][1]@ == self@[1][1].text());
            Some(cells.data[1][1].as_str().unicode_len())
        } else {
            None
        };
        render_grid(&cells.data, self.size.0, width)
    }
}

} // verus!
