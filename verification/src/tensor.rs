use vstd::prelude::*;
use vstd::std_specs::ops::{AddSpec, MulSpec, SubSpec};

verus! {

/// A two-dimensional tensor: a `rows × cols` matrix of elements, kept row by row.
///
/// Its abstract value is the sequence of its rows (`t@`), together with its
/// shape (`t.nrows()`, `t.ncols()`); `t@[i][j]` is the element in row `i`,
/// column `j`.
#[derive(Debug)]
pub struct Tensor<T> {
    rows: usize,
    cols: usize,
    data: Vec<Vec<T>>,
}

impl<T> Tensor<T> {
    #[verifier::type_invariant]
    spec fn inv(&self) -> bool {
        &&& self.data@.len() == self.rows
        &&& forall|i: int| 0 <= i < self.rows ==> #[trigger] self.data@[i]@.len() == self.cols
        &&& self.rows * self.cols <= usize::MAX
    }

    /// The number of rows.
    pub closed spec fn nrows(&self) -> nat {
        self.rows as nat
    }

    /// The number of columns.
    pub closed spec fn ncols(&self) -> nat {
        self.cols as nat
    }

    /// The number of elements, `nrows * ncols`.
    pub open spec fn size(&self) -> nat {
        self.nrows() * self.ncols()
    }

    /// The element in row `i`, column `j`.
    pub open spec fn at(&self, i: int, j: int) -> T {
        self@[i][j]
    }

    /// The shape of this tensor is `(rows, cols)`.
    pub open spec fn has_shape(&self, rows: nat, cols: nat) -> bool {
        self.nrows() == rows && self.ncols() == cols
    }

    /// Two tensors with the same shape and the same elements.
    pub open spec fn same_as(&self, other: &Tensor<T>) -> bool {
        &&& self.nrows() == other.nrows()
        &&& self.ncols() == other.ncols()
        &&& forall|i: int, j: int|
            0 <= i < self.nrows() && 0 <= j < self.ncols() ==> #[trigger] self.at(i, j)
                == other.at(i, j)
    }
}

impl<T> View for Tensor<T> {
    type V = Seq<Seq<T>>;

    closed spec fn view(&self) -> Seq<Seq<T>> {
        Seq::new(self.rows as nat, |i: int| Seq::new(self.cols as nat, |j: int| self.data@[i]@[j]))
    }
}

/// `u` is the transpose of `t`: `u` is `cols × rows` and `u[i][j] == t[j][i]`.
pub open spec fn is_transpose<T>(u: &Tensor<T>, t: &Tensor<T>) -> bool {
    &&& u.has_shape(t.ncols(), t.nrows())
    &&& forall|i: int, j: int|
        0 <= i < t.ncols() && 0 <= j < t.nrows() ==> #[trigger] u.at(i, j) == t.at(j, i)
}

/// The elements of `t` in row-major order: position `k` holds
/// `t[k / cols][k % cols]`.
pub open spec fn row_major<T>(t: &Tensor<T>) -> Seq<T> {
    Seq::new(t.size(), |k: int| t.at(k / (t.ncols() as int), k % (t.ncols() as int)))
}

/// The elements of `t` in column-major order (column after column): position
/// `k` holds `t[k % rows][k / rows]`.
pub open spec fn col_major<T>(t: &Tensor<T>) -> Seq<T> {
    Seq::new(t.size(), |k: int| t.at(k % (t.nrows() as int), k / (t.nrows() as int)))
}

/// `(i, j)` with `i < rows`, `j < cols` has row-major position `i * cols + j < rows * cols`.
pub proof fn lemma_index_in_bounds(i: int, j: int, rows: int, cols: int)
    requires
        0 <= i < rows,
        0 <= j < cols,
    ensures
        0 <= i * cols + j < rows * cols,
        i * cols + cols <= rows * cols,
{
    assert(0 <= i * cols) by (nonlinear_arith)
        requires
            0 <= i,
            0 <= cols,
    ;
    assert(i * cols + cols <= rows * cols) by (nonlinear_arith)
        requires
            0 <= i < rows,
            0 <= cols,
    ;
}

/// Position `k = q * d + r` with `r < d` splits back into `q` and `r`.
pub proof fn lemma_split_index(q: int, r: int, d: int)
    requires
        0 <= r < d,
    ensures
        (q * d + r) / d == q,
        (q * d + r) % d == r,
{
    vstd::arithmetic::div_mod::lemma_fundamental_div_mod_converse(q * d + r, d, q, r);
}

impl<T: Copy> Tensor<T> {
    /// The number of rows.
    pub fn rows(&self) -> (r: usize)
        ensures
            r == self.nrows(),
            self.size() <= usize::MAX,
    {
        proof {
            use_type_invariant(self);
        }
        self.rows
    }

    /// The number of columns.
    pub fn cols(&self) -> (c: usize)
        ensures
            c == self.ncols(),
            self.size() <= usize::MAX,
    {
        proof {
            use_type_invariant(self);
        }
        self.cols
    }

    /// The shape `(rows, cols)`.
    pub fn shape(&self) -> (s: (usize, usize))
        ensures
            s.0 == self.nrows(),
            s.1 == self.ncols(),
            self.size() <= usize::MAX,
    {
        proof {
            use_type_invariant(self);
        }
        (self.rows, self.cols)
    }

    /// The element in row `i`, column `j`.
    pub fn get(&self, i: usize, j: usize) -> (v: T)
        requires
            i < self.nrows(),
            j < self.ncols(),
        ensures
            v == self.at(i as int, j as int),
    {
        proof {
            use_type_invariant(self);
        }
        self.data[i][j]
    }

    /// Builds a tensor from its rows; each of the `rows` rows has `cols` elements.
    fn from_rows(rows: usize, cols: usize, data: Vec<Vec<T>>) -> (t: Tensor<T>)
        requires
            data@.len() == rows,
            forall|i: int| 0 <= i < rows ==> #[trigger] data@[i]@.len() == cols,
            rows * cols <= usize::MAX,
        ensures
            t.has_shape(rows as nat, cols as nat),
            forall|i: int, j: int|
                0 <= i < rows && 0 <= j < cols ==> #[trigger] t.at(i, j) == data@[i]@[j],
    {
        Tensor { rows, cols, data }
    }

    /// A `rows × cols` tensor filled row by row from `values`.
    ///
    /// `values` must hold exactly `rows * cols` elements.
    pub fn new(rows: usize, cols: usize, values: Vec<T>) -> (t: Tensor<T>)
        requires
            values@.len() == rows * cols,
        ensures
            t.has_shape(rows as nat, cols as nat),
            forall|i: int, j: int|
                0 <= i < rows && 0 <= j < cols ==> #[trigger] t.at(i, j) == values@[i * cols + j],
            row_major(&t) == values@,
    {
        let n = values.len();
        let mut data: Vec<Vec<T>> = Vec::new();
        let mut i: usize = 0;
        while i < rows
            invariant
                i <= rows,
                values@.len() == rows * cols,
                n == rows * cols,
                data@.len() == i,
                forall|a: int| 0 <= a < i ==> #[trigger] data@[a]@.len() == cols,
                forall|a: int, b: int|
                    0 <= a < i && 0 <= b < cols ==> #[trigger] data@[a]@[b] == values@[a * cols
                        + b],
            decreases rows - i,
        {
            let mut row: Vec<T> = Vec::new();
            let mut j: usize = 0;
            while j < cols
                invariant
                    i < rows,
                    j <= cols,
                    values@.len() == rows * cols,
                    n == rows * cols,
                    row@.len() == j,
                    forall|b: int| 0 <= b < j ==> #[trigger] row@[b] == values@[i * cols + b],
                decreases cols - j,
            {
                proof {
                    lemma_index_in_bounds(i as int, j as int, rows as int, cols as int);
                }
                row.push(values[i * cols + j]);
                j += 1;
            }
            data.push(row);
            i += 1;
        }
        let t = Tensor::from_rows(rows, cols, data);
        proof {
            assert forall|k: int| 0 <= k < rows * cols implies #[trigger] row_major(&t)[k]
                == values@[k] by {
                let q = k / (cols as int);
                let r = k % (cols as int);
                assert(cols > 0) by (nonlinear_arith)
                    requires
                        0 <= k < rows * cols,
                        rows >= 0,
                        cols >= 0,
                ;
                vstd::arithmetic::div_mod::lemma_fundamental_div_mod(k, cols as int);
                assert(q < rows) by (nonlinear_arith)
                    requires
                        k == cols * q + r,
                        0 <= r,
                        k < rows * cols,
                        cols > 0,
                ;
                assert(0 <= q) by (nonlinear_arith)
                    requires
                        k == cols * q + r,
                        r < cols,
                        0 <= k,
                        cols > 0,
                ;
                assert(k == q * cols + r) by (nonlinear_arith)
                    requires
                        k == cols * q + r,
                ;
            }
            assert(row_major(&t) =~= values@);
        }
        t
    }

    /// A `rows × cols` tensor with every element equal to `value`.
    pub fn from_element(rows: usize, cols: usize, value: T) -> (t: Tensor<T>)
        requires
            rows * cols <= usize::MAX,
        ensures
            t.has_shape(rows as nat, cols as nat),
            forall|i: int, j: int| 0 <= i < rows && 0 <= j < cols ==> #[trigger] t.at(i, j) == value,
    {
        let mut data: Vec<Vec<T>> = Vec::new();
        let mut i: usize = 0;
        while i < rows
            invariant
                i <= rows,
                data@.len() == i,
                forall|a: int| 0 <= a < i ==> #[trigger] data@[a]@.len() == cols,
                forall|a: int, b: int| 0 <= a < i && 0 <= b < cols ==> #[trigger] data@[a]@[b] == value,
            decreases rows - i,
        {
            let mut row: Vec<T> = Vec::new();
            let mut j: usize = 0;
            while j < cols
                invariant
                    j <= cols,
                    row@.len() == j,
                    forall|b: int| 0 <= b < j ==> #[trigger] row@[b] == value,
                decreases cols - j,
            {
                row.push(value);
                j += 1;
            }
            data.push(row);
            i += 1;
        }
        Tensor::from_rows(rows, cols, data)
    }
}

impl<T: Copy> Tensor<T> {
    /// The `rows × cols` tensor whose element `(i, j)` is `f(i, j)`.
    pub(crate) fn tabulate<F: Fn(usize, usize) -> T>(rows: usize, cols: usize, f: F) -> (t: Tensor<T>)
        requires
            rows * cols <= usize::MAX,
            forall|i: usize, j: usize| i < rows && j < cols ==> #[trigger] f.requires((i, j)),
        ensures
            t.has_shape(rows as nat, cols as nat),
            forall|i: usize, j: usize|
                i < rows && j < cols ==> f.ensures((i, j), #[trigger] t.at(i as int, j as int)),
    {
        let mut data: Vec<Vec<T>> = Vec::new();
        let mut i: usize = 0;
        while i < rows
            invariant
                i <= rows,
                forall|a: usize, b: usize| a < rows && b < cols ==> #[trigger] f.requires((a, b)),
                data@.len() == i,
                forall|a: int| 0 <= a < i ==> #[trigger] data@[a]@.len() == cols,
                forall|a: usize, b: usize|
                    a < i && b < cols ==> f.ensures((a, b), #[trigger] data@[a as int]@[b as int]),
            decreases rows - i,
        {
            let mut row: Vec<T> = Vec::new();
            let mut j: usize = 0;
            while j < cols
                invariant
                    i < rows,
                    j <= cols,
                    forall|a: usize, b: usize| a < rows && b < cols ==> #[trigger] f.requires((a, b)),
                    row@.len() == j,
                    forall|b: usize| b < j ==> f.ensures((i, b), #[trigger] row@[b as int]),
                decreases cols - j,
            {
                let v = f(i, j);
                row.push(v);
                j += 1;
            }
            data.push(row);
            i += 1;
        }
        Tensor::from_rows(rows, cols, data)
    }
}

impl<T: Copy> Tensor<T> {
    /// The transpose: element `(i, j)` of the result is element `(j, i)` of `self`.
    pub fn transpose(&self) -> (r: Tensor<T>)
        ensures
            is_transpose(&r, self),
    {
        let rows = self.rows();
        let cols = self.cols();
        proof {
            vstd::arithmetic::mul::lemma_mul_is_commutative(rows as int, cols as int);
        }
        let f = |i: usize, j: usize| -> (v: T)
            requires
                i < self.ncols() && j < self.nrows(),
            ensures
                v == self.at(j as int, i as int),
            { self.get(j, i) };
        let r = Tensor::tabulate(cols, rows, f);
        assert forall|i: int, j: int|
            0 <= i < self.ncols() && 0 <= j < self.nrows() implies #[trigger] r.at(i, j) == self.at(
                j,
                i,
            ) by {
            assert(f.ensures((i as usize, j as usize), r.at(i, j)));
        }
        r
    }

    /// Applies `f` to every element.
    pub fn map<F: Fn(T) -> T>(&self, f: F) -> (r: Tensor<T>)
        requires
            forall|i: int, j: int|
                0 <= i < self.nrows() && 0 <= j < self.ncols() ==> #[trigger] f.requires(
                    (self.at(i, j),),
                ),
        ensures
            r.has_shape(self.nrows(), self.ncols()),
            forall|i: int, j: int|
                0 <= i < self.nrows() && 0 <= j < self.ncols() ==> f.ensures(
                    (self.at(i, j),),
                    #[trigger] r.at(i, j),
                ),
    {
        let rows = self.rows();
        let cols = self.cols();
        let mut data: Vec<Vec<T>> = Vec::new();
        let mut i: usize = 0;
        while i < rows
            invariant
                i <= rows,
                rows == self.nrows(),
                cols == self.ncols(),
                rows * cols <= usize::MAX,
                forall|a: int, b: int|
                    0 <= a < self.nrows() && 0 <= b < self.ncols() ==> #[trigger] f.requires(
                        (self.at(a, b),),
                    ),
                data@.len() == i,
                forall|a: int| 0 <= a < i ==> #[trigger] data@[a]@.len() == cols,
                forall|a: int, b: int|
                    0 <= a < i && 0 <= b < cols ==> f.ensures(
                        (self.at(a, b),),
                        #[trigger] data@[a]@[b],
                    ),
            decreases rows - i,
        {
            let mut row: Vec<T> = Vec::new();
            let mut j: usize = 0;
            while j < cols
                invariant
                    i < rows,
                    j <= cols,
                    rows == self.nrows(),
                    cols == self.ncols(),
                    forall|a: int, b: int|
                        0 <= a < self.nrows() && 0 <= b < self.ncols() ==> #[trigger] f.requires(
                            (self.at(a, b),),
                        ),
                    row@.len() == j,
                    forall|b: int| 0 <= b < j ==> f.ensures((self.at(i as int, b),), #[trigger] row@[b]),
                decreases cols - j,
            {
                let x = self.get(i, j);
                let v = f(x);
                row.push(v);
                j += 1;
            }
            data.push(row);
            i += 1;
        }
        let r = Tensor::from_rows(rows, cols, data);
        r
    }
}

impl<T: Copy + core::ops::Add<Output = T>> Tensor<T> {
    /// Element-wise sum of two tensors of the same shape.
    pub fn add(&self, other: &Tensor<T>) -> (r: Tensor<T>)
        requires
            self.nrows() == other.nrows(),
            self.ncols() == other.ncols(),
            forall|i: int, j: int|
                0 <= i < self.nrows() && 0 <= j < self.ncols() ==> #[trigger] self.at(i, j).add_req(
                    other.at(i, j),
                ),
        ensures
            r.has_shape(self.nrows(), self.ncols()),
            T::obeys_add_spec() ==> forall|i: int, j: int|
                0 <= i < self.nrows() && 0 <= j < self.ncols() ==> #[trigger] r.at(i, j)
                    == self.at(i, j).add_spec(other.at(i, j)),
    {
        let rows = self.rows();
        let cols = self.cols();
        let f = |i: usize, j: usize| -> (v: T)
            requires
                i < self.nrows() && j < self.ncols(),
                self.nrows() == other.nrows(),
                self.ncols() == other.ncols(),
                self.at(i as int, j as int).add_req(other.at(i as int, j as int)),
            ensures
                T::obeys_add_spec() ==> v == self.at(i as int, j as int).add_spec(
                    other.at(i as int, j as int),
                ),
            { self.get(i, j) + other.get(i, j) };
        let r = Tensor::tabulate(rows, cols, f);
        assert forall|i: int, j: int|
            T::obeys_add_spec() && 0 <= i < self.nrows() && 0 <= j < self.ncols() implies #[trigger] r.at(
                i,
                j,
            ) == self.at(i, j).add_spec(other.at(i, j)) by {
            assert(f.ensures((i as usize, j as usize), r.at(i, j)));
        }
        r
    }
}

impl<T: Copy + core::ops::Sub<Output = T>> Tensor<T> {
    /// Element-wise difference of two tensors of the same shape.
    pub fn sub(&self, other: &Tensor<T>) -> (r: Tensor<T>)
        requires
            self.nrows() == other.nrows(),
            self.ncols() == other.ncols(),
            forall|i: int, j: int|
                0 <= i < self.nrows() && 0 <= j < self.ncols() ==> #[trigger] self.at(i, j).sub_req(
                    other.at(i, j),
                ),
        ensures
            r.has_shape(self.nrows(), self.ncols()),
            T::obeys_sub_spec() ==> forall|i: int, j: int|
                0 <= i < self.nrows() && 0 <= j < self.ncols() ==> #[trigger] r.at(i, j)
                    == self.at(i, j).sub_spec(other.at(i, j)),
    {
        let rows = self.rows();
        let cols = self.cols();
        let f = |i: usize, j: usize| -> (v: T)
            requires
                i < self.nrows() && j < self.ncols(),
                self.nrows() == other.nrows(),
                self.ncols() == other.ncols(),
                self.at(i as int, j as int).sub_req(other.at(i as int, j as int)),
            ensures
                T::obeys_sub_spec() ==> v == self.at(i as int, j as int).sub_spec(
                    other.at(i as int, j as int),
                ),
            { self.get(i, j) - other.get(i, j) };
        let r = Tensor::tabulate(rows, cols, f);
        assert forall|i: int, j: int|
            T::obeys_sub_spec() && 0 <= i < self.nrows() && 0 <= j < self.ncols() implies #[trigger] r.at(
                i,
                j,
            ) == self.at(i, j).sub_spec(other.at(i, j)) by {
            assert(f.ensures((i as usize, j as usize), r.at(i, j)));
        }
        r
    }
}

impl<T: Copy + core::ops::Mul<Output = T>> Tensor<T> {
    /// Element-wise product of two tensors of the same shape.
    pub fn mul_elem(&self, other: &Tensor<T>) -> (r: Tensor<T>)
        requires
            self.nrows() == other.nrows(),
            self.ncols() == other.ncols(),
            forall|i: int, j: int|
                0 <= i < self.nrows() && 0 <= j < self.ncols() ==> #[trigger] self.at(i, j).mul_req(
                    other.at(i, j),
                ),
        ensures
            r.has_shape(self.nrows(), self.ncols()),
            T::obeys_mul_spec() ==> forall|i: int, j: int|
                0 <= i < self.nrows() && 0 <= j < self.ncols() ==> #[trigger] r.at(i, j)
                    == self.at(i, j).mul_spec(other.at(i, j)),
    {
        let rows = self.rows();
        let cols = self.cols();
        let f = |i: usize, j: usize| -> (v: T)
            requires
                i < self.nrows() && j < self.ncols(),
                self.nrows() == other.nrows(),
                self.ncols() == other.ncols(),
                self.at(i as int, j as int).mul_req(other.at(i as int, j as int)),
            ensures
                T::obeys_mul_spec() ==> v == self.at(i as int, j as int).mul_spec(
                    other.at(i as int, j as int),
                ),
            { self.get(i, j) * other.get(i, j) };
        let r = Tensor::tabulate(rows, cols, f);
        assert forall|i: int, j: int|
            T::obeys_mul_spec() && 0 <= i < self.nrows() && 0 <= j < self.ncols() implies #[trigger] r.at(
                i,
                j,
            ) == self.at(i, j).mul_spec(other.at(i, j)) by {
            assert(f.ensures((i as usize, j as usize), r.at(i, j)));
        }
        r
    }

    /// Multiplies every element by the scalar `s`.
    pub fn scale(&self, s: T) -> (r: Tensor<T>)
        requires
            forall|i: int, j: int|
                0 <= i < self.nrows() && 0 <= j < self.ncols() ==> #[trigger] self.at(i, j).mul_req(s),
        ensures
            r.has_shape(self.nrows(), self.ncols()),
            T::obeys_mul_spec() ==> forall|i: int, j: int|
                0 <= i < self.nrows() && 0 <= j < self.ncols() ==> #[trigger] r.at(i, j)
                    == self.at(i, j).mul_spec(s),
    {
        let rows = self.rows();
        let cols = self.cols();
        let f = |i: usize, j: usize| -> (v: T)
            requires
                i < self.nrows() && j < self.ncols(),
                self.at(i as int, j as int).mul_req(s),
            ensures
                T::obeys_mul_spec() ==> v == self.at(i as int, j as int).mul_spec(s),
            { self.get(i, j) * s };
        let r = Tensor::tabulate(rows, cols, f);
        assert forall|i: int, j: int|
            T::obeys_mul_spec() && 0 <= i < self.nrows() && 0 <= j < self.ncols() implies #[trigger] r.at(
                i,
                j,
            ) == self.at(i, j).mul_spec(s) by {
            assert(f.ensures((i as usize, j as usize), r.at(i, j)));
        }
        r
    }
}

/// The element that `broadcast` puts at `(i, j)` when it widens `t`:
/// `t` itself when it already has the target shape, its only row when it is a
/// single row, its only column otherwise.
pub open spec fn broadcast_source<T>(t: &Tensor<T>, rows: nat, cols: nat, i: int, j: int) -> T {
    if t.nrows() == rows && t.ncols() == cols {
        t.at(i, j)
    } else if t.nrows() == 1 && t.ncols() == cols {
        t.at(0, j)
    } else {
        t.at(i, 0)
    }
}

/// `broadcast` accepts `t` for the target shape `(rows, cols)`: `t` has that
/// shape already, or is a single row `(1, cols)`, or a single column `(rows, 1)`.
pub open spec fn can_broadcast<T>(t: &Tensor<T>, rows: nat, cols: nat) -> bool {
    ||| (t.nrows() == rows && t.ncols() == cols)
    ||| (t.nrows() == 1 && t.ncols() == cols)
    ||| (t.ncols() == 1 && t.nrows() == rows)
}

impl<T: Copy> Tensor<T> {
    /// The elements in column-major order (column after column).
    pub fn as_slice(&self) -> (v: Vec<T>)
        ensures
            v@ == col_major(self),
    {
        let rows = self.rows();
        let cols = self.cols();
        let mut v: Vec<T> = Vec::new();
        let mut j: usize = 0;
        while j < cols
            invariant
                j <= cols,
                rows == self.nrows(),
                cols == self.ncols(),
                rows * cols <= usize::MAX,
                v@.len() == j * rows,
                forall|k: int|
                    0 <= k < v@.len() ==> #[trigger] v@[k] == self.at(k % (rows as int), k / (rows as int)),
            decreases cols - j,
        {
            let mut i: usize = 0;
            while i < rows
                invariant
                    j < cols,
                    i <= rows,
                    rows == self.nrows(),
                    cols == self.ncols(),
                    rows * cols <= usize::MAX,
                    v@.len() == j * rows + i,
                    forall|k: int|
                        0 <= k < v@.len() ==> #[trigger] v@[k] == self.at(
                            k % (rows as int),
                            k / (rows as int),
                        ),
                decreases rows - i,
            {
                proof {
                    lemma_split_index(j as int, i as int, rows as int);
                    lemma_index_in_bounds(j as int, i as int, cols as int, rows as int);
                    vstd::arithmetic::mul::lemma_mul_is_commutative(rows as int, cols as int);
                }
                let x = self.get(i, j);
                v.push(x);
                i += 1;
            }
            proof {
                assert(j * rows + rows == (j + 1) * rows) by (nonlinear_arith);
            }
            j += 1;
        }
        proof {
            vstd::arithmetic::mul::lemma_mul_is_commutative(rows as int, cols as int);
            assert(v@ =~= col_major(self));
        }
        v
    }

    /// The elements in row-major order (row after row).
    fn row_major_values(&self) -> (v: Vec<T>)
        ensures
            v@ == row_major(self),
    {
        let rows = self.rows();
        let cols = self.cols();
        let mut v: Vec<T> = Vec::new();
        let mut i: usize = 0;
        while i < rows
            invariant
                i <= rows,
                rows == self.nrows(),
                cols == self.ncols(),
                rows * cols <= usize::MAX,
                v@.len() == i * cols,
                forall|k: int|
                    0 <= k < v@.len() ==> #[trigger] v@[k] == self.at(k / (cols as int), k % (cols as int)),
            decreases rows - i,
        {
            let mut j: usize = 0;
            while j < cols
                invariant
                    i < rows,
                    j <= cols,
                    rows == self.nrows(),
                    cols == self.ncols(),
                    rows * cols <= usize::MAX,
                    v@.len() == i * cols + j,
                    forall|k: int|
                        0 <= k < v@.len() ==> #[trigger] v@[k] == self.at(
                            k / (cols as int),
                            k % (cols as int),
                        ),
                decreases cols - j,
            {
                proof {
                    lemma_split_index(i as int, j as int, cols as int);
                    lemma_index_in_bounds(i as int, j as int, rows as int, cols as int);
                }
                let x = self.get(i, j);
                v.push(x);
                j += 1;
            }
            proof {
                assert(i * cols + cols == (i + 1) * cols) by (nonlinear_arith);
            }
            i += 1;
        }
        proof {
            assert(v@ =~= row_major(self));
        }
        v
    }

    /// The same elements, in the same row-major order, laid out as a
    /// `rows × cols` tensor.
    ///
    /// The element count must not change: `rows * cols == self.size()`.
    pub fn reshape(&self, rows: usize, cols: usize) -> (r: Tensor<T>)
        requires
            rows * cols == self.size(),
        ensures
            r.has_shape(rows as nat, cols as nat),
            forall|i: int, j: int|
                0 <= i < rows && 0 <= j < cols ==> #[trigger] r.at(i, j) == row_major(self)[i * cols
                    + j],
            row_major(&r) == row_major(self),
    {
        let vals = self.row_major_values();
        Tensor::new(rows, cols, vals)
    }

    /// Widens a single row `(1, cols)` or a single column `(rows, 1)` to
    /// `(rows, cols)` by repeating it; a tensor that already has that shape is
    /// copied as it is.
    pub fn broadcast(&self, rows: usize, cols: usize) -> (r: Tensor<T>)
        requires
            can_broadcast(self, rows as nat, cols as nat),
            rows * cols <= usize::MAX,
        ensures
            r.has_shape(rows as nat, cols as nat),
            forall|i: int, j: int|
                0 <= i < rows && 0 <= j < cols ==> #[trigger] r.at(i, j) == broadcast_source(
                    self,
                    rows as nat,
                    cols as nat,
                    i,
                    j,
                ),
    {
        let (my_rows, my_cols) = self.shape();
        let f = |i: usize, j: usize| -> (v: T)
            requires
                i < rows && j < cols,
                can_broadcast(self, rows as nat, cols as nat),
                my_rows == self.nrows(),
                my_cols == self.ncols(),
            ensures
                v == broadcast_source(self, rows as nat, cols as nat, i as int, j as int),
            {
                if my_rows == rows && my_cols == cols {
                    self.get(i, j)
                } else if my_rows == 1 && my_cols == cols {
                    self.get(0, j)
                } else {
                    self.get(i, 0)
                }
            };
        let r = Tensor::tabulate(rows, cols, f);
        assert forall|i: int, j: int| 0 <= i < rows && 0 <= j < cols implies #[trigger] r.at(i, j)
            == broadcast_source(self, rows as nat, cols as nat, i, j) by {
            assert(f.ensures((i as usize, j as usize), r.at(i, j)));
        }
        r
    }
}

/// `v` is a value that `T::default()` can return.
pub open spec fn is_default<T: Default>(v: T) -> bool {
    call_ensures(T::default, (), v)
}

impl<T: Copy + Default> Tensor<T> {
    /// A `rows × cols` tensor of default values (zeros, for numbers).
    pub fn zeros(rows: usize, cols: usize) -> (t: Tensor<T>)
        requires
            rows * cols <= usize::MAX,
        ensures
            t.has_shape(rows as nat, cols as nat),
            forall|i: int, j: int| 0 <= i < rows && 0 <= j < cols ==> is_default(#[trigger] t.at(i, j)),
    {
        let z = T::default();
        Tensor::from_element(rows, cols, z)
    }

    /// A tensor of default values (zeros, for numbers) with the shape of `other`.
    pub fn zeros_from(other: &Tensor<T>) -> (t: Tensor<T>)
        ensures
            t.has_shape(other.nrows(), other.ncols()),
            forall|i: int, j: int|
                0 <= i < other.nrows() && 0 <= j < other.ncols() ==> is_default(#[trigger] t.at(i, j)),
    {
        Tensor::zeros(other.rows(), other.cols())
    }
}

/// `z + s[0] + s[1] + ... + s[n - 1]`, added left to right from the start value `z`.
pub open spec fn seq_sum<T: core::ops::Add<Output = T>>(z: T, s: Seq<T>) -> T
    decreases s.len(),
{
    if s.len() == 0 {
        z
    } else {
        seq_sum(z, s.drop_last()).add_spec(s.last())
    }
}

/// Every addition in the left-to-right sum of `s` from `z` is allowed by `T`'s `+`.
pub open spec fn seq_sum_req<T: core::ops::Add<Output = T>>(z: T, s: Seq<T>) -> bool
    decreases s.len(),
{
    if s.len() == 0 {
        true
    } else {
        seq_sum_req(z, s.drop_last()) && seq_sum(z, s.drop_last()).add_req(s.last())
    }
}

/// The left-to-right sum of `s`, starting from the default value (zero, for
/// numbers), can be computed: for a type whose `+` follows its specification,
/// every partial sum may take the next term; for any other type, `+` has to
/// accept every pair of operands.
pub open spec fn sum_allowed<T: Default + core::ops::Add<Output = T>>(s: Seq<T>) -> bool {
    if T::obeys_add_spec() {
        forall|z: T| #[trigger] is_default(z) ==> seq_sum_req(z, s)
    } else {
        forall|a: T, b: T| #[trigger] a.add_req(b)
    }
}

/// `r` is the sum of `s`, added left to right starting from a default value
/// `z` (zero, for numbers): `r == z` when `s` is empty, and
/// `r == z + s[0] + ... + s[n - 1]` for a type whose `+` follows its
/// specification.
pub open spec fn is_sum<T: Default + core::ops::Add<Output = T>>(r: T, s: Seq<T>) -> bool {
    exists|z: T|
        #[trigger] is_default(z) && (s.len() == 0 ==> r == z) && (T::obeys_add_spec() ==> r
            == seq_sum(z, s))
}

/// `T::default()` returns a single value (as it does for numbers).
pub open spec fn default_is_unique<T: Default>() -> bool {
    forall|a: T, b: T| #[trigger] is_default(a) && #[trigger] is_default(b) ==> a == b
}

/// The sums of prefixes of `s` are allowed when the sum of `s` is.
pub proof fn lemma_seq_sum_req_prefix<T: core::ops::Add<Output = T>>(z: T, s: Seq<T>, k: int)
    requires
        0 <= k <= s.len(),
        seq_sum_req(z, s),
    ensures
        seq_sum_req(z, s.take(k)),
    decreases s.len(),
{
    if k < s.len() {
        lemma_seq_sum_req_prefix(z, s.drop_last(), k);
        assert(s.drop_last().take(k) =~= s.take(k));
    } else {
        assert(s.take(k) =~= s);
    }
}

/// When `+` accepts every pair of operands, every sum is allowed.
pub proof fn lemma_seq_sum_req_total<T: Default + core::ops::Add<Output = T>>(s: Seq<T>)
    requires
        forall|a: T, b: T| #[trigger] a.add_req(b),
    ensures
        sum_allowed(s),
{
    assert forall|z: T| #[trigger] is_default(z) implies seq_sum_req(z, s) by {
        lemma_seq_sum_req_total_from(z, s);
    }
}

proof fn lemma_seq_sum_req_total_from<T: core::ops::Add<Output = T>>(z: T, s: Seq<T>)
    requires
        forall|a: T, b: T| #[trigger] a.add_req(b),
    ensures
        seq_sum_req(z, s),
    decreases s.len(),
{
    if s.len() > 0 {
        lemma_seq_sum_req_total_from(z, s.drop_last());
        assert(seq_sum(z, s.drop_last()).add_req(s.last()));
    }
}

/// Adds up a vector from left to right, starting from `T::default()`.
fn sum_values<T: Copy + Default + core::ops::Add<Output = T>>(v: &Vec<T>) -> (r: T)
    requires
        sum_allowed(v@),
    ensures
        is_sum(r, v@),
{
    let n = v.len();
    let z = T::default();
    assert(is_default(z));
    let mut acc = z;
    let mut k: usize = 0;
    assert(v@.take(0) =~= Seq::<T>::empty());
    while k < n
        invariant
            k <= n,
            n == v@.len(),
            sum_allowed(v@),
            is_default(z),
            k == 0 ==> acc == z,
            T::obeys_add_spec() ==> acc == seq_sum(z, v@.take(k as int)),
        decreases n - k,
    {
        proof {
            if T::obeys_add_spec() {
                lemma_seq_sum_req_prefix(z, v@, k + 1);
                assert(v@.take(k + 1).drop_last() =~= v@.take(k as int));
            }
        }
        acc = acc + v[k];
        proof {
            if T::obeys_add_spec() {
                assert(v@.take(k + 1).drop_last() =~= v@.take(k as int));
            }
        }
        k += 1;
    }
    proof {
        assert(v@.take(n as int) =~= v@);
    }
    acc
}

/// Row `i` of `t`.
pub open spec fn row_of<T>(t: &Tensor<T>, i: int) -> Seq<T> {
    Seq::new(t.ncols(), |j: int| t.at(i, j))
}

/// Column `j` of `t`.
pub open spec fn col_of<T>(t: &Tensor<T>, j: int) -> Seq<T> {
    Seq::new(t.nrows(), |i: int| t.at(i, j))
}

/// The products `a[i][k] * b[k][j]` for `k` along the shared dimension.
pub open spec fn dot_terms<T: core::ops::Mul<Output = T>>(
    a: &Tensor<T>,
    b: &Tensor<T>,
    i: int,
    j: int,
) -> Seq<T> {
    Seq::new(a.ncols(), |k: int| a.at(i, k).mul_spec(b.at(k, j)))
}

/// `a × b` can be computed: every product is allowed, and so is every sum of
/// products that makes up an element of the result.
pub open spec fn matmul_allowed<
    T: Default + core::ops::Add<Output = T> + core::ops::Mul<Output = T>,
>(a: &Tensor<T>, b: &Tensor<T>) -> bool {
    &&& forall|i: int, j: int, k: int|
        0 <= i < a.nrows() && 0 <= j < b.ncols() && 0 <= k < a.ncols() ==> #[trigger] a.at(
            i,
            k,
        ).mul_req(#[trigger] b.at(k, j))
    &&& if T::obeys_mul_spec() {
        forall|i: int, j: int|
            0 <= i < a.nrows() && 0 <= j < b.ncols() ==> sum_allowed(#[trigger] dot_terms(a, b, i, j))
    } else {
        forall|x: T, y: T| #[trigger] x.add_req(y)
    }
}

/// `r` holds the row sums of `t`: it is a `(rows, 1)` column whose element `i`
/// is the sum of row `i`.
pub open spec fn is_row_sums<T: Default + core::ops::Add<Output = T>>(
    r: &Tensor<T>,
    t: &Tensor<T>,
) -> bool {
    &&& r.has_shape(t.nrows(), 1)
    &&& forall|i: int| 0 <= i < t.nrows() ==> is_sum(#[trigger] r.at(i, 0), row_of(t, i))
}

/// `r` holds the column sums of `t`: it is a `(1, cols)` row whose element `j`
/// is the sum of column `j`.
pub open spec fn is_col_sums<T: Default + core::ops::Add<Output = T>>(
    r: &Tensor<T>,
    t: &Tensor<T>,
) -> bool {
    &&& r.has_shape(1, t.ncols())
    &&& forall|j: int| 0 <= j < t.ncols() ==> is_sum(#[trigger] r.at(0, j), col_of(t, j))
}

impl<T: Copy + Default + core::ops::Add<Output = T>> Tensor<T> {
    /// The sum of all elements, added in column-major order starting from the
    /// default value (zero, for numbers).
    pub fn sum(&self) -> (s: T)
        requires
            sum_allowed(col_major(self)),
        ensures
            is_sum(s, col_major(self)),
    {
        let v = self.as_slice();
        sum_values(&v)
    }

    /// The sum of each row, as a `(rows, 1)` column.
    pub fn row_sum(&self) -> (r: Tensor<T>)
        requires
            forall|i: int| 0 <= i < self.nrows() ==> sum_allowed(#[trigger] row_of(self, i)),
        ensures
            is_row_sums(&r, self),
    {
        let rows = self.rows();
        let mut vals: Vec<T> = Vec::new();
        let mut i: usize = 0;
        while i < rows
            invariant
                i <= rows,
                rows == self.nrows(),
                forall|a: int| 0 <= a < self.nrows() ==> sum_allowed(#[trigger] row_of(self, a)),
                vals@.len() == i,
                forall|a: int| 0 <= a < i ==> is_sum(#[trigger] vals@[a], row_of(self, a)),
            decreases rows - i,
        {
            let s = self.line_sum(i, true);
            vals.push(s);
            i += 1;
        }
        Tensor::new(rows, 1, vals)
    }

    /// The sum of row `idx` (when `along_row`) or of column `idx` (otherwise).
    fn line_sum(&self, idx: usize, along_row: bool) -> (s: T)
        requires
            along_row ==> idx < self.nrows() && sum_allowed(row_of(self, idx as int)),
            !along_row ==> idx < self.ncols() && sum_allowed(col_of(self, idx as int)),
        ensures
            along_row ==> is_sum(s, row_of(self, idx as int)),
            !along_row ==> is_sum(s, col_of(self, idx as int)),
    {
        let rows = self.rows();
        let cols = self.cols();
        let n = if along_row {
            cols
        } else {
            rows
        };
        let mut line: Vec<T> = Vec::new();
        let mut k: usize = 0;
        while k < n
            invariant
                k <= n,
                rows == self.nrows(),
                cols == self.ncols(),
                n == (if along_row { cols } else { rows }),
                along_row ==> idx < rows,
                !along_row ==> idx < cols,
                line@.len() == k,
                forall|t: int|
                    0 <= t < k ==> #[trigger] line@[t] == (if along_row {
                        self.at(idx as int, t)
                    } else {
                        self.at(t, idx as int)
                    }),
            decreases n - k,
        {
            let x = if along_row {
                self.get(idx, k)
            } else {
                self.get(k, idx)
            };
            line.push(x);
            k += 1;
        }
        proof {
            if along_row {
                assert(line@ =~= row_of(self, idx as int));
            } else {
                assert(line@ =~= col_of(self, idx as int));
            }
        }
        sum_values(&line)
    }

    /// Sums along an axis: `axis == 0` sums over the rows, giving one value per
    /// column as a `(1, cols)` row; any other axis sums over the columns,
    /// giving one value per row as a `(rows, 1)` column.
    pub fn sum_axis(&self, axis: usize) -> (r: Tensor<T>)
        requires
            axis == 0 ==> forall|j: int| 0 <= j < self.ncols() ==> sum_allowed(#[trigger] col_of(self, j)),
            axis != 0 ==> forall|i: int| 0 <= i < self.nrows() ==> sum_allowed(#[trigger] row_of(self, i)),
        ensures
            axis == 0 ==> is_col_sums(&r, self),
            axis != 0 ==> is_row_sums(&r, self),
    {
        let rows = self.rows();
        let cols = self.cols();
        let along_row = axis != 0;
        let n = if along_row {
            rows
        } else {
            cols
        };
        let mut vals: Vec<T> = Vec::new();
        let mut k: usize = 0;
        while k < n
            invariant
                k <= n,
                rows == self.nrows(),
                cols == self.ncols(),
                along_row == (axis != 0),
                n == (if along_row { rows } else { cols }),
                axis == 0 ==> forall|j: int| 0 <= j < self.ncols() ==> sum_allowed(#[trigger] col_of(self, j)),
                axis != 0 ==> forall|i: int| 0 <= i < self.nrows() ==> sum_allowed(#[trigger] row_of(self, i)),
                vals@.len() == k,
                forall|a: int|
                    0 <= a < k ==> {
                        &&& along_row ==> is_sum(#[trigger] vals@[a], row_of(self, a))
                        &&& !along_row ==> is_sum(vals@[a], col_of(self, a))
                    },
            decreases n - k,
        {
            let s = self.line_sum(k, along_row);
            vals.push(s);
            k += 1;
        }
        if along_row {
            Tensor::new(rows, 1, vals)
        } else {
            Tensor::new(1, cols, vals)
        }
    }
}

impl<T: Copy + Default + core::ops::Add<Output = T> + core::ops::Mul<Output = T>> Tensor<T> {
    /// Element `(i, j)` of `self × other`: the sum of `self[i][k] * other[k][j]` over `k`.
    fn dot(&self, other: &Tensor<T>, i: usize, j: usize) -> (s: T)
        requires
            self.ncols() == other.nrows(),
            i < self.nrows(),
            j < other.ncols(),
            matmul_allowed(self, other),
        ensures
            self.ncols() == 0 ==> is_default(s),
            T::obeys_mul_spec() ==> is_sum(s, dot_terms(self, other, i as int, j as int)),
    {
        let n = self.cols();
        let mut terms: Vec<T> = Vec::new();
        let mut k: usize = 0;
        while k < n
            invariant
                k <= n,
                n == self.ncols(),
                self.ncols() == other.nrows(),
                i < self.nrows(),
                j < other.ncols(),
                matmul_allowed(self, other),
                terms@.len() == k,
                T::obeys_mul_spec() ==> forall|t: int|
                    0 <= t < k ==> #[trigger] terms@[t] == self.at(i as int, t).mul_spec(
                        other.at(t, j as int),
                    ),
            decreases n - k,
        {
            let x = self.get(i, k);
            let y = other.get(k, j);
            assert(self.at(i as int, k as int).mul_req(other.at(k as int, j as int)));
            terms.push(x * y);
            k += 1;
        }
        proof {
            if T::obeys_mul_spec() {
                assert(terms@ =~= dot_terms(self, other, i as int, j as int));
                assert(sum_allowed(dot_terms(self, other, i as int, j as int)));
            } else {
                lemma_seq_sum_req_total(terms@);
            }
        }
        let s = sum_values(&terms);
        proof {
            if n == 0 {
                let z = choose|z: T| #[trigger] is_default(z) && (terms@.len() == 0 ==> s == z) && (
                T::obeys_add_spec() ==> s == seq_sum(z, terms@));
                assert(is_default(s));
            }
        }
        s
    }

    /// The matrix product `self × other`, where `self` is `m × k` and `other`
    /// is `k × n`; the result is `m × n`. Each element is the sum of its
    /// products, added left to right from the default value (zero, for numbers).
    pub fn matmul(&self, other: &Tensor<T>) -> (r: Tensor<T>)
        requires
            self.ncols() == other.nrows(),
            self.nrows() * other.ncols() <= usize::MAX,
            matmul_allowed(self, other),
        ensures
            r.has_shape(self.nrows(), other.ncols()),
            forall|i: int, j: int|
                0 <= i < self.nrows() && 0 <= j < other.ncols() ==> {
                    &&& self.ncols() == 0 ==> is_default(#[trigger] r.at(i, j))
                    &&& T::obeys_mul_spec() ==> is_sum(r.at(i, j), dot_terms(self, other, i, j))
                },
    {
        let rows = self.rows();
        let cols = other.cols();
        let f = |i: usize, j: usize| -> (v: T)
            requires
                i < self.nrows() && j < other.ncols(),
                self.ncols() == other.nrows(),
                matmul_allowed(self, other),
            ensures
                self.ncols() == 0 ==> is_default(v),
                T::obeys_mul_spec() ==> is_sum(v, dot_terms(self, other, i as int, j as int)),
            { self.dot(other, i, j) };
        let r = Tensor::tabulate(rows, cols, f);
        assert forall|i: int, j: int| 0 <= i < self.nrows() && 0 <= j < other.ncols() implies {
            &&& self.ncols() == 0 ==> is_default(#[trigger] r.at(i, j))
            &&& T::obeys_mul_spec() ==> is_sum(r.at(i, j), dot_terms(self, other, i, j))
        } by {
            assert(f.ensures((i as usize, j as usize), r.at(i, j)));
        }
        r
    }
}

/// The products `x * y` of the pairs `(x, y)` in `xs`, in order.
pub open spec fn products<T: core::ops::Mul<Output = T>>(xs: Seq<(T, T)>) -> Seq<T> {
    xs.map_values(|p: (T, T)| p.0.mul_spec(p.1))
}

/// The sum of the products of `xs` can be computed: every product is allowed,
/// and so is adding them up.
pub open spec fn products_allowed<
    T: Default + core::ops::Add<Output = T> + core::ops::Mul<Output = T>,
>(xs: Seq<(T, T)>) -> bool {
    &&& forall|k: int| 0 <= k < xs.len() ==> #[trigger] xs[k].0.mul_req(xs[k].1)
    &&& if T::obeys_mul_spec() {
        sum_allowed(products(xs))
    } else {
        forall|a: T, b: T| #[trigger] a.add_req(b)
    }
}

/// The sum of the products `x * y` of the pairs in `xs`, added left to right
/// starting from the default value (zero, for numbers).
pub(crate) fn sum_of_products<
    T: Copy + Default + core::ops::Add<Output = T> + core::ops::Mul<Output = T>,
>(xs: &Vec<(T, T)>) -> (r: T)
    requires
        products_allowed(xs@),
    ensures
        xs@.len() == 0 ==> is_default(r),
        T::obeys_mul_spec() ==> is_sum(r, products(xs@)),
{
    let n = xs.len();
    let mut terms: Vec<T> = Vec::new();
    let mut k: usize = 0;
    while k < n
        invariant
            k <= n,
            n == xs@.len(),
            products_allowed(xs@),
            terms@.len() == k,
            T::obeys_mul_spec() ==> forall|t: int|
                0 <= t < k ==> #[trigger] terms@[t] == xs@[t].0.mul_spec(xs@[t].1),
        decreases n - k,
    {
        let (x, y) = xs[k];
        assert(xs@[k as int].0.mul_req(xs@[k as int].1));
        terms.push(x * y);
        k += 1;
    }
    proof {
        if T::obeys_mul_spec() {
            assert(terms@ =~= products(xs@));
        } else {
            lemma_seq_sum_req_total(terms@);
        }
    }
    let s = sum_values(&terms);
    proof {
        if n == 0 {
            let z = choose|z: T| #[trigger] is_default(z) && (terms@.len() == 0 ==> s == z) && (
            T::obeys_add_spec() ==> s == seq_sum(z, terms@));
            assert(is_default(s));
        }
    }
    s
}

/// Transposing twice gives back the same tensor.
pub proof fn law_transpose_involution<T>(t: &Tensor<T>, u: &Tensor<T>, v: &Tensor<T>)
    requires
        is_transpose(u, t),
        is_transpose(v, u),
    ensures
        v.same_as(t),
{
    assert forall|i: int, j: int| 0 <= i < t.nrows() && 0 <= j < t.ncols() implies #[trigger] v.at(
        i,
        j,
    ) == t.at(i, j) by {
        assert(v.at(i, j) == u.at(j, i));
    }
}

/// Reading the transpose column by column gives the tensor row by row.
pub proof fn law_col_major_of_transpose<T>(t: &Tensor<T>, u: &Tensor<T>)
    requires
        is_transpose(u, t),
    ensures
        col_major(u) == row_major(t),
{
    let rows = t.nrows() as int;
    let cols = t.ncols() as int;
    vstd::arithmetic::mul::lemma_mul_is_commutative(rows, cols);
    assert forall|k: int| 0 <= k < rows * cols implies #[trigger] col_major(u)[k] == row_major(t)[k] by {
        assert(cols > 0) by (nonlinear_arith)
            requires
                0 <= k < rows * cols,
                rows >= 0,
        ;
        vstd::arithmetic::div_mod::lemma_fundamental_div_mod(k, cols);
        assert(0 <= k / cols < rows) by (nonlinear_arith)
            requires
                k == cols * (k / cols) + k % cols,
                0 <= k % cols < cols,
                0 <= k < rows * cols,
        ;
    }
    assert(col_major(u) =~= row_major(t));
}

/// A single row or a single column reads the same in column-major and in
/// row-major order.
pub proof fn law_vector_orders_agree<T>(t: &Tensor<T>)
    requires
        t.nrows() == 1 || t.ncols() == 1,
    ensures
        col_major(t) == row_major(t),
{
    if t.nrows() == 1 {
        assert forall|k: int| 0 <= k < t.size() implies #[trigger] col_major(t)[k] == row_major(
            t,
        )[k] by {
            assert(t.size() == t.ncols());
            vstd::arithmetic::div_mod::lemma_basic_div_specific_divisor(t.ncols() as int);
            vstd::arithmetic::div_mod::lemma_small_mod(k as nat, t.ncols());
        }
    } else {
        assert forall|k: int| 0 <= k < t.size() implies #[trigger] col_major(t)[k] == row_major(
            t,
        )[k] by {
            assert(t.nrows() * t.ncols() == t.nrows()) by (nonlinear_arith)
                requires
                    t.ncols() == 1,
            ;
            vstd::arithmetic::div_mod::lemma_basic_div_specific_divisor(t.nrows() as int);
            vstd::arithmetic::div_mod::lemma_small_mod(k as nat, t.nrows());
        }
    }
    assert(col_major(t) =~= row_major(t));
}

impl<T: Copy> Clone for Tensor<T> {
    /// A tensor with the same shape and elements.
    fn clone(&self) -> (r: Tensor<T>)
        ensures
            r.same_as(self),
    {
        let rows = self.rows();
        let cols = self.cols();
        let f = |i: usize, j: usize| -> (v: T)
            requires
                i < self.nrows() && j < self.ncols(),
            ensures
                v == self.at(i as int, j as int),
            { self.get(i, j) };
        let r = Tensor::tabulate(rows, cols, f);
        assert forall|i: int, j: int|
            0 <= i < self.nrows() && 0 <= j < self.ncols() implies #[trigger] r.at(i, j) == self.at(
                i,
                j,
            ) by {
            assert(f.ensures((i as usize, j as usize), r.at(i, j)));
        }
        r
    }
}

/// Summing over the columns (`sum_axis` with an axis other than 0) gives the
/// row sums (`row_sum`): both add each row up from the default value, so they
/// agree whenever `T::default()` has a single value and the sums are
/// determined (`T`'s `+` follows its specification, or the rows are empty).
pub proof fn law_row_sums_agree<T: Default + core::ops::Add<Output = T>>(
    a: &Tensor<T>,
    b: &Tensor<T>,
    t: &Tensor<T>,
)
    requires
        is_row_sums(a, t),
        is_row_sums(b, t),
        default_is_unique::<T>(),
        T::obeys_add_spec() || t.ncols() == 0,
    ensures
        a.same_as(b),
{
    assert forall|i: int, j: int| 0 <= i < a.nrows() && 0 <= j < a.ncols() implies #[trigger] a.at(
        i,
        j,
    ) == b.at(i, j) by {
        let s = row_of(t, i);
        assert(is_sum(a.at(i, 0), s));
        assert(is_sum(b.at(i, 0), s));
        let za = choose|z: T|
            #[trigger] is_default(z) && (s.len() == 0 ==> a.at(i, 0) == z) && (T::obeys_add_spec()
                ==> a.at(i, 0) == seq_sum(z, s));
        let zb = choose|z: T|
            #[trigger] is_default(z) && (s.len() == 0 ==> b.at(i, 0) == z) && (T::obeys_add_spec()
                ==> b.at(i, 0) == seq_sum(z, s));
        assert(za == zb);
    }
}

/// The exact sum of `s`, as an integer.
pub open spec fn int_sum(s: Seq<i64>) -> int
    decreases s.len(),
{
    if s.len() == 0 {
        0
    } else {
        int_sum(s.drop_last()) + s.last()
    }
}

/// A sum of `i64`s from zero with no overflow on the way is the exact sum.
proof fn lemma_i64_sum(s: Seq<i64>)
    requires
        seq_sum_req(0i64, s),
    ensures
        seq_sum(0i64, s) as int == int_sum(s),
    decreases s.len(),
{
    if s.len() > 0 {
        lemma_i64_sum(s.drop_last());
    }
}

/// The exact sum of a concatenation is the sum of the exact sums.
proof fn lemma_int_sum_concat(a: Seq<i64>, b: Seq<i64>)
    ensures
        int_sum(a + b) == int_sum(a) + int_sum(b),
    decreases b.len(),
{
    if b.len() == 0 {
        assert(a + b =~= a);
    } else {
        lemma_int_sum_concat(a, b.drop_last());
        assert((a + b).drop_last() =~= a + b.drop_last());
    }
}

/// The first `j` columns of `t`, read column by column, add up to the sum of
/// their column sums.
proof fn lemma_col_major_prefix_sum(t: &Tensor<i64>, j: int)
    requires
        0 <= j <= t.ncols(),
    ensures
        j * t.nrows() <= t.size(),
        int_sum(col_major(t).take(j * t.nrows())) == col_sums_int(t, j),
    decreases j,
{
    let rows = t.nrows() as int;
    let cols = t.ncols() as int;
    assert(j * rows <= rows * cols) by (nonlinear_arith)
        requires
            0 <= j <= cols,
            0 <= rows,
    ;
    if j == 0 {
        assert(j * rows == 0) by (nonlinear_arith)
            requires
                j == 0,
        ;
        assert(col_major(t).take(0) =~= Seq::<i64>::empty());
    } else {
        lemma_col_major_prefix_sum(t, j - 1);
        let prev = col_major(t).take((j - 1) * rows);
        let cur = col_major(t).take(j * rows);
        assert((j - 1) * rows + rows == j * rows) by (nonlinear_arith);
        assert forall|m: int| (j - 1) * rows <= m < j * rows implies #[trigger] cur[m] == col_of(
            t,
            j - 1,
        )[m - (j - 1) * rows] by {
            lemma_split_index(j - 1, m - (j - 1) * rows, rows);
        }
        assert forall|m: int| 0 <= m < j * rows implies #[trigger] cur[m] == (prev + col_of(
            t,
            j - 1,
        ))[m] by {
            if m >= (j - 1) * rows {
                assert(cur[m] == col_of(t, j - 1)[m - (j - 1) * rows]);
            }
        }
        assert(cur =~= prev + col_of(t, j - 1));
        lemma_int_sum_concat(prev, col_of(t, j - 1));
    }
}

/// `int_sum(col_of(t, 0)) + ... + int_sum(col_of(t, j - 1))`.
pub open spec fn col_sums_int(t: &Tensor<i64>, j: int) -> int
    decreases j,
{
    if j <= 0 {
        0
    } else {
        col_sums_int(t, j - 1) + int_sum(col_of(t, j - 1))
    }
}

/// For `i64` tensors, the column sums (`sum_axis(0)`) add up (`sum`) to the sum
/// of all elements (`sum`), when no sum overflows.
pub proof fn law_column_sums_add_up(t: &Tensor<i64>, c: &Tensor<i64>, s: i64, u: i64)
    requires
        forall|j: int| 0 <= j < t.ncols() ==> sum_allowed(#[trigger] col_of(t, j)),
        is_col_sums(c, t),
        sum_allowed(col_major(t)),
        is_sum(s, col_major(t)),
        sum_allowed(col_major(c)),
        is_sum(u, col_major(c)),
    ensures
        u == s,
{
    let cols = t.ncols() as int;
    let rows = t.nrows() as int;
    // The default value of `i64` is zero.
    let z = choose|z: i64|
        #[trigger] is_default(z) && (col_major(t).len() == 0 ==> s == z) && (
        <i64 as AddSpec<i64>>::obeys_add_spec() ==> s == seq_sum(z, col_major(t)));
    assert(z == 0);
    assert(is_default(0i64));
    lemma_i64_sum(col_major(t));
    lemma_col_major_prefix_sum(t, cols);
    vstd::arithmetic::mul::lemma_mul_is_commutative(rows, cols);
    assert(col_major(t).take(cols * rows) =~= col_major(t));
    // The column sums, read in order, are the exact column sums.
    let w = col_major(c);
    assert(w.len() == cols) by (nonlinear_arith)
        requires
            w.len() == 1 * cols,
    ;
    assert forall|j: int| 0 <= j < cols implies #[trigger] w[j] as int == int_sum(col_of(t, j)) by {
        assert(w[j] == c.at(0, j));
        assert(is_sum(c.at(0, j), col_of(t, j)));
        lemma_i64_sum(col_of(t, j));
    }
    lemma_i64_sum(w);
    assert forall|j: int| 0 <= j <= cols implies #[trigger] int_sum(w.take(j)) == col_sums_int(t, j) by {
        lemma_prefix_sums(t, w, j);
    }
    assert(w.take(cols) =~= w);
}

proof fn lemma_prefix_sums(t: &Tensor<i64>, w: Seq<i64>, j: int)
    requires
        0 <= j <= w.len(),
        w.len() == t.ncols(),
        forall|q: int| 0 <= q < w.len() ==> #[trigger] w[q] as int == int_sum(col_of(t, q)),
    ensures
        int_sum(w.take(j)) == col_sums_int(t, j),
    decreases j,
{
    if j > 0 {
        lemma_prefix_sums(t, w, j - 1);
        assert(w.take(j).drop_last() =~= w.take(j - 1));
    }
}

/// Two tensors of the same shape with the same elements in row-major order are
/// the same tensor; in particular, reshaping a tensor to its own shape gives it
/// back.
pub proof fn law_reshape_own_shape<T>(t: &Tensor<T>, r: &Tensor<T>)
    requires
        r.has_shape(t.nrows(), t.ncols()),
        row_major(r) == row_major(t),
    ensures
        r.same_as(t),
{
    assert forall|i: int, j: int| 0 <= i < t.nrows() && 0 <= j < t.ncols() implies #[trigger] r.at(
        i,
        j,
    ) == t.at(i, j) by {
        let cols = t.ncols() as int;
        lemma_split_index(i, j, cols);
        lemma_index_in_bounds(i, j, t.nrows() as int, cols);
        let k = i * cols + j;
        assert(0 <= k < r.size());
        assert(row_major(r)[k] == r.at(k / (r.ncols() as int), k % (r.ncols() as int)));
        assert(row_major(t)[k] == t.at(k / cols, k % cols));
        assert(row_major(r)[k] == row_major(t)[k]);
    }
}

impl<'a, T: Copy + core::ops::Add<Output = T>> std::ops::Add for &'a Tensor<T> {
    type Output = Tensor<T>;

    /// `&a + &b` is `a.add(&b)`.
    fn add(self, other: &'a Tensor<T>) -> (r: Tensor<T>)
        ensures
            r.has_shape(self.nrows(), self.ncols()),
            T::obeys_add_spec() ==> forall|i: int, j: int|
                0 <= i < self.nrows() && 0 <= j < self.ncols() ==> #[trigger] r.at(i, j)
                    == self.at(i, j).add_spec(other.at(i, j)),
    {
        Tensor::add(self, other)
    }
}

impl<'a, T: Copy + core::ops::Add<Output = T>> vstd::std_specs::ops::AddSpecImpl for &'a Tensor<T> {
    /// The sum of two tensors is a new tensor, which no spec value stands for.
    open spec fn obeys_add_spec() -> bool {
        false
    }

    /// `&a + &b` needs tensors of the same shape whose elements can be added.
    open spec fn add_req(self, rhs: &'a Tensor<T>) -> bool {
        &&& self.nrows() == rhs.nrows()
        &&& self.ncols() == rhs.ncols()
        &&& forall|i: int, j: int|
            0 <= i < self.nrows() && 0 <= j < self.ncols() ==> #[trigger] self.at(i, j).add_req(
                rhs.at(i, j),
            )
    }

    open spec fn add_spec(self, rhs: &'a Tensor<T>) -> Tensor<T> {
        vstd::pervasive::arbitrary()
    }
}

impl<'a, T: Copy + core::ops::Sub<Output = T>> std::ops::Sub for &'a Tensor<T> {
    type Output = Tensor<T>;

    /// `&a - &b` is `a.sub(&b)`.
    fn sub(self, other: &'a Tensor<T>) -> (r: Tensor<T>)
        ensures
            r.has_shape(self.nrows(), self.ncols()),
            T::obeys_sub_spec() ==> forall|i: int, j: int|
                0 <= i < self.nrows() && 0 <= j < self.ncols() ==> #[trigger] r.at(i, j)
                    == self.at(i, j).sub_spec(other.at(i, j)),
    {
        Tensor::sub(self, other)
    }
}

impl<'a, T: Copy + core::ops::Sub<Output = T>> vstd::std_specs::ops::SubSpecImpl for &'a Tensor<T> {
    /// The difference of two tensors is a new tensor, which no spec value stands for.
    open spec fn obeys_sub_spec() -> bool {
        false
    }

    /// `&a - &b` needs tensors of the same shape whose elements can be subtracted.
    open spec fn sub_req(self, rhs: &'a Tensor<T>) -> bool {
        &&& self.nrows() == rhs.nrows()
        &&& self.ncols() == rhs.ncols()
        &&& forall|i: int, j: int|
            0 <= i < self.nrows() && 0 <= j < self.ncols() ==> #[trigger] self.at(i, j).sub_req(
                rhs.at(i, j),
            )
    }

    open spec fn sub_spec(self, rhs: &'a Tensor<T>) -> Tensor<T> {
        vstd::pervasive::arbitrary()
    }
}

} // verus!
