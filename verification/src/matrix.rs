use vstd::prelude::*;
use vstd::arithmetic::div_mod::{lemma_fundamental_div_mod, lemma_fundamental_div_mod_converse};
use vstd::arithmetic::mul::{lemma_mul_inequality, lemma_mul_is_distributive_add_other_way};
use core::fmt::Debug;
use core::ops::{Add, Mul};
use crate::error::Error;
use crate::vector::{Vector, is_default, is_dot, dot_computable};
use crate::pool::multiply;

verus! {

/// A dense matrix: `rows` times `cols` elements in one row-major buffer.
pub struct Matrix<T: Debug> {
    data: Vec<T>,
    rows: usize,
    cols: usize,
}

impl<T: Debug> View for Matrix<T> {
    type V = Seq<T>;

    /// The row-major buffer.
    closed spec fn view(&self) -> Seq<T> {
        self.data@
    }
}

/// A cell of an `rows` times `cols` grid has a place of its own in the
/// row-major buffer, from which its row and column can be read back.
pub proof fn lemma_cell_index(i: int, j: int, rows: int, cols: int)
    requires
        0 <= i < rows,
        0 <= j < cols,
    ensures
        0 <= i * cols + j < rows * cols,
        (i * cols + j) / cols == i,
        (i * cols + j) % cols == j,
{
    assert(i * cols >= 0) by (nonlinear_arith)
        requires
            i >= 0,
            cols > 0,
    ;
    assert(i * cols + cols <= rows * cols) by {
        lemma_mul_inequality(i + 1, rows, cols);
        lemma_mul_is_distributive_add_other_way(cols, i, 1);
    }
    lemma_fundamental_div_mod_converse(i * cols + j, cols, i, j);
}

/// A place in a row-major buffer of `rows` times `cols` cells belongs to one
/// cell, whose row and column are the place's quotient and remainder by
/// `cols`.
pub proof fn lemma_place_cell(inx: int, rows: int, cols: int)
    requires
        0 <= rows,
        0 <= cols,
        0 <= inx < rows * cols,
    ensures
        cols > 0,
        0 <= inx / cols < rows,
        0 <= inx % cols < cols,
        inx == (inx / cols) * cols + inx % cols,
{
    assert(cols > 0) by (nonlinear_arith)
        requires
            0 <= cols,
            0 <= inx < rows * cols,
    ;
    lemma_fundamental_div_mod(inx, cols);
    assert(cols * (inx / cols) == (inx / cols) * cols) by (nonlinear_arith);
    assert(0 <= inx / cols < rows) by (nonlinear_arith)
        requires
            cols > 0,
            0 <= inx < rows * cols,
            inx == (inx / cols) * cols + inx % cols,
            0 <= inx % cols < cols,
    ;
}

/// The element in row `i` and column `j` of a row-major buffer with `cols`
/// columns.
pub open spec fn cell_at<T>(cells: Seq<T>, cols: int, i: int, j: int) -> T {
    cells[i * cols + j]
}

impl<T: Debug> Matrix<T> {
    /// The number of rows.
    pub closed spec fn spec_rows(&self) -> usize {
        self.rows
    }

    /// The number of columns.
    pub closed spec fn spec_cols(&self) -> usize {
        self.cols
    }

    /// The buffer holds exactly one element for each cell.
    pub open spec fn wf(&self) -> bool {
        self@.len() == self.rows() * self.cols()
    }

    /// The element in row `i` and column `j`.
    pub open spec fn cell(&self, i: int, j: int) -> T {
        cell_at(self@, self.cols() as int, i, j)
    }

    /// Row `i`, left to right.
    pub open spec fn row_cells(&self, i: int) -> Seq<T> {
        Seq::new(self.cols() as nat, |k: int| self.cell(i, k))
    }

    /// Column `j`, top to bottom.
    pub open spec fn col_cells(&self, j: int) -> Seq<T> {
        Seq::new(self.rows() as nat, |k: int| self.cell(k, j))
    }

    /// A matrix over `data`, read row by row. The caller supplies exactly
    /// `rows * cols` elements.
    pub fn new(data: Vec<T>, rows: usize, cols: usize) -> (m: Self)
        requires
            data@.len() == rows * cols,
        ensures
            m.wf(),
            m@ == data@,
            m.rows() == rows,
            m.cols() == cols,
    {
        Matrix { data, rows, cols }
    }

    /// A matrix over `data` if it holds exactly `rows * cols` elements.
    pub fn try_new(data: Vec<T>, rows: usize, cols: usize) -> (r: Result<Self, Error>)
        ensures
            data@.len() == rows * cols ==> r is Ok && r->Ok_0.wf() && r->Ok_0@ == data@
                && r->Ok_0.rows() == rows && r->Ok_0.cols() == cols,
            data@.len() != rows * cols ==> r is Err && r->Err_0 == Error::ShapeMismatch,
    {
        let given = data.len();
        match rows.checked_mul(cols) {
            Some(cells) => {
                if given == cells {
                    Ok(Matrix { data, rows, cols })
                } else {
                    Err(Error::ShapeMismatch)
                }
            },
            None => Err(Error::ShapeMismatch),
        }
    }

    /// The number of rows.
    #[verifier::when_used_as_spec(spec_rows)]
    pub fn rows(&self) -> (n: usize)
        ensures
            n == self.rows(),
    {
        self.rows
    }

    /// The number of columns.
    #[verifier::when_used_as_spec(spec_cols)]
    pub fn cols(&self) -> (n: usize)
        ensures
            n == self.cols(),
    {
        self.cols
    }

    /// The row-major buffer.
    pub fn data(&self) -> (data: &Vec<T>)
        ensures
            data@ == self@,
    {
        &self.data
    }

    /// A copy of row `i`: a contiguous stretch of the buffer.
    pub fn row(&self, i: usize) -> (v: Vector<T>)
        where T: Copy
        requires
            self.wf(),
            i < self.rows(),
        ensures
            v@ == self.row_cells(i as int),
    {
        let cells = self.data.len();
        let mut out: Vec<T> = Vec::with_capacity(self.cols);
        let mut k: usize = 0;
        while k < self.cols
            invariant
                self.wf(),
                cells == self@.len(),
                i < self.rows(),
                k <= self.cols,
                out@ == self.row_cells(i as int).take(k as int),
            decreases self.cols - k,
        {
            proof {
                lemma_cell_index(i as int, k as int, self.rows as int, self.cols as int);
            }
            out.push(self.data[i * self.cols + k]);
            k += 1;
            assert(out@ =~= self.row_cells(i as int).take(k as int));
        }
        Vector::new(out)
    }

    /// A copy of column `j`: every `cols`-th element of the buffer, from
    /// offset `j` on.
    pub fn col(&self, j: usize) -> (v: Vector<T>)
        where T: Copy
        requires
            self.wf(),
            j < self.cols(),
        ensures
            v@ == self.col_cells(j as int),
    {
        let cells = self.data.len();
        let mut out: Vec<T> = Vec::with_capacity(self.rows);
        let mut k: usize = 0;
        while k < self.rows
            invariant
                self.wf(),
                cells == self@.len(),
                j < self.cols(),
                k <= self.rows,
                out@ == self.col_cells(j as int).take(k as int),
            decreases self.rows - k,
        {
            proof {
                lemma_cell_index(k as int, j as int, self.rows as int, self.cols as int);
            }
            out.push(self.data[k * self.cols + j]);
            k += 1;
            assert(out@ =~= self.col_cells(j as int).take(k as int));
        }
        Vector::new(out)
    }
}

impl<T: Default + Debug + Copy> Default for Matrix<T> {
    /// The matrix without rows or columns.
    fn default() -> (m: Self)
        ensures
            m.wf(),
            m.rows() == 0,
            m.cols() == 0,
            m@ == Seq::<T>::empty(),
    {
        Matrix { data: Vec::new(), rows: 0, cols: 0 }
    }
}

/// Whether every dot product of a row of `a` with a column of `b` can be
/// computed: for the machine integers, whether none of them overflows.
pub open spec fn product_defined<T: Debug + Default + Add<Output = T> + Mul<Output = T>>(
    a: &Matrix<T>,
    b: &Matrix<T>,
) -> bool {
    forall|i: int, j: int|
        0 <= i < a.rows() && 0 <= j < b.cols() ==> #[trigger] dot_computable(a.row_cells(i), b.col_cells(j))
}

/// Whether the row-major buffer `cells` holds, for each row of `a` and each
/// column of `b`, a dot product of the two, in the cell where they meet.
pub open spec fn product_cells<T: Debug + Default + Add<Output = T> + Mul<Output = T>>(
    a: &Matrix<T>,
    b: &Matrix<T>,
    cells: Seq<T>,
) -> bool {
    forall|i: int, j: int|
        0 <= i < a.rows() && 0 <= j < b.cols() ==> is_dot(
            a.row_cells(i),
            b.col_cells(j),
            #[trigger] cell_at(cells, b.cols() as int, i, j),
        )
}

/// Whether `c` is a product of `a` and `b`: it has the rows of `a`, the
/// columns of `b`, and each of its cells is a dot product of the row of `a`
/// and the column of `b` that meet in it.
pub open spec fn is_product<T: Debug + Default + Add<Output = T> + Mul<Output = T>>(
    a: &Matrix<T>,
    b: &Matrix<T>,
    c: &Matrix<T>,
) -> bool {
    &&& c.wf()
    &&& c.rows() == a.rows()
    &&& c.cols() == b.cols()
    &&& product_cells(a, b, c@)
}

/// The two matrices can be multiplied: the left one has as many columns as
/// the right one has rows.
pub fn check_compatible<T: Debug>(a: &Matrix<T>, b: &Matrix<T>) -> (r: Result<(), Error>)
    ensures
        a.cols() == b.rows() ==> r is Ok,
        a.cols() != b.rows() ==> r == Err::<(), Error>(Error::DimensionMismatch),
{
    if a.cols != b.rows {
        Err(Error::DimensionMismatch)
    } else {
        Ok(())
    }
}

impl<T> Mul for Matrix<T> where T: Debug + Default + Add<Output = T> + Mul<Output = T> + Copy {
    type Output = Self;

    /// The product as an operator, for matrices that are known to fit:
    /// where `multiply` would refuse them, `*` must not be used.
    fn mul(self, rhs: Matrix<T>) -> (product: Matrix<T>)
        ensures
            is_product(&self, &rhs, &product),
    {
        match multiply(&self, &rhs) {
            Ok(product) => product,
            Err(_) => vstd::pervasive::unreached(),
        }
    }
}

impl<T> vstd::std_specs::ops::MulSpecImpl for Matrix<T> where T: Debug + Default + Add<Output = T> + Mul<Output = T> + Copy {
    /// A product is told by `is_product`, not by a function of the factors.
    open spec fn obeys_mul_spec() -> bool {
        false
    }

    open spec fn mul_req(self, rhs: Matrix<T>) -> bool {
        &&& self.wf()
        &&& rhs.wf()
        &&& self.cols() == rhs.rows()
        &&& self.rows() * rhs.cols() <= usize::MAX
        &&& product_defined(&self, &rhs)
    }

    open spec fn mul_spec(self, rhs: Matrix<T>) -> Matrix<T> {
        choose|product: Matrix<T>| is_product(&self, &rhs, &product)
    }
}

/// Two products of the same matrices are the same matrix, as long as `T`
/// has one default value only: whatever the number of workers, and in
/// whatever order their results came in.
pub proof fn lemma_product_unique<T: Debug + Default + Add<Output = T> + Mul<Output = T>>(
    a: &Matrix<T>,
    b: &Matrix<T>,
    c: &Matrix<T>,
    d: &Matrix<T>,
)
    requires
        is_product(a, b, c),
        is_product(a, b, d),
        forall|y: T, z: T| is_default(y) && is_default(z) ==> y == z,
    ensures
        c.rows() == d.rows(),
        c.cols() == d.cols(),
        c@ == d@,
{
    assert forall|k: int| 0 <= k < c@.len() implies c@[k] == d@[k] by {
        lemma_place_cell(k, a.rows() as int, b.cols() as int);
        let i = k / (b.cols() as int);
        let j = k % (b.cols() as int);
        assert(c@[k] == cell_at(c@, b.cols() as int, i, j));
        assert(d@[k] == cell_at(d@, b.cols() as int, i, j));
    }
    assert(c@ =~= d@);
}

} // verus!
