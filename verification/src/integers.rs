use vstd::prelude::*;
use crate::matrix::{Matrix, is_product, product_defined};
use crate::vector::{dot_computable, dot_defined, dot_from, is_default, is_dot, lawful};

verus! {

/// The sum of the pairwise products of `a` and `b`, as a number.
pub open spec fn sum_of_products_i32(a: Seq<i32>, b: Seq<i32>) -> int
    decreases a.len(),
{
    if a.len() == 0 {
        0
    } else {
        sum_of_products_i32(a.drop_last(), b.drop_last()) + a.last() * b.last()
    }
}

/// Whether each product, and the sum as far as each of them, is an `i32`.
pub open spec fn fits_i32(a: Seq<i32>, b: Seq<i32>) -> bool
    decreases a.len(),
{
    a.len() == 0 || {
        &&& fits_i32(a.drop_last(), b.drop_last())
        &&& i32::MIN <= a.last() * b.last() <= i32::MAX
        &&& i32::MIN <= sum_of_products_i32(a, b) <= i32::MAX
    }
}

/// For `i32`, a dot product from zero may be carried out where nothing on
/// its way overflows, and is then the sum of the pairwise products.
pub proof fn lemma_dot_from_i32(a: Seq<i32>, b: Seq<i32>)
    requires
        a.len() == b.len(),
    ensures
        dot_defined(0i32, a, b) <==> fits_i32(a, b),
        fits_i32(a, b) ==> dot_from(0i32, a, b) == sum_of_products_i32(a, b),
    decreases a.len(),
{
    if a.len() > 0 {
        lemma_dot_from_i32(a.drop_last(), b.drop_last());
    }
}

/// For `i32` vectors of one length on which nothing overflows, the dot
/// product can be computed, and is the sum of the pairwise products.
pub proof fn lemma_dot_i32(a: Seq<i32>, b: Seq<i32>)
    requires
        a.len() == b.len(),
        fits_i32(a, b),
    ensures
        dot_computable(a, b),
        forall|r: i32| is_dot(a, b, r) ==> r == sum_of_products_i32(a, b),
{
    lemma_dot_from_i32(a, b);
    assert(lawful::<i32>());
    assert(forall|zero: i32| #[trigger] is_default(zero) ==> zero == 0);
}

/// The sum of the pairwise products of `a` and `b`, as a number.
pub open spec fn sum_of_products_i64(a: Seq<i64>, b: Seq<i64>) -> int
    decreases a.len(),
{
    if a.len() == 0 {
        0
    } else {
        sum_of_products_i64(a.drop_last(), b.drop_last()) + a.last() * b.last()
    }
}

/// Whether each product, and the sum as far as each of them, is an `i64`.
pub open spec fn fits_i64(a: Seq<i64>, b: Seq<i64>) -> bool
    decreases a.len(),
{
    a.len() == 0 || {
        &&& fits_i64(a.drop_last(), b.drop_last())
        &&& i64::MIN <= a.last() * b.last() <= i64::MAX
        &&& i64::MIN <= sum_of_products_i64(a, b) <= i64::MAX
    }
}

/// For `i64`, a dot product from zero may be carried out where nothing on
/// its way overflows, and is then the sum of the pairwise products.
pub proof fn lemma_dot_from_i64(a: Seq<i64>, b: Seq<i64>)
    requires
        a.len() == b.len(),
    ensures
        dot_defined(0i64, a, b) <==> fits_i64(a, b),
        fits_i64(a, b) ==> dot_from(0i64, a, b) == sum_of_products_i64(a, b),
    decreases a.len(),
{
    if a.len() > 0 {
        lemma_dot_from_i64(a.drop_last(), b.drop_last());
    }
}

/// For `i64` vectors of one length on which nothing overflows, the dot
/// product can be computed, and is the sum of the pairwise products.
pub proof fn lemma_dot_i64(a: Seq<i64>, b: Seq<i64>)
    requires
        a.len() == b.len(),
        fits_i64(a, b),
    ensures
        dot_computable(a, b),
        forall|r: i64| is_dot(a, b, r) ==> r == sum_of_products_i64(a, b),
{
    lemma_dot_from_i64(a, b);
    assert(lawful::<i64>());
    assert(forall|zero: i64| #[trigger] is_default(zero) ==> zero == 0);
}

/// Whether nothing overflows in any cell of the product of `a` and `b`.
pub open spec fn product_fits_i32(a: &Matrix<i32>, b: &Matrix<i32>) -> bool {
    forall|i: int, j: int|
        0 <= i < a.rows() && 0 <= j < b.cols() ==> #[trigger] fits_i32(a.row_cells(i), b.col_cells(j))
}

/// For `i32` matrices that can be multiplied and on which nothing
/// overflows, the product can be computed, and each cell of a product is
/// the sum of the pairwise products of its row of `a` and its column of `b`.
pub proof fn lemma_product_i32(a: &Matrix<i32>, b: &Matrix<i32>, c: &Matrix<i32>)
    requires
        a.cols() == b.rows(),
        product_fits_i32(a, b),
    ensures
        product_defined(a, b),
        is_product(a, b, c) ==> forall|i: int, j: int|
            0 <= i < a.rows() && 0 <= j < b.cols() ==> #[trigger] c.cell(i, j) == sum_of_products_i32(
                a.row_cells(i),
                b.col_cells(j),
            ),
{
    assert forall|i: int, j: int| 0 <= i < a.rows() && 0 <= j < b.cols() implies #[trigger] dot_computable(
        a.row_cells(i),
        b.col_cells(j),
    ) by {
        assert(fits_i32(a.row_cells(i), b.col_cells(j)));
        lemma_dot_i32(a.row_cells(i), b.col_cells(j));
    }
    if is_product(a, b, c) {
        assert forall|i: int, j: int| 0 <= i < a.rows() && 0 <= j < b.cols() implies #[trigger] c.cell(i, j)
            == sum_of_products_i32(a.row_cells(i), b.col_cells(j)) by {
            assert(fits_i32(a.row_cells(i), b.col_cells(j)));
            lemma_dot_i32(a.row_cells(i), b.col_cells(j));
        }
    }
}

/// Whether nothing overflows in any cell of the product of `a` and `b`.
pub open spec fn product_fits_i64(a: &Matrix<i64>, b: &Matrix<i64>) -> bool {
    forall|i: int, j: int|
        0 <= i < a.rows() && 0 <= j < b.cols() ==> #[trigger] fits_i64(a.row_cells(i), b.col_cells(j))
}

/// For `i64` matrices that can be multiplied and on which nothing
/// overflows, the product can be computed, and each cell of a product is
/// the sum of the pairwise products of its row of `a` and its column of `b`.
pub proof fn lemma_product_i64(a: &Matrix<i64>, b: &Matrix<i64>, c: &Matrix<i64>)
    requires
        a.cols() == b.rows(),
        product_fits_i64(a, b),
    ensures
        product_defined(a, b),
        is_product(a, b, c) ==> forall|i: int, j: int|
            0 <= i < a.rows() && 0 <= j < b.cols() ==> #[trigger] c.cell(i, j) == sum_of_products_i64(
                a.row_cells(i),
                b.col_cells(j),
            ),
{
    assert forall|i: int, j: int| 0 <= i < a.rows() && 0 <= j < b.cols() implies #[trigger] dot_computable(
        a.row_cells(i),
        b.col_cells(j),
    ) by {
        assert(fits_i64(a.row_cells(i), b.col_cells(j)));
        lemma_dot_i64(a.row_cells(i), b.col_cells(j));
    }
    if is_product(a, b, c) {
        assert forall|i: int, j: int| 0 <= i < a.rows() && 0 <= j < b.cols() implies #[trigger] c.cell(i, j)
            == sum_of_products_i64(a.row_cells(i), b.col_cells(j)) by {
            assert(fits_i64(a.row_cells(i), b.col_cells(j)));
            lemma_dot_i64(a.row_cells(i), b.col_cells(j));
        }
    }
}

} // verus!
