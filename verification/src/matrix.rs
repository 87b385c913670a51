//! The dense row-major matrix that holds a trace of field elements.
//!
//! The matrix is `p3_matrix`'s. Nothing of its inside is visible here: what
//! it holds goes by two names, and the few calls that the library makes
//! state over those names what the matrix's source shows.

use p3_matrix::dense::DenseMatrix;
use p3_matrix::Matrix;
use vstd::prelude::*;

verus! {

/// `p3_matrix::dense::DenseMatrix`: a flat buffer of values and a width.
#[verifier::external_type_specification]
#[verifier::external_body]
#[verifier::reject_recursive_types(T)]
#[verifier::reject_recursive_types(V)]
pub struct ExDenseMatrix<T, V>(DenseMatrix<T, V>);

/// The values that the matrix holds, row after row.
pub uninterp spec fn matrix_values(m: DenseMatrix<u64, Vec<u64>>) -> Seq<u64>;

/// The number of columns that the matrix was made with.
pub uninterp spec fn matrix_width(m: DenseMatrix<u64, Vec<u64>>) -> nat;

/// The number of whole rows in a buffer of `len` values at `width` columns.
pub open spec fn rows_in(len: nat, width: nat) -> nat {
    if width == 0 {
        0
    } else {
        len / width
    }
}

/// Row `r` of a buffer at `width` columns.
pub open spec fn row_of(values: Seq<u64>, width: nat, r: int) -> Seq<u64> {
    values.subrange(r * width, r * width + width)
}

/// `DenseMatrix::new_col`: the matrix of one column that holds `values`
/// from top to bottom. The source keeps the buffer as it is and sets the
/// width to 1.
#[verifier::external_body]
pub(crate) fn new_col(values: Vec<u64>) -> (m: DenseMatrix<u64, Vec<u64>>)
    ensures
        matrix_values(m) == values@,
        matrix_width(m) == 1,
{
    DenseMatrix::new_col(values)
}

/// `Matrix::width` on a `DenseMatrix`: the source hands back the width that
/// the matrix was made with.
#[verifier::external_body]
pub(crate) fn width(m: &DenseMatrix<u64, Vec<u64>>) -> (w: usize)
    ensures
        w == matrix_width(*m),
{
    m.width()
}

/// `Matrix::height` on a `DenseMatrix`: the source divides the length of
/// the buffer by the width, rounding down, and gives 0 for a width of 0.
#[verifier::external_body]
pub(crate) fn height(m: &DenseMatrix<u64, Vec<u64>>) -> (h: usize)
    ensures
        h == rows_in(matrix_values(*m).len(), matrix_width(*m)),
{
    m.height()
}

/// `Matrix::row_slice` on a `DenseMatrix`, copied out: for a row below the
/// height the source hands back the `width` values from `r * width` on,
/// and nothing for any other row.
#[verifier::external_body]
pub(crate) fn row(m: &DenseMatrix<u64, Vec<u64>>, r: usize) -> (cells: Option<Vec<u64>>)
    ensures
        cells.is_some() <==> r < rows_in(matrix_values(*m).len(), matrix_width(*m)),
        cells.is_some() ==> cells.unwrap()@ == row_of(
            matrix_values(*m),
            matrix_width(*m),
            r as int,
        ),
{
    m.row_slice(r).map(|cells| cells.to_vec())
}

} // verus!
