//! Integer matrices for the brain: a matrix is a row-major `Vec<Vec<i64>>`
//! of fixed-point weights. The one product the simulation needs, matrix
//! times column vector, is delegated to ndarray behind a trusted wrapper
//! whose contract is the textbook sum of products.

use vstd::prelude::*;

verus! {

/// Sum of the first `n` products `row[i] * v[i]`.
pub open spec fn dot_prefix(row: Seq<i64>, v: Seq<i64>, n: int) -> int
    decreases n,
{
    if n <= 0 {
        0
    } else {
        dot_prefix(row, v, n - 1) + row[n - 1] * v[n - 1]
    }
}

/// The full inner product of a row with a vector of the same length.
pub open spec fn dot_spec(row: Seq<i64>, v: Seq<i64>) -> int {
    dot_prefix(row, v, row.len() as int)
}

/// A rectangular `rows x cols` matrix.
pub open spec fn mat_wf(m: Seq<Vec<i64>>, rows: int, cols: int) -> bool {
    &&& m.len() == rows
    &&& forall|i: int| 0 <= i < rows ==> (#[trigger] m[i])@.len() == cols
}

/// Every entry of the matrix lies in `[-bound, bound]`.
pub open spec fn mat_bounded(m: Seq<Vec<i64>>, bound: int) -> bool {
    forall|i: int, j: int|
        0 <= i < m.len() && 0 <= j < m[i]@.len() ==> -bound <= #[trigger] m[i]@[j] <= bound
}

/// Every entry of the vector lies in `[-bound, bound]`.
pub open spec fn vec_bounded(v: Seq<i64>, bound: int) -> bool {
    forall|i: int| 0 <= i < v.len() ==> -bound <= #[trigger] v[i] <= bound
}

/// An inner product of `n` terms, each factor bounded, is itself bounded
/// by `n * a * b`.
pub proof fn lemma_dot_prefix_bound(row: Seq<i64>, v: Seq<i64>, n: int, a: int, b: int)
    requires
        0 <= n <= row.len(),
        n <= v.len(),
        a >= 0,
        b >= 0,
        forall|i: int| 0 <= i < n ==> -a <= #[trigger] row[i] <= a,
        forall|i: int| 0 <= i < n ==> -b <= #[trigger] v[i] <= b,
    ensures
        -(n * a * b) <= dot_prefix(row, v, n) <= n * a * b,
    decreases n,
{
    if n > 0 {
        lemma_dot_prefix_bound(row, v, n - 1, a, b);
        assert(-(a * b) <= row[n - 1] * v[n - 1] <= a * b) by (nonlinear_arith)
            requires
                -a <= row[n - 1] <= a,
                -b <= v[n - 1] <= b,
                a >= 0,
                b >= 0;
        assert((n - 1) * a * b + a * b == n * a * b) by (nonlinear_arith);
    }
}

/// Relies on ndarray's `ArrayBase::dot` of a two-dimensional array with a
/// one-dimensional one: the plain matrix-vector product, row `i` of the
/// result being the inner product of matrix row `i` with `v`. The bounds
/// in the precondition keep every intermediate sum inside `i64`.
#[verifier::external_body]
fn mat_vec_mul_raw(m: &Vec<Vec<i64>>, v: &Vec<i64>) -> (r: Vec<i64>)
    requires
        mat_wf(m@, m@.len() as int, v@.len() as int),
        m@.len() <= 64,
        v@.len() <= 64,
        mat_bounded(m@, 2000000),
        vec_bounded(v@, 2100000000),
    ensures
        r@.len() == m@.len(),
        forall|i: int| 0 <= i < m@.len() ==> #[trigger] r@[i] == dot_spec(m@[i]@, v@),
{
    let rows = m.len();
    let cols = v.len();
    let mut flat: Vec<i64> = Vec::with_capacity(rows * cols);
    for row in m {
        flat.extend_from_slice(row);
    }
    let a = ndarray::Array2::from_shape_vec((rows, cols), flat).unwrap();
    let b = ndarray::Array1::from_vec(v.clone());
    a.dot(&b).to_vec()
}

/// Matrix-vector product with the result's bound carried in the contract.
pub fn mat_vec_mul(m: &Vec<Vec<i64>>, v: &Vec<i64>) -> (r: Vec<i64>)
    requires
        mat_wf(m@, m@.len() as int, v@.len() as int),
        m@.len() <= 64,
        v@.len() <= 64,
        mat_bounded(m@, 2000000),
        vec_bounded(v@, 2100000000),
    ensures
        r@.len() == m@.len(),
        forall|i: int| 0 <= i < m@.len() ==> #[trigger] r@[i] == dot_spec(m@[i]@, v@),
        vec_bounded(r@, (64 * 2000000 * 2100000000) as int),
{
    let r = mat_vec_mul_raw(m, v);
    proof {
        assert forall|i: int| 0 <= i < r@.len() implies -(64 * 2000000 * 2100000000) <= #[trigger] r@[i]
            <= 64 * 2000000 * 2100000000 by {
            lemma_dot_prefix_bound(m@[i]@, v@, m@[i]@.len() as int, 2000000, 2100000000);
            assert((m@[i]@.len() as int) * 2000000 * 2100000000 <= 64 * 2000000 * 2100000000)
                by (nonlinear_arith)
                requires m@[i]@.len() <= 64;
        }
    }
    r
}

} // verus!
