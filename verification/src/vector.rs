use vstd::prelude::*;

use crate::error::MatrixError;

verus! {

/// The running sum of the first `k` pairwise products of `a` and `b`,
/// `a[0]*b[0] + ... + a[k-1]*b[k-1]`, as an unbounded integer.
pub open spec fn dot_prefix(a: Seq<i64>, b: Seq<i64>, k: int) -> int
    decreases k,
{
    if k <= 0 {
        0
    } else {
        dot_prefix(a, b, k - 1) + a[k - 1] * b[k - 1]
    }
}

/// The mathematical dot product of two equal-length sequences, accumulated
/// in index-ascending order starting from the additive identity.
pub open spec fn dot(a: Seq<i64>, b: Seq<i64>) -> int {
    dot_prefix(a, b, a.len() as int)
}

/// Every pairwise product and every running sum of the dot product of `a`
/// and `b` is representable as an `i64`, so the accumulation loop neither
/// overflows nor underflows.
pub open spec fn dot_fits_i64(a: Seq<i64>, b: Seq<i64>) -> bool {
    &&& forall|k: int| 0 <= k < a.len() ==> i64::MIN <= #[trigger] (a[k] * b[k]) <= i64::MAX
    &&& forall|k: int| 0 <= k <= a.len() ==> i64::MIN <= #[trigger] dot_prefix(a, b, k) <= i64::MAX
}

/// A thin owned container for one row or one (strided) column extracted
/// from a matrix: the operand pair of a dot product.
pub struct Vector {
    data: Vec<i64>,
}

impl View for Vector {
    type V = Seq<i64>;

    closed spec fn view(&self) -> Seq<i64> {
        self.data@
    }
}

impl Vector {
    pub fn new(data: Vec<i64>) -> (v: Vector)
        ensures
            v@ == data@,
    {
        Vector { data }
    }

    pub fn len(&self) -> (n: usize)
        ensures
            n == self@.len(),
    {
        self.data.len()
    }

    pub fn get(&self, i: usize) -> (x: i64)
        requires
            i < self@.len(),
        ensures
            x == self@[i as int],
    {
        self.data[i]
    }
}

/// The scalar inner product of two vectors: the unit of work executed for
/// each output cell of a matrix product. Pure and side-effect-free; fails
/// exactly when the two lengths differ.
pub fn dot_product(a: Vector, b: Vector) -> (r: Result<i64, MatrixError>)
    requires
        a@.len() == b@.len() ==> dot_fits_i64(a@, b@),
    ensures
        a@.len() == b@.len() ==> (r matches Ok(v) && v == dot(a@, b@)),
        a@.len() != b@.len() ==> (r matches Err(e) && e == MatrixError::DimensionMismatch),
{
    if a.len() != b.len() {
        return Err(MatrixError::DimensionMismatch);
    }
    let n = a.len();
    let mut sum: i64 = 0;
    let mut i: usize = 0;
    while i < n
        invariant
            n == a@.len(),
            n == b@.len(),
            i <= n,
            dot_fits_i64(a@, b@),
            sum == dot_prefix(a@, b@, i as int),
        decreases n - i,
    {
        let p = a.get(i) * b.get(i);
        proof {
            let k = i as int;
            assert(dot_prefix(a@, b@, k + 1) == dot_prefix(a@, b@, k) + a@[k] * b@[k]);
        }
        sum = sum + p;
        i = i + 1;
    }
    Ok(sum)
}

} // verus!

