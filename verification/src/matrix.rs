use vstd::prelude::*;

use crate::display::dec_digits;
use crate::display::i64_chars;
use crate::display::i64_string;
use crate::display::u64_string;
use crate::error::MatrixError;
use crate::vector::Vector;
use crate::vector::dot;
use crate::vector::dot_fits_i64;
use crate::vector::dot_prefix;
use crate::vector::dot_product;

verus! {

/// Number of worker threads a multiplication run is divided over. Fixed
/// configuration, independent of the matrix shapes.
pub const NUM_THREADS: usize = 4;

/// Row `i` of a matrix with `col` columns, stored row-major in `m`.
pub open spec fn row_seq(m: Seq<i64>, col: int, i: int) -> Seq<i64> {
    m.subrange(i * col, i * col + col)
}

/// Column `j` of a matrix with `row` rows and `col` columns, stored
/// row-major in `m`: the strided selection `m[j], m[col + j], ...`.
pub open spec fn col_seq(m: Seq<i64>, row: int, col: int, j: int) -> Seq<i64> {
    Seq::new(row as nat, |k: int| m[k * col + j])
}

/// Entry `(i, j)` of the mathematical product of an R×K matrix `a` and a
/// K×C matrix `b`: the dot product of row `i` of `a` and column `j` of `b`.
pub open spec fn product_entry(a: Seq<i64>, acol: int, b: Seq<i64>, bcol: int, i: int, j: int) -> int {
    dot(row_seq(a, acol, i), col_seq(b, acol, bcol, j))
}

/// `c` is the row-major storage of the mathematical product of the R×K
/// matrix `a` and the K×C matrix `b`, element for element.
pub open spec fn is_product(
    a: Seq<i64>,
    arow: int,
    acol: int,
    b: Seq<i64>,
    bcol: int,
    c: Seq<i64>,
) -> bool {
    &&& c.len() == arow * bcol
    &&& forall|i: int, j: int|
        0 <= i < arow && 0 <= j < bcol ==> #[trigger] c[i * bcol + j] == product_entry(
            a,
            acol,
            b,
            bcol,
            i,
            j,
        )
}

/// Every dot product that the multiplication of `a` (R×K) and `b` (K×C)
/// performs stays within `i64`, so no accumulation overflows.
pub open spec fn multiply_fits(a: Seq<i64>, arow: int, acol: int, b: Seq<i64>, bcol: int) -> bool {
    forall|i: int, j: int|
        0 <= i < arow && 0 <= j < bcol ==> #[trigger] dot_fits_i64(
            row_seq(a, acol, i),
            col_seq(b, acol, bcol, j),
        )
}

/// A dense row-major matrix: a flat buffer of `row * col` elements, where
/// the element at logical position `(i, j)` sits at flat index `i * col + j`.
/// Immutable once constructed.
pub struct Matrix {
    data: Vec<i64>,
    row: usize,
    col: usize,
}

impl View for Matrix {
    type V = Seq<i64>;

    closed spec fn view(&self) -> Seq<i64> {
        self.data@
    }
}

impl Matrix {
    /// The number of rows, as a specification-level value.
    pub closed spec fn spec_row(&self) -> usize {
        self.row
    }

    /// The number of columns, as a specification-level value.
    pub closed spec fn spec_col(&self) -> usize {
        self.col
    }

    /// Well-formedness: the dimensions are positive and the flat buffer
    /// holds exactly `row * col` elements. Holds on construction and is
    /// never violated by any operation.
    pub open spec fn wf(&self) -> bool {
        &&& self@.len() == self.spec_row() * self.spec_col()
        &&& 1 <= self.spec_row()
        &&& 1 <= self.spec_col()
    }

    /// Builds a matrix from its row-major backing buffer. The caller
    /// guarantees that the buffer length matches the dimensions.
    pub fn new(data: Vec<i64>, row: usize, col: usize) -> (m: Matrix)
        requires
            1 <= row,
            1 <= col,
            data@.len() == row * col,
        ensures
            m.wf(),
            m@ == data@,
            m.spec_row() == row,
            m.spec_col() == col,
    {
        Matrix { data, row, col }
    }

    /// The number of rows.
    pub fn row(&self) -> (r: usize)
        ensures
            r == self.spec_row(),
    {
        self.row
    }

    /// The number of columns.
    pub fn col(&self) -> (c: usize)
        ensures
            c == self.spec_col(),
    {
        self.col
    }

    /// The row-major backing buffer.
    pub fn data(&self) -> (d: &Vec<i64>)
        ensures
            d@ == self@,
    {
        &self.data
    }

    /// Renders the matrix as `{v00 v01 ..., v10 v11 ...}`: cells
    /// space-separated within a row, rows comma-separated.
    pub fn display_string(&self) -> (s: String)
        requires
            self.wf(),
        ensures
            s@ == matrix_chars(self@, self.spec_row() as int, self.spec_col() as int),
    {
        let row = self.row;
        let col = self.col;
        let len = self.data.len();
        let mut s = String::from_str("{");
        proof {
            reveal_strlit("{");
            assert(s@ =~= seq!['{'] + rows_lead_chars(self@, col as int, 0));
        }
        let mut i: usize = 0;
        while i < row
            invariant
                row == self.spec_row(),
                col == self.spec_col(),
                self.wf(),
                len == self@.len(),
                i <= row,
                i < row ==> s@ == seq!['{'] + rows_lead_chars(self@, col as int, i as int),
                i == row ==> s@ == seq!['{'] + rows_lead_chars(self@, col as int, row - 1)
                    + row_chars(self@, col as int, row - 1),
            decreases row - i,
        {
            let mut j: usize = 0;
            while j < col
                invariant
                    row == self.spec_row(),
                    col == self.spec_col(),
                    self.wf(),
                    len == self@.len(),
                    i < row,
                    j <= col,
                    j < col ==> s@ == seq!['{'] + rows_lead_chars(self@, col as int, i as int)
                        + row_lead_chars(self@, col as int, i as int, j as int),
                    j == col ==> s@ == seq!['{'] + rows_lead_chars(self@, col as int, i as int)
                        + row_chars(self@, col as int, i as int),
                decreases col - j,
            {
                proof {
                    assert(i * col + j < row * col) by (nonlinear_arith)
                        requires
                            0 <= i < row,
                            0 <= j < col,
                    ;
                }
                let idx = i * col + j;
                let num = i64_string(self.data[idx]);
                s.append(num.as_str());
                if j != col - 1 {
                    s.append(" ");
                    proof {
                        reveal_strlit(" ");
                        assert(s@ =~= seq!['{'] + rows_lead_chars(self@, col as int, i as int)
                            + row_lead_chars(self@, col as int, i as int, j as int + 1));
                    }
                } else {
                    proof {
                        assert(s@ =~= seq!['{'] + rows_lead_chars(self@, col as int, i as int)
                            + row_chars(self@, col as int, i as int));
                    }
                }
                j = j + 1;
            }
            if i != row - 1 {
                s.append(", ");
                proof {
                    reveal_strlit(", ");
                    assert(s@ =~= seq!['{'] + rows_lead_chars(self@, col as int, i as int + 1));
                }
            }
            i = i + 1;
        }
        s.append("}");
        proof {
            reveal_strlit("}");
            assert(s@ =~= matrix_chars(self@, row as int, col as int));
        }
        s
    }

    /// Renders the matrix in its debug form `Matrix(row=R, col=C, {...})`.
    pub fn debug_string(&self) -> (s: String)
        requires
            self.wf(),
        ensures
            s@ == matrix_debug_chars(self@, self.spec_row() as int, self.spec_col() as int),
    {
        let mut s = String::from_str("Matrix(row=");
        proof {
            reveal_strlit("Matrix(row=");
            assert(s@ =~= seq!['M', 'a', 't', 'r', 'i', 'x', '(', 'r', 'o', 'w', '=']);
        }
        let rnum = u64_string(self.row as u64);
        s.append(rnum.as_str());
        s.append(", col=");
        let ghost s1 = s@;
        proof {
            reveal_strlit(", col=");
            assert(s1 =~= seq!['M', 'a', 't', 'r', 'i', 'x', '(', 'r', 'o', 'w', '='] + dec_digits(
                self.spec_row() as nat,
            ) + seq![',', ' ', 'c', 'o', 'l', '=']);
        }
        let cnum = u64_string(self.col as u64);
        s.append(cnum.as_str());
        s.append(", ");
        let ghost s2 = s@;
        proof {
            reveal_strlit(", ");
            assert(s2 =~= s1 + dec_digits(self.spec_col() as nat) + seq![',', ' ']);
        }
        let disp = self.display_string();
        s.append(disp.as_str());
        s.append(")");
        proof {
            reveal_strlit(")");
            assert(s@ =~= matrix_debug_chars(
                self@,
                self.spec_row() as int,
                self.spec_col() as int,
            ));
        }
        s
    }
}

/// The characters of the first `j` cells of row `i` of a matrix with `col`
/// columns, each cell followed by one space.
pub open spec fn row_lead_chars(m: Seq<i64>, col: int, i: int, j: int) -> Seq<char>
    decreases j,
{
    if j <= 0 {
        Seq::empty()
    } else {
        row_lead_chars(m, col, i, j - 1) + i64_chars(m[i * col + j - 1] as int) + seq![' ']
    }
}

/// The characters of row `i` of a matrix with `col` columns: the cells in
/// order, space-separated.
pub open spec fn row_chars(m: Seq<i64>, col: int, i: int) -> Seq<char> {
    row_lead_chars(m, col, i, col - 1) + i64_chars(m[i * col + col - 1] as int)
}

/// The characters of the first `i` rows of a matrix, each row followed by
/// a comma and a space.
pub open spec fn rows_lead_chars(m: Seq<i64>, col: int, i: int) -> Seq<char>
    decreases i,
{
    if i <= 0 {
        Seq::empty()
    } else {
        rows_lead_chars(m, col, i - 1) + row_chars(m, col, i - 1) + seq![',', ' ']
    }
}

/// The display form of a matrix: `{v00 v01 ..., v10 v11 ...}`, cells
/// space-separated within a row and rows comma-separated.
pub open spec fn matrix_chars(m: Seq<i64>, row: int, col: int) -> Seq<char> {
    seq!['{'] + rows_lead_chars(m, col, row - 1) + row_chars(m, col, row - 1) + seq!['}']
}

/// The debug form of a matrix: the display form wrapped as
/// `Matrix(row=R, col=C, <display>)`.
pub open spec fn matrix_debug_chars(m: Seq<i64>, row: int, col: int) -> Seq<char> {
    seq!['M', 'a', 't', 'r', 'i', 'x', '(', 'r', 'o', 'w', '='] + dec_digits(row as nat) + seq![
        ',',
        ' ',
        'c',
        'o',
        'l',
        '=',
    ] + dec_digits(col as nat) + seq![',', ' '] + matrix_chars(m, row, col) + seq![')']
}

/// The input half of a task: one row view, one column view, and the flat
/// output position `idx = i * col_count + j` their dot product belongs to.
pub struct MsgInput {
    pub idx: usize,
    pub row: Vector,
    pub col: Vector,
}

/// The reply to a task: the computed scalar paired with the flat output
/// position it must be written to.
pub struct MsgOutput {
    pub idx: usize,
    pub value: i64,
}

impl MsgInput {
    pub fn new(idx: usize, row: Vector, col: Vector) -> (r: MsgInput)
        ensures
            r.idx == idx,
            r.row == row,
            r.col == col,
    {
        MsgInput { idx, row, col }
    }
}

/// The unit of work a worker performs for one task: compute the dot product
/// of the task's row and column views and pair the scalar with the task's
/// output position.
pub fn run_task(input: MsgInput) -> (r: Result<MsgOutput, MatrixError>)
    requires
        input.row@.len() == input.col@.len() ==> dot_fits_i64(input.row@, input.col@),
    ensures
        input.row@.len() == input.col@.len() ==> (r matches Ok(out) && out.idx == input.idx
            && out.value == dot(input.row@, input.col@)),
        input.row@.len() != input.col@.len() ==> (r matches Err(e) && e
            == MatrixError::DimensionMismatch),
{
    let idx = input.idx;
    match dot_product(input.row, input.col) {
        Ok(value) => Ok(MsgOutput { idx, value }),
        Err(e) => Err(e),
    }
}

/// The worker a task is routed to: a static round-robin over the fixed
/// pool, chosen by the task's output position.
pub fn worker_index(idx: usize) -> (w: usize)
    ensures
        w == idx % NUM_THREADS,
        w < NUM_THREADS,
{
    idx % NUM_THREADS
}

/// The collector's write-back step: store a reply's value at the output
/// position the reply carries.
pub fn apply_reply(data: &mut Vec<i64>, reply: &MsgOutput)
    requires
        reply.idx < old(data)@.len(),
    ensures
        final(data)@ == old(data)@.update(reply.idx as int, reply.value),
{
    data[reply.idx] = reply.value;
}

/// Builds the (contiguous) row view for row `i` of `a`.
pub fn row_vector(a: &Matrix, i: usize) -> (v: Vector)
    requires
        a.wf(),
        i < a.spec_row(),
    ensures
        v@ == row_seq(a@, a.spec_col() as int, i as int),
        v@.len() == a.spec_col(),
{
    let col = a.col;
    let len = a.data.len();
    proof {
        assert((i + 1) * col <= a.spec_row() * col && (i + 1) * col == i * col + col)
            by (nonlinear_arith)
            requires
                i + 1 <= a.spec_row(),
                0 <= col,
        ;
        assert(i * col + col <= len);
    }
    let base = i * col;
    let mut out: Vec<i64> = Vec::new();
    let mut k: usize = 0;
    while k < col
        invariant
            k <= col,
            out@.len() == k,
            base == i * col,
            len == a@.len(),
            base + col <= len,
            forall|t: int| 0 <= t < k ==> #[trigger] out@[t] == a@[base + t],
        decreases col - k,
    {
        out.push(a.data[base + k]);
        k = k + 1;
    }
    proof {
        assert(out@ =~= row_seq(a@, col as int, i as int));
    }
    Vector::new(out)
}

/// Builds the (strided) column view for column `j` of `b`, stepping through
/// the flat buffer with stride `b`'s column count.
pub fn col_vector(b: &Matrix, j: usize) -> (v: Vector)
    requires
        b.wf(),
        j < b.spec_col(),
    ensures
        v@ == col_seq(b@, b.spec_row() as int, b.spec_col() as int, j as int),
        v@.len() == b.spec_row(),
{
    let row = b.row;
    let col = b.col;
    let len = b.data.len();
    let mut out: Vec<i64> = Vec::new();
    let mut k: usize = 0;
    while k < row
        invariant
            k <= row,
            out@.len() == k,
            row == b.spec_row(),
            col == b.spec_col(),
            j < col,
            b.wf(),
            len == b@.len(),
            forall|t: int| 0 <= t < k ==> #[trigger] out@[t] == b@[t * col + j],
        decreases row - k,
    {
        proof {
            assert(k * col + j < row * col) by (nonlinear_arith)
                requires
                    0 <= k < row,
                    0 <= j < col,
            ;
            assert(k * col + j < len);
        }
        out.push(b.data[k * col + j]);
        k = k + 1;
    }
    proof {
        assert(out@ =~= col_seq(b@, row as int, col as int, j as int));
    }
    Vector::new(out)
}

/// Multiplies `a` (R×K) by `b` (K×C): decomposes the product into one
/// dot-product task per output cell, enumerated in row-major order, runs
/// every task, and assembles the replies into a fresh R×C matrix. Fails
/// with `DimensionMismatch` exactly when `a`'s column count differs from
/// `b`'s row count, and performs no work in that case.
pub fn multiply(a: &Matrix, b: &Matrix) -> (r: Result<Matrix, MatrixError>)
    requires
        a.wf(),
        b.wf(),
        a.spec_row() * b.spec_col() <= usize::MAX,
        a.spec_col() == b.spec_row() ==> multiply_fits(
            a@,
            a.spec_row() as int,
            a.spec_col() as int,
            b@,
            b.spec_col() as int,
        ),
    ensures
        a.spec_col() == b.spec_row() ==> (r matches Ok(m) && m.wf() && m.spec_row()
            == a.spec_row() && m.spec_col() == b.spec_col() && is_product(
            a@,
            a.spec_row() as int,
            a.spec_col() as int,
            b@,
            b.spec_col() as int,
            m@,
        )),
        a.spec_col() != b.spec_row() ==> (r matches Err(e) && e
            == MatrixError::DimensionMismatch),
{
    if a.col != b.row {
        return Err(MatrixError::DimensionMismatch);
    }
    let arow = a.row;
    let acol = a.col;
    let bcol = b.col;
    let matrix_len = arow * bcol;
    let mut data: Vec<i64> = Vec::new();
    let mut t: usize = 0;
    while t < matrix_len
        invariant
            t <= matrix_len,
            data@.len() == t,
        decreases matrix_len - t,
    {
        data.push(0);
        t = t + 1;
    }
    let mut i: usize = 0;
    while i < arow
        invariant
            arow == a.spec_row(),
            acol == a.spec_col(),
            bcol == b.spec_col(),
            a.wf(),
            b.wf(),
            acol == b.spec_row(),
            matrix_len == arow * bcol,
            multiply_fits(a@, arow as int, acol as int, b@, bcol as int),
            i <= arow,
            data@.len() == matrix_len,
            forall|i0: int, j0: int|
                0 <= i0 < i && 0 <= j0 < bcol ==> #[trigger] data@[i0 * bcol + j0]
                    == product_entry(a@, acol as int, b@, bcol as int, i0, j0),
        decreases arow - i,
    {
        let mut j: usize = 0;
        while j < bcol
            invariant
                arow == a.spec_row(),
                acol == a.spec_col(),
                bcol == b.spec_col(),
                a.wf(),
                b.wf(),
                acol == b.spec_row(),
                matrix_len == arow * bcol,
                multiply_fits(a@, arow as int, acol as int, b@, bcol as int),
                i < arow,
                j <= bcol,
                data@.len() == matrix_len,
                forall|i0: int, j0: int|
                    0 <= i0 < i && 0 <= j0 < bcol ==> #[trigger] data@[i0 * bcol + j0]
                        == product_entry(a@, acol as int, b@, bcol as int, i0, j0),
                forall|j0: int|
                    0 <= j0 < j ==> #[trigger] data@[i as int * bcol + j0] == product_entry(
                        a@,
                        acol as int,
                        b@,
                        bcol as int,
                        i as int,
                        j0,
                    ),
            decreases bcol - j,
        {
            proof {
                assert(i * bcol + j < matrix_len) by (nonlinear_arith)
                    requires
                        0 <= i < arow,
                        0 <= j < bcol,
                        matrix_len == arow * bcol,
                ;
            }
            let row = row_vector(a, i);
            let col = col_vector(b, j);
            let idx = i * bcol + j;
            let input = MsgInput::new(idx, row, col);
            proof {
                assert(dot_fits_i64(
                    row_seq(a@, acol as int, i as int),
                    col_seq(b@, acol as int, bcol as int, j as int),
                ));
            }
            let ghost pre = data@;
            match run_task(input) {
                Ok(out) => {
                    apply_reply(&mut data, &out);
                },
                Err(e) => {
                    proof {
                        assert(false);
                    }
                    return Err(e);
                },
            }
            proof {
                assert forall|i0: int, j0: int| 0 <= i0 < i && 0 <= j0 < bcol implies #[trigger] data@[i0
                    * bcol + j0] == product_entry(a@, acol as int, b@, bcol as int, i0, j0) by {
                    assert(i0 * bcol + j0 < i * bcol + j) by (nonlinear_arith)
                        requires
                            0 <= i0 < i,
                            0 <= j0 < bcol,
                            0 <= j,
                    ;
                    assert(data@[i0 * bcol + j0] == pre[i0 * bcol + j0]);
                }
                assert forall|j0: int| 0 <= j0 <= j implies #[trigger] data@[i as int * bcol + j0]
                    == product_entry(a@, acol as int, b@, bcol as int, i as int, j0) by {
                    if j0 < j {
                        assert(data@[i as int * bcol + j0] == pre[i as int * bcol + j0]);
                    }
                }
            }
            j = j + 1;
        }
        i = i + 1;
    }
    Ok(Matrix { data, row: arow, col: bcol })
}

/// The product of two given matrices is unique: any two row-major buffers
/// that both satisfy `is_product` for the same operands are equal. Together
/// with `multiply`'s postcondition this makes every successful
/// multiplication deterministic: repeated invocations with identical inputs
/// produce identical outputs, however the per-cell tasks are scheduled.
pub proof fn lemma_product_unique(
    a: Seq<i64>,
    arow: int,
    acol: int,
    b: Seq<i64>,
    bcol: int,
    c1: Seq<i64>,
    c2: Seq<i64>,
)
    requires
        0 <= arow,
        0 <= bcol,
        is_product(a, arow, acol, b, bcol, c1),
        is_product(a, arow, acol, b, bcol, c2),
    ensures
        c1 == c2,
{
    if arow > 0 && bcol > 0 {
        assert forall|n: int| 0 <= n < c1.len() implies c1[n] == c2[n] by {
            let i = n / bcol;
            let j = n % bcol;
            assert(0 <= i < arow && 0 <= j < bcol && n == i * bcol + j) by (nonlinear_arith)
                requires
                    0 <= n < arow * bcol,
                    0 < arow,
                    0 < bcol,
                    i == n / bcol,
                    j == n % bcol,
            ;
            assert(c1[i * bcol + j] == product_entry(a, acol, b, bcol, i, j));
            assert(c2[i * bcol + j] == product_entry(a, acol, b, bcol, i, j));
        }
    } else {
        assert(c1.len() == arow * bcol && arow * bcol == 0) by (nonlinear_arith)
            requires
                0 <= arow,
                0 <= bcol,
                arow == 0 || bcol == 0,
                c1.len() == arow * bcol,
        ;
    }
    assert(c1 =~= c2);
}

/// The n×n identity matrix in row-major storage: ones on the diagonal and
/// zeros elsewhere.
pub open spec fn is_identity(m: Seq<i64>, n: int) -> bool {
    &&& m.len() == n * n
    &&& forall|i: int, j: int|
        0 <= i < n && 0 <= j < n ==> #[trigger] m[i * n + j] == if i == j {
            1i64
        } else {
            0i64
        }
}

/// The dot product of a vector with the `j`-th standard basis vector picks
/// out the `j`-th component: the running sum over the first `k` terms is
/// `r[j]` once index `j` has been passed, and `0` before.
proof fn lemma_dot_delta(r: Seq<i64>, cv: Seq<i64>, j: int, k: int)
    requires
        0 <= k <= r.len(),
        cv.len() == r.len(),
        0 <= j < r.len(),
        forall|t: int| 0 <= t < cv.len() ==> #[trigger] cv[t] == (if t == j {
            1i64
        } else {
            0i64
        }),
    ensures
        dot_prefix(r, cv, k) == if j < k {
            r[j] as int
        } else {
            0
        },
    decreases k,
{
    if k > 0 {
        lemma_dot_delta(r, cv, j, k - 1);
        let t = k - 1;
        assert(cv[t] == (if t == j {
            1i64
        } else {
            0i64
        }));
        assert(dot_prefix(r, cv, k) == dot_prefix(r, cv, t) + r[t] * cv[t]);
        if t == j {
            assert(r[t] * cv[t] == r[t]);
        } else {
            assert(r[t] * cv[t] == 0);
        }
    }
}

/// The dot product of the `i`-th standard basis vector with a vector picks
/// out the `i`-th component: the running sum over the first `k` terms is
/// `cv[i]` once index `i` has been passed, and `0` before.
proof fn lemma_dot_delta_left(r: Seq<i64>, cv: Seq<i64>, i: int, k: int)
    requires
        0 <= k <= r.len(),
        cv.len() == r.len(),
        0 <= i < r.len(),
        forall|t: int| 0 <= t < r.len() ==> #[trigger] r[t] == (if t == i {
            1i64
        } else {
            0i64
        }),
    ensures
        dot_prefix(r, cv, k) == if i < k {
            cv[i] as int
        } else {
            0
        },
    decreases k,
{
    if k > 0 {
        lemma_dot_delta_left(r, cv, i, k - 1);
        let t = k - 1;
        assert(r[t] == (if t == i {
            1i64
        } else {
            0i64
        }));
        assert(dot_prefix(r, cv, k) == dot_prefix(r, cv, t) + r[t] * cv[t]);
        if t == i {
            assert(r[t] * cv[t] == cv[t]);
        } else {
            assert(r[t] * cv[t] == 0);
        }
    }
}

/// Multiplying the identity matrix by any square matrix of matching size
/// returns a matrix equal to the original: every row-major buffer that
/// satisfies `is_product` for the n×n identity and `a` (n×n) equals `a`.
pub proof fn lemma_identity_multiply(id: Seq<i64>, n: int, a: Seq<i64>, c: Seq<i64>)
    requires
        0 < n,
        a.len() == n * n,
        is_identity(id, n),
        is_product(id, n, n, a, n, c),
    ensures
        c == a,
{
    assert forall|i: int, j: int| 0 <= i < n && 0 <= j < n implies #[trigger] c[i * n + j] == a[i
        * n + j] by {
        let r = row_seq(id, n, i);
        let cv = col_seq(a, n, n, j);
        assert((i + 1) * n == i * n + n && (i + 1) * n <= n * n) by (nonlinear_arith)
            requires
                0 <= i < n,
        ;
        assert forall|t: int| 0 <= t < r.len() implies #[trigger] r[t] == (if t == i {
            1i64
        } else {
            0i64
        }) by {
            assert(r[t] == id[i * n + t]);
        }
        lemma_dot_delta_left(r, cv, i, n);
        assert(c[i * n + j] == product_entry(id, n, a, n, i, j));
        assert(cv[i] == a[i * n + j]);
    }
    assert forall|m: int| 0 <= m < c.len() implies c[m] == a[m] by {
        let i = m / n;
        let j = m % n;
        assert(0 <= i < n && 0 <= j < n && m == i * n + j) by (nonlinear_arith)
            requires
                0 <= m < n * n,
                0 < n,
                i == m / n,
                j == m % n,
        ;
        assert(c[i * n + j] == a[i * n + j]);
    }
    assert(c =~= a);
}

/// Multiplying any square matrix by the identity matrix of matching size
/// returns a matrix equal to the original: every row-major buffer that
/// satisfies `is_product` for `a` (n×n) and the n×n identity equals `a`.
pub proof fn lemma_multiply_identity(a: Seq<i64>, n: int, id: Seq<i64>, c: Seq<i64>)
    requires
        0 < n,
        a.len() == n * n,
        is_identity(id, n),
        is_product(a, n, n, id, n, c),
    ensures
        c == a,
{
    assert forall|i: int, j: int| 0 <= i < n && 0 <= j < n implies #[trigger] c[i * n + j] == a[i
        * n + j] by {
        let r = row_seq(a, n, i);
        let cv = col_seq(id, n, n, j);
        assert((i + 1) * n == i * n + n && (i + 1) * n <= n * n) by (nonlinear_arith)
            requires
                0 <= i < n,
        ;
        assert forall|t: int| 0 <= t < cv.len() implies #[trigger] cv[t] == (if t == j {
            1i64
        } else {
            0i64
        }) by {
            assert(cv[t] == id[t * n + j]);
        }
        lemma_dot_delta(r, cv, j, n);
        assert(c[i * n + j] == product_entry(a, n, id, n, i, j));
        assert(r[j] == a[i * n + j]);
    }
    assert forall|m: int| 0 <= m < c.len() implies c[m] == a[m] by {
        let i = m / n;
        let j = m % n;
        assert(0 <= i < n && 0 <= j < n && m == i * n + j) by (nonlinear_arith)
            requires
                0 <= m < n * n,
                0 < n,
                i == m / n,
                j == m % n,
        ;
        assert(c[i * n + j] == a[i * n + j]);
    }
    assert(c =~= a);
}

} // verus!
