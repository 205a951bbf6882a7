use vstd::prelude::*;

use vstd::arithmetic::div_mod::{lemma_fundamental_div_mod, lemma_fundamental_div_mod_converse, lemma_mod_multiples_basic};

use crate::model::matrix_view;

verus! {

/// The side of the square tiles that the accelerator kernel works on.
pub const TILE_SIZE: usize = 16;

/// The row-major layout of the first `cols` columns of the first `rows` rows of `m`:
/// entry `t` is `m[t / cols][t % cols]`.
pub open spec fn flatten_spec(m: Seq<Seq<i32>>, rows: nat, cols: nat) -> Seq<i32> {
    Seq::new(rows * cols, |t: int| m[t / cols as int][t % cols as int])
}

/// The `rows x cols` matrix laid out row-major at the start of `flat`:
/// entry `(i, j)` is `flat[i * cols + j]`.
pub open spec fn unflatten_spec(flat: Seq<i32>, rows: nat, cols: nat) -> Seq<Seq<i32>> {
    Seq::new(rows, |i: int| Seq::new(cols, |j: int| flat[i * cols + j]))
}

/// The row-major `rows x cols` block at the top left of a row-major buffer whose rows
/// are `padded_cols` long: entry `t` is `padded[(t / cols) * padded_cols + t % cols]`.
pub open spec fn trim_spec(padded: Seq<i32>, rows: nat, cols: nat, padded_cols: nat) -> Seq<i32> {
    Seq::new(
        rows * cols,
        |t: int| padded[(t / cols as int) * padded_cols + t % cols as int],
    )
}

/// Entry `(i, j)` of a row-major layout with rows `cols` long sits at `i * cols + j`,
/// and that position gives back `i` and `j`.
proof fn lemma_row_major(i: int, j: int, cols: int)
    requires
        0 <= i,
        0 <= j < cols,
    ensures
        (i * cols + j) / cols == i,
        (i * cols + j) % cols == j,
{
    lemma_fundamental_div_mod_converse(i * cols + j, cols, i, j);
}

/// Positions inside a `rows x cols` row-major block are below `rows * cols`.
proof fn lemma_row_major_bound(i: int, j: int, rows: int, cols: int, width: int)
    requires
        0 <= i < rows,
        0 <= j < cols,
        cols <= width,
    ensures
        0 <= i * width + j < rows * width,
        i * width + width <= rows * width,
        (i + 1) * width == i * width + width,
{
    assert(0 <= i * width + j < rows * width && i * width + width <= rows * width && (i + 1) * width
        == i * width + width) by (nonlinear_arith)
        requires
            0 <= i < rows,
            0 <= j < cols,
            cols <= width,
    ;
}

/// A position below `rows * cols` lies in row `t / cols < rows` at column `t % cols < cols`.
proof fn lemma_row_major_split(t: int, rows: int, cols: int)
    requires
        0 <= t < rows * cols,
        0 <= rows,
        0 <= cols,
    ensures
        0 < cols,
        0 <= t / cols < rows,
        0 <= t % cols < cols,
        t == (t / cols) * cols + t % cols,
{
    assert(0 < cols) by (nonlinear_arith)
        requires
            0 <= t < rows * cols,
            0 <= rows,
            0 <= cols,
    ;
    lemma_fundamental_div_mod(t, cols);
    assert(cols * (t / cols) == (t / cols) * cols) by (nonlinear_arith);
    assert(0 <= t / cols < rows) by (nonlinear_arith)
        requires
            0 <= t < rows * cols,
            0 < cols,
            t == cols * (t / cols) + t % cols,
            0 <= t % cols < cols,
    ;
}

/// `value` rounded up to the next multiple of `multiple`:
/// `((value + multiple - 1) / multiple) * multiple`.
pub fn round_up_to_multiple(value: usize, multiple: usize) -> (r: usize)
    requires
        multiple > 0,
        value + multiple <= usize::MAX,
    ensures
        r == ((value + multiple - 1) / multiple as int) * multiple,
        r % multiple == 0,
        value <= r < value + multiple,
{
    let s: usize = value + multiple - 1;
    let q: usize = s / multiple;
    proof {
        lemma_fundamental_div_mod(s as int, multiple as int);
        assert(q * multiple <= s) by (nonlinear_arith)
            requires
                s == multiple * q + s % multiple,
                0 <= s % multiple,
        ;
        lemma_mod_multiples_basic(q as int, multiple as int);
    }
    q * multiple
}

/// `matrix` laid out row-major: its rows one after another, each cut to the length of
/// the first row.
pub fn flatten_matrix(matrix: &Vec<Vec<i32>>) -> (flat: Vec<i32>)
    requires
        matrix@.len() > 0,
        forall|i: int| 0 <= i < matrix@.len() ==> matrix@[0]@.len() <= #[trigger] matrix@[i]@.len(),
        matrix@.len() * matrix@[0]@.len() <= usize::MAX,
    ensures
        flat@ == flatten_spec(matrix_view(matrix@), matrix@.len(), matrix@[0]@.len()),
        flat@.len() == matrix@.len() * matrix@[0]@.len(),
        forall|i: int, j: int|
            0 <= i < matrix@.len() && 0 <= j < matrix@[0]@.len() ==> #[trigger] flat@[i
                * matrix@[0]@.len() + j] == matrix@[i]@[j],
{
    let ghost mv = matrix_view(matrix@);
    let rows = matrix.len();
    let cols = matrix[0].len();
    let mut flat: Vec<i32> = Vec::with_capacity(rows * cols);
    assert(0 * cols == 0) by (nonlinear_arith);
    for i in 0..rows
        invariant
            mv == matrix_view(matrix@),
            rows == matrix@.len(),
            cols == matrix@[0]@.len(),
            rows * cols <= usize::MAX,
            forall|ii: int| 0 <= ii < rows ==> cols <= #[trigger] matrix@[ii]@.len(),
            flat@.len() == i * cols,
            forall|t: int| 0 <= t < flat@.len() ==> #[trigger] flat@[t] == mv[t / cols as int][t % cols as int],
    {
        for j in 0..cols
            invariant
                mv == matrix_view(matrix@),
                rows == matrix@.len(),
                cols == matrix@[0]@.len(),
                i < rows,
                forall|ii: int| 0 <= ii < rows ==> cols <= #[trigger] matrix@[ii]@.len(),
                flat@.len() == i * cols + j,
                forall|t: int| 0 <= t < flat@.len() ==> #[trigger] flat@[t] == mv[t / cols as int][t % cols as int],
        {
            proof {
                lemma_row_major(i as int, j as int, cols as int);
                assert(matrix@[i as int]@ == mv[i as int]);
            }
            flat.push(matrix[i][j]);
        }
        proof {
            if cols > 0 {
                lemma_row_major_bound(i as int, 0, rows as int, cols as int, cols as int);
            } else {
                assert(i * cols == 0 && (i + 1) * cols == 0) by (nonlinear_arith)
                    requires cols == 0;
            }
        }
    }
    proof {
        assert(flat@ =~= flatten_spec(mv, rows as nat, cols as nat));
        lemma_flatten_positions(mv, rows as nat, cols as nat);
        assert forall|i: int, j: int| 0 <= i < rows && 0 <= j < cols implies #[trigger] flat@[i * cols
            + j] == matrix@[i]@[j] by {
            assert(mv[i] == matrix@[i]@);
            assert(flatten_spec(mv, rows as nat, cols as nat)[i * cols + j] == mv[i][j]);
        }
    }
    flat
}


/// The `rows x cols` result cut out of the kernel's output buffer, whose rows are
/// `padded_cols` long because the work size was rounded up to whole tiles.
pub fn trim_padding(padded: &Vec<i32>, rows: usize, cols: usize, padded_cols: usize) -> (trimmed: Vec<i32>)
    requires
        cols <= padded_cols,
        rows * padded_cols <= padded@.len(),
    ensures
        trimmed@ == trim_spec(padded@, rows as nat, cols as nat, padded_cols as nat),
        trimmed@.len() == rows * cols,
        forall|r: int, c: int|
            0 <= r < rows && 0 <= c < cols ==> #[trigger] trimmed@[r * cols + c] == padded@[r
                * padded_cols + c],
{
    let padded_len = padded.len();
    assert(rows * cols <= rows * padded_cols) by (nonlinear_arith)
        requires cols <= padded_cols;
    let mut trimmed: Vec<i32> = Vec::with_capacity(rows * cols);
    assert(0 * cols == 0) by (nonlinear_arith);
    for r in 0..rows
        invariant
            cols <= padded_cols,
            rows * padded_cols <= padded@.len(),
            padded_len == padded@.len(),
            rows * cols <= usize::MAX,
            trimmed@.len() == r * cols,
            forall|t: int|
                0 <= t < trimmed@.len() ==> #[trigger] trimmed@[t] == padded@[(t / cols as int)
                    * padded_cols + t % cols as int],
    {
        for c in 0..cols
            invariant
                cols <= padded_cols,
                rows * padded_cols <= padded@.len(),
                padded_len == padded@.len(),
                r < rows,
                trimmed@.len() == r * cols + c,
                forall|t: int|
                    0 <= t < trimmed@.len() ==> #[trigger] trimmed@[t] == padded@[(t / cols as int)
                        * padded_cols + t % cols as int],
        {
            proof {
                lemma_row_major(r as int, c as int, cols as int);
                lemma_row_major_bound(r as int, c as int, rows as int, cols as int, padded_cols as int);
            }
            trimmed.push(padded[r * padded_cols + c]);
        }
        proof {
            if cols > 0 {
                lemma_row_major_bound(r as int, 0, rows as int, cols as int, cols as int);
            } else {
                assert(r * cols == 0 && (r + 1) * cols == 0) by (nonlinear_arith)
                    requires cols == 0;
            }
        }
    }
    proof {
        assert(trimmed@ =~= trim_spec(padded@, rows as nat, cols as nat, padded_cols as nat));
        lemma_trim_positions(padded@, rows as nat, cols as nat, padded_cols as nat);
    }
    trimmed
}

/// The `rows x cols` matrix laid out row-major at the start of `flat`.
pub fn unflatten_matrix(flat: &Vec<i32>, rows: usize, cols: usize) -> (matrix: Vec<Vec<i32>>)
    requires
        rows * cols <= flat@.len(),
    ensures
        matrix_view(matrix@) == unflatten_spec(flat@, rows as nat, cols as nat),
        matrix@.len() == rows,
        forall|i: int| 0 <= i < rows ==> #[trigger] matrix@[i]@.len() == cols,
        forall|i: int, j: int|
            0 <= i < rows && 0 <= j < cols ==> #[trigger] matrix@[i]@[j] == flat@[i * cols + j],
{
    let flat_len = flat.len();
    let mut matrix: Vec<Vec<i32>> = Vec::new();
    for i in 0..rows
        invariant
            rows * cols <= flat@.len(),
            flat_len == flat@.len(),
            matrix@.len() == i,
            forall|ii: int| 0 <= ii < i ==> #[trigger] matrix@[ii]@ == unflatten_spec(flat@, rows as nat, cols as nat)[ii],
    {
        let mut row: Vec<i32> = Vec::with_capacity(cols);
        for j in 0..cols
            invariant
                rows * cols <= flat@.len(),
                flat_len == flat@.len(),
                i < rows,
                row@.len() == j,
                forall|jj: int| 0 <= jj < j ==> #[trigger] row@[jj] == flat@[i * cols + jj],
        {
            proof {
                lemma_row_major_bound(i as int, j as int, rows as int, cols as int, cols as int);
            }
            row.push(flat[i * cols + j]);
        }
        assert(row@ =~= unflatten_spec(flat@, rows as nat, cols as nat)[i as int]);
        matrix.push(row);
    }
    proof {
        assert(matrix_view(matrix@) =~= unflatten_spec(flat@, rows as nat, cols as nat));
        lemma_unflatten_positions(flat@, rows as nat, cols as nat);
        assert forall|i: int| 0 <= i < rows implies #[trigger] matrix@[i]@.len() == cols by {
            assert(matrix_view(matrix@)[i] == matrix@[i]@);
        }
        assert forall|i: int, j: int| 0 <= i < rows && 0 <= j < cols implies #[trigger] matrix@[i]@[j]
            == flat@[i * cols + j] by {
            assert(matrix_view(matrix@)[i] == matrix@[i]@);
        }
    }
    matrix
}

/// The row-major layout of a matrix holds entry `(i, j)` at position `i * cols + j`,
/// and has exactly `rows * cols` positions.
pub proof fn lemma_flatten_positions(m: Seq<Seq<i32>>, rows: nat, cols: nat)
    ensures
        flatten_spec(m, rows, cols).len() == rows * cols,
        forall|i: int, j: int|
            0 <= i < rows && 0 <= j < cols ==> #[trigger] flatten_spec(m, rows, cols)[i * cols + j]
                == m[i][j],
{
    assert forall|i: int, j: int| 0 <= i < rows && 0 <= j < cols implies #[trigger] flatten_spec(
        m,
        rows,
        cols,
    )[i * cols + j] == m[i][j] by {
        lemma_row_major(i, j, cols as int);
        lemma_row_major_bound(i, j, rows as int, cols as int, cols as int);
    }
}

/// Reading a row-major buffer back as a `rows x cols` matrix takes entry `(i, j)` from
/// position `i * cols + j`.
pub proof fn lemma_unflatten_positions(flat: Seq<i32>, rows: nat, cols: nat)
    ensures
        unflatten_spec(flat, rows, cols).len() == rows,
        forall|i: int| 0 <= i < rows ==> #[trigger] unflatten_spec(flat, rows, cols)[i].len() == cols,
        forall|i: int, j: int|
            0 <= i < rows && 0 <= j < cols ==> #[trigger] unflatten_spec(flat, rows, cols)[i][j]
                == flat[i * cols + j],
{
}

/// Trimming the padding takes entry `(r, c)` of the result from position
/// `r * padded_cols + c` of the padded buffer and puts it at `r * cols + c`.
pub proof fn lemma_trim_positions(padded: Seq<i32>, rows: nat, cols: nat, padded_cols: nat)
    ensures
        trim_spec(padded, rows, cols, padded_cols).len() == rows * cols,
        forall|r: int, c: int|
            0 <= r < rows && 0 <= c < cols ==> #[trigger] trim_spec(padded, rows, cols, padded_cols)[r
                * cols + c] == padded[r * padded_cols + c],
{
    assert forall|r: int, c: int| 0 <= r < rows && 0 <= c < cols implies #[trigger] trim_spec(
        padded,
        rows,
        cols,
        padded_cols,
    )[r * cols + c] == padded[r * padded_cols + c] by {
        lemma_row_major(r, c, cols as int);
        lemma_row_major_bound(r, c, rows as int, cols as int, cols as int);
    }
}

/// Laying a rectangular matrix out row-major and reading it back gives the matrix.
pub proof fn lemma_unflatten_of_flatten(m: Seq<Seq<i32>>, rows: nat, cols: nat)
    requires
        m.len() == rows,
        forall|i: int| 0 <= i < rows ==> #[trigger] m[i].len() == cols,
    ensures
        unflatten_spec(flatten_spec(m, rows, cols), rows, cols) == m,
{
    let u = unflatten_spec(flatten_spec(m, rows, cols), rows, cols);
    assert forall|i: int| 0 <= i < rows implies #[trigger] u[i] =~= m[i] by {
        assert forall|j: int| 0 <= j < cols implies u[i][j] == m[i][j] by {
            lemma_row_major(i, j, cols as int);
            lemma_row_major_bound(i, j, rows as int, cols as int, cols as int);
        }
    }
    assert(u =~= m);
}

/// Reading a row-major buffer of exactly `rows * cols` entries as a matrix and laying
/// that matrix out again gives the buffer.
pub proof fn lemma_flatten_of_unflatten(flat: Seq<i32>, rows: nat, cols: nat)
    requires
        flat.len() == rows * cols,
    ensures
        flatten_spec(unflatten_spec(flat, rows, cols), rows, cols) == flat,
{
    let f = flatten_spec(unflatten_spec(flat, rows, cols), rows, cols);
    assert forall|t: int| 0 <= t < flat.len() implies #[trigger] f[t] == flat[t] by {
        lemma_row_major_split(t, rows as int, cols as int);
        assert(t / (cols as int) * cols + t % (cols as int) == t);
    }
    assert(f =~= flat);
}

/// Where the kernel's work size needed no rounding up (rows already `cols` long),
/// trimming keeps the first `rows * cols` entries unchanged.
pub proof fn lemma_trim_without_padding(padded: Seq<i32>, rows: nat, cols: nat)
    requires
        rows * cols <= padded.len(),
    ensures
        trim_spec(padded, rows, cols, cols) == padded.take((rows * cols) as int),
{
    let tr = trim_spec(padded, rows, cols, cols);
    assert forall|t: int| 0 <= t < rows * cols implies #[trigger] tr[t] == padded[t] by {
        lemma_row_major_split(t, rows as int, cols as int);
    }
    assert(tr =~= padded.take((rows * cols) as int));
}

} // verus!
