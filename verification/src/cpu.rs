use vstd::prelude::*;

use crate::task::{fill_rows_in_parallel, RowTasks};
use crate::model::{
    in_i32, is_product, is_row_product, matrix_view, operands_fit, products_fit, row_dot,
    row_operands_fit, row_products_fit, term,
};

verus! {

/// The ways the product can be computed: one thread, rayon's pool, tokio tasks,
/// one OS thread per row, or the tiled OpenCL kernel.
#[derive(Clone, Copy, Debug)]
pub enum MultiplicationMethod {
    Sequential,
    Rayon,
    Tokio,
    StdThread,
    XpuOpenCL,
}

/// Adds row `row_a` times `b` into `row`, which starts as `cols` zeros:
/// `row[j] += row_a[k] * b[k][j]` for each `j < cols`, then each `k < n`.
pub fn accumulate_row(row: &mut Vec<i32>, row_a: &Vec<i32>, b: &Vec<Vec<i32>>, n: usize, cols: usize)
    requires
        row_operands_fit(row_a@, matrix_view(b@), n as int, cols as int),
        row_products_fit(row_a@, matrix_view(b@), n as int, cols as int),
        old(row)@ == Seq::new(cols as nat, |j: int| 0i32),
    ensures
        is_row_product(row_a@, matrix_view(b@), n as int, cols as int, final(row)@),
{
    let ghost bv = matrix_view(b@);
    for j in 0..cols
        invariant
            row_operands_fit(row_a@, bv, n as int, cols as int),
            row_products_fit(row_a@, bv, n as int, cols as int),
            bv == matrix_view(b@),
            row@.len() == cols,
            forall|jj: int| 0 <= jj < j ==> #[trigger] row@[jj] == row_dot(row_a@, bv, jj, n as int),
            forall|jj: int| j <= jj < cols ==> #[trigger] row@[jj] == 0,
    {
        for k in 0..n
            invariant
                row_operands_fit(row_a@, bv, n as int, cols as int),
                row_products_fit(row_a@, bv, n as int, cols as int),
                bv == matrix_view(b@),
                j < cols,
                row@.len() == cols,
                forall|jj: int| 0 <= jj < j ==> #[trigger] row@[jj] == row_dot(row_a@, bv, jj, n as int),
                forall|jj: int| j < jj < cols ==> #[trigger] row@[jj] == 0,
                row@[j as int] == row_dot(row_a@, bv, j as int, k as int),
        {
            assert(cols <= bv[k as int].len());
            assert(in_i32(term(row_a@, bv, j as int, k as int)));
            assert(in_i32(row_dot(row_a@, bv, j as int, k + 1)));
            row[j] += row_a[k] * b[k][j];
        }
    }
}


/// Fills row `i` of the product into `row`, which starts as `cols` zeros.
pub fn fill_row(row: &mut Vec<i32>, a: &Vec<Vec<i32>>, b: &Vec<Vec<i32>>, i: usize, n: usize, cols: usize)
    requires
        i < a.len(),
        row_operands_fit(a@[i as int]@, matrix_view(b@), n as int, cols as int),
        row_products_fit(a@[i as int]@, matrix_view(b@), n as int, cols as int),
        old(row)@ == Seq::new(cols as nat, |j: int| 0i32),
    ensures
        is_row_product(a@[i as int]@, matrix_view(b@), n as int, cols as int, final(row)@),
{
    accumulate_row(row, &a[i], b, n, cols);
}

/// Row `row_a` times `b`: a new row of `cols` entries, entry `j` being
/// `sum_{k < n} row_a[k] * b[k][j]`.
pub fn compute_row(row_a: &Vec<i32>, b: &Vec<Vec<i32>>, n: usize, cols: usize) -> (row: Vec<i32>)
    requires
        row_operands_fit(row_a@, matrix_view(b@), n as int, cols as int),
        row_products_fit(row_a@, matrix_view(b@), n as int, cols as int),
    ensures
        is_row_product(row_a@, matrix_view(b@), n as int, cols as int, row@),
{
    let mut row = vec![0i32; cols];
    assert(row@ =~= Seq::new(cols as nat, |j: int| 0i32));
    accumulate_row(&mut row, row_a, b, n, cols);
    row
}

/// Row `row_a` times `b` where every entry it reads exists and its `i32` accumulation
/// never overflows, and `None` exactly where one of these fails.
pub fn try_compute_row(row_a: &Vec<i32>, b: &Vec<Vec<i32>>, n: usize, cols: usize) -> (r: Option<Vec<i32>>)
    ensures
        r is Some <==> (row_operands_fit(row_a@, matrix_view(b@), n as int, cols as int)
            && row_products_fit(row_a@, matrix_view(b@), n as int, cols as int)),
        r matches Some(v) ==> is_row_product(row_a@, matrix_view(b@), n as int, cols as int, v@),
{
    let ghost bv = matrix_view(b@);
    if row_a.len() < n || b.len() < n {
        return None;
    }
    for k in 0..n
        invariant
            bv == matrix_view(b@),
            n <= b@.len(),
            forall|kk: int| 0 <= kk < k ==> cols <= #[trigger] bv[kk].len(),
    {
        if b[k].len() < cols {
            assert(bv[k as int].len() < cols);
            return None;
        }
    }
    assert(row_operands_fit(row_a@, bv, n as int, cols as int));
    let mut row: Vec<i32> = Vec::with_capacity(cols);
    for j in 0..cols
        invariant
            bv == matrix_view(b@),
            row_operands_fit(row_a@, bv, n as int, cols as int),
            row@.len() == j,
            forall|jj: int| 0 <= jj < j ==> #[trigger] row@[jj] == row_dot(row_a@, bv, jj, n as int),
            forall|jj: int, kk: int|
                0 <= jj < j && 0 <= kk < n ==> in_i32(#[trigger] term(row_a@, bv, jj, kk)) && in_i32(
                    row_dot(row_a@, bv, jj, kk + 1),
                ),
    {
        let mut acc: i64 = 0;
        for k in 0..n
            invariant
                bv == matrix_view(b@),
                row_operands_fit(row_a@, bv, n as int, cols as int),
                j < cols,
                forall|jj: int, kk: int|
                    0 <= jj < j && 0 <= kk < n ==> in_i32(#[trigger] term(row_a@, bv, jj, kk))
                        && in_i32(row_dot(row_a@, bv, jj, kk + 1)),
                forall|kk: int|
                    0 <= kk < k ==> in_i32(#[trigger] term(row_a@, bv, j as int, kk)) && in_i32(
                        row_dot(row_a@, bv, j as int, kk + 1),
                    ),
                acc == row_dot(row_a@, bv, j as int, k as int),
                in_i32(acc as int),
        {
            assert(cols <= bv[k as int].len());
            let x: i64 = row_a[k] as i64;
            let y: i64 = b[k][j] as i64;
            assert(-0x4000_0000_0000_0000 <= x * y <= 0x4000_0000_0000_0000) by (nonlinear_arith)
                requires
                    -0x8000_0000 <= x <= 0x7fff_ffff,
                    -0x8000_0000 <= y <= 0x7fff_ffff,
            ;
            let p: i64 = x * y;
            assert(p == term(row_a@, bv, j as int, k as int));
            if p < -0x8000_0000i64 || p > 0x7fff_ffffi64 {
                assert(!in_i32(term(row_a@, bv, j as int, k as int)));
                return None;
            }
            acc = acc + p;
            if acc < -0x8000_0000i64 || acc > 0x7fff_ffffi64 {
                assert(!in_i32(row_dot(row_a@, bv, j as int, k + 1)));
                assert(in_i32(term(row_a@, bv, j as int, k as int)));
                return None;
            }
        }
        row.push(acc as i32);
    }
    assert(is_row_product(row_a@, bv, n as int, cols as int, row@));
    Some(row)
}

/// The product of the first `rows` rows of `a` (inner dimension `n`) and the first
/// `cols` columns of `b`, computed row after row.
pub fn sequential_implementation(
    a: &Vec<Vec<i32>>,
    b: &Vec<Vec<i32>>,
    rows: usize,
    n: usize,
    cols: usize,
) -> (result: Vec<Vec<i32>>)
    requires
        operands_fit(matrix_view(a@), matrix_view(b@), rows as int, n as int, cols as int),
        products_fit(matrix_view(a@), matrix_view(b@), rows as int, n as int, cols as int),
    ensures
        is_product(matrix_view(a@), matrix_view(b@), rows as int, n as int, cols as int, matrix_view(result@)),
{
    let ghost av = matrix_view(a@);
    let ghost bv = matrix_view(b@);
    let mut result: Vec<Vec<i32>> = Vec::new();
    for i in 0..rows
        invariant
            av == matrix_view(a@),
            bv == matrix_view(b@),
            operands_fit(av, bv, rows as int, n as int, cols as int),
            products_fit(av, bv, rows as int, n as int, cols as int),
            result@.len() == i,
            forall|ii: int| 0 <= ii < i ==> #[trigger] is_row_product(av[ii], bv, n as int, cols as int, result@[ii]@),
    {
        assert(n <= av[i as int].len());
        assert(row_products_fit(av[i as int], bv, n as int, cols as int));
        let mut row = vec![0i32; cols];
        assert(row@ =~= Seq::new(cols as nat, |j: int| 0i32));
        fill_row(&mut row, a, b, i, n, cols);
        result.push(row);
    }
    let ghost rv = matrix_view(result@);
    assert forall|ii: int| 0 <= ii < rows implies #[trigger] is_row_product(av[ii], bv, n as int, cols as int, rv[ii]) by {
        assert(rv[ii] == result@[ii]@);
    }
    result
}


/// The same product as `sequential_implementation`, with the rows computed in
/// parallel on rayon's work-stealing pool, one task per row.
pub fn rayon_implementation(
    a: &Vec<Vec<i32>>,
    b: &Vec<Vec<i32>>,
    rows: usize,
    n: usize,
    cols: usize,
) -> (result: Vec<Vec<i32>>)
    requires
        operands_fit(matrix_view(a@), matrix_view(b@), rows as int, n as int, cols as int),
        products_fit(matrix_view(a@), matrix_view(b@), rows as int, n as int, cols as int),
    ensures
        is_product(matrix_view(a@), matrix_view(b@), rows as int, n as int, cols as int, matrix_view(result@)),
{
    let mut tasks = RowTasks::new(a, b, rows, n, cols);
    fill_rows_in_parallel(&mut tasks);
    tasks.into_product(rows)
}


/// A `rows x cols` matrix of zeros.
pub open spec fn zero_matrix(rows: nat, cols: nat) -> Seq<Seq<i32>> {
    Seq::new(rows, |i: int| Seq::new(cols, |j: int| 0i32))
}

/// A `rows x cols` matrix of zeros in which, for each `(i, row)` of `pieces` in turn,
/// row `i` is replaced by `row`.
pub open spec fn assembled(rows: nat, cols: nat, pieces: Seq<(usize, Vec<i32>)>) -> Seq<Seq<i32>>
    decreases pieces.len(),
{
    if pieces.len() == 0 {
        zero_matrix(rows, cols)
    } else {
        assembled(rows, cols, pieces.drop_last()).update(pieces.last().0 as int, pieces.last().1@)
    }
}

/// Places rows computed elsewhere (by tasks or threads, each returning its row index
/// with its row) into a `rows x cols` matrix of zeros, in the order given.
pub fn assemble_rows(rows: usize, cols: usize, pieces: Vec<(usize, Vec<i32>)>) -> (result: Vec<Vec<i32>>)
    requires
        forall|k: int| 0 <= k < pieces@.len() ==> #[trigger] pieces@[k].0 < rows,
    ensures
        matrix_view(result@) == assembled(rows as nat, cols as nat, pieces@),
{
    let ghost all = pieces@;
    let mut result = vec![vec![0i32; cols]; rows];
    assert(matrix_view(result@) =~= zero_matrix(rows as nat, cols as nat)) by {
        assert forall|i: int| 0 <= i < rows implies matrix_view(result@)[i] =~= zero_matrix(rows as nat, cols as nat)[i] by {}
    }
    assert(all.take(0) =~= Seq::<(usize, Vec<i32>)>::empty());
    for piece in it: pieces.into_iter()
        invariant
            all.len() == it.seq().len(),
            forall|k: int| 0 <= k < all.len() ==> #[trigger] it.seq()[k] == all[k],
            forall|k: int| 0 <= k < all.len() ==> #[trigger] all[k].0 < rows,
            result@.len() == rows,
            matrix_view(result@) == assembled(rows as nat, cols as nat, all.take(it.index() as int)),
    {
        let ghost k = it.index();
        let (i, row) = piece;
        result[i] = row;
        assert(all.take(k + 1).drop_last() =~= all.take(k as int));
        assert(matrix_view(result@) =~= assembled(rows as nat, cols as nat, all.take(k + 1)));
    }
    assert(all.take(all.len() as int) =~= all);
    result
}


/// Prefixes of in-order pieces fill the rows they name and leave the others zero.
proof fn lemma_assembled_prefix(rows: nat, cols: nat, pieces: Seq<(usize, Vec<i32>)>, m: int)
    requires
        0 <= m <= pieces.len() <= rows,
        forall|k: int| 0 <= k < pieces.len() ==> #[trigger] pieces[k].0 == k,
    ensures
        assembled(rows, cols, pieces.take(m)).len() == rows,
        forall|r: int|
            0 <= r < m ==> #[trigger] assembled(rows, cols, pieces.take(m))[r] == pieces[r].1@,
        forall|r: int|
            m <= r < rows ==> #[trigger] assembled(rows, cols, pieces.take(m))[r] == Seq::new(
                cols,
                |j: int| 0i32,
            ),
    decreases m,
{
    if m > 0 {
        lemma_assembled_prefix(rows, cols, pieces, m - 1);
        assert(pieces.take(m).drop_last() =~= pieces.take(m - 1));
        assert(pieces.take(m).last() == pieces[m - 1]);
    }
}

/// Row tasks collected in the order they were spawned, the task for row `k` handing
/// back `(k, row)`, assemble into the matrix of their rows.
pub proof fn lemma_assembled_in_order(rows: nat, cols: nat, pieces: Seq<(usize, Vec<i32>)>)
    requires
        pieces.len() == rows,
        forall|k: int| 0 <= k < rows ==> #[trigger] pieces[k].0 == k,
    ensures
        assembled(rows, cols, pieces) == Seq::new(rows, |k: int| pieces[k].1@),
{
    lemma_assembled_prefix(rows, cols, pieces, rows as int);
    assert(pieces.take(rows as int) =~= pieces);
    assert(assembled(rows, cols, pieces) =~= Seq::new(rows, |k: int| pieces[k].1@));
}

/// Each row of an assembled matrix is the row of some piece naming that index (the
/// last one), or zeros where no piece names it.
proof fn lemma_assembled_rows(rows: nat, cols: nat, pieces: Seq<(usize, Vec<i32>)>)
    requires
        forall|k: int| 0 <= k < pieces.len() ==> #[trigger] pieces[k].0 < rows,
    ensures
        assembled(rows, cols, pieces).len() == rows,
        forall|r: int|
            0 <= r < rows ==> {
                ||| exists|k: int|
                    0 <= k < pieces.len() && #[trigger] pieces[k].0 == r && assembled(
                        rows,
                        cols,
                        pieces,
                    )[r] == pieces[k].1@
                ||| (forall|k: int| 0 <= k < pieces.len() ==> #[trigger] pieces[k].0 != r)
                    && assembled(rows, cols, pieces)[r] == Seq::new(cols, |j: int| 0i32)
            },
    decreases pieces.len(),
{
    if pieces.len() > 0 {
        let init = pieces.drop_last();
        assert forall|k: int| 0 <= k < init.len() implies #[trigger] init[k].0 < rows by {
            assert(init[k] == pieces[k]);
        }
        lemma_assembled_rows(rows, cols, init);
        let last = pieces.len() - 1;
        assert forall|r: int| 0 <= r < rows implies {
            ||| exists|k: int|
                0 <= k < pieces.len() && #[trigger] pieces[k].0 == r && assembled(rows, cols, pieces)[r]
                    == pieces[k].1@
            ||| (forall|k: int| 0 <= k < pieces.len() ==> #[trigger] pieces[k].0 != r) && assembled(
                rows,
                cols,
                pieces,
            )[r] == Seq::new(cols, |j: int| 0i32)
        } by {
            assert(pieces[last] == pieces.last());
            if pieces[last].0 == r {
                assert(assembled(rows, cols, pieces)[r] == pieces[last].1@);
            } else {
                assert(assembled(rows, cols, pieces)[r] == assembled(rows, cols, init)[r]);
                if exists|k: int| 0 <= k < init.len() && #[trigger] init[k].0 == r && assembled(rows, cols, init)[r]
                    == init[k].1@ {
                    let k = choose|k: int|
                        0 <= k < init.len() && #[trigger] init[k].0 == r && assembled(rows, cols, init)[r]
                            == init[k].1@;
                    assert(pieces[k] == init[k]);
                } else {
                    assert forall|k: int| 0 <= k < pieces.len() implies #[trigger] pieces[k].0 != r by {
                        if k < last {
                            assert(pieces[k] == init[k]);
                        }
                    }
                }
            }
        }
    }
}

/// Some piece carries row `r`.
pub open spec fn names_row(pieces: Seq<(usize, Vec<i32>)>, r: int) -> bool {
    exists|k: int| 0 <= k < pieces.len() && #[trigger] pieces[k].0 == r
}

/// However the tasks or threads were scheduled and in whatever order their results were
/// collected: when every row index below `rows` is named by some piece, and every piece
/// `(i, row)` carries row `i` of the product, the assembled matrix is the product, the
/// same matrix the sequential method computes.
pub proof fn lemma_assembled_product(
    a: Seq<Seq<i32>>,
    b: Seq<Seq<i32>>,
    rows: nat,
    n: int,
    cols: nat,
    pieces: Seq<(usize, Vec<i32>)>,
)
    requires
        forall|k: int| 0 <= k < pieces.len() ==> #[trigger] pieces[k].0 < rows,
        forall|k: int|
            0 <= k < pieces.len() ==> #[trigger] is_row_product(
                a[pieces[k].0 as int],
                b,
                n,
                cols as int,
                pieces[k].1@,
            ),
        forall|r: int| 0 <= r < rows ==> #[trigger] names_row(pieces, r),
    ensures
        is_product(a, b, rows as int, n, cols as int, assembled(rows, cols, pieces)),
{
    lemma_assembled_rows(rows, cols, pieces);
    let c = assembled(rows, cols, pieces);
    assert forall|i: int| 0 <= i < rows implies #[trigger] is_row_product(a[i], b, n, cols as int, c[i]) by {
        assert(names_row(pieces, i));
        let k0 = choose|k: int| 0 <= k < pieces.len() && #[trigger] pieces[k].0 == i;
        assert(pieces[k0].0 == i);
        let k = choose|k: int| 0 <= k < pieces.len() && #[trigger] pieces[k].0 == i && c[i] == pieces[k].1@;
        assert(is_row_product(a[pieces[k].0 as int], b, n, cols as int, pieces[k].1@));
    }
}

/// The sizes the multiplication reads off its operands: the number of rows of each and
/// the length of its first row.
#[derive(Clone, Copy, Debug)]
pub struct Dimensions {
    pub rows_a: usize,
    pub columns_a: usize,
    pub rows_b: usize,
    pub columns_b: usize,
}

/// Whether every entry that the multiplication of the first `rows` rows of `a`
/// (inner dimension `n`) by the first `cols` columns of `b` reads exists.
pub fn check_operands_fit(a: &Vec<Vec<i32>>, b: &Vec<Vec<i32>>, rows: usize, n: usize, cols: usize) -> (ok: bool)
    ensures
        ok == operands_fit(matrix_view(a@), matrix_view(b@), rows as int, n as int, cols as int),
{
    let ghost av = matrix_view(a@);
    let ghost bv = matrix_view(b@);
    if rows > a.len() || n > b.len() {
        return false;
    }
    for i in 0..rows
        invariant
            av == matrix_view(a@),
            rows <= a@.len(),
            forall|ii: int| 0 <= ii < i ==> n <= #[trigger] av[ii].len(),
    {
        if a[i].len() < n {
            assert(av[i as int].len() < n);
            return false;
        }
    }
    for k in 0..n
        invariant
            bv == matrix_view(b@),
            n <= b@.len(),
            forall|kk: int| 0 <= kk < k ==> cols <= #[trigger] bv[kk].len(),
    {
        if b[k].len() < cols {
            assert(bv[k as int].len() < cols);
            return false;
        }
    }
    true
}

/// Whether accumulating row `row_a` times `b` in `i32` stays in range throughout.
fn check_row_products_fit(row_a: &Vec<i32>, b: &Vec<Vec<i32>>, n: usize, cols: usize) -> (ok: bool)
    requires
        row_operands_fit(row_a@, matrix_view(b@), n as int, cols as int),
    ensures
        ok == row_products_fit(row_a@, matrix_view(b@), n as int, cols as int),
{
    let ghost bv = matrix_view(b@);
    for j in 0..cols
        invariant
            bv == matrix_view(b@),
            row_operands_fit(row_a@, bv, n as int, cols as int),
            forall|jj: int, kk: int|
                0 <= jj < j && 0 <= kk < n ==> in_i32(#[trigger] term(row_a@, bv, jj, kk)) && in_i32(
                    row_dot(row_a@, bv, jj, kk + 1),
                ),
    {
        let mut acc: i64 = 0;
        for k in 0..n
            invariant
                bv == matrix_view(b@),
                row_operands_fit(row_a@, bv, n as int, cols as int),
                j < cols,
                forall|jj: int, kk: int|
                    0 <= jj < j && 0 <= kk < n ==> in_i32(#[trigger] term(row_a@, bv, jj, kk))
                        && in_i32(row_dot(row_a@, bv, jj, kk + 1)),
                forall|kk: int|
                    0 <= kk < k ==> in_i32(#[trigger] term(row_a@, bv, j as int, kk)) && in_i32(
                        row_dot(row_a@, bv, j as int, kk + 1),
                    ),
                acc == row_dot(row_a@, bv, j as int, k as int),
                in_i32(acc as int),
        {
            assert(cols <= bv[k as int].len());
            let x: i64 = row_a[k] as i64;
            let y: i64 = b[k][j] as i64;
            assert(-0x8000_0000 <= x <= 0x7fff_ffff && -0x8000_0000 <= y <= 0x7fff_ffff);
            assert(-0x4000_0000_0000_0000 <= x * y <= 0x4000_0000_0000_0000) by (nonlinear_arith)
                requires
                    -0x8000_0000 <= x <= 0x7fff_ffff,
                    -0x8000_0000 <= y <= 0x7fff_ffff,
            ;
            let p: i64 = x * y;
            assert(p == term(row_a@, bv, j as int, k as int));
            if p < -0x8000_0000i64 || p > 0x7fff_ffffi64 {
                assert(!in_i32(term(row_a@, bv, j as int, k as int)));
                return false;
            }
            acc = acc + p;
            if acc < -0x8000_0000i64 || acc > 0x7fff_ffffi64 {
                assert(!in_i32(row_dot(row_a@, bv, j as int, k + 1)));
                assert(in_i32(term(row_a@, bv, j as int, k as int)));
                return false;
            }
        }
    }
    true
}

/// Whether accumulating the product of the first `rows` rows of `a` in `i32`, as the
/// multiplications do, stays in range throughout.
pub fn check_products_fit(a: &Vec<Vec<i32>>, b: &Vec<Vec<i32>>, rows: usize, n: usize, cols: usize) -> (ok: bool)
    requires
        operands_fit(matrix_view(a@), matrix_view(b@), rows as int, n as int, cols as int),
    ensures
        ok == products_fit(matrix_view(a@), matrix_view(b@), rows as int, n as int, cols as int),
{
    let ghost av = matrix_view(a@);
    let ghost bv = matrix_view(b@);
    for i in 0..rows
        invariant
            av == matrix_view(a@),
            bv == matrix_view(b@),
            operands_fit(av, bv, rows as int, n as int, cols as int),
            forall|ii: int| 0 <= ii < i ==> #[trigger] row_products_fit(av[ii], bv, n as int, cols as int),
    {
        assert(n <= av[i as int].len());
        if !check_row_products_fit(&a[i], b, n, cols) {
            assert(!row_products_fit(av[i as int], bv, n as int, cols as int));
            return false;
        }
    }
    true
}


/// Why a pair of operands cannot be multiplied.
#[derive(Clone, Copy, Debug, PartialEq, Eq)]
pub enum OperandError {
    /// One of the operands has no rows, so it has no first row to measure.
    EmptyMatrix,
    /// The first row of `a` is not as long as `b` has rows.
    DimensionMismatch,
    /// A row of `a` is shorter than the first row of `a`, or a row of `b` is shorter
    /// than the first row of `b`.
    ShortRow,
    /// Accumulating an entry of the product leaves the range of `i32`.
    Overflow,
}

/// The sizes the multiplication reads off `a` and `b`, or why it cannot read all the
/// entries it needs: checked in the order given by `OperandError`, overflow aside. On
/// success every entry read for `rows_a` rows, inner dimension `columns_a` and
/// `columns_b` columns exists. This is all the accelerator path needs, as it does not
/// accumulate in `i32`.
pub fn validate_shape(a: &Vec<Vec<i32>>, b: &Vec<Vec<i32>>) -> (res: Result<Dimensions, OperandError>)
    ensures
        res == Err::<Dimensions, OperandError>(OperandError::EmptyMatrix) <==> (a@.len() == 0 || b@.len() == 0),
        res == Err::<Dimensions, OperandError>(OperandError::DimensionMismatch) <==> (a@.len() > 0 && b@.len() > 0
            && a@[0]@.len() != b@.len()),
        res == Err::<Dimensions, OperandError>(OperandError::ShortRow) <==> (a@.len() > 0 && b@.len() > 0
            && a@[0]@.len() == b@.len() && !operands_fit(
            matrix_view(a@),
            matrix_view(b@),
            a@.len() as int,
            a@[0]@.len() as int,
            b@[0]@.len() as int,
        )),
        res != Err::<Dimensions, OperandError>(OperandError::Overflow),
        res matches Ok(d) ==> {
            &&& d.rows_a == a@.len()
            &&& d.columns_a == a@[0]@.len()
            &&& d.rows_b == b@.len()
            &&& d.columns_b == b@[0]@.len()
            &&& operands_fit(matrix_view(a@), matrix_view(b@), d.rows_a as int, d.columns_a as int, d.columns_b as int)
        },
{
    if a.len() == 0 || b.len() == 0 {
        return Err(OperandError::EmptyMatrix);
    }
    let d = Dimensions {
        rows_a: a.len(),
        columns_a: a[0].len(),
        rows_b: b.len(),
        columns_b: b[0].len(),
    };
    if d.columns_a != d.rows_b {
        return Err(OperandError::DimensionMismatch);
    }
    if !check_operands_fit(a, b, d.rows_a, d.columns_a, d.columns_b) {
        return Err(OperandError::ShortRow);
    }
    Ok(d)
}

/// The sizes the multiplication reads off `a` and `b`, or why it cannot run on them:
/// checked in the order given by `OperandError`. On success every kernel's
/// precondition holds for `rows_a` rows, inner dimension `columns_a` and `columns_b`
/// columns.
pub fn validate_operands(a: &Vec<Vec<i32>>, b: &Vec<Vec<i32>>) -> (res: Result<Dimensions, OperandError>)
    ensures
        res == Err::<Dimensions, OperandError>(OperandError::EmptyMatrix) <==> (a@.len() == 0 || b@.len() == 0),
        res == Err::<Dimensions, OperandError>(OperandError::DimensionMismatch) <==> (a@.len() > 0 && b@.len() > 0
            && a@[0]@.len() != b@.len()),
        res == Err::<Dimensions, OperandError>(OperandError::ShortRow) <==> (a@.len() > 0 && b@.len() > 0
            && a@[0]@.len() == b@.len() && !operands_fit(
            matrix_view(a@),
            matrix_view(b@),
            a@.len() as int,
            a@[0]@.len() as int,
            b@[0]@.len() as int,
        )),
        res == Err::<Dimensions, OperandError>(OperandError::Overflow) <==> (a@.len() > 0 && b@.len() > 0
            && a@[0]@.len() == b@.len() && operands_fit(
            matrix_view(a@),
            matrix_view(b@),
            a@.len() as int,
            a@[0]@.len() as int,
            b@[0]@.len() as int,
        ) && !products_fit(
            matrix_view(a@),
            matrix_view(b@),
            a@.len() as int,
            a@[0]@.len() as int,
            b@[0]@.len() as int,
        )),
        res matches Ok(d) ==> {
            &&& d.rows_a == a@.len()
            &&& d.columns_a == a@[0]@.len()
            &&& d.rows_b == b@.len()
            &&& d.columns_b == b@[0]@.len()
            &&& operands_fit(matrix_view(a@), matrix_view(b@), d.rows_a as int, d.columns_a as int, d.columns_b as int)
            &&& products_fit(matrix_view(a@), matrix_view(b@), d.rows_a as int, d.columns_a as int, d.columns_b as int)
        },
{
    let d = validate_shape(a, b)?;
    if !check_products_fit(a, b, d.rows_a, d.columns_a, d.columns_b) {
        return Err(OperandError::Overflow);
    }
    Ok(d)
}

} // verus!
