use vstd::prelude::*;

verus! {

/// The rows of a matrix, each taken by its view.
pub open spec fn matrix_view(m: Seq<Vec<i32>>) -> Seq<Seq<i32>> {
    m.map_values(|r: Vec<i32>| r@)
}

/// Whether an integer is representable as an `i32`.
pub open spec fn in_i32(x: int) -> bool {
    i32::MIN <= x <= i32::MAX
}

/// The single product `row[k] * b[k][j]`.
pub open spec fn term(row: Seq<i32>, b: Seq<Seq<i32>>, j: int, k: int) -> int {
    row[k] * b[k][j]
}

/// The partial dot product `sum_{k < n} row[k] * b[k][j]`.
pub open spec fn row_dot(row: Seq<i32>, b: Seq<Seq<i32>>, j: int, n: int) -> int
    decreases n,
{
    if n <= 0 {
        0
    } else {
        row_dot(row, b, j, n - 1) + term(row, b, j, n - 1)
    }
}

/// Entry `(i, j)` of the product of `a` and `b` over an inner dimension `n`:
/// `sum_{k < n} a[i][k] * b[k][j]`.
pub open spec fn dot(a: Seq<Seq<i32>>, b: Seq<Seq<i32>>, i: int, j: int, n: int) -> int {
    row_dot(a[i], b, j, n)
}

/// `row` has its first `n` entries, and rows `0..n` of `b` have their first `cols` entries.
pub open spec fn row_operands_fit(row: Seq<i32>, b: Seq<Seq<i32>>, n: int, cols: int) -> bool {
    &&& 0 <= n <= row.len()
    &&& n <= b.len()
    &&& 0 <= cols
    &&& forall|k: int| 0 <= k < n ==> cols <= #[trigger] b[k].len()
}

/// Every entry of `a` and `b` read when multiplying the first `rows` rows of `a`
/// (inner dimension `n`) by the first `cols` columns of `b` exists.
pub open spec fn operands_fit(a: Seq<Seq<i32>>, b: Seq<Seq<i32>>, rows: int, n: int, cols: int) -> bool {
    &&& 0 <= rows <= a.len()
    &&& 0 <= n <= b.len()
    &&& 0 <= cols
    &&& forall|i: int| 0 <= i < rows ==> n <= #[trigger] a[i].len()
    &&& forall|k: int| 0 <= k < n ==> cols <= #[trigger] b[k].len()
}

/// Accumulating row `row` of the product in `i32`, in the order `k = 0, 1, ..., n - 1`,
/// never overflows: each single product and each partial sum is an `i32`.
pub open spec fn row_products_fit(row: Seq<i32>, b: Seq<Seq<i32>>, n: int, cols: int) -> bool {
    forall|j: int, k: int|
        0 <= j < cols && 0 <= k < n ==> in_i32(#[trigger] term(row, b, j, k)) && in_i32(
            row_dot(row, b, j, k + 1),
        )
}

/// Accumulating the product of the first `rows` rows never overflows an `i32`.
pub open spec fn products_fit(a: Seq<Seq<i32>>, b: Seq<Seq<i32>>, rows: int, n: int, cols: int) -> bool {
    forall|i: int| 0 <= i < rows ==> #[trigger] row_products_fit(a[i], b, n, cols)
}

/// `r` is row `row` times `b`: `cols` entries, entry `j` being `sum_{k < n} row[k] * b[k][j]`.
pub open spec fn is_row_product(row: Seq<i32>, b: Seq<Seq<i32>>, n: int, cols: int, r: Seq<i32>) -> bool {
    &&& r.len() == cols
    &&& forall|j: int| 0 <= j < cols ==> #[trigger] r[j] == row_dot(row, b, j, n)
}

/// `c` is the `rows x cols` product of `a` and `b` over the inner dimension `n`:
/// `c[i][j] == sum_{k < n} a[i][k] * b[k][j]`.
pub open spec fn is_product(
    a: Seq<Seq<i32>>,
    b: Seq<Seq<i32>>,
    rows: int,
    n: int,
    cols: int,
    c: Seq<Seq<i32>>,
) -> bool {
    &&& c.len() == rows
    &&& forall|i: int| 0 <= i < rows ==> #[trigger] is_row_product(a[i], b, n, cols, c[i])
}

/// The product is determined by its operands: any two results that are the product
/// of the same operands are the same matrix, so every multiplication method agrees.
pub proof fn lemma_product_unique(
    a: Seq<Seq<i32>>,
    b: Seq<Seq<i32>>,
    rows: int,
    n: int,
    cols: int,
    c1: Seq<Seq<i32>>,
    c2: Seq<Seq<i32>>,
)
    requires
        is_product(a, b, rows, n, cols, c1),
        is_product(a, b, rows, n, cols, c2),
    ensures
        c1 == c2,
{
    assert forall|i: int| 0 <= i < rows implies c1[i] == c2[i] by {
        assert(is_row_product(a[i], b, n, cols, c1[i]));
        assert(is_row_product(a[i], b, n, cols, c2[i]));
        assert(c1[i] =~= c2[i]);
    }
    assert(c1 =~= c2);
}


/// `m` is a rectangular `rows x cols` matrix.
pub open spec fn is_matrix(m: Seq<Seq<i32>>, rows: int, cols: int) -> bool {
    &&& m.len() == rows
    &&& forall|i: int| 0 <= i < rows ==> #[trigger] m[i].len() == cols
}

/// The `n x n` identity matrix.
pub open spec fn identity(n: nat) -> Seq<Seq<i32>> {
    Seq::new(n, |i: int| Seq::new(n, |j: int| if i == j { 1i32 } else { 0i32 }))
}

/// The `cols x rows` transpose of a `rows x cols` matrix.
pub open spec fn transpose(m: Seq<Seq<i32>>, rows: nat, cols: nat) -> Seq<Seq<i32>> {
    Seq::new(cols, |j: int| Seq::new(rows, |i: int| m[i][j]))
}

/// A row times the identity, summed over the first `k` indices, keeps entry `j` when `j < k`.
proof fn lemma_row_dot_identity_right(row: Seq<i32>, n: nat, j: int, k: int)
    requires
        0 <= j < n,
        0 <= k <= n,
    ensures
        row_dot(row, identity(n), j, k) == (if j < k { row[j] as int } else { 0 }),
    decreases k,
{
    if k > 0 {
        lemma_row_dot_identity_right(row, n, j, k - 1);
        assert(identity(n)[k - 1][j] == (if k - 1 == j { 1i32 } else { 0i32 }));
    }
}

/// Row `i` of the identity times `b`, summed over the first `k` indices, picks
/// `b[i][j]` when `i < k`.
proof fn lemma_row_dot_identity_left(b: Seq<Seq<i32>>, n: nat, i: int, j: int, k: int)
    requires
        0 <= i < n,
        0 <= k <= n,
    ensures
        row_dot(identity(n)[i], b, j, k) == (if i < k { b[i][j] as int } else { 0 }),
    decreases k,
{
    if k > 0 {
        lemma_row_dot_identity_left(b, n, i, j, k - 1);
        assert(identity(n)[i][k - 1] == (if i == k - 1 { 1i32 } else { 0i32 }));
    }
}

/// Multiplying an `m x n` matrix on the right by the `n x n` identity cannot overflow,
/// and gives back the matrix.
pub proof fn lemma_identity_right(a: Seq<Seq<i32>>, m: nat, n: nat, c: Seq<Seq<i32>>)
    requires
        is_matrix(a, m as int, n as int),
    ensures
        operands_fit(a, identity(n), m as int, n as int, n as int),
        products_fit(a, identity(n), m as int, n as int, n as int),
        is_product(a, identity(n), m as int, n as int, n as int, c) ==> c == a,
{
    let id = identity(n);
    assert forall|i: int| 0 <= i < m implies #[trigger] row_products_fit(a[i], id, n as int, n as int) by {
        assert forall|j: int, k: int| 0 <= j < n && 0 <= k < n implies in_i32(
            #[trigger] term(a[i], id, j, k),
        ) && in_i32(row_dot(a[i], id, j, k + 1)) by {
            assert(id[k][j] == (if k == j { 1i32 } else { 0i32 }));
            lemma_row_dot_identity_right(a[i], n, j, k + 1);
        }
    }
    if is_product(a, id, m as int, n as int, n as int, c) {
        assert forall|i: int| 0 <= i < m implies #[trigger] c[i] == a[i] by {
            assert(is_row_product(a[i], id, n as int, n as int, c[i]));
            assert forall|j: int| 0 <= j < n implies c[i][j] == a[i][j] by {
                lemma_row_dot_identity_right(a[i], n, j, n as int);
            }
            assert(c[i] =~= a[i]);
        }
        assert(c =~= a);
    }
}

/// Multiplying an `m x n` matrix on the left by the `m x m` identity cannot overflow,
/// and gives back the matrix.
pub proof fn lemma_identity_left(a: Seq<Seq<i32>>, m: nat, n: nat, c: Seq<Seq<i32>>)
    requires
        is_matrix(a, m as int, n as int),
    ensures
        operands_fit(identity(m), a, m as int, m as int, n as int),
        products_fit(identity(m), a, m as int, m as int, n as int),
        is_product(identity(m), a, m as int, m as int, n as int, c) ==> c == a,
{
    let id = identity(m);
    assert forall|i: int| 0 <= i < m implies #[trigger] row_products_fit(id[i], a, m as int, n as int) by {
        assert forall|j: int, k: int| 0 <= j < n && 0 <= k < m implies in_i32(
            #[trigger] term(id[i], a, j, k),
        ) && in_i32(row_dot(id[i], a, j, k + 1)) by {
            assert(id[i][k] == (if i == k { 1i32 } else { 0i32 }));
            lemma_row_dot_identity_left(a, m, i, j, k + 1);
        }
    }
    if is_product(id, a, m as int, m as int, n as int, c) {
        assert forall|i: int| 0 <= i < m implies #[trigger] c[i] == a[i] by {
            assert(is_row_product(id[i], a, m as int, n as int, c[i]));
            assert forall|j: int| 0 <= j < n implies c[i][j] == a[i][j] by {
                lemma_row_dot_identity_left(a, m, i, j, m as int);
            }
            assert(c[i] =~= a[i]);
        }
        assert(c =~= a);
    }
}

/// The partial sums of `b^T a^T` are those of `a b`, index for index.
proof fn lemma_row_dot_transpose(
    a: Seq<Seq<i32>>,
    b: Seq<Seq<i32>>,
    m: nat,
    p: nat,
    q: nat,
    i: int,
    j: int,
    k: int,
)
    requires
        is_matrix(a, m as int, p as int),
        is_matrix(b, p as int, q as int),
        0 <= i < m,
        0 <= j < q,
        0 <= k <= p,
    ensures
        row_dot(transpose(b, p, q)[j], transpose(a, m, p), i, k) == row_dot(a[i], b, j, k),
        k < p ==> term(transpose(b, p, q)[j], transpose(a, m, p), i, k) == term(a[i], b, j, k),
    decreases k,
{
    let tb = transpose(b, p, q);
    let ta = transpose(a, m, p);
    if k < p {
        assert(tb[j][k] == b[k][j]);
        assert(ta[k][i] == a[i][k]);
        assert(b[k][j] * a[i][k] == a[i][k] * b[k][j]) by (nonlinear_arith);
    }
    if k > 0 {
        lemma_row_dot_transpose(a, b, m, p, q, i, j, k - 1);
    }
}

/// The transpose of a product is the product of the transposes in reverse order:
/// `(a b)^T == b^T a^T`, for an `m x p` matrix `a` and a `p x q` matrix `b`; and
/// `b^T a^T` overflows exactly when `a b` does.
pub proof fn lemma_transpose_product(
    a: Seq<Seq<i32>>,
    b: Seq<Seq<i32>>,
    m: nat,
    p: nat,
    q: nat,
    c: Seq<Seq<i32>>,
    d: Seq<Seq<i32>>,
)
    requires
        is_matrix(a, m as int, p as int),
        is_matrix(b, p as int, q as int),
    ensures
        operands_fit(transpose(b, p, q), transpose(a, m, p), q as int, p as int, m as int),
        products_fit(a, b, m as int, p as int, q as int) <==> products_fit(
            transpose(b, p, q),
            transpose(a, m, p),
            q as int,
            p as int,
            m as int,
        ),
        is_product(a, b, m as int, p as int, q as int, c) && is_product(
            transpose(b, p, q),
            transpose(a, m, p),
            q as int,
            p as int,
            m as int,
            d,
        ) ==> d == transpose(c, m, q),
{
    let tb = transpose(b, p, q);
    let ta = transpose(a, m, p);
    assert forall|i: int, j: int, k: int| 0 <= i < m && 0 <= j < q && 0 <= k < p implies #[trigger] term(
        tb[j],
        ta,
        i,
        k,
    ) == term(a[i], b, j, k) && row_dot(tb[j], ta, i, k + 1) == row_dot(a[i], b, j, k + 1) by {
        lemma_row_dot_transpose(a, b, m, p, q, i, j, k);
        lemma_row_dot_transpose(a, b, m, p, q, i, j, k + 1);
    }
    if products_fit(a, b, m as int, p as int, q as int) {
        assert forall|j: int| 0 <= j < q implies #[trigger] row_products_fit(tb[j], ta, p as int, m as int) by {
            assert forall|i: int, k: int| 0 <= i < m && 0 <= k < p implies in_i32(
                #[trigger] term(tb[j], ta, i, k),
            ) && in_i32(row_dot(tb[j], ta, i, k + 1)) by {
                assert(row_products_fit(a[i], b, p as int, q as int));
                assert(in_i32(term(a[i], b, j, k)));
            }
        }
    }
    if products_fit(tb, ta, q as int, p as int, m as int) {
        assert forall|i: int| 0 <= i < m implies #[trigger] row_products_fit(a[i], b, p as int, q as int) by {
            assert forall|j: int, k: int| 0 <= j < q && 0 <= k < p implies in_i32(
                #[trigger] term(a[i], b, j, k),
            ) && in_i32(row_dot(a[i], b, j, k + 1)) by {
                assert(row_products_fit(tb[j], ta, p as int, m as int));
                assert(in_i32(term(tb[j], ta, i, k)));
            }
        }
    }
    if is_product(a, b, m as int, p as int, q as int, c) && is_product(tb, ta, q as int, p as int, m as int, d) {
        let tc = transpose(c, m, q);
        assert forall|j: int| 0 <= j < q implies #[trigger] d[j] == tc[j] by {
            assert(is_row_product(tb[j], ta, p as int, m as int, d[j]));
            assert forall|i: int| 0 <= i < m implies d[j][i] == tc[j][i] by {
                assert(is_row_product(a[i], b, p as int, q as int, c[i]));
                lemma_row_dot_transpose(a, b, m, p, q, i, j, p as int);
            }
            assert(d[j] =~= tc[j]);
        }
        assert(d =~= tc);
    }
}

} // verus!
