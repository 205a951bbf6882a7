use rand::rngs::ThreadRng;
use rand::Rng;
use vstd::prelude::*;

verus! {

/// rand's handle to the thread-local generator.
#[verifier::external_type_specification]
#[verifier::external_body]
pub struct ExThreadRng(ThreadRng);

/// Calls `rand::rng()`, a handle to the lazily seeded thread-local generator.
/// Trusted: nothing is claimed of the handle.
#[verifier::external_body]
fn thread_rng() -> ThreadRng {
    rand::rng()
}

/// Calls `Rng::random_range(low..high)` on rand's thread-local generator.
/// Trusted: rand samples from the half-open range, so the value is at least `low` and
/// below `high` (it panics on an empty range, which `requires` excludes). Which value
/// comes out is left to chance and is not stated.
#[verifier::external_body]
fn random_in_range(rng: &mut ThreadRng, low: i32, high: i32) -> (value: i32)
    requires
        low < high,
    ensures
        low <= value < high,
{
    rng.random_range(low..high)
}

/// `m` is a `size x size` matrix (no rows where `size <= 0`) whose entries all lie in
/// `[low, high)`.
pub open spec fn is_random_matrix(m: Seq<Vec<i32>>, size: int, low: int, high: int) -> bool {
    let n = if size > 0 { size } else { 0 };
    &&& m.len() == n
    &&& forall|i: int| 0 <= i < n ==> #[trigger] m[i]@.len() == n
    &&& forall|i: int, j: int| 0 <= i < n && 0 <= j < n ==> low <= #[trigger] m[i]@[j] < high
}

/// One value drawn by rand's generator, together with the half-open range it was drawn
/// from: the range that was handed to the generator.
fn draw(rng: &mut ThreadRng, low: i32, high: i32) -> (d: (i32, Ghost<(int, int)>))
    requires
        low < high,
    ensures
        d.1@ == (low as int, high as int),
        d.1@.0 <= d.0 < d.1@.1,
{
    let value = random_in_range(rng, low, high);
    (value, Ghost((low as int, high as int)))
}

/// A `size x size` matrix of values drawn from `[minimum_value, maximum_value)`, row
/// after row, with the range each entry was drawn from: every entry `(i, j)` was drawn
/// from exactly `[minimum_value, maximum_value)`, and lies in it.
fn generate_matrix(rng: &mut ThreadRng, size: i32, minimum_value: i32, maximum_value: i32) -> (res: (
    Vec<Vec<i32>>,
    Ghost<Seq<Seq<(int, int)>>>,
))
    requires
        size > 0 ==> minimum_value < maximum_value,
    ensures
        is_random_matrix(res.0@, size as int, minimum_value as int, maximum_value as int),
        res.1@.len() == res.0@.len(),
        forall|i: int| 0 <= i < res.0@.len() ==> #[trigger] res.1@[i].len() == res.0@[i]@.len(),
        forall|i: int, j: int|
            0 <= i < res.0@.len() && 0 <= j < res.0@[i]@.len() ==> #[trigger] res.1@[i][j] == (
                minimum_value as int,
                maximum_value as int,
            ) && res.1@[i][j].0 <= res.0@[i]@[j] < res.1@[i][j].1,
{
    let mut m: Vec<Vec<i32>> = Vec::new();
    let ghost mut ranges: Seq<Seq<(int, int)>> = Seq::empty();
    let mut i: i32 = 0;
    while i < size
        invariant
            size > 0 ==> minimum_value < maximum_value,
            0 <= i,
            size > 0 ==> i <= size,
            size <= 0 ==> i == 0,
            m@.len() == i,
            ranges.len() == i,
            forall|ii: int| 0 <= ii < i ==> #[trigger] m@[ii]@.len() == size,
            forall|ii: int| 0 <= ii < i ==> #[trigger] ranges[ii].len() == size,
            forall|ii: int, j: int|
                0 <= ii < i && 0 <= j < size ==> #[trigger] ranges[ii][j] == (
                    minimum_value as int,
                    maximum_value as int,
                ) && ranges[ii][j].0 <= m@[ii]@[j] < ranges[ii][j].1,
        decreases size - i,
    {
        let mut row: Vec<i32> = Vec::new();
        let ghost mut row_ranges: Seq<(int, int)> = Seq::empty();
        let mut j: i32 = 0;
        while j < size
            invariant
                minimum_value < maximum_value,
                0 <= j <= size,
                row@.len() == j,
                row_ranges.len() == j,
                forall|jj: int|
                    0 <= jj < j ==> #[trigger] row_ranges[jj] == (minimum_value as int, maximum_value as int)
                        && row_ranges[jj].0 <= row@[jj] < row_ranges[jj].1,
            decreases size - j,
        {
            let (value, range) = draw(rng, minimum_value, maximum_value);
            row.push(value);
            proof {
                row_ranges = row_ranges.push(range@);
            }
            j = j + 1;
        }
        m.push(row);
        proof {
            ranges = ranges.push(row_ranges);
        }
        i = i + 1;
    }
    assert(size > 0 ==> i == size);
    assert(size <= 0 ==> m@.len() == 0);
    assert forall|ii: int, j: int| 0 <= ii < i && 0 <= j < size implies minimum_value <= #[trigger] m@[ii]@[j]
        < maximum_value by {
        assert(ranges[ii][j] == (minimum_value as int, maximum_value as int));
    }
    (m, Ghost(ranges))
}

/// Two `size x size` matrices of values drawn uniformly from
/// `[minimum_value, maximum_value)` with the thread-local generator; empty where
/// `size <= 0`.
pub fn generate_matrices(size: i32, minimum_value: i32, maximum_value: i32) -> (matrices: (Vec<Vec<i32>>, Vec<Vec<i32>>))
    requires
        size > 0 ==> minimum_value < maximum_value,
    ensures
        is_random_matrix(matrices.0@, size as int, minimum_value as int, maximum_value as int),
        is_random_matrix(matrices.1@, size as int, minimum_value as int, maximum_value as int),
{
    let mut rng = thread_rng();
    let (matrix_a, _) = generate_matrix(&mut rng, size, minimum_value, maximum_value);
    let (matrix_b, _) = generate_matrix(&mut rng, size, minimum_value, maximum_value);
    (matrix_a, matrix_b)
}

} // verus!
