use rayon::iter::IntoParallelRefMutIterator;
use rayon::iter::ParallelIterator;
use vstd::prelude::*;

use crate::cpu::{compute_row, try_compute_row};
use crate::model::{is_product, is_row_product, matrix_view, operands_fit, products_fit};

verus! {

/// The work item for row `index` of the product of `a` and `b` (inner dimension `n`,
/// `cols` columns): the row once computed.
///
/// Its fields are private to this module, so outside it a task changes only through
/// `fill`, and a computed row is always that row of the product.
pub struct RowTask<'a> {
    a: &'a Vec<Vec<i32>>,
    b: &'a Vec<Vec<i32>>,
    index: usize,
    n: usize,
    cols: usize,
    row: Option<Vec<i32>>,
}

impl<'a> RowTask<'a> {
    #[verifier::type_invariant]
    spec fn computed_row_is_product_row(self) -> bool {
        self.row matches Some(r) ==> {
            &&& self.index < self.a@.len()
            &&& is_row_product(
                self.a@[self.index as int]@,
                matrix_view(self.b@),
                self.n as int,
                self.cols as int,
                r@,
            )
        }
    }

    /// The left operand.
    pub closed spec fn left(self) -> Seq<Seq<i32>> {
        matrix_view(self.a@)
    }

    /// The right operand.
    pub closed spec fn right(self) -> Seq<Seq<i32>> {
        matrix_view(self.b@)
    }

    /// Which row of the product to compute.
    pub closed spec fn row_index(self) -> int {
        self.index as int
    }

    /// The inner dimension.
    pub closed spec fn inner(self) -> int {
        self.n as int
    }

    /// The number of columns of the product.
    pub closed spec fn columns(self) -> int {
        self.cols as int
    }

    /// A task for row `index`, not yet computed.
    pub fn new(a: &'a Vec<Vec<i32>>, b: &'a Vec<Vec<i32>>, index: usize, n: usize, cols: usize) -> (t: Self)
        ensures
            t.left() == matrix_view(a@),
            t.right() == matrix_view(b@),
            t.row_index() == index,
            t.inner() == n,
            t.columns() == cols,
    {
        RowTask { a, b, index, n, cols, row: None }
    }

    /// Computes the row, where every entry it reads exists and its `i32` accumulation
    /// stays in range; otherwise leaves the task uncomputed. The operands and the index
    /// do not change.
    pub fn fill(&mut self)
        ensures
            final(self).left() == old(self).left(),
            final(self).right() == old(self).right(),
            final(self).row_index() == old(self).row_index(),
            final(self).inner() == old(self).inner(),
            final(self).columns() == old(self).columns(),
    {
        if self.index < self.a.len() {
            let computed = try_compute_row(&self.a[self.index], self.b, self.n, self.cols);
            self.row = computed;
        }
    }

    /// Which row of the product to compute.
    pub fn index(&self) -> (i: usize)
        ensures
            i == self.row_index(),
    {
        self.index
    }

    /// The computed row, if any: row `index` of the product.
    pub fn into_row(self) -> (r: Option<Vec<i32>>)
        ensures
            r matches Some(v) ==> {
                &&& 0 <= self.row_index() < self.left().len()
                &&& is_row_product(
                    self.left()[self.row_index()],
                    self.right(),
                    self.inner(),
                    self.columns(),
                    v@,
                )
            },
    {
        proof {
            use_type_invariant(&self);
        }
        self.row
    }
}

/// The row tasks of one product, all over the same operands.
pub struct RowTasks<'a> {
    a: &'a Vec<Vec<i32>>,
    b: &'a Vec<Vec<i32>>,
    n: usize,
    cols: usize,
    tasks: Vec<RowTask<'a>>,
}

impl<'a> RowTasks<'a> {
    #[verifier::type_invariant]
    spec fn tasks_share_operands(self) -> bool {
        forall|k: int|
            0 <= k < self.tasks@.len() ==> {
                &&& (#[trigger] self.tasks@[k]).left() == matrix_view(self.a@)
                &&& self.tasks@[k].right() == matrix_view(self.b@)
                &&& self.tasks@[k].inner() == self.n
                &&& self.tasks@[k].columns() == self.cols
            }
    }

    /// The left operand.
    pub closed spec fn left(self) -> Seq<Seq<i32>> {
        matrix_view(self.a@)
    }

    /// The right operand.
    pub closed spec fn right(self) -> Seq<Seq<i32>> {
        matrix_view(self.b@)
    }

    /// The inner dimension.
    pub closed spec fn inner(self) -> int {
        self.n as int
    }

    /// The number of columns of the product.
    pub closed spec fn columns(self) -> int {
        self.cols as int
    }

    /// One uncomputed task for each of the first `rows` rows of the product.
    pub fn new(a: &'a Vec<Vec<i32>>, b: &'a Vec<Vec<i32>>, rows: usize, n: usize, cols: usize) -> (t: Self)
        ensures
            t.left() == matrix_view(a@),
            t.right() == matrix_view(b@),
            t.inner() == n,
            t.columns() == cols,
    {
        let mut tasks: Vec<RowTask<'a>> = Vec::new();
        for i in 0..rows
            invariant
                forall|k: int|
                    0 <= k < tasks@.len() ==> {
                        &&& (#[trigger] tasks@[k]).left() == matrix_view(a@)
                        &&& tasks@[k].right() == matrix_view(b@)
                        &&& tasks@[k].inner() == n
                        &&& tasks@[k].columns() == cols
                    },
        {
            tasks.push(RowTask::new(a, b, i, n, cols));
        }
        RowTasks { a, b, n, cols, tasks }
    }

    /// The first `rows` rows of the product: each row is taken from the task in its
    /// position when that task is for that row and was computed, and is computed here
    /// otherwise.
    pub fn into_product(self, rows: usize) -> (result: Vec<Vec<i32>>)
        requires
            operands_fit(self.left(), self.right(), rows as int, self.inner(), self.columns()),
            products_fit(self.left(), self.right(), rows as int, self.inner(), self.columns()),
        ensures
            is_product(self.left(), self.right(), rows as int, self.inner(), self.columns(), matrix_view(result@)),
    {
        proof {
            use_type_invariant(&self);
        }
        let ghost av = self.left();
        let ghost bv = self.right();
        let a = self.a;
        let b = self.b;
        let n = self.n;
        let cols = self.cols;
        let tasks = self.tasks;
        let ghost all = tasks@;
        let mut result: Vec<Vec<i32>> = Vec::new();
        for task in it: tasks.into_iter()
            invariant
                av == matrix_view(a@),
                bv == matrix_view(b@),
                operands_fit(av, bv, rows as int, n as int, cols as int),
                products_fit(av, bv, rows as int, n as int, cols as int),
                all.len() == it.seq().len(),
                forall|k: int| 0 <= k < all.len() ==> #[trigger] it.seq()[k] == all[k],
                forall|k: int|
                    0 <= k < all.len() ==> {
                        &&& (#[trigger] all[k]).left() == av
                        &&& all[k].right() == bv
                        &&& all[k].inner() == n
                        &&& all[k].columns() == cols
                    },
                result@.len() <= rows,
                forall|i: int|
                    0 <= i < result@.len() ==> #[trigger] is_row_product(av[i], bv, n as int, cols as int, result@[i]@),
        {
            let ghost k = it.index();
            assert(task == all[k as int]);
            let i = result.len();
            if i < rows && task.index() == i {
                assert(n <= av[i as int].len());
                assert(av[i as int] == a@[i as int]@);
                match task.into_row() {
                    Some(row) => {
                        result.push(row);
                    },
                    None => {
                        assert(products_fit(av, bv, rows as int, n as int, cols as int));
                        assert(crate::model::row_products_fit(av[i as int], bv, n as int, cols as int));
                        let row = compute_row(&a[i], b, n, cols);
                        result.push(row);
                    },
                }
            }
        }
        while result.len() < rows
            invariant
                av == matrix_view(a@),
                bv == matrix_view(b@),
                operands_fit(av, bv, rows as int, n as int, cols as int),
                products_fit(av, bv, rows as int, n as int, cols as int),
                result@.len() <= rows,
                forall|i: int|
                    0 <= i < result@.len() ==> #[trigger] is_row_product(av[i], bv, n as int, cols as int, result@[i]@),
            decreases rows - result@.len(),
        {
            let i = result.len();
            assert(n <= av[i as int].len());
            assert(av[i as int] == a@[i as int]@);
            assert(crate::model::row_products_fit(av[i as int], bv, n as int, cols as int));
            let row = compute_row(&a[i], b, n, cols);
            result.push(row);
        }
        let ghost rv = matrix_view(result@);
        assert forall|i: int| 0 <= i < rows implies #[trigger] is_row_product(av[i], bv, n as int, cols as int, rv[i]) by {
            assert(rv[i] == result@[i]@);
        }
        result
    }
}

/// Runs `RowTask::fill` on every task on rayon's thread pool, through
/// `par_iter_mut().for_each(..)`.
///
/// Trusted only for this: the call hands the closure mutable references to the tasks
/// and leaves the other fields of `tasks` alone, so the operands and sizes stay as they
/// were. Nothing is claimed of which tasks were filled: a row that was not computed, or
/// a task out of place, is found and computed again by `into_product`.
#[verifier::external_body]
pub(crate) fn fill_rows_in_parallel(tasks: &mut RowTasks<'_>)
    ensures
        final(tasks).left() == old(tasks).left(),
        final(tasks).right() == old(tasks).right(),
        final(tasks).inner() == old(tasks).inner(),
        final(tasks).columns() == old(tasks).columns(),
{
    tasks.tasks.par_iter_mut().for_each(|task| task.fill());
}

} // verus!
