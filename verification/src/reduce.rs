//! Row reduction: Gauss-Jordan elimination with partial pivoting, and the
//! rank that is read off the reduced matrix.
//!
//! The reduced matrix is defined by the elimination itself, one column at
//! a time: with truncating division it is no canonical form of the input,
//! so the steps are what the contracts speak of.

use vstd::prelude::*;
use vstd::std_specs::cmp::PartialEqSpec;
use vstd::std_specs::ops::{DivSpec, MulSpec, NegSpec, SubSpec};
use crate::matrix::{cols, rectangular, Matrix};
use crate::scalar::{
    abs_of, abs_req, abs_spec, is_default, is_equal, is_greater, obeys_field_spec,
    obeys_order_spec, unit_laws, zero_laws,
};
use crate::echelon_laws::lemma_rref_is_reduced;
use crate::rank_laws::lemma_rank_bounded;
use crate::rref_laws::is_rref;
use crate::vector::{
    copy_of, div_of, scl_of, seq_div, seq_div_req, seq_scl, seq_scl_req, seq_sub, seq_sub_req,
    sub_of,
};

verus! {

/// The rows held by a vector of vectors.
pub open spec fn rows_of<K>(grid: Seq<Vec<K>>) -> Seq<Seq<K>> {
    Seq::new(grid.len(), |i: int| grid[i]@)
}

/// The pivot found in column `c` among the rows `lo..hi`, with its row:
/// the entry of largest magnitude among those that differ from `zero`,
/// the topmost where several share that magnitude; `(zero, lo)` where
/// every entry equals `zero`.
pub open spec fn pivot_scan<K: core::ops::Neg<Output = K> + PartialOrd>(
    m: Seq<Seq<K>>,
    c: int,
    zero: K,
    lo: int,
    hi: int,
) -> (K, int)
    decreases hi - lo,
{
    if hi <= lo {
        (zero, lo)
    } else {
        let best = pivot_scan(m, c, zero, lo, hi - 1);
        let x = m[hi - 1][c];
        if !is_equal(x, zero) && is_greater(abs_spec(x, zero), abs_spec(best.0, zero)) {
            (x, hi - 1)
        } else {
            best
        }
    }
}

/// The magnitude of every entry of column `c` in the rows `lo..hi`, and
/// that of `zero`, lies in the range of `K`.
pub open spec fn pivot_scan_req<K: core::ops::Neg<Output = K> + PartialOrd>(
    m: Seq<Seq<K>>,
    c: int,
    zero: K,
    lo: int,
    hi: int,
) -> bool {
    &&& abs_req(zero, zero)
    &&& forall|i: int| lo <= i < hi ==> abs_req((#[trigger] m[i])[c], zero)
}

/// `m` once the pivot row `p` has been divided by `pivot` and put in the
/// place of row `r`, the row that stood there taking the place of row `p`.
pub open spec fn pivoted<K: core::ops::Div<Output = K>>(
    m: Seq<Seq<K>>,
    r: int,
    p: int,
    pivot: K,
) -> Seq<Seq<K>> {
    m.update(p, m[r]).update(r, seq_div(m[p], pivot))
}

/// `row` minus the pivot row scaled by the entry of `row` in column `c`.
pub open spec fn reduce_row<K: core::ops::Sub<Output = K> + core::ops::Mul<Output = K>>(
    row: Seq<K>,
    pivot_row: Seq<K>,
    c: int,
) -> Seq<K> {
    seq_sub(row, seq_scl(pivot_row, row[c]))
}

/// Scaling the pivot row and subtracting it from `row` stays within the
/// range of `K`.
pub open spec fn reduce_row_req<K: core::ops::Sub<Output = K> + core::ops::Mul<Output = K>>(
    row: Seq<K>,
    pivot_row: Seq<K>,
    c: int,
) -> bool {
    &&& seq_scl_req(pivot_row, row[c])
    &&& seq_sub_req(row, seq_scl(pivot_row, row[c]))
}

/// `m` with column `c` cleared in every row but `r`, by subtracting a
/// multiple of row `r` from each.
pub open spec fn eliminate<K: core::ops::Sub<Output = K> + core::ops::Mul<Output = K>>(
    m: Seq<Seq<K>>,
    r: int,
    c: int,
) -> Seq<Seq<K>> {
    Seq::new(
        m.len(),
        |i: int|
            if i == r {
                m[r]
            } else {
                reduce_row(m[i], m[r], c)
            },
    )
}

/// Clearing column `c` with row `r` stays within the range of `K`.
pub open spec fn eliminate_req<K: core::ops::Sub<Output = K> + core::ops::Mul<Output = K>>(
    m: Seq<Seq<K>>,
    r: int,
    c: int,
) -> bool {
    forall|i: int| 0 <= i < m.len() && i != r ==> reduce_row_req(#[trigger] m[i], m[r], c)
}

/// The matrix after the step at row `r` and column `c`: unchanged where
/// no pivot is found, else normalized, swapped and cleared.
pub open spec fn step_matrix<
    K: core::ops::Sub<Output = K> + core::ops::Mul<Output = K> + core::ops::Div<Output = K>
        + core::ops::Neg<Output = K> + PartialOrd,
>(m: Seq<Seq<K>>, r: int, c: int, zero: K) -> Seq<Seq<K>> {
    let found = pivot_scan(m, c, zero, r, m.len() as int);
    if is_equal(found.0, zero) {
        m
    } else {
        eliminate(pivoted(m, r, found.1, found.0), r, c)
    }
}

/// The row at which the next step works: `r` where no pivot is found in
/// column `c`, else the row below.
pub open spec fn step_row<K: core::ops::Neg<Output = K> + PartialOrd>(
    m: Seq<Seq<K>>,
    r: int,
    c: int,
    zero: K,
) -> int {
    if is_equal(pivot_scan(m, c, zero, r, m.len() as int).0, zero) {
        r
    } else {
        r + 1
    }
}

/// The step at row `r` and column `c` stays within the range of `K`.
pub open spec fn step_req<
    K: core::ops::Sub<Output = K> + core::ops::Mul<Output = K> + core::ops::Div<Output = K>
        + core::ops::Neg<Output = K> + PartialOrd,
>(m: Seq<Seq<K>>, r: int, c: int, zero: K) -> bool {
    let found = pivot_scan(m, c, zero, r, m.len() as int);
    &&& pivot_scan_req(m, c, zero, r, m.len() as int)
    &&& !is_equal(found.0, zero) ==> {
        &&& seq_div_req(m[found.1], found.0)
        &&& eliminate_req(pivoted(m, r, found.1, found.0), r, c)
    }
}

/// The matrix that elimination reaches from `m` when it resumes at row
/// `r` and column `c`, with `n` columns in all.
pub open spec fn reduce_from<
    K: core::ops::Sub<Output = K> + core::ops::Mul<Output = K> + core::ops::Div<Output = K>
        + core::ops::Neg<Output = K> + PartialOrd,
>(m: Seq<Seq<K>>, r: int, c: int, n: int, zero: K) -> Seq<Seq<K>>
    decreases n - c,
{
    if c >= n || r >= m.len() {
        m
    } else {
        reduce_from(step_matrix(m, r, c, zero), step_row(m, r, c, zero), c + 1, n, zero)
    }
}

/// Every step from row `r` and column `c` on stays within the range of `K`.
pub open spec fn reduce_from_req<
    K: core::ops::Sub<Output = K> + core::ops::Mul<Output = K> + core::ops::Div<Output = K>
        + core::ops::Neg<Output = K> + PartialOrd,
>(m: Seq<Seq<K>>, r: int, c: int, n: int, zero: K) -> bool
    decreases n - c,
{
    if c >= n || r >= m.len() {
        true
    } else {
        &&& step_req(m, r, c, zero)
        &&& reduce_from_req(
            step_matrix(m, r, c, zero),
            step_row(m, r, c, zero),
            c + 1,
            n,
            zero,
        )
    }
}

/// The reduced row echelon form of `m`, with `zero` as the zero of `K`.
pub open spec fn rref_spec<
    K: core::ops::Sub<Output = K> + core::ops::Mul<Output = K> + core::ops::Div<Output = K>
        + core::ops::Neg<Output = K> + PartialOrd,
>(m: Seq<Seq<K>>, zero: K) -> Seq<Seq<K>> {
    reduce_from(m, 0, 0, cols(m) as int, zero)
}

/// The whole elimination of `m` stays within the range of `K`.
pub open spec fn rref_req<
    K: core::ops::Sub<Output = K> + core::ops::Mul<Output = K> + core::ops::Div<Output = K>
        + core::ops::Neg<Output = K> + PartialOrd,
>(m: Seq<Seq<K>>, zero: K) -> bool {
    reduce_from_req(m, 0, 0, cols(m) as int, zero)
}

/// Every entry of `row` equals `zero`.
pub open spec fn is_zero_row<K: PartialEq>(row: Seq<K>, zero: K) -> bool {
    forall|j: int| 0 <= j < row.len() ==> is_equal(#[trigger] row[j], zero)
}

/// How many of the first `n` rows of `m` have an entry that differs from
/// `zero`.
pub open spec fn count_nonzero_rows<K: PartialEq>(m: Seq<Seq<K>>, zero: K, n: nat) -> nat
    decreases n,
{
    if n == 0 {
        0
    } else {
        count_nonzero_rows(m, zero, (n - 1) as nat) + if is_zero_row(m[n - 1], zero) {
            0nat
        } else {
            1nat
        }
    }
}

/// The rank of `m`: the number of non-zero rows of its reduced form.
pub open spec fn rank_spec<
    K: core::ops::Sub<Output = K> + core::ops::Mul<Output = K> + core::ops::Div<Output = K>
        + core::ops::Neg<Output = K> + PartialOrd,
>(m: Seq<Seq<K>>, zero: K) -> nat {
    count_nonzero_rows(rref_spec(m, zero), zero, m.len())
}

/// A copy of every row of `grid`.
pub fn copy_rows<K: Copy>(grid: &Vec<Vec<K>>) -> (r: Vec<Vec<K>>)
    ensures
        rows_of(r@) == rows_of(grid@),
{
    let n = grid.len();
    let mut out: Vec<Vec<K>> = Vec::with_capacity(n);
    let mut i: usize = 0;
    while i < n
        invariant
            i <= n,
            n == grid@.len(),
            out@.len() == i,
            forall|k: int| 0 <= k < i ==> (#[trigger] out@[k])@ == grid@[k]@,
        decreases n - i,
    {
        out.push(copy_of(grid[i].as_slice()));
        i += 1;
    }
    assert(rows_of(out@) =~= rows_of(grid@));
    out
}

/// Whether every entry of `row` equals `zero`.
pub fn is_zero_slice<K: Copy + PartialEq>(row: &[K], zero: K) -> (b: bool)
    requires
        K::obeys_eq_spec(),
    ensures
        b == is_zero_row(row@, zero),
{
    let mut j: usize = 0;
    while j < row.len()
        invariant
            j <= row.len(),
            K::obeys_eq_spec(),
            forall|k: int| 0 <= k < j ==> is_equal(#[trigger] row@[k], zero),
        decreases row.len() - j,
    {
        if row[j] != zero {
            assert(!is_equal(row@[j as int], zero));
            return false;
        }
        j += 1;
    }
    true
}

impl<K: Copy + core::ops::Add<Output = K> + core::ops::Sub<Output = K> + core::ops::Mul<Output = K> + PartialOrd> Matrix<K> {
    /// The pivot of column `column` among the rows from `row` down, with
    /// its row: the entry of largest magnitude that differs from `zero`.
    pub fn find_pivot(&self, row: usize, column: usize, zero: K) -> (found: (K, usize)) where
        K: core::ops::Neg<Output = K>,

        requires
            K::obeys_neg_spec(),
            obeys_order_spec::<K>(),
            rectangular(self@),
            row <= self@.len(),
            column < cols(self@),
            pivot_scan_req(self@, column as int, zero, row as int, self@.len() as int),
        ensures
            found.0 == pivot_scan(self@, column as int, zero, row as int, self@.len() as int).0,
            found.1 == pivot_scan(self@, column as int, zero, row as int, self@.len() as int).1,
    {
        let rows = self.row_size();
        let mut max: K = zero;
        let mut max_abs: K = abs_of(max, zero);
        let mut max_row: usize = row;
        let mut i: usize = row;
        while i < rows
            invariant
                row <= i <= rows,
                rows == self@.len(),
                K::obeys_neg_spec(),
                obeys_order_spec::<K>(),
                rectangular(self@),
                column < cols(self@),
                pivot_scan_req(self@, column as int, zero, row as int, rows as int),
                max == pivot_scan(self@, column as int, zero, row as int, i as int).0,
                max_row == pivot_scan(self@, column as int, zero, row as int, i as int).1,
                max_abs == abs_spec(max, zero),
            decreases rows - i,
        {
            assert(self@[i as int].len() == cols(self@));
            let entry = self.positions[i][column];
            assert(entry == self@[i as int][column as int]);
            let point = abs_of(entry, zero);
            if entry != zero && point > max_abs {
                max = entry;
                max_row = i;
                max_abs = point;
            }
            i += 1;
        }
        (max, max_row)
    }

    /// The reduced row echelon form of `self`, with `zero` as the zero of
    /// `K`. `self` is left as it is. Over scalars that follow the laws of
    /// a zero and a unit, the result is in reduced row echelon form.
    pub fn reduce(&self, zero: K) -> (reduced: Matrix<K>) where
        K: core::ops::Div<Output = K> + core::ops::Neg<Output = K>,

        requires
            obeys_field_spec::<K>(),
            rectangular(self@),
            rref_req(self@, zero),
        ensures
            reduced@ == rref_spec(self@, zero),
            reduced@.len() == self@.len(),
            rectangular(reduced@),
            cols(reduced@) == cols(self@),
            forall|one: K|
                zero_laws(zero) && #[trigger] unit_laws(zero, one) ==> is_rref(
                    reduced@,
                    zero,
                    one,
                ),
    {
        proof {
            assert forall|one: K| zero_laws(zero) && #[trigger] unit_laws(zero, one) implies is_rref(
                rref_spec(self@, zero),
                zero,
                one,
            ) by {
                lemma_rref_is_reduced(self@, zero, one);
            }
        }
        let rows = self.row_size();
        let columns = self.column_size();
        let mut work: Matrix<K> = Matrix { positions: copy_rows(&self.positions) };
        assert(work@ =~= self@);
        let mut r: usize = 0;
        let mut c: usize = 0;
        while c < columns && r < rows
            invariant
                r <= rows,
                c <= columns,
                rows == self@.len(),
                columns == cols(self@),
                obeys_field_spec::<K>(),
                work@.len() == rows,
                rectangular(work@),
                cols(work@) == columns,
                reduce_from_req(work@, r as int, c as int, columns as int, zero),
                reduce_from(work@, r as int, c as int, columns as int, zero) == rref_spec(
                    self@,
                    zero,
                ),
            decreases columns - c,
        {
            let ghost before = work@;
            let found = work.find_pivot(r, c, zero);
            let pivot = found.0;
            let p = found.1;
            proof {
                lemma_pivot_scan_row(before, c as int, zero, r as int, rows as int);
            }
            if pivot != zero {
                assert(before[p as int].len() == columns);
                assert(before[r as int].len() == columns);
                let normalized = div_of(work.positions[p].as_slice(), pivot);
                if p != r {
                    let displaced = copy_of(work.positions[r].as_slice());
                    work.positions[p] = displaced;
                }
                work.positions[r] = normalized;
                assert(work@ =~= pivoted(before, r as int, p as int, pivot));
                let ghost base = work@;
                let mut i: usize = 0;
                while i < rows
                    invariant
                        i <= rows,
                        r < rows,
                        c < columns,
                        obeys_field_spec::<K>(),
                        base.len() == rows,
                        rectangular(base),
                        cols(base) == columns,
                        eliminate_req(base, r as int, c as int),
                        work@.len() == rows,
                        forall|k: int| 0 <= k < i ==> #[trigger] work@[k] == eliminate(base, r as int, c as int)[k],
                        forall|k: int| i <= k < rows ==> #[trigger] work@[k] == base[k],
                        work@[r as int] == base[r as int],
                    decreases rows - i,
                {
                    if i != r {
                        assert(work@[i as int] == base[i as int]);
                        assert(base[i as int].len() == columns);
                        assert(base[r as int].len() == columns);
                        assert(reduce_row_req(base[i as int], base[r as int], c as int));
                        let ghost prior = work@;
                        let entry = work.positions[i][c];
                        let scaled = scl_of(work.positions[r].as_slice(), entry);
                        let cleared = sub_of(work.positions[i].as_slice(), scaled.as_slice());
                        work.positions[i] = cleared;
                        assert(work@ =~= prior.update(i as int, cleared@));
                    }
                    i += 1;
                }
                assert(work@ =~= eliminate(base, r as int, c as int));
                assert(rectangular(work@)) by {
                    assert forall|k: int| 0 <= k < work@.len() implies (#[trigger] work@[k]).len()
                        == columns by {
                        assert(base[k].len() == columns);
                    }
                }
                r += 1;
            }
            c += 1;
        }
        work
    }

    /// The reduced row echelon form of `self`, by Gauss-Jordan elimination
    /// with partial pivoting. `self` is left as it is.
    pub fn row_echelon(&self) -> (reduced: Matrix<K>) where
        K: core::default::Default + core::ops::Div<Output = K> + core::ops::Neg<Output = K>,

        requires
            obeys_field_spec::<K>(),
            rectangular(self@),
            forall|zero: K| is_default(zero) ==> rref_req(self@, zero),
        ensures
            exists|zero: K|
                #[trigger] is_default(zero) && reduced@ == rref_spec(self@, zero) && (forall|one: K|
                    zero_laws(zero) && #[trigger] unit_laws(zero, one) ==> is_rref(
                        reduced@,
                        zero,
                        one,
                    )),
            reduced@.len() == self@.len(),
            rectangular(reduced@),
            cols(reduced@) == cols(self@),
    {
        let zero = K::default();
        assert(is_default(zero));
        self.reduce(zero)
    }

    /// The rank of `self`, with `zero` as the zero of `K`: the number of
    /// rows of its reduced row echelon form that have an entry other than
    /// `zero`.
    pub fn rank_with(&self, zero: K) -> (rank: usize) where
        K: core::ops::Div<Output = K> + core::ops::Neg<Output = K>,

        requires
            obeys_field_spec::<K>(),
            rectangular(self@),
            rref_req(self@, zero),
        ensures
            rank == rank_spec(self@, zero),
            rank <= self@.len(),
            zero_laws(zero) ==> rank <= cols(self@),
    {
        proof {
            if zero_laws(zero) {
                lemma_rank_bounded(self@, zero);
            }
        }
        let reduced = self.reduce(zero);
        let rows = reduced.row_size();
        let mut count: usize = 0;
        let mut i: usize = 0;
        while i < rows
            invariant
                i <= rows,
                rows == reduced@.len(),
                K::obeys_eq_spec(),
                count <= i,
                count == count_nonzero_rows(reduced@, zero, i as nat),
            decreases rows - i,
        {
            if !is_zero_slice(reduced.positions[i].as_slice(), zero) {
                count += 1;
            }
            i += 1;
        }
        count
    }

    /// The rank of `self`: the number of rows of its reduced row echelon
    /// form that have an entry other than zero.
    pub fn rank(&self) -> (rank: usize) where
        K: core::default::Default + core::ops::Div<Output = K> + core::ops::Neg<Output = K>,

        requires
            obeys_field_spec::<K>(),
            rectangular(self@),
            forall|zero: K| is_default(zero) ==> rref_req(self@, zero),
        ensures
            exists|zero: K|
                #[trigger] is_default(zero) && rank == rank_spec(self@, zero) && (zero_laws(zero)
                    ==> rank <= cols(self@)),
            rank <= self@.len(),
    {
        let zero = K::default();
        assert(is_default(zero));
        self.rank_with(zero)
    }
}

/// The pivot of a scan lies among the rows scanned, or at the first of
/// them where none is scanned.
pub proof fn lemma_pivot_scan_row<K: core::ops::Neg<Output = K> + PartialOrd>(
    m: Seq<Seq<K>>,
    c: int,
    zero: K,
    lo: int,
    hi: int,
)
    requires
        lo <= hi,
    ensures
        lo <= pivot_scan(m, c, zero, lo, hi).1,
        lo < hi ==> pivot_scan(m, c, zero, lo, hi).1 < hi,
        lo == hi ==> pivot_scan(m, c, zero, lo, hi).1 == lo,
    decreases hi - lo,
{
    if lo < hi {
        lemma_pivot_scan_row(m, c, zero, lo, hi - 1);
    }
}

} // verus!
