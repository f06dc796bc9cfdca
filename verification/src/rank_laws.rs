//! The rank of a matrix is at most its number of rows and at most its
//! number of columns.

use vstd::prelude::*;
use vstd::std_specs::ops::{DivSpec, MulSpec, SubSpec};
use crate::matrix::{cols, rectangular};
use crate::reduce::{
    count_nonzero_rows, eliminate, is_zero_row, pivot_scan, pivot_scan_req, pivoted, rank_spec,
    reduce_from, reduce_from_req, rref_req, step_matrix, step_req, step_row,
};
use crate::scalar::{abs_req, is_equal, zero_laws};
use crate::vector::{seq_div, seq_scl, seq_sub};

verus! {

/// Every row of `m` has `n` entries.
pub open spec fn grid<K>(m: Seq<Seq<K>>, n: int) -> bool {
    forall|i: int| 0 <= i < m.len() ==> (#[trigger] m[i]).len() == n
}

/// The rows of `m` from row `r` down are zero in every column before `c`.
pub open spec fn cleared_below<K>(m: Seq<Seq<K>>, r: int, c: int, zero: K) -> bool {
    forall|i: int, j: int| r <= i < m.len() && 0 <= j < c ==> (#[trigger] m[i][j]) == zero
}

/// What a scan for a pivot finds: a row among those scanned; `zero` only
/// where every scanned entry is `zero`; else the entry of the row found.
pub proof fn lemma_scan_finds<
    K: core::ops::Sub<Output = K> + core::ops::Mul<Output = K> + core::ops::Div<Output = K>
        + core::ops::Neg<Output = K> + PartialOrd,
>(m: Seq<Seq<K>>, c: int, zero: K, lo: int, hi: int)
    requires
        zero_laws(zero),
        lo <= hi,
        pivot_scan_req(m, c, zero, lo, hi),
    ensures
        lo <= pivot_scan(m, c, zero, lo, hi).1,
        lo < hi ==> pivot_scan(m, c, zero, lo, hi).1 < hi,
        pivot_scan(m, c, zero, lo, hi).0 == zero ==> forall|i: int|
            lo <= i < hi ==> (#[trigger] m[i])[c] == zero,
        pivot_scan(m, c, zero, lo, hi).0 != zero ==> pivot_scan(m, c, zero, lo, hi).0
            == m[pivot_scan(m, c, zero, lo, hi).1][c] && pivot_scan(m, c, zero, lo, hi).1 < hi,
    decreases hi - lo,
{
    if lo < hi {
        lemma_scan_finds(m, c, zero, lo, hi - 1);
        let best = pivot_scan(m, c, zero, lo, hi - 1);
        let x = m[hi - 1][c];
        assert(is_equal(x, zero) == (x == zero));
        assert(abs_req(x, zero));
        if pivot_scan(m, c, zero, lo, hi).0 == zero {
            assert forall|i: int| lo <= i < hi implies (#[trigger] m[i])[c] == zero by {
                if i == hi - 1 {
                    assert(x == zero);
                }
            }
        }
    }
}

/// One step of the elimination keeps the shape of the matrix, moves on
/// by at most one row, and leaves the rows from the next row down zero
/// in every column up to the one it worked on.
pub proof fn lemma_step_clears<
    K: core::ops::Sub<Output = K> + core::ops::Mul<Output = K> + core::ops::Div<Output = K>
        + core::ops::Neg<Output = K> + PartialOrd,
>(m: Seq<Seq<K>>, r: int, c: int, n: int, zero: K)
    requires
        zero_laws(zero),
        grid(m, n),
        0 <= r < m.len(),
        0 <= c < n,
        cleared_below(m, r, c, zero),
        step_req(m, r, c, zero),
    ensures
        step_matrix(m, r, c, zero).len() == m.len(),
        grid(step_matrix(m, r, c, zero), n),
        r <= step_row(m, r, c, zero) <= r + 1,
        cleared_below(step_matrix(m, r, c, zero), step_row(m, r, c, zero), c + 1, zero),
{
    let found = pivot_scan(m, c, zero, r, m.len() as int);
    lemma_scan_finds(m, c, zero, r, m.len() as int);
    assert(is_equal(found.0, zero) == (found.0 == zero));
    if found.0 == zero {
        assert forall|i: int, j: int| r <= i < m.len() && 0 <= j < c + 1 implies (#[trigger] m[i][j])
            == zero by {
            if j == c {
                assert(m[i][c] == zero);
            }
        }
    } else {
        let p = found.1;
        let pivot = found.0;
        let m1 = pivoted(m, r, p, pivot);
        let m2 = eliminate(m1, r, c);
        assert(m[p].len() == n && m[r].len() == n);
        assert(m1[r] == seq_div(m[p], pivot));
        assert forall|i: int| 0 <= i < m1.len() implies (#[trigger] m1[i]).len() == n by {
            if i != r && i != p {
                assert(m1[i] == m[i]);
            }
        }
        assert forall|i: int| 0 <= i < m2.len() implies (#[trigger] m2[i]).len() == n by {
            assert(m1[i].len() == n);
        }
        assert forall|i: int, j: int| r + 1 <= i < m2.len() && 0 <= j < c + 1 implies (
        #[trigger] m2[i][j]) == zero by {
            let src = if i == p {
                r
            } else {
                i
            };
            assert(m1[i] == m[src]);
            assert(m[src].len() == n);
            assert(m2[i] == seq_sub(m1[i], seq_scl(m1[r], m1[i][c])));
            assert(m2[i][j] == m1[i][j].sub_spec(m1[r][j].mul_spec(m1[i][c])));
            assert(m1[r][j] == m[p][j].div_spec(pivot));
            if j < c {
                assert(m[src][j] == zero);
                assert(m[p][j] == zero);
                assert(zero.div_spec(pivot) == zero);
                assert(zero.mul_spec(m1[i][c]) == zero);
            } else {
                assert(m[p][c] == pivot);
                assert(m1[i][c].sub_spec(pivot.div_spec(pivot).mul_spec(m1[i][c])) == zero);
            }
        }
    }
}

/// Where the rows from row `r` down are zero, at most `r` of the first
/// `k` rows are not.
pub proof fn lemma_count_bounded<K: PartialEq>(m: Seq<Seq<K>>, zero: K, r: int, k: nat)
    requires
        0 <= r,
        k <= m.len(),
        forall|i: int| r <= i < k ==> is_zero_row(#[trigger] m[i], zero),
    ensures
        count_nonzero_rows(m, zero, k) <= k,
        count_nonzero_rows(m, zero, k) <= r,
    decreases k,
{
    if k > 0 {
        lemma_count_bounded(m, zero, r, (k - 1) as nat);
        if k - 1 >= r {
            assert(is_zero_row(m[k - 1], zero));
        }
    }
}

/// Elimination resumed at row `r` and column `c`, on a matrix whose rows
/// from `r` down are zero before column `c`, ends with at most as many
/// non-zero rows as there are columns.
pub proof fn lemma_reduce_bounded<
    K: core::ops::Sub<Output = K> + core::ops::Mul<Output = K> + core::ops::Div<Output = K>
        + core::ops::Neg<Output = K> + PartialOrd,
>(m: Seq<Seq<K>>, r: int, c: int, n: int, zero: K)
    requires
        zero_laws(zero),
        grid(m, n),
        0 <= r <= m.len(),
        r <= c <= n,
        cleared_below(m, r, c, zero),
        reduce_from_req(m, r, c, n, zero),
    ensures
        reduce_from(m, r, c, n, zero).len() == m.len(),
        count_nonzero_rows(reduce_from(m, r, c, n, zero), zero, m.len()) <= n,
        count_nonzero_rows(reduce_from(m, r, c, n, zero), zero, m.len()) <= m.len(),
    decreases n - c,
{
    if c >= n || r >= m.len() {
        if r < m.len() {
            assert forall|i: int| r <= i < m.len() implies is_zero_row(#[trigger] m[i], zero) by {
                assert forall|j: int| 0 <= j < m[i].len() implies is_equal(
                    #[trigger] m[i][j],
                    zero,
                ) by {
                    assert(m[i][j] == zero);
                    assert(is_equal(m[i][j], zero) == (m[i][j] == zero));
                }
            }
        }
        lemma_count_bounded(m, zero, r, m.len());
    } else {
        lemma_step_clears(m, r, c, n, zero);
        lemma_reduce_bounded(
            step_matrix(m, r, c, zero),
            step_row(m, r, c, zero),
            c + 1,
            n,
            zero,
        );
    }
}

/// The rank of a matrix is at most its number of rows and at most its
/// number of columns.
pub proof fn lemma_rank_bounded<
    K: core::ops::Sub<Output = K> + core::ops::Mul<Output = K> + core::ops::Div<Output = K>
        + core::ops::Neg<Output = K> + PartialOrd,
>(m: Seq<Seq<K>>, zero: K)
    requires
        zero_laws(zero),
        rectangular(m),
        rref_req(m, zero),
    ensures
        rank_spec(m, zero) <= m.len(),
        rank_spec(m, zero) <= cols(m),
{
    lemma_reduce_bounded(m, 0, 0, cols(m) as int, zero);
}

} // verus!
