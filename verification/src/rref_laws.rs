//! Reduced matrices are fixed points of the elimination, and the
//! identity has full rank.

use vstd::prelude::*;
use vstd::std_specs::ops::{DivSpec, MulSpec, SubSpec};
use crate::inverse::identity_spec;
use crate::matrix::{cols, rectangular};
use crate::reduce::{
    count_nonzero_rows, eliminate, is_zero_row, pivot_scan, pivot_scan_req, pivoted, rank_spec,
    reduce_from, reduce_from_req, reduce_row, reduce_row_req, rref_req, rref_spec, step_matrix,
    step_req, step_row,
};
use crate::scalar::{abs_req, abs_spec, is_equal, is_greater, unit_laws};
use crate::vector::{seq_div, seq_div_req, seq_scl, seq_scl_req, seq_sub, seq_sub_req};

verus! {

/// The first column from `from` on where `row` differs from `zero`, or
/// the length of `row` where there is none.
pub open spec fn leading_from<K>(row: Seq<K>, zero: K, from: int) -> int
    decreases row.len() - from,
{
    if from < 0 || from >= row.len() {
        row.len() as int
    } else if row[from] != zero {
        from
    } else {
        leading_from(row, zero, from + 1)
    }
}

/// The column of the leading entry of `row`, or the length of `row`
/// where every entry is `zero`.
pub open spec fn leading<K>(row: Seq<K>, zero: K) -> int {
    leading_from(row, zero, 0)
}

/// `m` is in reduced row echelon form: every leading entry stands
/// strictly to the right of those of the rows above, zero rows come
/// last, and every leading entry is `one` and the only entry of its
/// column that differs from `zero`.
pub open spec fn is_rref<K>(m: Seq<Seq<K>>, zero: K, one: K) -> bool {
    &&& rectangular(m)
    &&& forall|i: int, k: int|
        #![trigger m[i], m[k]]
        0 <= i < k < m.len() ==> leading(m[k], zero) == cols(m) || leading(m[i], zero) < leading(
            m[k],
            zero,
        )
    &&& forall|i: int|
        0 <= i < m.len() && leading(#[trigger] m[i], zero) < cols(m) ==> m[i][leading(
            m[i],
            zero,
        )] == one
    &&& forall|i: int, k: int|
        #![trigger m[i], m[k]]
        0 <= i < m.len() && 0 <= k < m.len() && k != i && leading(m[i], zero) < cols(m)
            ==> m[k][leading(m[i], zero)] == zero
}

/// The leading column from `from` on lies between `from` and the length
/// of the row; the entries before it are `zero`, the entry at it is not.
pub proof fn lemma_leading<K>(row: Seq<K>, zero: K, from: int)
    requires
        0 <= from <= row.len(),
    ensures
        from <= leading_from(row, zero, from) <= row.len(),
        forall|j: int| from <= j < leading_from(row, zero, from) ==> row[j] == zero,
        leading_from(row, zero, from) < row.len() ==> row[leading_from(row, zero, from)] != zero,
    decreases row.len() - from,
{
    if from < row.len() && row[from] == zero {
        lemma_leading(row, zero, from + 1);
    }
}

/// A scan of entries that are all `zero` finds no pivot.
pub proof fn lemma_scan_zero<
    K: core::ops::Sub<Output = K> + core::ops::Mul<Output = K> + core::ops::Div<Output = K>
        + core::ops::Neg<Output = K> + PartialOrd,
>(m: Seq<Seq<K>>, c: int, zero: K, one: K, lo: int, hi: int)
    requires
        unit_laws(zero, one),
        lo <= hi,
        forall|i: int| lo <= i < hi ==> (#[trigger] m[i])[c] == zero,
    ensures
        pivot_scan(m, c, zero, lo, hi) == (zero, lo),
        pivot_scan_req(m, c, zero, lo, hi),
    decreases hi - lo,
{
    if lo < hi {
        lemma_scan_zero(m, c, zero, one, lo, hi - 1);
        assert(m[hi - 1][c] == zero);
        assert(is_equal(zero, zero) == (zero == zero));
    }
}

/// A scan that starts at an entry `one` above entries that are all
/// `zero` finds that first entry.
pub proof fn lemma_scan_unit<
    K: core::ops::Sub<Output = K> + core::ops::Mul<Output = K> + core::ops::Div<Output = K>
        + core::ops::Neg<Output = K> + PartialOrd,
>(m: Seq<Seq<K>>, c: int, zero: K, one: K, lo: int, hi: int)
    requires
        unit_laws(zero, one),
        lo < hi,
        m[lo][c] == one,
        forall|i: int| lo < i < hi ==> (#[trigger] m[i])[c] == zero,
    ensures
        pivot_scan(m, c, zero, lo, hi) == (one, lo),
        pivot_scan_req(m, c, zero, lo, hi),
    decreases hi - lo,
{
    assert(is_equal(one, zero) == (one == zero));
    assert(is_equal(zero, zero) == (zero == zero));
    assert(abs_spec(one, zero) == one);
    assert(abs_spec(zero, zero) == zero);
    if hi == lo + 1 {
        assert(pivot_scan(m, c, zero, lo, lo) == (zero, lo));
    } else {
        lemma_scan_unit(m, c, zero, one, lo, hi - 1);
        assert(m[hi - 1][c] == zero);
    }
    assert forall|i: int| lo <= i < hi implies abs_req((#[trigger] m[i])[c], zero) by {
        if i > lo {
            assert(m[i][c] == zero);
        }
    }
}

/// Elimination resumed at row `r` and column `c` of a reduced matrix,
/// where the rows above `r` lead before column `c` and the others do
/// not, stays within the range of the scalars and changes nothing.
pub proof fn lemma_reduce_fixed<
    K: core::ops::Sub<Output = K> + core::ops::Mul<Output = K> + core::ops::Div<Output = K>
        + core::ops::Neg<Output = K> + PartialOrd,
>(m: Seq<Seq<K>>, r: int, c: int, zero: K, one: K)
    requires
        unit_laws(zero, one),
        is_rref(m, zero, one),
        0 <= r <= m.len(),
        0 <= c <= cols(m),
        forall|i: int| 0 <= i < r ==> leading(#[trigger] m[i], zero) < c,
        forall|i: int| r <= i < m.len() ==> leading(#[trigger] m[i], zero) >= c,
    ensures
        reduce_from_req(m, r, c, cols(m) as int, zero),
        reduce_from(m, r, c, cols(m) as int, zero) == m,
    decreases cols(m) - c,
{
    let n = cols(m) as int;
    if c < n && r < m.len() {
        assert forall|i: int| 0 <= i < m.len() implies (#[trigger] m[i]).len() == n && 0
            <= leading(m[i], zero) <= n && (forall|j: int|
            0 <= j < leading(m[i], zero) ==> m[i][j] == zero) by {
            lemma_leading(m[i], zero, 0);
        }
        let lead = leading(m[r], zero);
        if lead == c {
            assert(m[r][c] == one);
            assert forall|i: int| r < i < m.len() implies (#[trigger] m[i])[c] == zero by {
                assert(m[i][leading(m[r], zero)] == zero);
            }
            lemma_scan_unit(m, c, zero, one, r, m.len() as int);
            assert(is_equal(one, zero) == (one == zero));
            assert(seq_div_req(m[r], one));
            assert(seq_div(m[r], one) =~= m[r]);
            assert(pivoted(m, r, r, one) =~= m);
            assert forall|i: int| 0 <= i < m.len() && i != r implies reduce_row_req(
                #[trigger] m[i],
                m[r],
                c,
            ) && reduce_row(m[i], m[r], c) == m[i] by {
                assert(m[i][leading(m[r], zero)] == zero);
                assert(m[i][c] == zero);
                let scaled = seq_scl(m[r], zero);
                assert(seq_scl_req(m[r], zero));
                assert forall|j: int| 0 <= j < m[i].len() implies (#[trigger] m[i][j]).sub_req(
                    scaled[j],
                ) by {
                    assert(scaled[j] == m[r][j].mul_spec(zero));
                }
                assert(seq_sub_req(m[i], scaled));
                assert forall|j: int| 0 <= j < m[i].len() implies seq_sub(m[i], scaled)[j]
                    == m[i][j] by {
                    assert(scaled[j] == m[r][j].mul_spec(zero));
                    assert(m[i][j].sub_spec(zero) == m[i][j]);
                }
                assert(seq_sub(m[i], scaled) =~= m[i]);
            }
            assert(eliminate(m, r, c) =~= m);
            assert(step_matrix(m, r, c, zero) == m);
            assert(step_row(m, r, c, zero) == r + 1);
            assert(step_req(m, r, c, zero));
            assert forall|i: int| r + 1 <= i < m.len() implies leading(#[trigger] m[i], zero) >= c
                + 1 by {
                assert(leading(m[i], zero) == cols(m) || leading(m[r], zero) < leading(
                    m[i],
                    zero,
                ));
            }
            lemma_reduce_fixed(m, r + 1, c + 1, zero, one);
        } else {
            assert forall|i: int| r <= i < m.len() implies (#[trigger] m[i])[c] == zero by {
                if i > r {
                    assert(leading(m[i], zero) == cols(m) || leading(m[r], zero) < leading(
                        m[i],
                        zero,
                    ));
                }
            }
            lemma_scan_zero(m, c, zero, one, r, m.len() as int);
            assert(is_equal(zero, zero) == (zero == zero));
            assert(step_matrix(m, r, c, zero) == m);
            assert(step_row(m, r, c, zero) == r);
            assert(step_req(m, r, c, zero));
            assert forall|i: int| r <= i < m.len() implies leading(#[trigger] m[i], zero) >= c
                + 1 by {
                if leading(m[i], zero) < n {
                    assert(m[i][leading(m[i], zero)] == one);
                }
            }
            lemma_reduce_fixed(m, r, c + 1, zero, one);
        }
    }
}

/// Row reduction is idempotent: a matrix in reduced row echelon form can
/// always be reduced, and reducing it gives the same matrix.
pub proof fn lemma_rref_idempotent<
    K: core::ops::Sub<Output = K> + core::ops::Mul<Output = K> + core::ops::Div<Output = K>
        + core::ops::Neg<Output = K> + PartialOrd,
>(m: Seq<Seq<K>>, zero: K, one: K)
    requires
        unit_laws(zero, one),
        is_rref(m, zero, one),
    ensures
        rref_req(m, zero),
        rref_spec(m, zero) == m,
{
    assert forall|i: int| 0 <= i < m.len() implies leading(#[trigger] m[i], zero) >= 0 by {
        lemma_leading(m[i], zero, 0);
    }
    lemma_reduce_fixed(m, 0, 0, zero, one);
}

/// Row `i` of the identity matrix leads at column `i`.
pub proof fn lemma_identity_leading<K>(n: nat, zero: K, one: K, i: int)
    requires
        one != zero,
        0 <= i < n,
    ensures
        leading(identity_spec(n, zero, one)[i], zero) == i,
{
    let row = identity_spec(n, zero, one)[i];
    lemma_leading(row, zero, 0);
    let lead = leading(row, zero);
    assert(row[i] == one);
    if lead > i {
        assert(row[i] == zero);
    }
    if lead < i {
        assert(row[lead] == zero);
    }
}

/// The identity matrix is in reduced row echelon form.
pub proof fn lemma_identity_is_rref<K>(n: nat, zero: K, one: K)
    requires
        one != zero,
    ensures
        is_rref(identity_spec(n, zero, one), zero, one),
{
    let m = identity_spec(n, zero, one);
    assert forall|i: int| 0 <= i < m.len() implies leading(#[trigger] m[i], zero) == i by {
        lemma_identity_leading(n, zero, one, i);
    }
    assert(rectangular(m));
}

/// Where none of the first `k` rows is zero, all `k` count.
pub proof fn lemma_count_full<K: PartialEq>(m: Seq<Seq<K>>, zero: K, k: nat)
    requires
        k <= m.len(),
        forall|i: int| 0 <= i < k ==> !is_zero_row(#[trigger] m[i], zero),
    ensures
        count_nonzero_rows(m, zero, k) == k,
    decreases k,
{
    if k > 0 {
        lemma_count_full(m, zero, (k - 1) as nat);
        assert(!is_zero_row(m[k - 1], zero));
    }
}

/// The identity matrix of order `n` has rank `n`, and can always be
/// reduced.
pub proof fn lemma_identity_rank<
    K: core::ops::Sub<Output = K> + core::ops::Mul<Output = K> + core::ops::Div<Output = K>
        + core::ops::Neg<Output = K> + PartialOrd,
>(n: nat, zero: K, one: K)
    requires
        unit_laws(zero, one),
    ensures
        rref_req(identity_spec(n, zero, one), zero),
        rank_spec(identity_spec(n, zero, one), zero) == n,
{
    let m = identity_spec(n, zero, one);
    lemma_identity_is_rref(n, zero, one);
    lemma_rref_idempotent(m, zero, one);
    assert forall|i: int| 0 <= i < n implies !is_zero_row(#[trigger] m[i], zero) by {
        assert(m[i][i] == one);
        assert(is_equal(m[i][i], zero) == (m[i][i] == zero));
    }
    lemma_count_full(m, zero, n);
}

} // verus!
