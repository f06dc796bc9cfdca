//! What elimination reaches is in reduced row echelon form.

use vstd::prelude::*;
use vstd::std_specs::ops::{DivSpec, MulSpec, SubSpec};
use crate::matrix::{cols, rectangular};
use crate::rank_laws::{cleared_below, grid, lemma_scan_finds, lemma_step_clears};
use crate::reduce::{
    eliminate, pivot_scan, pivoted, reduce_from, reduce_from_req, rref_req, rref_spec,
    step_matrix, step_req, step_row,
};
use crate::rref_laws::{is_rref, leading, lemma_leading, lemma_rref_idempotent};
use crate::scalar::{is_equal, unit_laws, zero_laws};
use crate::vector::{seq_div, seq_scl, seq_sub};

verus! {

/// Elimination has reached row `r` and column `c` of `m`: the rows above
/// `r` lead with `one`, each strictly to the right of the row above it
/// and before column `c`, their leading entries are alone in their
/// columns, and the rows from `r` down are zero before column `c`.
pub open spec fn partly_reduced<K>(m: Seq<Seq<K>>, r: int, c: int, n: int, zero: K, one: K) -> bool {
    &&& grid(m, n)
    &&& 0 <= r <= m.len()
    &&& r <= c <= n
    &&& cleared_below(m, r, c, zero)
    &&& forall|i: int|
        0 <= i < r ==> 0 <= leading(#[trigger] m[i], zero) < c && m[i][leading(m[i], zero)]
            == one
    &&& forall|i: int, k: int|
        #![trigger m[i], m[k]]
        0 <= i < r && 0 <= k < m.len() && k != i ==> m[k][leading(m[i], zero)] == zero
    &&& forall|i: int, k: int|
        #![trigger m[i], m[k]]
        0 <= i < k < r ==> leading(m[i], zero) < leading(m[k], zero)
}

/// A row that is zero before column `c` and not at column `c` leads there.
pub proof fn lemma_leading_at<K>(row: Seq<K>, zero: K, c: int)
    requires
        0 <= c < row.len(),
        forall|j: int| 0 <= j < c ==> row[j] == zero,
        row[c] != zero,
    ensures
        leading(row, zero) == c,
{
    lemma_leading(row, zero, 0);
    let lead = leading(row, zero);
    if lead < c {
        assert(row[lead] == zero);
    }
}

/// A row that agrees before column `c` with a row that leads before
/// column `c` leads at the same column.
pub proof fn lemma_leading_agrees<K>(row: Seq<K>, other: Seq<K>, zero: K, c: int)
    requires
        row.len() == other.len(),
        0 <= c <= row.len(),
        forall|j: int| 0 <= j < c ==> row[j] == other[j],
        0 <= leading(row, zero) < c,
    ensures
        leading(other, zero) == leading(row, zero),
{
    lemma_leading(row, zero, 0);
    let lead = leading(row, zero);
    assert forall|j: int| 0 <= j < lead implies other[j] == zero by {
        assert(row[j] == zero);
    }
    assert(other[lead] == row[lead]);
    lemma_leading_at(other, zero, lead);
}

/// One step of the elimination leads from one state of a partly reduced
/// matrix to the next.
pub proof fn lemma_step_reduces<
    K: core::ops::Sub<Output = K> + core::ops::Mul<Output = K> + core::ops::Div<Output = K>
        + core::ops::Neg<Output = K> + PartialOrd,
>(m: Seq<Seq<K>>, r: int, c: int, n: int, zero: K, one: K)
    requires
        zero_laws(zero),
        unit_laws(zero, one),
        partly_reduced(m, r, c, n, zero, one),
        r < m.len(),
        c < n,
        step_req(m, r, c, zero),
    ensures
        step_matrix(m, r, c, zero).len() == m.len(),
        partly_reduced(
            step_matrix(m, r, c, zero),
            step_row(m, r, c, zero),
            c + 1,
            n,
            zero,
            one,
        ),
{
    lemma_step_clears(m, r, c, n, zero);
    let found = pivot_scan(m, c, zero, r, m.len() as int);
    lemma_scan_finds(m, c, zero, r, m.len() as int);
    assert(is_equal(found.0, zero) == (found.0 == zero));
    if found.0 != zero {
        let p = found.1;
        let pivot = found.0;
        let m1 = pivoted(m, r, p, pivot);
        let m2 = eliminate(m1, r, c);
        assert(m[p].len() == n && m[r].len() == n);
        assert(m1[r] == seq_div(m[p], pivot));
        assert(m2[r] == m1[r]);
        assert forall|i: int| 0 <= i < m.len() implies (#[trigger] m1[i]).len() == n by {
            if i != r && i != p {
                assert(m1[i] == m[i]);
            }
        }
        // The pivot row leads at column `c` with `one`.
        assert forall|j: int| 0 <= j < c implies m2[r][j] == zero by {
            assert(m[p][j] == zero);
            assert(m2[r][j] == m[p][j].div_spec(pivot));
        }
        assert(m2[r][c] == one) by {
            assert(m[p][c] == pivot);
            assert(m2[r][c] == m[p][c].div_spec(pivot));
        }
        lemma_leading_at(m2[r], zero, c);
        // Every other row keeps its entries before column `c` and is
        // cleared at column `c`.
        assert forall|i: int, j: int| 0 <= i < m.len() && i != r && 0 <= j < c implies (
        #[trigger] m2[i][j]) == m1[i][j] by {
            assert(m2[i] == seq_sub(m1[i], seq_scl(m1[r], m1[i][c])));
            assert(m1[i].len() == n);
            assert(m2[i][j] == m1[i][j].sub_spec(m1[r][j].mul_spec(m1[i][c])));
            assert(m1[r][j] == zero);
            assert(zero.mul_spec(m1[i][c]) == zero);
            assert(m1[i][j].sub_spec(zero) == m1[i][j]);
        }
        assert forall|i: int| 0 <= i < m.len() && i != r implies (#[trigger] m2[i])[c]
            == zero by {
            assert(m2[i] == seq_sub(m1[i], seq_scl(m1[r], m1[i][c])));
            assert(m1[i].len() == n);
            assert(m2[i][c] == m1[i][c].sub_spec(m1[r][c].mul_spec(m1[i][c])));
            assert(m1[r][c] == pivot.div_spec(pivot));
            assert(m1[i][c].sub_spec(pivot.div_spec(pivot).mul_spec(m1[i][c])) == zero);
        }
        // The rows above `r` lead where they led.
        assert forall|i: int| 0 <= i < r implies leading(#[trigger] m2[i], zero) == leading(
            m[i],
            zero,
        ) by {
            assert(m1[i] == m[i]);
            assert(m[i].len() == n);
            assert(m2[i].len() == n);
            assert forall|j: int| 0 <= j < c implies m[i][j] == m2[i][j] by {
                assert(m2[i][j] == m1[i][j]);
            }
            lemma_leading_agrees(m[i], m2[i], zero, c);
        }
        assert forall|i: int| 0 <= i < r + 1 implies 0 <= leading(#[trigger] m2[i], zero) < c
            + 1 && m2[i][leading(m2[i], zero)] == one by {
            if i < r {
                let lead = leading(m[i], zero);
                assert(m1[i] == m[i]);
                assert(m2[i][lead] == m1[i][lead]);
            }
        }
        assert forall|i: int, k: int|
            #![trigger m2[i], m2[k]]
            0 <= i < r + 1 && 0 <= k < m.len() && k != i implies m2[k][leading(m2[i], zero)]
            == zero by {
            if i == r {
                assert(m2[k][c] == zero);
            } else {
                let lead = leading(m[i], zero);
                assert(leading(m2[i], zero) == lead);
                if k == r {
                    assert(m[p][lead] == zero);
                    assert(m2[r][lead] == m[p][lead].div_spec(pivot));
                } else {
                    let src = if k == p {
                        r
                    } else {
                        k
                    };
                    assert(m1[k] == m[src]);
                    assert(m[src][lead] == zero);
                    assert(m2[k][lead] == m1[k][lead]);
                }
            }
        }
        assert forall|i: int, k: int|
            #![trigger m2[i], m2[k]]
            0 <= i < k < r + 1 implies leading(m2[i], zero) < leading(m2[k], zero) by {
            assert(leading(m2[i], zero) == leading(m[i], zero));
            if k < r {
                assert(leading(m2[k], zero) == leading(m[k], zero));
            }
        }
    }
}

/// A partly reduced matrix on which elimination has come to its end is
/// in reduced row echelon form.
pub proof fn lemma_reduced_at_end<K>(m: Seq<Seq<K>>, r: int, c: int, n: int, zero: K, one: K)
    requires
        one != zero,
        partly_reduced(m, r, c, n, zero, one),
        c >= n || r >= m.len(),
    ensures
        is_rref(m, zero, one),
{
    if m.len() > 0 {
        assert(m[0].len() == n);
        assert forall|k: int| r <= k < m.len() implies leading(#[trigger] m[k], zero) == n by {
            lemma_leading(m[k], zero, 0);
            let lead = leading(m[k], zero);
            if lead < n {
                assert(m[k][lead] == zero);
            }
        }
        assert forall|i: int| 0 <= i < m.len() implies (#[trigger] m[i]).len() == cols(m) by {}
    }
}

/// Elimination resumed on a partly reduced matrix ends in reduced row
/// echelon form.
pub proof fn lemma_reduce_reduces<
    K: core::ops::Sub<Output = K> + core::ops::Mul<Output = K> + core::ops::Div<Output = K>
        + core::ops::Neg<Output = K> + PartialOrd,
>(m: Seq<Seq<K>>, r: int, c: int, n: int, zero: K, one: K)
    requires
        zero_laws(zero),
        unit_laws(zero, one),
        partly_reduced(m, r, c, n, zero, one),
        reduce_from_req(m, r, c, n, zero),
    ensures
        reduce_from(m, r, c, n, zero).len() == m.len(),
        is_rref(reduce_from(m, r, c, n, zero), zero, one),
    decreases n - c,
{
    if c >= n || r >= m.len() {
        lemma_reduced_at_end(m, r, c, n, zero, one);
    } else {
        lemma_step_reduces(m, r, c, n, zero, one);
        lemma_reduce_reduces(
            step_matrix(m, r, c, zero),
            step_row(m, r, c, zero),
            c + 1,
            n,
            zero,
            one,
        );
    }
}

/// The matrix that row reduction gives is in reduced row echelon form.
pub proof fn lemma_rref_is_reduced<
    K: core::ops::Sub<Output = K> + core::ops::Mul<Output = K> + core::ops::Div<Output = K>
        + core::ops::Neg<Output = K> + PartialOrd,
>(m: Seq<Seq<K>>, zero: K, one: K)
    requires
        zero_laws(zero),
        unit_laws(zero, one),
        rectangular(m),
        rref_req(m, zero),
    ensures
        rref_spec(m, zero).len() == m.len(),
        is_rref(rref_spec(m, zero), zero, one),
{
    lemma_reduce_reduces(m, 0, 0, cols(m) as int, zero, one);
}

/// Row reduction is idempotent: what it gives can be reduced again, and
/// reducing it again changes nothing.
pub proof fn lemma_rref_twice<
    K: core::ops::Sub<Output = K> + core::ops::Mul<Output = K> + core::ops::Div<Output = K>
        + core::ops::Neg<Output = K> + PartialOrd,
>(m: Seq<Seq<K>>, zero: K, one: K)
    requires
        zero_laws(zero),
        unit_laws(zero, one),
        rectangular(m),
        rref_req(m, zero),
    ensures
        rref_req(rref_spec(m, zero), zero),
        rref_spec(rref_spec(m, zero), zero) == rref_spec(m, zero),
{
    lemma_rref_is_reduced(m, zero, one);
    lemma_rref_idempotent(rref_spec(m, zero), zero, one);
}

} // verus!
