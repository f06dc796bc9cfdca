//! Laws of the kernel: what holds of every vector and every matrix,
//! proved from the definitions that the contracts use.

use vstd::prelude::*;
use vstd::std_specs::ops::{DivSpec, MulSpec, SubSpec};
use crate::echelon_laws::{lemma_rref_is_reduced, lemma_rref_twice};
use crate::inverse::identity_spec;
use crate::matrix::{cols, rectangular};
use crate::rank_laws::lemma_rank_bounded;
use crate::reduce::{rank_spec, rref_req, rref_spec};
use crate::rref_laws::{is_rref, lemma_identity_rank, lemma_rref_idempotent};
use crate::scalar::{mul_commutes, unit_laws, zero_laws};
use crate::vector::{dot_prefix, dot_prefix_req, dot_req, dot_spec};

verus! {

/// The first `n` products of `u` and `v` sum to the same scalar in either
/// order of the operands, and can be summed in one order if and only if
/// they can in the other.
pub proof fn lemma_dot_prefix_commutes<K: core::ops::Add<Output = K> + core::ops::Mul<Output = K>>(
    u: Seq<K>,
    v: Seq<K>,
    n: nat,
)
    requires
        mul_commutes::<K>(),
    ensures
        dot_prefix(u, v, n) == dot_prefix(v, u, n),
        dot_prefix_req(u, v, n) == dot_prefix_req(v, u, n),
    decreases n,
{
    if n > 1 {
        lemma_dot_prefix_commutes(u, v, (n - 1) as nat);
        assert(u[n - 1].mul_spec(v[n - 1]) == v[n - 1].mul_spec(u[n - 1]));
        assert(u[n - 1].mul_req(v[n - 1]) == v[n - 1].mul_req(u[n - 1]));
    } else {
        assert(u[0].mul_spec(v[0]) == v[0].mul_spec(u[0]));
        assert(u[0].mul_req(v[0]) == v[0].mul_req(u[0]));
    }
}

/// The dot product is commutative: over scalars whose multiplication
/// commutes, `u . v` equals `v . u` for vectors of the same length, and
/// one can be computed if and only if the other can.
pub proof fn lemma_dot_commutes<K: core::ops::Add<Output = K> + core::ops::Mul<Output = K>>(
    u: Seq<K>,
    v: Seq<K>,
)
    requires
        mul_commutes::<K>(),
        u.len() == v.len(),
    ensures
        dot_spec(u, v) == dot_spec(v, u),
        dot_req(u, v) == dot_req(v, u),
{
    lemma_dot_prefix_commutes(u, v, u.len());
}

/// Multiplication of `i32` scalars commutes.
pub proof fn lemma_mul_commutes_i32()
    ensures
        mul_commutes::<i32>(),
{
    assert forall|a: i32, b: i32| #[trigger] a.mul_spec(b) == b.mul_spec(a) by {
        assert(a * b == b * a) by (nonlinear_arith);
    }
    assert forall|a: i32, b: i32| #[trigger] a.mul_req(b) == b.mul_req(a) by {
        assert(a * b == b * a) by (nonlinear_arith);
    }
}

/// Multiplication of `i64` scalars commutes.
pub proof fn lemma_mul_commutes_i64()
    ensures
        mul_commutes::<i64>(),
{
    assert forall|a: i64, b: i64| #[trigger] a.mul_spec(b) == b.mul_spec(a) by {
        assert(a * b == b * a) by (nonlinear_arith);
    }
    assert forall|a: i64, b: i64| #[trigger] a.mul_req(b) == b.mul_req(a) by {
        assert(a * b == b * a) by (nonlinear_arith);
    }
}

/// The dot product of `i32` vectors of the same length is commutative.
pub proof fn lemma_dot_commutes_i32(u: Seq<i32>, v: Seq<i32>)
    requires
        u.len() == v.len(),
    ensures
        dot_spec(u, v) == dot_spec(v, u),
        dot_req(u, v) == dot_req(v, u),
{
    lemma_mul_commutes_i32();
    lemma_dot_commutes(u, v);
}

/// The dot product of `i64` vectors of the same length is commutative.
pub proof fn lemma_dot_commutes_i64(u: Seq<i64>, v: Seq<i64>)
    requires
        u.len() == v.len(),
    ensures
        dot_spec(u, v) == dot_spec(v, u),
        dot_req(u, v) == dot_req(v, u),
{
    lemma_mul_commutes_i64();
    lemma_dot_commutes(u, v);
}

/// `0` is a zero of the `i32` scalars as elimination needs it.
pub proof fn lemma_zero_laws_i32()
    ensures
        zero_laws::<i32>(0i32),
{
    assert forall|p: i32| p != 0i32 implies #[trigger] 0i32.div_spec(p) == 0i32 by {
        assert(0int / (p as int) == 0) by (nonlinear_arith)
            requires
                p != 0,
        ;
    }
    assert forall|e: i32| #[trigger] 0i32.mul_spec(e) == 0i32 by {
        assert(0 * e == 0) by (nonlinear_arith);
    }
    assert forall|p: i32, e: i32| p != 0i32 implies #[trigger] e.sub_spec(
        p.div_spec(p).mul_spec(e),
    ) == 0i32 by {
        lemma_self_quotient(p as int);
        assert(p.div_spec(p) == 1i32);
        assert(1 * e == e) by (nonlinear_arith);
    }
}

/// `0` is a zero of the `i64` scalars as elimination needs it.
pub proof fn lemma_zero_laws_i64()
    ensures
        zero_laws::<i64>(0i64),
{
    assert forall|p: i64| p != 0i64 implies #[trigger] 0i64.div_spec(p) == 0i64 by {
        assert(0int / (p as int) == 0) by (nonlinear_arith)
            requires
                p != 0,
        ;
    }
    assert forall|e: i64| #[trigger] 0i64.mul_spec(e) == 0i64 by {
        assert(0 * e == 0) by (nonlinear_arith);
    }
    assert forall|p: i64, e: i64| p != 0i64 implies #[trigger] e.sub_spec(
        p.div_spec(p).mul_spec(e),
    ) == 0i64 by {
        lemma_self_quotient(p as int);
        assert(p.div_spec(p) == 1i64);
        assert(1 * e == e) by (nonlinear_arith);
    }
}

/// A non-zero integer divided by itself is one; its opposite divided by
/// it is minus one.
pub proof fn lemma_self_quotient(p: int)
    requires
        p != 0,
    ensures
        p / p == 1,
        (-p) / p == -1,
{
    assert(p / p == 1) by (nonlinear_arith)
        requires
            p != 0,
    ;
    assert((-p) / p == -1) by (nonlinear_arith)
        requires
            p != 0,
    ;
}

/// `0` and `1` are a zero and a unit of the `i32` scalars as elimination
/// needs them.
pub proof fn lemma_unit_laws_i32()
    ensures
        unit_laws::<i32>(0i32, 1i32),
{
    assert forall|p: i32| p != 0i32 implies #[trigger] p.div_spec(p) == 1i32 by {
        lemma_self_quotient(p as int);
    }
    assert forall|x: i32| #[trigger] x.div_spec(1i32) == x by {
        lemma_unit_quotient(x as int);
    }
    assert forall|x: i32| #[trigger] x.mul_req(0i32) by {
        assert(x * 0 == 0) by (nonlinear_arith);
    }
    assert forall|x: i32| #[trigger] x.mul_spec(0i32) == 0i32 by {
        assert(x * 0 == 0) by (nonlinear_arith);
    }
}

/// `0` and `1` are a zero and a unit of the `i64` scalars as elimination
/// needs them.
pub proof fn lemma_unit_laws_i64()
    ensures
        unit_laws::<i64>(0i64, 1i64),
{
    assert forall|p: i64| p != 0i64 implies #[trigger] p.div_spec(p) == 1i64 by {
        lemma_self_quotient(p as int);
    }
    assert forall|x: i64| #[trigger] x.div_spec(1i64) == x by {
        lemma_unit_quotient(x as int);
    }
    assert forall|x: i64| #[trigger] x.mul_req(0i64) by {
        assert(x * 0 == 0) by (nonlinear_arith);
    }
    assert forall|x: i64| #[trigger] x.mul_spec(0i64) == 0i64 by {
        assert(x * 0 == 0) by (nonlinear_arith);
    }
}

/// An integer divided by one is itself.
pub proof fn lemma_unit_quotient(x: int)
    ensures
        x / 1 == x,
{
    assert(x / 1 == x) by (nonlinear_arith);
}

/// Reducing an `i32` matrix in reduced row echelon form is always
/// possible and gives the same matrix.
pub proof fn lemma_rref_idempotent_i32(m: Seq<Seq<i32>>)
    requires
        is_rref(m, 0i32, 1i32),
    ensures
        rref_req(m, 0i32),
        rref_spec(m, 0i32) == m,
{
    lemma_unit_laws_i32();
    lemma_rref_idempotent(m, 0i32, 1i32);
}

/// The rank of an `i32` matrix that can be reduced is at most its number
/// of rows and at most its number of columns.
pub proof fn lemma_rank_bounded_i32(m: Seq<Seq<i32>>)
    requires
        rectangular(m),
        rref_req(m, 0i32),
    ensures
        rank_spec(m, 0i32) <= m.len(),
        rank_spec(m, 0i32) <= cols(m),
{
    lemma_zero_laws_i32();
    lemma_rank_bounded(m, 0i32);
}

/// The `i32` identity matrix of order `n` has rank `n`.
pub proof fn lemma_identity_rank_i32(n: nat)
    ensures
        rref_req(identity_spec(n, 0i32, 1i32), 0i32),
        rank_spec(identity_spec(n, 0i32, 1i32), 0i32) == n,
{
    lemma_unit_laws_i32();
    lemma_identity_rank(n, 0i32, 1i32);
}

/// Reducing an `i64` matrix in reduced row echelon form is always
/// possible and gives the same matrix.
pub proof fn lemma_rref_idempotent_i64(m: Seq<Seq<i64>>)
    requires
        is_rref(m, 0i64, 1i64),
    ensures
        rref_req(m, 0i64),
        rref_spec(m, 0i64) == m,
{
    lemma_unit_laws_i64();
    lemma_rref_idempotent(m, 0i64, 1i64);
}

/// The rank of an `i64` matrix that can be reduced is at most its number
/// of rows and at most its number of columns.
pub proof fn lemma_rank_bounded_i64(m: Seq<Seq<i64>>)
    requires
        rectangular(m),
        rref_req(m, 0i64),
    ensures
        rank_spec(m, 0i64) <= m.len(),
        rank_spec(m, 0i64) <= cols(m),
{
    lemma_zero_laws_i64();
    lemma_rank_bounded(m, 0i64);
}

/// The `i64` identity matrix of order `n` has rank `n`.
pub proof fn lemma_identity_rank_i64(n: nat)
    ensures
        rref_req(identity_spec(n, 0i64, 1i64), 0i64),
        rank_spec(identity_spec(n, 0i64, 1i64), 0i64) == n,
{
    lemma_unit_laws_i64();
    lemma_identity_rank(n, 0i64, 1i64);
}

/// Reducing an `i32` matrix gives a matrix in reduced row echelon form,
/// which reducing again leaves as it is.
pub proof fn lemma_rref_is_reduced_i32(m: Seq<Seq<i32>>)
    requires
        rectangular(m),
        rref_req(m, 0i32),
    ensures
        is_rref(rref_spec(m, 0i32), 0i32, 1i32),
        rref_req(rref_spec(m, 0i32), 0i32),
        rref_spec(rref_spec(m, 0i32), 0i32) == rref_spec(m, 0i32),
{
    lemma_zero_laws_i32();
    lemma_unit_laws_i32();
    lemma_rref_is_reduced(m, 0i32, 1i32);
    lemma_rref_twice(m, 0i32, 1i32);
}

/// Reducing an `i64` matrix gives a matrix in reduced row echelon form,
/// which reducing again leaves as it is.
pub proof fn lemma_rref_is_reduced_i64(m: Seq<Seq<i64>>)
    requires
        rectangular(m),
        rref_req(m, 0i64),
    ensures
        is_rref(rref_spec(m, 0i64), 0i64, 1i64),
        rref_req(rref_spec(m, 0i64), 0i64),
        rref_spec(rref_spec(m, 0i64), 0i64) == rref_spec(m, 0i64),
{
    lemma_zero_laws_i64();
    lemma_unit_laws_i64();
    lemma_rref_is_reduced(m, 0i64, 1i64);
    lemma_rref_twice(m, 0i64, 1i64);
}

} // verus!
