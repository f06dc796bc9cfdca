//! The inverse of a square matrix: in closed form at order two, else by
//! reducing the matrix augmented with the identity.

use vstd::prelude::*;
use vstd::std_specs::ops::{DivSpec, NegSpec};
use crate::determinant::{det_req, det_spec};
use crate::matrix::{cols, mat_scl, mat_scl_req, rectangular, Matrix};
use crate::reduce::{rank_spec, rref_req, rref_spec};
use crate::scalar::{is_default, obeys_field_spec};

verus! {

/// `one` is a value that `K::from(1)` returns: the unit of the scalar type.
pub open spec fn is_unit<K: core::convert::From<i8>>(one: K) -> bool {
    call_ensures(K::from, (1i8,), one)
}

/// The identity matrix of order `n`: `one` on the diagonal, `zero` elsewhere.
pub open spec fn identity_spec<K>(n: nat, zero: K, one: K) -> Seq<Seq<K>> {
    Seq::new(
        n,
        |i: int|
            Seq::new(
                n,
                |j: int|
                    if i == j {
                        one
                    } else {
                        zero
                    },
            ),
    )
}

/// `m` with the matching row of `right` joined to the right of each row.
pub open spec fn augment<K>(m: Seq<Seq<K>>, right: Seq<Seq<K>>) -> Seq<Seq<K>> {
    Seq::new(m.len(), |i: int| m[i] + right[i])
}

/// `m` without the first `n` entries of each row.
pub open spec fn right_half<K>(m: Seq<Seq<K>>, n: int) -> Seq<Seq<K>> {
    Seq::new(m.len(), |i: int| m[i].subrange(n, m[i].len() as int))
}

/// A matrix of order two with its diagonal entries swapped and the two
/// others negated.
pub open spec fn adjugate_2<K: core::ops::Neg<Output = K>>(m: Seq<Seq<K>>) -> Seq<Seq<K>> {
    seq![seq![m[1][1], m[0][1].neg_spec()], seq![m[1][0].neg_spec(), m[0][0]]]
}

/// The inverse of a square matrix of full rank: the adjugate times the
/// reciprocal of the determinant at order two, else the right half of
/// the reduced form of the matrix augmented with the identity.
pub open spec fn inverse_spec<
    K: core::ops::Add<Output = K> + core::ops::Sub<Output = K> + core::ops::Mul<Output = K>
        + core::ops::Div<Output = K> + core::ops::Neg<Output = K> + PartialOrd,
>(m: Seq<Seq<K>>, zero: K, one: K) -> Seq<Seq<K>> {
    if m.len() == 2 {
        mat_scl(adjugate_2(m), one.div_spec(det_spec(m)))
    } else {
        right_half(
            rref_spec(augment(m, identity_spec(m.len(), zero, one)), zero),
            m.len() as int,
        )
    }
}

/// What inverting `m` gives: an error where `m` is not square or not of
/// full rank, else its inverse.
pub open spec fn inverse_outcome<
    K: core::ops::Add<Output = K> + core::ops::Sub<Output = K> + core::ops::Mul<Output = K>
        + core::ops::Div<Output = K> + core::ops::Neg<Output = K> + PartialOrd,
>(m: Seq<Seq<K>>, zero: K, one: K) -> Result<Seq<Seq<K>>, Seq<char>> {
    if m.len() != cols(m) {
        Err("Matrix is not square"@)
    } else if rank_spec(m, zero) < m.len() {
        Err("Matrix is singular"@)
    } else {
        Ok(inverse_spec(m, zero, one))
    }
}

/// Every operation that inverting `m` performs stays within the range
/// of `K`.
pub open spec fn inverse_req<
    K: core::ops::Add<Output = K> + core::ops::Sub<Output = K> + core::ops::Mul<Output = K>
        + core::ops::Div<Output = K> + core::ops::Neg<Output = K> + PartialOrd,
>(m: Seq<Seq<K>>, zero: K, one: K) -> bool {
    m.len() == cols(m) ==> {
        &&& rref_req(m, zero)
        &&& rank_spec(m, zero) >= m.len() ==> if m.len() == 2 {
            &&& det_req(m)
            &&& m[0][1].neg_req()
            &&& m[1][0].neg_req()
            &&& one.div_req(det_spec(m))
            &&& mat_scl_req(adjugate_2(m), one.div_spec(det_spec(m)))
        } else {
            rref_req(augment(m, identity_spec(m.len(), zero, one)), zero)
        }
    }
}

/// The outcome of an inversion, as sequences.
pub open spec fn outcome_view<K>(r: Result<Matrix<K>, String>) -> Result<Seq<Seq<K>>, Seq<char>> {
    match r {
        Ok(m) => Ok(m@),
        Err(e) => Err(e@),
    }
}

/// The identity matrix of order `n`.
pub fn identity_of<K: Copy>(n: usize, zero: K, one: K) -> (r: Vec<Vec<K>>)
    ensures
        r@.len() == n,
        forall|i: int| 0 <= i < n ==> (#[trigger] r@[i])@ == identity_spec(n as nat, zero, one)[i],
{
    let mut out: Vec<Vec<K>> = Vec::with_capacity(n);
    let mut i: usize = 0;
    while i < n
        invariant
            i <= n,
            out@.len() == i,
            forall|k: int| 0 <= k < i ==> (#[trigger] out@[k])@ == identity_spec(n as nat, zero, one)[k],
        decreases n - i,
    {
        let mut row: Vec<K> = Vec::with_capacity(n);
        let mut j: usize = 0;
        while j < n
            invariant
                j <= n,
                i < n,
                row@.len() == j,
                forall|k: int| 0 <= k < j ==> row@[k] == (if k == i { one } else { zero }),
            decreases n - j,
        {
            row.push(if j == i { one } else { zero });
            j += 1;
        }
        assert(row@ =~= identity_spec(n as nat, zero, one)[i as int]);
        out.push(row);
        i += 1;
    }
    out
}

impl<K: Copy + core::ops::Add<Output = K> + core::ops::Sub<Output = K> + core::ops::Mul<Output = K> + PartialOrd> Matrix<K> {
    /// The identity matrix with as many rows as `self`.
    pub fn identity_matrix(&self) -> (r: Matrix<K>) where
        K: core::default::Default + core::convert::From<i8>,

        ensures
            exists|zero: K, one: K|
                #![trigger is_default(zero), is_unit(one)]
                is_default(zero) && is_unit(one) && r@ == identity_spec(self@.len(), zero, one),
    {
        let zero = K::default();
        let one = K::from(1i8);
        let r = Matrix { positions: identity_of(self.positions.len(), zero, one) };
        assert(is_default(zero) && is_unit(one));
        assert(r@ =~= identity_spec(self@.len(), zero, one));
        r
    }

    /// The inverse of `self`, with `zero` and `one` as the zero and the
    /// unit of `K`, or why there is none.
    pub fn inverse_with(&self, zero: K, one: K) -> (r: Result<Matrix<K>, String>) where
        K: core::ops::Div<Output = K> + core::ops::Neg<Output = K>,

        requires
            obeys_field_spec::<K>(),
            rectangular(self@),
            inverse_req(self@, zero, one),
        ensures
            outcome_view(r) == inverse_outcome(self@, zero, one),
    {
        if !self.is_square() {
            return Err("Matrix is not square".to_owned());
        }
        let order = self.row_size();
        let rank = self.rank_with(zero);
        if rank < order {
            return Err("Matrix is singular".to_owned());
        }
        if order == 2 {
            assert(self@[0].len() == 2 && self@[1].len() == 2);
            let determinant = self.determinant_2();
            let mut first: Vec<K> = Vec::with_capacity(2);
            first.push(self.positions[1][1]);
            first.push(self.positions[0][1].neg());
            let mut second: Vec<K> = Vec::with_capacity(2);
            second.push(self.positions[1][0].neg());
            second.push(self.positions[0][0]);
            let mut positions: Vec<Vec<K>> = Vec::with_capacity(2);
            positions.push(first);
            positions.push(second);
            let mut result = Matrix { positions };
            assert(result@ =~= adjugate_2(self@)) by {
                assert(result@[0] =~= adjugate_2(self@)[0]);
                assert(result@[1] =~= adjugate_2(self@)[1]);
            }
            result.scl(one / determinant);
            return Ok(result);
        }
        let identity = identity_of(order, zero, one);
        let mut joined: Vec<Vec<K>> = Vec::with_capacity(order);
        let mut i: usize = 0;
        while i < order
            invariant
                i <= order,
                order == self@.len(),
                order == cols(self@),
                rectangular(self@),
                identity@.len() == order,
                forall|k: int| 0 <= k < order ==> (#[trigger] identity@[k])@ == identity_spec(order as nat, zero, one)[k],
                joined@.len() == i,
                forall|k: int| 0 <= k < i ==> (#[trigger] joined@[k])@ == self@[k] + identity_spec(order as nat, zero, one)[k],
            decreases order - i,
        {
            assert(self@[i as int].len() == order);
            let mut row: Vec<K> = Vec::new();
            let mut j: usize = 0;
            while j < order
                invariant
                    j <= order,
                    i < order,
                    order == self@.len(),
                    self@[i as int].len() == order,
                    row@.len() == j,
                    forall|k: int| 0 <= k < j ==> row@[k] == self@[i as int][k],
                decreases order - j,
            {
                row.push(self.positions[i][j]);
                j += 1;
            }
            let mut j: usize = 0;
            while j < order
                invariant
                    j <= order,
                    i < order,
                    order == self@.len(),
                    self@[i as int].len() == order,
                    identity@.len() == order,
                    identity@[i as int]@ == identity_spec(order as nat, zero, one)[i as int],
                    row@.len() == order + j,
                    forall|k: int| 0 <= k < order ==> row@[k] == self@[i as int][k],
                    forall|k: int| 0 <= k < j ==> row@[order + k] == identity@[i as int]@[k],
                decreases order - j,
            {
                row.push(identity[i][j]);
                j += 1;
            }
            assert(row@ =~= self@[i as int] + identity_spec(order as nat, zero, one)[i as int]);
            joined.push(row);
            i += 1;
        }
        let augmented = Matrix { positions: joined };
        assert(augmented@ =~= augment(self@, identity_spec(order as nat, zero, one)));
        assert(rectangular(augmented@)) by {
            assert forall|k: int| 0 <= k < augmented@.len() implies (#[trigger] augmented@[k]).len()
                == cols(augmented@) by {
                assert(self@[k].len() == order);
                assert(self@[0].len() == order);
            }
        }
        let reduced = augmented.reduce(zero);
        let mut positions: Vec<Vec<K>> = Vec::with_capacity(order);
        let mut i: usize = 0;
        while i < order
            invariant
                i <= order,
                order == reduced@.len(),
                rectangular(reduced@),
                cols(reduced@) == order + order,
                positions@.len() == i,
                forall|k: int| 0 <= k < i ==> (#[trigger] positions@[k])@ == right_half(reduced@, order as int)[k],
            decreases order - i,
        {
            assert(reduced@[i as int].len() == order + order);
            let width = reduced.positions[i].len();
            let mut row: Vec<K> = Vec::with_capacity(order);
            let mut j: usize = 0;
            while j < order
                invariant
                    j <= order,
                    i < order,
                    width == order + order,
                    order == reduced@.len(),
                    reduced@[i as int].len() == order + order,
                    row@.len() == j,
                    forall|k: int| 0 <= k < j ==> row@[k] == reduced@[i as int][order + k],
                decreases order - j,
            {
                row.push(reduced.positions[i][order + j]);
                j += 1;
            }
            assert(row@ =~= right_half(reduced@, order as int)[i as int]);
            positions.push(row);
            i += 1;
        }
        let result = Matrix { positions };
        assert(result@ =~= right_half(reduced@, order as int));
        Ok(result)
    }

    /// The inverse of `self`, or why there is none: the matrix is not
    /// square, or it is singular.
    pub fn inverse(&self) -> (r: Result<Matrix<K>, String>) where
        K: core::default::Default + core::convert::From<i8> + core::ops::Div<Output = K>
            + core::ops::Neg<Output = K>,

        requires
            obeys_field_spec::<K>(),
            rectangular(self@),
            forall|zero: K, one: K|
                #![trigger is_default(zero), is_unit(one)]
                is_default(zero) && is_unit(one) ==> inverse_req(self@, zero, one),
        ensures
            exists|zero: K, one: K|
                #![trigger is_default(zero), is_unit(one)]
                is_default(zero) && is_unit(one) && outcome_view(r) == inverse_outcome(
                    self@,
                    zero,
                    one,
                ),
    {
        let zero = K::default();
        let one = K::from(1i8);
        assert(is_default(zero) && is_unit(one));
        self.inverse_with(zero, one)
    }
}

} // verus!
