//! The cross product of two vectors of the space, and linear combinations
//! of vectors.

use vstd::prelude::*;
use vstd::std_specs::ops::{AddSpec, MulSpec, SubSpec};
use crate::scalar::obeys_ring_spec;
use crate::vector::{add_of, scl_of, seq_add, seq_add_req, seq_scl, seq_scl_req, Vector};

verus! {

/// One coordinate of a cross product: `a * b - c * d`.
pub open spec fn cross_term<K: core::ops::Sub<Output = K> + core::ops::Mul<Output = K>>(
    a: K,
    b: K,
    c: K,
    d: K,
) -> K {
    a.mul_spec(b).sub_spec(c.mul_spec(d))
}

/// `a * b - c * d` can be computed within the range of `K`.
pub open spec fn cross_term_req<K: core::ops::Sub<Output = K> + core::ops::Mul<Output = K>>(
    a: K,
    b: K,
    c: K,
    d: K,
) -> bool {
    &&& a.mul_req(b)
    &&& c.mul_req(d)
    &&& a.mul_spec(b).sub_req(c.mul_spec(d))
}

/// The cross product of `u` and `v`, from their first three coordinates.
pub open spec fn cross_spec<K: core::ops::Sub<Output = K> + core::ops::Mul<Output = K>>(
    u: Seq<K>,
    v: Seq<K>,
) -> Seq<K> {
    seq![
        cross_term(u[1], v[2], u[2], v[1]),
        cross_term(u[2], v[0], u[0], v[2]),
        cross_term(u[0], v[1], u[1], v[0]),
    ]
}

/// The three coordinates of the cross product lie in the range of `K`.
pub open spec fn cross_req<K: core::ops::Sub<Output = K> + core::ops::Mul<Output = K>>(
    u: Seq<K>,
    v: Seq<K>,
) -> bool {
    &&& cross_term_req(u[1], v[2], u[2], v[1])
    &&& cross_term_req(u[2], v[0], u[0], v[2])
    &&& cross_term_req(u[0], v[1], u[1], v[0])
}

/// The cross product of two vectors of at least three coordinates; only
/// the first three count.
pub fn cross_product<K>(u: &Vector<K>, v: &Vector<K>) -> (r: Vector<K>) where
    K: Copy + core::ops::Mul<Output = K> + core::ops::Sub<Output = K> + core::ops::Add<Output = K>,

    requires
        obeys_ring_spec::<K>(),
        u@.len() >= 3,
        v@.len() >= 3,
        cross_req(u@, v@),
    ensures
        r@ == cross_spec(u@, v@),
{
    let x = u.positions[1] * v.positions[2] - u.positions[2] * v.positions[1];
    let y = u.positions[2] * v.positions[0] - u.positions[0] * v.positions[2];
    let z = u.positions[0] * v.positions[1] - u.positions[1] * v.positions[0];
    let mut positions: Vec<K> = Vec::with_capacity(3);
    positions.push(x);
    positions.push(y);
    positions.push(z);
    assert(positions@ =~= cross_spec(u@, v@));
    Vector { positions }
}

/// The sum of the first `n` vectors of `u`, each scaled by its
/// coefficient, accumulated from the left and started from the first
/// scaled vector, for `n >= 1`.
pub open spec fn combination_prefix<K: core::ops::Add<Output = K> + core::ops::Mul<Output = K>>(
    u: Seq<Vector<K>>,
    coefs: Seq<K>,
    n: nat,
) -> Seq<K>
    decreases n,
{
    if n <= 1 {
        seq_scl(u[0]@, coefs[0])
    } else {
        seq_add(combination_prefix(u, coefs, (n - 1) as nat), seq_scl(u[n - 1]@, coefs[n - 1]))
    }
}

/// No product and no partial sum of the first `n` scaled vectors leaves
/// the range of `K`.
pub open spec fn combination_prefix_req<K: core::ops::Add<Output = K> + core::ops::Mul<Output = K>>(
    u: Seq<Vector<K>>,
    coefs: Seq<K>,
    n: nat,
) -> bool
    decreases n,
{
    if n <= 1 {
        seq_scl_req(u[0]@, coefs[0])
    } else {
        &&& combination_prefix_req(u, coefs, (n - 1) as nat)
        &&& seq_scl_req(u[n - 1]@, coefs[n - 1])
        &&& seq_add_req(
            combination_prefix(u, coefs, (n - 1) as nat),
            seq_scl(u[n - 1]@, coefs[n - 1]),
        )
    }
}

/// If the first `n` scaled vectors can be summed, so can the first
/// `k <= n`.
pub proof fn lemma_combination_req_down<K: core::ops::Add<Output = K> + core::ops::Mul<Output = K>>(
    u: Seq<Vector<K>>,
    coefs: Seq<K>,
    n: nat,
    k: nat,
)
    requires
        combination_prefix_req(u, coefs, n),
        1 <= k <= n,
    ensures
        combination_prefix_req(u, coefs, k),
    decreases n,
{
    if k < n {
        lemma_combination_req_down(u, coefs, (n - 1) as nat, k);
    }
}

/// A partial combination has as many coordinates as the first vector.
pub proof fn lemma_combination_len<K: core::ops::Add<Output = K> + core::ops::Mul<Output = K>>(
    u: Seq<Vector<K>>,
    coefs: Seq<K>,
    n: nat,
)
    ensures
        combination_prefix(u, coefs, n).len() == u[0]@.len(),
    decreases n,
{
    if n > 1 {
        lemma_combination_len(u, coefs, (n - 1) as nat);
    }
}

/// The vectors of `u` all have as many coordinates as the first.
pub open spec fn same_sizes<K>(u: Seq<Vector<K>>) -> bool {
    forall|i: int| 0 <= i < u.len() ==> (#[trigger] u[i])@.len() == u[0]@.len()
}

/// The linear combination of the vectors `u` with the coefficients
/// `coefs`: each vector scaled by its coefficient, summed from the left.
pub fn linear_combination<K>(u: &[Vector<K>], coefs: &[K]) -> (r: Vector<K>) where
    K: core::ops::Add<Output = K> + core::ops::Mul<Output = K> + core::ops::Sub<Output = K> + Copy,

    requires
        obeys_ring_spec::<K>(),
        u@.len() == coefs@.len(),
        u@.len() > 0,
        same_sizes(u@),
        combination_prefix_req(u@, coefs@, u@.len()),
    ensures
        r@ == combination_prefix(u@, coefs@, u@.len()),
{
    let n = u.len();
    proof {
        lemma_combination_req_down(u@, coefs@, n as nat, 1);
    }
    let mut total: Vec<K> = scl_of(u[0].positions.as_slice(), coefs[0]);
    let mut i: usize = 1;
    while i < n
        invariant
            1 <= i <= n,
            n == u@.len(),
            n == coefs@.len(),
            obeys_ring_spec::<K>(),
            same_sizes(u@),
            combination_prefix_req(u@, coefs@, n as nat),
            total@ == combination_prefix(u@, coefs@, i as nat),
        decreases n - i,
    {
        proof {
            lemma_combination_req_down(u@, coefs@, n as nat, (i + 1) as nat);
            lemma_combination_len(u@, coefs@, i as nat);
        }
        let scaled = scl_of(u[i].positions.as_slice(), coefs[i]);
        total = add_of(total.as_slice(), scaled.as_slice());
        i += 1;
    }
    Vector { positions: total }
}

} // verus!
