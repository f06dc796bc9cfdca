//! What the contracts assume of a scalar type: which of its operators
//! follow their specification, what its zero is, and how two scalars
//! compare.

use vstd::prelude::*;
use vstd::std_specs::cmp::{PartialEqSpec, PartialOrdIs, PartialOrdSpec};
use vstd::std_specs::ops::{AddSpec, DivSpec, MulSpec, NegSpec, SubSpec};

verus! {

/// `z` is a value that `K::default()` returns: the zero of the scalar type.
pub open spec fn is_default<K: core::default::Default>(z: K) -> bool {
    call_ensures(K::default, (), z)
}

/// Addition, subtraction and multiplication on `K` follow their
/// specification.
pub open spec fn obeys_ring_spec<
    K: core::ops::Add<Output = K> + core::ops::Sub<Output = K> + core::ops::Mul<Output = K>,
>() -> bool {
    K::obeys_add_spec() && K::obeys_sub_spec() && K::obeys_mul_spec()
}

/// Equality and ordering on `K` follow their specification.
pub open spec fn obeys_order_spec<K: PartialOrd>() -> bool {
    K::obeys_eq_spec() && K::obeys_partial_cmp_spec()
}

/// Every operator that row reduction uses follows its specification.
pub open spec fn obeys_field_spec<
    K: core::ops::Add<Output = K> + core::ops::Sub<Output = K> + core::ops::Mul<Output = K>
        + core::ops::Div<Output = K> + core::ops::Neg<Output = K> + PartialOrd,
>() -> bool {
    &&& obeys_ring_spec::<K>()
    &&& K::obeys_div_spec()
    &&& K::obeys_neg_spec()
    &&& obeys_order_spec::<K>()
}

/// `a` and `b` are equal as scalars.
pub open spec fn is_equal<K: PartialEq>(a: K, b: K) -> bool {
    a.eq_spec(&b)
}

/// `a` is strictly below `b`.
pub open spec fn is_less<K: PartialOrd>(a: K, b: K) -> bool {
    a.is_lt(&b)
}

/// `a` is strictly above `b`.
pub open spec fn is_greater<K: PartialOrd>(a: K, b: K) -> bool {
    a.is_gt(&b)
}

/// The magnitude of `x`: its negation where it is below `zero`, else `x`.
pub open spec fn abs_spec<K: core::ops::Neg<Output = K> + PartialOrd>(x: K, zero: K) -> K {
    if is_less(x, zero) {
        x.neg_spec()
    } else {
        x
    }
}

/// The magnitude of `x` lies in the range of `K`.
pub open spec fn abs_req<K: core::ops::Neg<Output = K> + PartialOrd>(x: K, zero: K) -> bool {
    is_less(x, zero) ==> x.neg_req()
}

/// Multiplication on `K` is commutative, in its result and in whether
/// the result lies in the range of `K`.
pub open spec fn mul_commutes<K: core::ops::Mul<Output = K>>() -> bool {
    &&& forall|a: K, b: K| #[trigger] a.mul_spec(b) == b.mul_spec(a)
    &&& forall|a: K, b: K| #[trigger] a.mul_req(b) == b.mul_req(a)
}

/// What elimination needs of `zero` to clear a column: scalars are equal
/// only to themselves, every other scalar has a larger magnitude than
/// `zero`, `zero` stays `zero` when divided, multiplied or reduced by
/// itself, and subtracting `p / p` times a scalar from that scalar
/// leaves `zero`.
pub open spec fn zero_laws<
    K: core::ops::Sub<Output = K> + core::ops::Mul<Output = K> + core::ops::Div<Output = K>
        + core::ops::Neg<Output = K> + PartialOrd,
>(zero: K) -> bool {
    &&& forall|a: K, b: K| #[trigger] is_equal(a, b) == (a == b)
    &&& forall|x: K|
        x != zero && #[trigger] abs_req(x, zero) ==> is_greater(
            abs_spec(x, zero),
            abs_spec(zero, zero),
        )
    &&& forall|p: K| p != zero ==> #[trigger] zero.div_spec(p) == zero
    &&& forall|e: K| #[trigger] zero.mul_spec(e) == zero
    &&& zero.sub_spec(zero) == zero
    &&& forall|p: K, e: K|
        p != zero ==> #[trigger] e.sub_spec(p.div_spec(p).mul_spec(e)) == zero
}

/// What elimination needs of `zero` and `one` to reach a reduced matrix
/// and to leave one as it is: scalars are equal only to themselves, `one`
/// lies above `zero`, every scalar but `zero` divided by itself is `one`,
/// and dividing by `one`, multiplying by `zero` and subtracting `zero`
/// are always in range and give the scalar, `zero` and the scalar.
pub open spec fn unit_laws<
    K: core::ops::Sub<Output = K> + core::ops::Mul<Output = K> + core::ops::Div<Output = K>
        + core::ops::Neg<Output = K> + PartialOrd,
>(zero: K, one: K) -> bool {
    &&& forall|a: K, b: K| #[trigger] is_equal(a, b) == (a == b)
    &&& one != zero
    &&& !is_less(zero, zero)
    &&& !is_less(one, zero)
    &&& is_greater(one, zero)
    &&& forall|p: K| p != zero ==> #[trigger] p.div_spec(p) == one
    &&& forall|x: K| #[trigger] x.div_req(one)
    &&& forall|x: K| #[trigger] x.div_spec(one) == x
    &&& forall|x: K| #[trigger] x.mul_req(zero)
    &&& forall|x: K| #[trigger] x.mul_spec(zero) == zero
    &&& forall|x: K| #[trigger] x.sub_req(zero)
    &&& forall|x: K| #[trigger] x.sub_spec(zero) == x
}

/// The magnitude of `x`, with `zero` as the origin.
pub fn abs_of<K: Copy + core::ops::Neg<Output = K> + PartialOrd>(x: K, zero: K) -> (r: K)
    requires
        K::obeys_neg_spec(),
        K::obeys_partial_cmp_spec(),
        abs_req(x, zero),
    ensures
        r == abs_spec(x, zero),
{
    if x < zero {
        x.neg()
    } else {
        x
    }
}

} // verus!
