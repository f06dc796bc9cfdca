//! Vectors: fixed-length ordered sequences of scalars.
//!
//! The scalar type `K` is any type with the usual arithmetic operators.
//! Contracts speak of the operators through their specification functions
//! (`add_spec`, `mul_spec`, ...), so they hold for every scalar type whose
//! operators follow their specification.

use vstd::prelude::*;
use vstd::std_specs::ops::{AddSpec, DivSpec, MulSpec, SubSpec};
use crate::laws::lemma_dot_commutes;
use crate::scalar::mul_commutes;

verus! {

/// An ordered sequence of scalars; the order is the coordinate order.
#[derive(Clone, Debug)]
pub struct Vector<K> {
    pub positions: Vec<K>,
}

impl<K> View for Vector<K> {
    type V = Seq<K>;

    open spec fn view(&self) -> Seq<K> {
        self.positions@
    }
}

/// Every coordinate of `u` can be added to the matching coordinate of `v`.
pub open spec fn seq_add_req<K: core::ops::Add<Output = K>>(u: Seq<K>, v: Seq<K>) -> bool {
    forall|i: int| 0 <= i < u.len() && i < v.len() ==> (#[trigger] u[i]).add_req(v[i])
}

/// The coordinate-wise sum of `u` and `v`.
pub open spec fn seq_add<K: core::ops::Add<Output = K>>(u: Seq<K>, v: Seq<K>) -> Seq<K> {
    Seq::new(u.len(), |i: int| u[i].add_spec(v[i]))
}

/// Every coordinate of `v` can be subtracted from the matching coordinate of `u`.
pub open spec fn seq_sub_req<K: core::ops::Sub<Output = K>>(u: Seq<K>, v: Seq<K>) -> bool {
    forall|i: int| 0 <= i < u.len() && i < v.len() ==> (#[trigger] u[i]).sub_req(v[i])
}

/// The coordinate-wise difference of `u` and `v`.
pub open spec fn seq_sub<K: core::ops::Sub<Output = K>>(u: Seq<K>, v: Seq<K>) -> Seq<K> {
    Seq::new(u.len(), |i: int| u[i].sub_spec(v[i]))
}

/// Every coordinate of `u` can be multiplied by `a`.
pub open spec fn seq_scl_req<K: core::ops::Mul<Output = K>>(u: Seq<K>, a: K) -> bool {
    forall|i: int| 0 <= i < u.len() ==> (#[trigger] u[i]).mul_req(a)
}

/// `u` with every coordinate multiplied by `a` on the right.
pub open spec fn seq_scl<K: core::ops::Mul<Output = K>>(u: Seq<K>, a: K) -> Seq<K> {
    Seq::new(u.len(), |i: int| u[i].mul_spec(a))
}

/// Every coordinate of `u` can be divided by `a`.
pub open spec fn seq_div_req<K: core::ops::Div<Output = K>>(u: Seq<K>, a: K) -> bool {
    forall|i: int| 0 <= i < u.len() ==> (#[trigger] u[i]).div_req(a)
}

/// `u` with every coordinate divided by `a`.
pub open spec fn seq_div<K: core::ops::Div<Output = K>>(u: Seq<K>, a: K) -> Seq<K> {
    Seq::new(u.len(), |i: int| u[i].div_spec(a))
}

/// The sum of the first `n` products `u[i] * v[i]`, accumulated from the
/// left and started from the first product, for `n >= 1`.
pub open spec fn dot_prefix<K: core::ops::Add<Output = K> + core::ops::Mul<Output = K>>(
    u: Seq<K>,
    v: Seq<K>,
    n: nat,
) -> K
    decreases n,
{
    if n <= 1 {
        u[0].mul_spec(v[0])
    } else {
        dot_prefix(u, v, (n - 1) as nat).add_spec(u[n - 1].mul_spec(v[n - 1]))
    }
}

/// No product and no partial sum among the first `n` terms leaves the
/// range of `K`.
pub open spec fn dot_prefix_req<K: core::ops::Add<Output = K> + core::ops::Mul<Output = K>>(
    u: Seq<K>,
    v: Seq<K>,
    n: nat,
) -> bool
    decreases n,
{
    if n <= 1 {
        u[0].mul_req(v[0])
    } else {
        &&& dot_prefix_req(u, v, (n - 1) as nat)
        &&& u[n - 1].mul_req(v[n - 1])
        &&& dot_prefix(u, v, (n - 1) as nat).add_req(u[n - 1].mul_spec(v[n - 1]))
    }
}

/// The dot product of two sequences of the same non-zero length.
pub open spec fn dot_spec<K: core::ops::Add<Output = K> + core::ops::Mul<Output = K>>(
    u: Seq<K>,
    v: Seq<K>,
) -> K {
    dot_prefix(u, v, u.len())
}

/// The dot product of `u` and `v` can be computed within the range of `K`.
pub open spec fn dot_req<K: core::ops::Add<Output = K> + core::ops::Mul<Output = K>>(
    u: Seq<K>,
    v: Seq<K>,
) -> bool {
    dot_prefix_req(u, v, u.len())
}

/// A copy of the coordinates of `src`.
pub fn copy_of<K: Copy>(src: &[K]) -> (r: Vec<K>)
    ensures
        r@ == src@,
{
    let mut out: Vec<K> = Vec::with_capacity(src.len());
    let mut i: usize = 0;
    while i < src.len()
        invariant
            i <= src.len(),
            out@ == src@.subrange(0, i as int),
        decreases src.len() - i,
    {
        out.push(src[i]);
        i += 1;
    }
    assert(src@.subrange(0, i as int) == src@);
    out
}

/// The coordinate-wise sum of two slices of the same length.
pub fn add_of<K: Copy + core::ops::Add<Output = K>>(u: &[K], v: &[K]) -> (r: Vec<K>)
    requires
        u@.len() == v@.len(),
        seq_add_req(u@, v@),
    ensures
        r@.len() == u@.len(),
        K::obeys_add_spec() ==> r@ == seq_add(u@, v@),
{
    let n = u.len();
    let mut out: Vec<K> = Vec::with_capacity(n);
    let mut i: usize = 0;
    while i < n
        invariant
            i <= n,
            n == u@.len(),
            n == v@.len(),
            out@.len() == i,
            seq_add_req(u@, v@),
            K::obeys_add_spec() ==> forall|j: int|
                0 <= j < i ==> out@[j] == (#[trigger] u@[j]).add_spec(v@[j]),
        decreases n - i,
    {
        out.push(u[i] + v[i]);
        i += 1;
    }
    assert(K::obeys_add_spec() ==> out@ =~= seq_add(u@, v@));
    out
}

/// The coordinate-wise difference of two slices of the same length.
pub fn sub_of<K: Copy + core::ops::Sub<Output = K>>(u: &[K], v: &[K]) -> (r: Vec<K>)
    requires
        u@.len() == v@.len(),
        seq_sub_req(u@, v@),
    ensures
        r@.len() == u@.len(),
        K::obeys_sub_spec() ==> r@ == seq_sub(u@, v@),
{
    let n = u.len();
    let mut out: Vec<K> = Vec::with_capacity(n);
    let mut i: usize = 0;
    while i < n
        invariant
            i <= n,
            n == u@.len(),
            n == v@.len(),
            out@.len() == i,
            seq_sub_req(u@, v@),
            K::obeys_sub_spec() ==> forall|j: int|
                0 <= j < i ==> out@[j] == (#[trigger] u@[j]).sub_spec(v@[j]),
        decreases n - i,
    {
        out.push(u[i] - v[i]);
        i += 1;
    }
    assert(K::obeys_sub_spec() ==> out@ =~= seq_sub(u@, v@));
    out
}

/// The slice `u` with every coordinate multiplied by `a` on the right.
pub fn scl_of<K: Copy + core::ops::Mul<Output = K>>(u: &[K], a: K) -> (r: Vec<K>)
    requires
        seq_scl_req(u@, a),
    ensures
        r@.len() == u@.len(),
        K::obeys_mul_spec() ==> r@ == seq_scl(u@, a),
{
    let n = u.len();
    let mut out: Vec<K> = Vec::with_capacity(n);
    let mut i: usize = 0;
    while i < n
        invariant
            i <= n,
            n == u@.len(),
            out@.len() == i,
            seq_scl_req(u@, a),
            K::obeys_mul_spec() ==> forall|j: int|
                0 <= j < i ==> out@[j] == (#[trigger] u@[j]).mul_spec(a),
        decreases n - i,
    {
        out.push(u[i] * a);
        i += 1;
    }
    assert(K::obeys_mul_spec() ==> out@ =~= seq_scl(u@, a));
    out
}

/// The slice `u` with every coordinate divided by `a`.
pub fn div_of<K: Copy + core::ops::Div<Output = K>>(u: &[K], a: K) -> (r: Vec<K>)
    requires
        seq_div_req(u@, a),
    ensures
        r@.len() == u@.len(),
        K::obeys_div_spec() ==> r@ == seq_div(u@, a),
{
    let n = u.len();
    let mut out: Vec<K> = Vec::with_capacity(n);
    let mut i: usize = 0;
    while i < n
        invariant
            i <= n,
            n == u@.len(),
            out@.len() == i,
            seq_div_req(u@, a),
            K::obeys_div_spec() ==> forall|j: int|
                0 <= j < i ==> out@[j] == (#[trigger] u@[j]).div_spec(a),
        decreases n - i,
    {
        out.push(u[i] / a);
        i += 1;
    }
    assert(K::obeys_div_spec() ==> out@ =~= seq_div(u@, a));
    out
}

/// The dot product of two slices of the same non-zero length.
pub fn dot_of<K: Copy + core::ops::Add<Output = K> + core::ops::Mul<Output = K>>(
    u: &[K],
    v: &[K],
) -> (r: K)
    requires
        K::obeys_add_spec(),
        K::obeys_mul_spec(),
        u@.len() == v@.len(),
        u@.len() > 0,
        dot_req(u@, v@),
    ensures
        r == dot_spec(u@, v@),
{
    let n = u.len();
    proof {
        lemma_dot_prefix_req_down(u@, v@, n as nat, 1);
    }
    let mut result = u[0] * v[0];
    let mut i: usize = 1;
    while i < n
        invariant
            1 <= i <= n,
            n == u@.len(),
            n == v@.len(),
            K::obeys_add_spec(),
            K::obeys_mul_spec(),
            dot_prefix_req(u@, v@, n as nat),
            dot_prefix_req(u@, v@, i as nat),
            result == dot_prefix(u@, v@, i as nat),
        decreases n - i,
    {
        proof {
            lemma_dot_prefix_req_down(u@, v@, n as nat, (i + 1) as nat);
        }
        result = result + (u[i] * v[i]);
        i += 1;
    }
    result
}

/// If the first `n` terms can be summed, so can the first `m <= n`.
pub proof fn lemma_dot_prefix_req_down<K: core::ops::Add<Output = K> + core::ops::Mul<Output = K>>(
    u: Seq<K>,
    v: Seq<K>,
    n: nat,
    m: nat,
)
    requires
        dot_prefix_req(u, v, n),
        1 <= m <= n,
    ensures
        dot_prefix_req(u, v, m),
    decreases n,
{
    if m < n {
        lemma_dot_prefix_req_down(u, v, (n - 1) as nat, m);
    }
}

impl<K: Copy + core::ops::Add<Output = K> + core::ops::Sub<Output = K> + core::ops::Mul<Output = K>> Vector<K> {
    /// The number of coordinates.
    pub fn size(&self) -> (n: usize)
        ensures
            n == self@.len(),
    {
        self.positions.len()
    }

    /// A vector holding the coordinates of `vec`, in order.
    pub fn from(vec: &[K]) -> (r: Self)
        ensures
            r@ == vec@,
    {
        Vector { positions: copy_of(vec) }
    }

    /// Whether `self` and `v` have the same number of coordinates.
    pub fn is_same_size(&self, v: &Vector<K>) -> (same: bool)
        ensures
            same == (self@.len() == v@.len()),
    {
        self.positions.len() == v.positions.len()
    }

    /// Adds `v` to `self`, coordinate by coordinate.
    pub fn add(&mut self, v: &Vector<K>)
        requires
            old(self)@.len() == v@.len(),
            seq_add_req(old(self)@, v@),
        ensures
            final(self)@.len() == old(self)@.len(),
            K::obeys_add_spec() ==> final(self)@ == seq_add(old(self)@, v@),
    {
        self.positions = add_of(self.positions.as_slice(), v.positions.as_slice());
    }

    /// Subtracts `v` from `self`, coordinate by coordinate.
    pub fn sub(&mut self, v: &Vector<K>)
        requires
            old(self)@.len() == v@.len(),
            seq_sub_req(old(self)@, v@),
        ensures
            final(self)@.len() == old(self)@.len(),
            K::obeys_sub_spec() ==> final(self)@ == seq_sub(old(self)@, v@),
    {
        self.positions = sub_of(self.positions.as_slice(), v.positions.as_slice());
    }

    /// Multiplies every coordinate of `self` by `a`.
    pub fn scl(&mut self, a: K)
        requires
            seq_scl_req(old(self)@, a),
        ensures
            final(self)@.len() == old(self)@.len(),
            K::obeys_mul_spec() ==> final(self)@ == seq_scl(old(self)@, a),
    {
        self.positions = scl_of(self.positions.as_slice(), a);
    }

    /// The dot product of `self` and `v`: the products of matching
    /// coordinates, summed from the left starting with the first product.
    /// Where the multiplication of scalars commutes, so does the dot
    /// product.
    pub fn dot(&self, v: Vector<K>) -> (r: K)
        requires
            K::obeys_add_spec(),
            K::obeys_mul_spec(),
            self@.len() == v@.len(),
            self@.len() > 0,
            dot_req(self@, v@),
        ensures
            r == dot_spec(self@, v@),
            mul_commutes::<K>() ==> r == dot_spec(v@, self@),
    {
        proof {
            if mul_commutes::<K>() {
                lemma_dot_commutes(self@, v@);
            }
        }
        dot_of(self.positions.as_slice(), v.positions.as_slice())
    }
}

/// `u` with the matching coordinate of `v` added to each coordinate that
/// has one; the other coordinates of `u` stay.
pub open spec fn seq_add_zip<K: core::ops::Add<Output = K>>(u: Seq<K>, v: Seq<K>) -> Seq<K> {
    Seq::new(
        u.len(),
        |i: int|
            if i < v.len() {
                u[i].add_spec(v[i])
            } else {
                u[i]
            },
    )
}

/// `u` with the matching coordinate of `v` subtracted from each
/// coordinate that has one; the other coordinates of `u` stay.
pub open spec fn seq_sub_zip<K: core::ops::Sub<Output = K>>(u: Seq<K>, v: Seq<K>) -> Seq<K> {
    Seq::new(
        u.len(),
        |i: int|
            if i < v.len() {
                u[i].sub_spec(v[i])
            } else {
                u[i]
            },
    )
}

/// The slice `u` with `v` added over the coordinates that both have.
pub fn add_zip_of<K: Copy + core::ops::Add<Output = K>>(u: &[K], v: &[K]) -> (r: Vec<K>)
    requires
        seq_add_req(u@, v@),
    ensures
        r@.len() == u@.len(),
        K::obeys_add_spec() ==> r@ == seq_add_zip(u@, v@),
{
    let n = u.len();
    let k = v.len();
    let mut out: Vec<K> = Vec::with_capacity(n);
    let mut i: usize = 0;
    while i < n
        invariant
            i <= n,
            n == u@.len(),
            k == v@.len(),
            out@.len() == i,
            seq_add_req(u@, v@),
            K::obeys_add_spec() ==> forall|j: int|
                0 <= j < i ==> out@[j] == seq_add_zip(u@, v@)[j],
        decreases n - i,
    {
        if i < k {
            out.push(u[i] + v[i]);
        } else {
            out.push(u[i]);
        }
        i += 1;
    }
    assert(K::obeys_add_spec() ==> out@ =~= seq_add_zip(u@, v@));
    out
}

/// The slice `u` with `v` subtracted over the coordinates that both have.
pub fn sub_zip_of<K: Copy + core::ops::Sub<Output = K>>(u: &[K], v: &[K]) -> (r: Vec<K>)
    requires
        seq_sub_req(u@, v@),
    ensures
        r@.len() == u@.len(),
        K::obeys_sub_spec() ==> r@ == seq_sub_zip(u@, v@),
{
    let n = u.len();
    let k = v.len();
    let mut out: Vec<K> = Vec::with_capacity(n);
    let mut i: usize = 0;
    while i < n
        invariant
            i <= n,
            n == u@.len(),
            k == v@.len(),
            out@.len() == i,
            seq_sub_req(u@, v@),
            K::obeys_sub_spec() ==> forall|j: int|
                0 <= j < i ==> out@[j] == seq_sub_zip(u@, v@)[j],
        decreases n - i,
    {
        if i < k {
            out.push(u[i] - v[i]);
        } else {
            out.push(u[i]);
        }
        i += 1;
    }
    assert(K::obeys_sub_spec() ==> out@ =~= seq_sub_zip(u@, v@));
    out
}

impl<K: core::ops::Add<Output = K> + Copy> vstd::std_specs::ops::AddSpecImpl for Vector<K> {
    /// The sum of two vectors is stated by `add` itself: a vector is not
    /// determined by its coordinates alone.
    open spec fn obeys_add_spec() -> bool {
        false
    }

    open spec fn add_req(self, other: Vector<K>) -> bool {
        seq_add_req(self@, other@)
    }

    open spec fn add_spec(self, other: Vector<K>) -> Vector<K> {
        self
    }
}

impl<K: core::ops::Add<Output = K> + Copy> core::ops::Add for Vector<K> {
    type Output = Vector<K>;

    /// The sum of two vectors, coordinate by coordinate, over the
    /// coordinates that both have.
    fn add(self, other: Vector<K>) -> (r: Vector<K>)
        ensures
            r@.len() == self@.len(),
            K::obeys_add_spec() ==> r@ == seq_add_zip(self@, other@),
    {
        Vector { positions: add_zip_of(self.positions.as_slice(), other.positions.as_slice()) }
    }
}

impl<K: core::ops::Sub<Output = K> + Copy> vstd::std_specs::ops::SubSpecImpl for Vector<K> {
    /// The difference of two vectors is stated by `sub` itself: a vector
    /// is not determined by its coordinates alone.
    open spec fn obeys_sub_spec() -> bool {
        false
    }

    open spec fn sub_req(self, other: Vector<K>) -> bool {
        seq_sub_req(self@, other@)
    }

    open spec fn sub_spec(self, other: Vector<K>) -> Vector<K> {
        self
    }
}

impl<K: core::ops::Sub<Output = K> + Copy> core::ops::Sub for Vector<K> {
    type Output = Vector<K>;

    /// The difference of two vectors, coordinate by coordinate, over the
    /// coordinates that both have.
    fn sub(self, other: Vector<K>) -> (r: Vector<K>)
        ensures
            r@.len() == self@.len(),
            K::obeys_sub_spec() ==> r@ == seq_sub_zip(self@, other@),
    {
        Vector { positions: sub_zip_of(self.positions.as_slice(), other.positions.as_slice()) }
    }
}

} // verus!
