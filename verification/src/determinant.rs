//! Determinants by cofactor expansion along the first row, for square
//! matrices of order at most four.

use vstd::prelude::*;
use vstd::std_specs::ops::{AddSpec, MulSpec, SubSpec};
use crate::matrix::{cols, rectangular, Matrix};
use crate::scalar::{is_default, obeys_ring_spec};

verus! {

/// `m` without row `r` and column `c`.
pub open spec fn minor_spec<K>(m: Seq<Seq<K>>, r: int, c: int) -> Seq<Seq<K>> {
    Seq::new(
        (m.len() - 1) as nat,
        |i: int|
            Seq::new(
                (cols(m) - 1) as nat,
                |j: int|
                    m[if i < r {
                        i
                    } else {
                        i + 1
                    }][if j < c {
                        j
                    } else {
                        j + 1
                    }],
            ),
    )
}

/// Term `j` of the expansion along the first row, without its sign: the
/// entry `(0, j)` times the determinant of its minor.
pub open spec fn cofactor_term<K: core::ops::Add<Output = K> + core::ops::Sub<Output = K> + core::ops::Mul<Output = K>>(
    m: Seq<Seq<K>>,
    j: int,
) -> K
    decreases m.len(), 0nat, 0nat,
{
    if m.len() == 0 {
        arbitrary()
    } else {
        m[0][j].mul_spec(det_spec(minor_spec(m, 0, j)))
    }
}

/// The first `n` terms of the expansion along the first row, for `n >= 1`:
/// terms at odd columns are subtracted, the others added, from the left.
pub open spec fn cofactor_sum<K: core::ops::Add<Output = K> + core::ops::Sub<Output = K> + core::ops::Mul<Output = K>>(
    m: Seq<Seq<K>>,
    n: nat,
) -> K
    decreases m.len(), 1nat, n,
{
    if n <= 1 {
        cofactor_term(m, 0)
    } else if (n - 1) % 2 == 1 {
        cofactor_sum(m, (n - 1) as nat).sub_spec(cofactor_term(m, n - 1))
    } else {
        cofactor_sum(m, (n - 1) as nat).add_spec(cofactor_term(m, n - 1))
    }
}

/// The determinant of a square matrix of order at least one: the single
/// entry at order one, else the expansion along the first row.
pub open spec fn det_spec<K: core::ops::Add<Output = K> + core::ops::Sub<Output = K> + core::ops::Mul<Output = K>>(
    m: Seq<Seq<K>>,
) -> K
    decreases m.len(), 2nat, 0nat,
{
    if m.len() <= 1 {
        m[0][0]
    } else {
        cofactor_sum(m, m.len())
    }
}

/// Term `j` of the expansion can be computed within the range of `K`.
pub open spec fn cofactor_term_req<K: core::ops::Add<Output = K> + core::ops::Sub<Output = K> + core::ops::Mul<Output = K>>(
    m: Seq<Seq<K>>,
    j: int,
) -> bool
    decreases m.len(), 0nat, 0nat,
{
    if m.len() == 0 {
        true
    } else {
        &&& det_req(minor_spec(m, 0, j))
        &&& m[0][j].mul_req(det_spec(minor_spec(m, 0, j)))
    }
}

/// The first `n` terms of the expansion can be computed and combined
/// within the range of `K`.
pub open spec fn cofactor_sum_req<K: core::ops::Add<Output = K> + core::ops::Sub<Output = K> + core::ops::Mul<Output = K>>(
    m: Seq<Seq<K>>,
    n: nat,
) -> bool
    decreases m.len(), 1nat, n,
{
    if n <= 1 {
        cofactor_term_req(m, 0)
    } else {
        &&& cofactor_sum_req(m, (n - 1) as nat)
        &&& cofactor_term_req(m, n - 1)
        &&& if (n - 1) % 2 == 1 {
            cofactor_sum(m, (n - 1) as nat).sub_req(cofactor_term(m, n - 1))
        } else {
            cofactor_sum(m, (n - 1) as nat).add_req(cofactor_term(m, n - 1))
        }
    }
}

/// The determinant can be computed within the range of `K`.
pub open spec fn det_req<K: core::ops::Add<Output = K> + core::ops::Sub<Output = K> + core::ops::Mul<Output = K>>(
    m: Seq<Seq<K>>,
) -> bool
    decreases m.len(), 2nat, 0nat,
{
    if m.len() <= 1 {
        true
    } else {
        cofactor_sum_req(m, m.len())
    }
}

/// `m` is square and every row has as many entries as there are rows.
pub open spec fn square<K>(m: Seq<Seq<K>>) -> bool {
    rectangular(m) && m.len() == cols(m)
}

/// A minor of a square matrix is square, of the order below.
pub proof fn lemma_minor_square<K>(m: Seq<Seq<K>>, r: int, c: int)
    requires
        square(m),
        m.len() >= 1,
    ensures
        square(minor_spec(m, r, c)),
        minor_spec(m, r, c).len() == m.len() - 1,
{
    let s = minor_spec(m, r, c);
    assert forall|i: int| 0 <= i < s.len() implies (#[trigger] s[i]).len() == cols(s) by {}
}

impl<K: Copy + core::ops::Add<Output = K> + core::ops::Sub<Output = K> + core::ops::Mul<Output = K> + PartialOrd> Matrix<K> {
    /// The matrix without row `row` and column `column`.
    pub fn minor(&self, row: usize, column: usize) -> (r: Matrix<K>)
        requires
            rectangular(self@),
            row < self@.len(),
            column < cols(self@),
        ensures
            r@ == minor_spec(self@, row as int, column as int),
    {
        let rows = self.row_size();
        let columns = self.column_size();
        let mut positions: Vec<Vec<K>> = Vec::with_capacity(rows - 1);
        let mut i: usize = 0;
        while i < rows - 1
            invariant
                i <= rows - 1,
                rows == self@.len(),
                columns == cols(self@),
                rectangular(self@),
                row < rows,
                column < columns,
                positions@.len() == i,
                forall|k: int| 0 <= k < i ==> (#[trigger] positions@[k])@ == minor_spec(self@, row as int, column as int)[k],
            decreases rows - 1 - i,
        {
            let source: usize = if i < row { i } else { i + 1 };
            assert(self@[source as int].len() == cols(self@));
            let mut line: Vec<K> = Vec::with_capacity(columns - 1);
            let mut j: usize = 0;
            while j < columns - 1
                invariant
                    j <= columns - 1,
                    source < rows,
                    rows == self@.len(),
                    columns == cols(self@),
                    self@[source as int].len() == columns,
                    column < columns,
                    line@.len() == j,
                    forall|k: int| 0 <= k < j ==> line@[k] == self@[source as int][if k < column { k } else { k + 1 }],
                decreases columns - 1 - j,
            {
                let from: usize = if j < column { j } else { j + 1 };
                line.push(self.positions[source][from]);
                j += 1;
            }
            assert(line@ =~= minor_spec(self@, row as int, column as int)[i as int]);
            positions.push(line);
            i += 1;
        }
        let r = Matrix { positions };
        assert(r@ =~= minor_spec(self@, row as int, column as int));
        r
    }

    /// The determinant of a matrix of order two: `ad - bc`.
    pub fn determinant_2(&self) -> (r: K)
        requires
            obeys_ring_spec::<K>(),
            square(self@),
            self@.len() == 2,
            det_req(self@),
        ensures
            r == det_spec(self@),
            r == self@[0][0].mul_spec(self@[1][1]).sub_spec(self@[0][1].mul_spec(self@[1][0])),
    {
        proof {
            let m = self@;
            assert(m[0].len() == 2 && m[1].len() == 2);
            assert(cofactor_sum_req(m, 2));
            assert(cofactor_sum_req(m, 1));
            assert(cofactor_term_req(m, 0) && cofactor_term_req(m, 1));
            assert(det_spec(minor_spec(m, 0, 0)) == m[1][1]);
            assert(det_spec(minor_spec(m, 0, 1)) == m[1][0]);
            assert(cofactor_term(m, 0) == m[0][0].mul_spec(m[1][1]));
            assert(cofactor_term(m, 1) == m[0][1].mul_spec(m[1][0]));
            assert(cofactor_sum(m, 1) == cofactor_term(m, 0));
            assert(cofactor_sum(m, 2) == cofactor_sum(m, 1).sub_spec(cofactor_term(m, 1)));
        }
        (self.positions[0][0] * self.positions[1][1]) - (self.positions[0][1] * self.positions[1][0])
    }

    /// The determinant of a matrix of order three, from its three minors
    /// of order two along the first row.
    pub fn determinant_3(&self) -> (r: K)
        requires
            obeys_ring_spec::<K>(),
            square(self@),
            self@.len() == 3,
            det_req(self@),
        ensures
            r == det_spec(self@),
    {
        proof {
            let m = self@;
            lemma_minor_square(m, 0, 0);
            lemma_minor_square(m, 0, 1);
            lemma_minor_square(m, 0, 2);
            assert(m[0].len() == 3);
            assert(cofactor_sum_req(m, 3));
            assert(cofactor_sum_req(m, 2));
            assert(cofactor_sum_req(m, 1));
            assert(cofactor_term_req(m, 0) && cofactor_term_req(m, 1) && cofactor_term_req(m, 2));
            assert(cofactor_sum(m, 1) == cofactor_term(m, 0));
            assert(cofactor_sum(m, 2) == cofactor_sum(m, 1).sub_spec(cofactor_term(m, 1)));
            assert(cofactor_sum(m, 3) == cofactor_sum(m, 2).add_spec(cofactor_term(m, 2)));
        }
        let a: K = self.positions[0][0] * self.minor(0, 0).determinant_2();
        let b: K = self.positions[0][1] * self.minor(0, 1).determinant_2();
        let c: K = self.positions[0][2] * self.minor(0, 2).determinant_2();
        a - b + c
    }

    /// The determinant of a matrix of order four, from its four minors of
    /// order three along the first row.
    pub fn determinant_4(&self) -> (r: K)
        requires
            obeys_ring_spec::<K>(),
            square(self@),
            self@.len() == 4,
            det_req(self@),
        ensures
            r == det_spec(self@),
    {
        proof {
            let m = self@;
            lemma_minor_square(m, 0, 0);
            lemma_minor_square(m, 0, 1);
            lemma_minor_square(m, 0, 2);
            lemma_minor_square(m, 0, 3);
            assert(m[0].len() == 4);
            assert(cofactor_sum_req(m, 4));
            assert(cofactor_sum_req(m, 3));
            assert(cofactor_sum_req(m, 2));
            assert(cofactor_sum_req(m, 1));
            assert(cofactor_term_req(m, 0) && cofactor_term_req(m, 1) && cofactor_term_req(m, 2)
                && cofactor_term_req(m, 3));
            assert(cofactor_sum(m, 1) == cofactor_term(m, 0));
            assert(cofactor_sum(m, 2) == cofactor_sum(m, 1).sub_spec(cofactor_term(m, 1)));
            assert(cofactor_sum(m, 3) == cofactor_sum(m, 2).add_spec(cofactor_term(m, 2)));
            assert(cofactor_sum(m, 4) == cofactor_sum(m, 3).sub_spec(cofactor_term(m, 3)));
        }
        let a: K = self.positions[0][0] * self.minor(0, 0).determinant_3();
        let b: K = self.positions[0][1] * self.minor(0, 1).determinant_3();
        let c: K = self.positions[0][2] * self.minor(0, 2).determinant_3();
        let d: K = self.positions[0][3] * self.minor(0, 3).determinant_3();
        a - b + c - d
    }

    /// The determinant of a square matrix of order at most four: the zero
    /// of `K` at order zero, the single entry at order one, else the
    /// cofactor expansion along the first row.
    pub fn determinant(&self) -> (r: K) where K: core::default::Default
        requires
            obeys_ring_spec::<K>(),
            square(self@),
            self@.len() <= 4,
            det_req(self@),
        ensures
            self@.len() == 0 ==> is_default(r),
            self@.len() > 0 ==> r == det_spec(self@),
    {
        let order = self.row_size();
        if order == 0 {
            K::default()
        } else if order == 1 {
            assert(self@[0].len() == 1);
            self.positions[0][0]
        } else if order == 2 {
            self.determinant_2()
        } else if order == 3 {
            self.determinant_3()
        } else {
            self.determinant_4()
        }
    }
}

} // verus!
