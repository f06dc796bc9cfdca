//! Matrices: ordered sequences of rows of equal length, with the basic
//! arithmetic, the products, the transpose and the trace.

use vstd::prelude::*;
use vstd::std_specs::ops::{AddSpec, MulSpec, SubSpec};
use crate::vector::{
    add_of, add_zip_of, copy_of, dot_of, dot_req, dot_spec, scl_of, seq_add, seq_add_req,
    seq_add_zip, seq_scl, seq_scl_req, seq_sub, seq_sub_req, seq_sub_zip, sub_of, sub_zip_of,
    Vector,
};

verus! {

/// An ordered sequence of rows; every row of a well-formed matrix has the
/// same number of entries.
#[derive(Clone, Debug)]
pub struct Matrix<K> {
    pub positions: Vec<Vec<K>>,
}

impl<K> View for Matrix<K> {
    type V = Seq<Seq<K>>;

    open spec fn view(&self) -> Seq<Seq<K>> {
        Seq::new(self.positions@.len(), |i: int| self.positions@[i]@)
    }
}

/// The number of columns: the length of the first row, or zero where
/// there is no row.
pub open spec fn cols<K>(m: Seq<Seq<K>>) -> nat {
    if m.len() == 0 {
        0
    } else {
        m[0].len()
    }
}

/// Every row has as many entries as the first.
pub open spec fn rectangular<K>(m: Seq<Seq<K>>) -> bool {
    forall|i: int| 0 <= i < m.len() ==> (#[trigger] m[i]).len() == cols(m)
}

/// The two matrices have as many rows, and matching rows as many entries.
pub open spec fn same_shape<K>(a: Seq<Seq<K>>, b: Seq<Seq<K>>) -> bool {
    &&& a.len() == b.len()
    &&& forall|i: int| 0 <= i < a.len() ==> (#[trigger] a[i]).len() == b[i].len()
}

/// Column `j` of `m`, from the first row to the last.
pub open spec fn column<K>(m: Seq<Seq<K>>, j: int) -> Seq<K> {
    Seq::new(m.len(), |i: int| m[i][j])
}

/// The matrix whose rows are the columns of `m`.
pub open spec fn transpose_spec<K>(m: Seq<Seq<K>>) -> Seq<Seq<K>> {
    Seq::new(cols(m), |j: int| column(m, j))
}

/// The entry-wise sum of two matrices of the same shape.
pub open spec fn mat_add<K: core::ops::Add<Output = K>>(a: Seq<Seq<K>>, b: Seq<Seq<K>>) -> Seq<Seq<K>> {
    Seq::new(a.len(), |i: int| seq_add(a[i], b[i]))
}

/// Every entry of `a` can be added to the matching entry of `b`.
pub open spec fn mat_add_req<K: core::ops::Add<Output = K>>(a: Seq<Seq<K>>, b: Seq<Seq<K>>) -> bool {
    forall|i: int| 0 <= i < a.len() && i < b.len() ==> seq_add_req(#[trigger] a[i], b[i])
}

/// The entry-wise difference of two matrices of the same shape.
pub open spec fn mat_sub<K: core::ops::Sub<Output = K>>(a: Seq<Seq<K>>, b: Seq<Seq<K>>) -> Seq<Seq<K>> {
    Seq::new(a.len(), |i: int| seq_sub(a[i], b[i]))
}

/// Every entry of `b` can be subtracted from the matching entry of `a`.
pub open spec fn mat_sub_req<K: core::ops::Sub<Output = K>>(a: Seq<Seq<K>>, b: Seq<Seq<K>>) -> bool {
    forall|i: int| 0 <= i < a.len() && i < b.len() ==> seq_sub_req(#[trigger] a[i], b[i])
}

/// `m` with every entry multiplied by `a` on the right.
pub open spec fn mat_scl<K: core::ops::Mul<Output = K>>(m: Seq<Seq<K>>, a: K) -> Seq<Seq<K>> {
    Seq::new(m.len(), |i: int| seq_scl(m[i], a))
}

/// Every entry of `m` can be multiplied by `a`.
pub open spec fn mat_scl_req<K: core::ops::Mul<Output = K>>(m: Seq<Seq<K>>, a: K) -> bool {
    forall|i: int| 0 <= i < m.len() ==> seq_scl_req(#[trigger] m[i], a)
}

/// The image of `v` under `m`: entry `i` is the dot product of row `i` with `v`.
pub open spec fn mul_vec_spec<K: core::ops::Add<Output = K> + core::ops::Mul<Output = K>>(
    m: Seq<Seq<K>>,
    v: Seq<K>,
) -> Seq<K> {
    Seq::new(m.len(), |i: int| dot_spec(m[i], v))
}

/// Every row of `m` can be dotted with `v` within the range of `K`.
pub open spec fn mul_vec_req<K: core::ops::Add<Output = K> + core::ops::Mul<Output = K>>(
    m: Seq<Seq<K>>,
    v: Seq<K>,
) -> bool {
    forall|i: int| 0 <= i < m.len() ==> dot_req(#[trigger] m[i], v)
}

/// The product of `a` and `b`: entry `(i, j)` is the dot product of row `i`
/// of `a` with column `j` of `b`.
pub open spec fn mul_mat_spec<K: core::ops::Add<Output = K> + core::ops::Mul<Output = K>>(
    a: Seq<Seq<K>>,
    b: Seq<Seq<K>>,
) -> Seq<Seq<K>> {
    Seq::new(a.len(), |i: int| Seq::new(cols(b), |j: int| dot_spec(a[i], column(b, j))))
}

/// Every row of `a` can be dotted with every column of `b` within the
/// range of `K`.
pub open spec fn mul_mat_req<K: core::ops::Add<Output = K> + core::ops::Mul<Output = K>>(
    a: Seq<Seq<K>>,
    b: Seq<Seq<K>>,
) -> bool {
    forall|i: int, j: int|
        0 <= i < a.len() && 0 <= j < cols(b) ==> dot_req(#[trigger] a[i], #[trigger] column(b, j))
}

/// The sum of the first `n` diagonal entries, accumulated from the left
/// and started from the first entry, for `n >= 1`.
pub open spec fn trace_prefix<K: core::ops::Add<Output = K>>(m: Seq<Seq<K>>, n: nat) -> K
    decreases n,
{
    if n <= 1 {
        m[0][0]
    } else {
        trace_prefix(m, (n - 1) as nat).add_spec(m[n - 1][n - 1])
    }
}

/// No partial sum of the first `n` diagonal entries leaves the range of `K`.
pub open spec fn trace_prefix_req<K: core::ops::Add<Output = K>>(m: Seq<Seq<K>>, n: nat) -> bool
    decreases n,
{
    if n <= 1 {
        true
    } else {
        &&& trace_prefix_req(m, (n - 1) as nat)
        &&& trace_prefix(m, (n - 1) as nat).add_req(m[n - 1][n - 1])
    }
}

/// The length of the main diagonal.
pub open spec fn diagonal_len<K>(m: Seq<Seq<K>>) -> nat {
    if m.len() <= cols(m) {
        m.len()
    } else {
        cols(m)
    }
}

/// If the first `n` diagonal entries can be summed, so can the first `k <= n`.
pub proof fn lemma_trace_prefix_req_down<K: core::ops::Add<Output = K>>(m: Seq<Seq<K>>, n: nat, k: nat)
    requires
        trace_prefix_req(m, n),
        k <= n,
    ensures
        trace_prefix_req(m, k),
    decreases n,
{
    if k < n && n > 1 {
        lemma_trace_prefix_req_down(m, (n - 1) as nat, k);
    }
}

impl<K: Copy + core::ops::Add<Output = K> + core::ops::Sub<Output = K> + core::ops::Mul<Output = K> + PartialOrd> Matrix<K> {
    /// The number of columns; zero for a matrix without rows.
    pub fn column_size(&self) -> (n: usize)
        ensures
            n == cols(self@),
    {
        if self.positions.len() == 0 {
            0
        } else {
            self.positions[0].len()
        }
    }

    /// The number of rows.
    pub fn row_size(&self) -> (n: usize)
        ensures
            n == self@.len(),
    {
        self.positions.len()
    }

    /// The pair (columns, rows).
    pub fn shape(&self) -> (s: (usize, usize))
        ensures
            s.0 == cols(self@),
            s.1 == self@.len(),
    {
        (self.column_size(), self.row_size())
    }

    /// Whether the matrix has as many rows as columns.
    pub fn is_square(&self) -> (b: bool)
        ensures
            b == (self@.len() == cols(self@)),
    {
        self.row_size() == self.column_size()
    }

    /// A matrix holding a copy of each row of `matrix`, in order.
    pub fn from(matrix: &[&[K]]) -> (r: Self)
        ensures
            r@ == Seq::new(matrix@.len(), |i: int| matrix@[i]@),
    {
        let mut positions: Vec<Vec<K>> = Vec::with_capacity(matrix.len());
        let mut i: usize = 0;
        while i < matrix.len()
            invariant
                i <= matrix.len(),
                positions@.len() == i,
                forall|j: int| 0 <= j < i ==> (#[trigger] positions@[j])@ == matrix@[j]@,
            decreases matrix.len() - i,
        {
            positions.push(copy_of(matrix[i]));
            i += 1;
        }
        let r = Matrix { positions };
        assert(r@ =~= Seq::new(matrix@.len(), |i: int| matrix@[i]@));
        r
    }

    /// Whether `self` and `v` have as many rows, and matching rows as many
    /// entries.
    pub fn same_size(&self, v: &Matrix<K>) -> (same: bool)
        ensures
            same == same_shape(self@, v@),
    {
        if self.positions.len() != v.positions.len() {
            return false;
        }
        let n = self.positions.len();
        let mut i: usize = 0;
        while i < n
            invariant
                i <= n,
                n == self@.len(),
                n == v@.len(),
                forall|j: int| 0 <= j < i ==> (#[trigger] self@[j]).len() == v@[j].len(),
            decreases n - i,
        {
            if self.positions[i].len() != v.positions[i].len() {
                assert(self@[i as int].len() != v@[i as int].len());
                return false;
            }
            i += 1;
        }
        true
    }

    /// Adds `v` to `self`, entry by entry.
    pub fn add(&mut self, v: &Matrix<K>)
        requires
            same_shape(old(self)@, v@),
            mat_add_req(old(self)@, v@),
        ensures
            same_shape(final(self)@, old(self)@),
            K::obeys_add_spec() ==> final(self)@ == mat_add(old(self)@, v@),
    {
        let n = self.positions.len();
        let mut out: Vec<Vec<K>> = Vec::with_capacity(n);
        let mut i: usize = 0;
        while i < n
            invariant
                i <= n,
                self@.len() == n,
                self@ == old(self)@,
                n == v@.len(),
                same_shape(self@, v@),
                mat_add_req(self@, v@),
                out@.len() == i,
                forall|j: int| 0 <= j < i ==> (#[trigger] out@[j])@.len() == self@[j].len(),
                K::obeys_add_spec() ==> forall|j: int|
                    0 <= j < i ==> (#[trigger] out@[j])@ == seq_add(self@[j], v@[j]),
            decreases n - i,
        {
            assert(seq_add_req(self@[i as int], v@[i as int]));
            let row = add_of(self.positions[i].as_slice(), v.positions[i].as_slice());
            out.push(row);
            i += 1;
        }
        self.positions = out;
        assert(same_shape(self@, old(self)@));
        assert(K::obeys_add_spec() ==> self@ =~= mat_add(old(self)@, v@));
    }

    /// Subtracts `v` from `self`, entry by entry.
    pub fn sub(&mut self, v: &Matrix<K>)
        requires
            same_shape(old(self)@, v@),
            mat_sub_req(old(self)@, v@),
        ensures
            same_shape(final(self)@, old(self)@),
            K::obeys_sub_spec() ==> final(self)@ == mat_sub(old(self)@, v@),
    {
        let n = self.positions.len();
        let mut out: Vec<Vec<K>> = Vec::with_capacity(n);
        let mut i: usize = 0;
        while i < n
            invariant
                i <= n,
                self@.len() == n,
                self@ == old(self)@,
                n == v@.len(),
                same_shape(self@, v@),
                mat_sub_req(self@, v@),
                out@.len() == i,
                forall|j: int| 0 <= j < i ==> (#[trigger] out@[j])@.len() == self@[j].len(),
                K::obeys_sub_spec() ==> forall|j: int|
                    0 <= j < i ==> (#[trigger] out@[j])@ == seq_sub(self@[j], v@[j]),
            decreases n - i,
        {
            assert(seq_sub_req(self@[i as int], v@[i as int]));
            let row = sub_of(self.positions[i].as_slice(), v.positions[i].as_slice());
            out.push(row);
            i += 1;
        }
        self.positions = out;
        assert(same_shape(self@, old(self)@));
        assert(K::obeys_sub_spec() ==> self@ =~= mat_sub(old(self)@, v@));
    }

    /// Multiplies every entry of `self` by `a`.
    pub fn scl(&mut self, a: K)
        requires
            mat_scl_req(old(self)@, a),
        ensures
            same_shape(final(self)@, old(self)@),
            K::obeys_mul_spec() ==> final(self)@ == mat_scl(old(self)@, a),
    {
        let n = self.positions.len();
        let mut out: Vec<Vec<K>> = Vec::with_capacity(n);
        let mut i: usize = 0;
        while i < n
            invariant
                i <= n,
                self@.len() == n,
                self@ == old(self)@,
                mat_scl_req(self@, a),
                out@.len() == i,
                forall|j: int| 0 <= j < i ==> (#[trigger] out@[j])@.len() == self@[j].len(),
                K::obeys_mul_spec() ==> forall|j: int|
                    0 <= j < i ==> (#[trigger] out@[j])@ == seq_scl(self@[j], a),
            decreases n - i,
        {
            assert(seq_scl_req(self@[i as int], a));
            let row = scl_of(self.positions[i].as_slice(), a);
            out.push(row);
            i += 1;
        }
        self.positions = out;
        assert(same_shape(self@, old(self)@));
        assert(K::obeys_mul_spec() ==> self@ =~= mat_scl(old(self)@, a));
    }

    /// The image of `vec` under `self`.
    pub fn mul_vec(&self, vec: Vector<K>) -> (r: Vector<K>)
        requires
            K::obeys_add_spec(),
            K::obeys_mul_spec(),
            rectangular(self@),
            cols(self@) == vec@.len(),
            self@.len() > 0 ==> vec@.len() > 0,
            mul_vec_req(self@, vec@),
        ensures
            r@ == mul_vec_spec(self@, vec@),
    {
        let n = self.positions.len();
        let mut out: Vec<K> = Vec::with_capacity(n);
        let mut i: usize = 0;
        while i < n
            invariant
                i <= n,
                n == self@.len(),
                K::obeys_add_spec(),
                K::obeys_mul_spec(),
                rectangular(self@),
                cols(self@) == vec@.len(),
                self@.len() > 0 ==> vec@.len() > 0,
                mul_vec_req(self@, vec@),
                out@.len() == i,
                forall|j: int| 0 <= j < i ==> out@[j] == dot_spec(#[trigger] self@[j], vec@),
            decreases n - i,
        {
            assert(self@[i as int].len() == cols(self@));
            assert(dot_req(self@[i as int], vec@));
            out.push(dot_of(self.positions[i].as_slice(), vec.positions.as_slice()));
            i += 1;
        }
        assert(out@ =~= mul_vec_spec(self@, vec@));
        Vector { positions: out }
    }

    /// The matrix whose rows are the columns of `self`.
    pub fn transpose(&self) -> (r: Matrix<K>)
        requires
            rectangular(self@),
        ensures
            r@ == transpose_spec(self@),
    {
        let rows = self.row_size();
        let columns = self.column_size();
        let mut positions: Vec<Vec<K>> = Vec::with_capacity(columns);
        let mut j: usize = 0;
        while j < columns
            invariant
                j <= columns,
                rows == self@.len(),
                columns == cols(self@),
                rectangular(self@),
                positions@.len() == j,
                forall|c: int| 0 <= c < j ==> (#[trigger] positions@[c])@ == column(self@, c),
            decreases columns - j,
        {
            let mut line: Vec<K> = Vec::with_capacity(rows);
            let mut i: usize = 0;
            while i < rows
                invariant
                    i <= rows,
                    j < columns,
                    rows == self@.len(),
                    columns == cols(self@),
                    rectangular(self@),
                    line@.len() == i,
                    forall|k: int| 0 <= k < i ==> line@[k] == (#[trigger] self@[k])[j as int],
                decreases rows - i,
            {
                assert(self@[i as int].len() == cols(self@));
                line.push(self.positions[i][j]);
                i += 1;
            }
            assert(line@ =~= column(self@, j as int));
            positions.push(line);
            j += 1;
        }
        let r = Matrix { positions };
        assert(r@ =~= transpose_spec(self@));
        r
    }

    /// The product of `self` and `mat`.
    pub fn mul_mat(&self, mat: Matrix<K>) -> (r: Matrix<K>)
        requires
            K::obeys_add_spec(),
            K::obeys_mul_spec(),
            rectangular(self@),
            rectangular(mat@),
            self@.len() == cols(mat@),
            cols(self@) == mat@.len(),
            mat@.len() > 0,
            mul_mat_req(self@, mat@),
        ensures
            r@ == mul_mat_spec(self@, mat@),
    {
        let rotated = mat.transpose();
        let n = self.positions.len();
        let width = rotated.positions.len();
        assert(rotated@.len() == width);
        let mut positions: Vec<Vec<K>> = Vec::with_capacity(n);
        let mut i: usize = 0;
        while i < n
            invariant
                i <= n,
                n == self@.len(),
                width == cols(mat@),
                K::obeys_add_spec(),
                K::obeys_mul_spec(),
                rectangular(self@),
                cols(self@) == mat@.len(),
                mat@.len() > 0,
                mul_mat_req(self@, mat@),
                rotated@ == transpose_spec(mat@),
                positions@.len() == i,
                forall|k: int| 0 <= k < i ==> (#[trigger] positions@[k])@ == mul_mat_spec(self@, mat@)[k],
            decreases n - i,
        {
            assert(self@[i as int].len() == cols(self@));
            let mut line: Vec<K> = Vec::with_capacity(width);
            let mut j: usize = 0;
            while j < width
                invariant
                    j <= width,
                    i < n,
                    n == self@.len(),
                    width == cols(mat@),
                    K::obeys_add_spec(),
                    K::obeys_mul_spec(),
                    self@[i as int].len() == mat@.len(),
                    mat@.len() > 0,
                    mul_mat_req(self@, mat@),
                    rotated@ == transpose_spec(mat@),
                    line@.len() == j,
                    forall|k: int| 0 <= k < j ==> line@[k] == dot_spec(self@[i as int], column(mat@, k)),
                decreases width - j,
            {
                assert(rotated@.len() == width);
                assert(rotated@[j as int] == column(mat@, j as int));
                assert(rotated.positions@[j as int]@ == rotated@[j as int]);
                assert(dot_req(self@[i as int], column(mat@, j as int)));
                line.push(dot_of(self.positions[i].as_slice(), rotated.positions[j].as_slice()));
                j += 1;
            }
            assert(line@ =~= mul_mat_spec(self@, mat@)[i as int]);
            positions.push(line);
            i += 1;
        }
        let r = Matrix { positions };
        assert(r@ =~= mul_mat_spec(self@, mat@));
        r
    }

    /// The sum of the main diagonal, accumulated from its first entry.
    pub fn trace(&self) -> (r: K)
        requires
            K::obeys_add_spec(),
            rectangular(self@),
            self@.len() > 0,
            cols(self@) > 0,
            trace_prefix_req(self@, diagonal_len(self@)),
        ensures
            r == trace_prefix(self@, diagonal_len(self@)),
    {
        let rows = self.row_size();
        let columns = self.column_size();
        let mut result: K = self.positions[0][0];
        let mut i: usize = 1;
        while i < columns && i < rows
            invariant
                1 <= i <= diagonal_len(self@),
                rows == self@.len(),
                columns == cols(self@),
                K::obeys_add_spec(),
                rectangular(self@),
                trace_prefix_req(self@, diagonal_len(self@)),
                result == trace_prefix(self@, i as nat),
            decreases rows - i,
        {
            proof {
                lemma_trace_prefix_req_down(self@, diagonal_len(self@), (i + 1) as nat);
            }
            assert(self@[i as int].len() == cols(self@));
            result = result + self.positions[i][i];
            i += 1;
        }
        result
    }
}

/// `a` with the matching entry of `b` added to each entry that has one;
/// the other entries of `a` stay.
pub open spec fn mat_add_zip<K: core::ops::Add<Output = K>>(a: Seq<Seq<K>>, b: Seq<Seq<K>>) -> Seq<Seq<K>> {
    Seq::new(
        a.len(),
        |i: int|
            if i < b.len() {
                seq_add_zip(a[i], b[i])
            } else {
                a[i]
            },
    )
}

/// `a` with the matching entry of `b` subtracted from each entry that
/// has one; the other entries of `a` stay.
pub open spec fn mat_sub_zip<K: core::ops::Sub<Output = K>>(a: Seq<Seq<K>>, b: Seq<Seq<K>>) -> Seq<Seq<K>> {
    Seq::new(
        a.len(),
        |i: int|
            if i < b.len() {
                seq_sub_zip(a[i], b[i])
            } else {
                a[i]
            },
    )
}

impl<K: core::ops::Add<Output = K> + Copy> vstd::std_specs::ops::AddSpecImpl for Matrix<K> {
    /// The sum of two matrices is stated by `add` itself: a matrix is not
    /// determined by its entries alone.
    open spec fn obeys_add_spec() -> bool {
        false
    }

    open spec fn add_req(self, other: Matrix<K>) -> bool {
        mat_add_req(self@, other@)
    }

    open spec fn add_spec(self, other: Matrix<K>) -> Matrix<K> {
        self
    }
}

impl<K: core::ops::Add<Output = K> + Copy> core::ops::Add for Matrix<K> {
    type Output = Matrix<K>;

    /// The sum of two matrices, entry by entry, over the entries that
    /// both have.
    fn add(self, other: Matrix<K>) -> (r: Matrix<K>)
        ensures
            r@.len() == self@.len(),
            K::obeys_add_spec() ==> r@ == mat_add_zip(self@, other@),
    {
        let n = self.positions.len();
        let k = other.positions.len();
        let mut out: Vec<Vec<K>> = Vec::with_capacity(n);
        let mut i: usize = 0;
        while i < n
            invariant
                i <= n,
                n == self@.len(),
                k == other@.len(),
                mat_add_req(self@, other@),
                out@.len() == i,
                K::obeys_add_spec() ==> forall|j: int|
                    0 <= j < i ==> (#[trigger] out@[j])@ == mat_add_zip(self@, other@)[j],
            decreases n - i,
        {
            if i < k {
                assert(seq_add_req(self@[i as int], other@[i as int]));
                out.push(add_zip_of(self.positions[i].as_slice(), other.positions[i].as_slice()));
            } else {
                out.push(copy_of(self.positions[i].as_slice()));
            }
            i += 1;
        }
        let r = Matrix { positions: out };
        assert(K::obeys_add_spec() ==> r@ =~= mat_add_zip(self@, other@));
        r
    }
}

impl<K: core::ops::Sub<Output = K> + Copy> vstd::std_specs::ops::SubSpecImpl for Matrix<K> {
    /// The difference of two matrices is stated by `sub` itself: a matrix
    /// is not determined by its entries alone.
    open spec fn obeys_sub_spec() -> bool {
        false
    }

    open spec fn sub_req(self, other: Matrix<K>) -> bool {
        mat_sub_req(self@, other@)
    }

    open spec fn sub_spec(self, other: Matrix<K>) -> Matrix<K> {
        self
    }
}

impl<K: core::ops::Sub<Output = K> + Copy> core::ops::Sub for Matrix<K> {
    type Output = Matrix<K>;

    /// The difference of two matrices, entry by entry, over the entries
    /// that both have.
    fn sub(self, other: Matrix<K>) -> (r: Matrix<K>)
        ensures
            r@.len() == self@.len(),
            K::obeys_sub_spec() ==> r@ == mat_sub_zip(self@, other@),
    {
        let n = self.positions.len();
        let k = other.positions.len();
        let mut out: Vec<Vec<K>> = Vec::with_capacity(n);
        let mut i: usize = 0;
        while i < n
            invariant
                i <= n,
                n == self@.len(),
                k == other@.len(),
                mat_sub_req(self@, other@),
                out@.len() == i,
                K::obeys_sub_spec() ==> forall|j: int|
                    0 <= j < i ==> (#[trigger] out@[j])@ == mat_sub_zip(self@, other@)[j],
            decreases n - i,
        {
            if i < k {
                assert(seq_sub_req(self@[i as int], other@[i as int]));
                out.push(sub_zip_of(self.positions[i].as_slice(), other.positions[i].as_slice()));
            } else {
                out.push(copy_of(self.positions[i].as_slice()));
            }
            i += 1;
        }
        let r = Matrix { positions: out };
        assert(K::obeys_sub_spec() ==> r@ =~= mat_sub_zip(self@, other@));
        r
    }
}

} // verus!
