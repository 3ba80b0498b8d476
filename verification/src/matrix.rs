//! Dense matrices of exact rationals, stored row-major.
//!
//! A matrix is modelled as a sequence of rows, each a sequence of
//! specification rationals.  Arithmetic is exact; operations report `None`
//! only when an entry leaves the 64-bit representable range.  The inverse is
//! computed by Gauss-Jordan elimination and then checked, entry by entry,
//! against the identity, so its contract does not rest on the elimination
//! itself.

use crate::rat::{
    iabs, lemma_envelope_step, lemma_mag_mul, lemma_qadd_congr, lemma_qadd_wf, lemma_qeq_trans,
    lemma_qsum_wf, q_in_range, qadd, qeq, qmul, qone, qseq_wf, qsub, qsum, qwf, qzero, Rat,
};
use vstd::prelude::*;

verus! {

// ------------------------------------------------------------------
// Specification helpers
// ------------------------------------------------------------------

/// `m` is an `r` by `c` grid.
pub open spec fn mat_shape(m: Seq<Seq<(int, int)>>, r: int, c: int) -> bool {
    m.len() == r && (forall|i: int| 0 <= i < r ==> (#[trigger] m[i]).len() == c)
}

/// Every entry has a positive denominator.
pub open spec fn mat_qwf(m: Seq<Seq<(int, int)>>) -> bool {
    forall|i: int, j: int|
        0 <= i < m.len() && 0 <= j < m[i].len() ==> qwf(#[trigger] m[i][j])
}

/// Entry `(i, j)` of the matrix product `a * b`.
pub open spec fn mm_entry(
    a: Seq<Seq<(int, int)>>,
    b: Seq<Seq<(int, int)>>,
    i: int,
    j: int,
) -> (int, int) {
    qsum(Seq::new(b.len(), |k: int| qmul(a[i][k], b[k][j])))
}

/// A vector as an `n` by `1` column grid.
pub open spec fn mat_col(v: Seq<(int, int)>) -> Seq<Seq<(int, int)>> {
    Seq::new(v.len(), |i: int| seq![v[i]])
}

/// The column count a grid shows: the length of its first row, zero for a
/// grid with no rows.
pub open spec fn grid_cols(g: Seq<Seq<(int, int)>>) -> int {
    if g.len() > 0 {
        g[0].len() as int
    } else {
        0
    }
}

/// The magnitude envelope of one product term of entry `(i, j)`:
/// componentwise absolute bounds of the unreduced product.
pub open spec fn mat_tmag(
    a: Seq<Seq<(int, int)>>,
    b: Seq<Seq<(int, int)>>,
    i: int,
    j: int,
    k: int,
) -> (int, int) {
    (iabs(a[i][k].0) * iabs(b[k][j].0), a[i][k].1 * b[k][j].1)
}

/// The magnitude envelope of the running sum after the first `k` terms of
/// product entry `(i, j)`: every stored intermediate stays componentwise
/// inside it, because reduction only shrinks magnitudes.
pub open spec fn mat_accmag(
    a: Seq<Seq<(int, int)>>,
    b: Seq<Seq<(int, int)>>,
    i: int,
    j: int,
    k: int,
) -> (int, int)
    decreases k,
{
    if k <= 0 {
        (0, 1)
    } else {
        let bb = mat_accmag(a, b, i, j, k - 1);
        let t = mat_tmag(a, b, i, j, k - 1);
        (bb.0 * t.1 + t.0 * bb.1, bb.1 * t.1)
    }
}

/// Every term and running-sum envelope of the whole product stays inside
/// the representable range; under this, and a representable output size,
/// the product is owed to succeed.
pub open spec fn mat_fits(a: Seq<Seq<(int, int)>>, b: Seq<Seq<(int, int)>>) -> bool {
    forall|i: int, j: int, k: int|
        0 <= i < a.len() && 0 <= j < grid_cols(b) && 0 <= k < b.len() ==> {
            let t = #[trigger] mat_tmag(a, b, i, j, k);
            let bb = mat_accmag(a, b, i, j, k + 1);
            &&& t.0 <= 0x7fff_ffff_ffff_ffff
            &&& t.1 <= 0x7fff_ffff_ffff_ffff
            &&& bb.0 <= 0x7fff_ffff_ffff_ffff
            &&& bb.1 <= 0x7fff_ffff_ffff_ffff
        }
}

/// The envelope components are non-negative, with a positive denominator.
proof fn lemma_mat_accmag_pos(
    a: Seq<Seq<(int, int)>>,
    b: Seq<Seq<(int, int)>>,
    i: int,
    j: int,
    k: int,
)
    requires
        mat_qwf(a),
        mat_qwf(b),
        mat_shape(a, a.len() as int, b.len() as int),
        mat_shape(b, b.len() as int, grid_cols(b)),
        0 <= i < a.len(),
        0 <= j < grid_cols(b),
        0 <= k <= b.len(),
    ensures
        mat_accmag(a, b, i, j, k).0 >= 0,
        mat_accmag(a, b, i, j, k).1 >= 1,
    decreases k,
{
    if k > 0 {
        lemma_mat_accmag_pos(a, b, i, j, k - 1);
        let bb = mat_accmag(a, b, i, j, k - 1);
        let t = mat_tmag(a, b, i, j, k - 1);
        assert(qwf(a[i][k - 1]));
        assert(qwf(b[k - 1][j]));
        assert(t.0 >= 0 && t.1 >= 1) by (nonlinear_arith)
            requires
                t == (iabs(a[i][k - 1].0) * iabs(b[k - 1][j].0), a[i][k - 1].1 * b[k - 1][j].1),
                iabs(a[i][k - 1].0) >= 0,
                iabs(b[k - 1][j].0) >= 0,
                a[i][k - 1].1 >= 1,
                b[k - 1][j].1 >= 1,
        ;
        assert(bb.0 * t.1 + t.0 * bb.1 >= 0 && bb.1 * t.1 >= 1) by (nonlinear_arith)
            requires
                bb.0 >= 0,
                bb.1 >= 1,
                t.0 >= 0,
                t.1 >= 1,
        ;
    }
}

/// Entry `(i, j)` of the identity matrix.
pub open spec fn qid(i: int, j: int) -> (int, int) {
    if i == j {
        qone()
    } else {
        qzero()
    }
}

/// Pointwise value equality of two grids of the same shape.
pub open spec fn mat_qeq(a: Seq<Seq<(int, int)>>, b: Seq<Seq<(int, int)>>) -> bool {
    a.len() == b.len() && (forall|i: int|
        0 <= i < a.len() ==> (#[trigger] a[i]).len() == b[i].len()) && (forall|i: int, j: int|
        0 <= i < a.len() && 0 <= j < a[i].len() ==> qeq(#[trigger] a[i][j], b[i][j]))
}

/// A row-major index stays inside the grid.
pub proof fn lemma_rm_index(i: int, j: int, r: int, c: int)
    by (nonlinear_arith)
    requires
        0 <= i < r,
        0 <= j < c,
    ensures
        0 <= i * c + j < r * c,
        i * c + j < r * c,
{
}

// ------------------------------------------------------------------
// The executable matrix
// ------------------------------------------------------------------

/// A dense matrix of exact rationals.
#[derive(Debug, PartialEq, Eq)]
pub struct Mat {
    rows: usize,
    cols: usize,
    data: Vec<Rat>,
}

impl View for Mat {
    type V = Seq<Seq<(int, int)>>;

    closed spec fn view(&self) -> Seq<Seq<(int, int)>> {
        Seq::new(
            self.rows as nat,
            |i: int| Seq::new(self.cols as nat, |j: int| self.data@[i * (self.cols as int) + j]@),
        )
    }
}

impl Clone for Mat {
    fn clone(&self) -> (r: Mat)
        ensures
            r@ == self@,
            r.rdim() == self.rdim(),
            r.cdim() == self.cdim(),
    {
        proof {
            use_type_invariant(self);
        }
        let n: usize = self.data.len();
        let mut data: Vec<Rat> = Vec::new();
        let mut k: usize = 0;
        while k < n
            invariant
                data.len() == k,
                k <= n,
                n == self.data.len(),
                forall|t: int| 0 <= t < k ==> #[trigger] data@[t] == self.data@[t],
                forall|t: int| 0 <= t < k ==> qwf(#[trigger] data@[t]@),
            decreases n - k,
        {
            let e: Rat = self.data[k];
            proof {
                use_type_invariant(&e);
            }
            data.push(e);
            k = k + 1;
        }
        let r = Mat { rows: self.rows, cols: self.cols, data };
        proof {
            assert(data@ =~= self.data@);
            assert(r@ =~~= self@);
        }
        r
    }
}

#[verifier::type_invariant]
spec fn mat_inv(m: Mat) -> bool {
    m.data.len() == m.rows as int * m.cols as int && (forall|k: int|
        0 <= k < m.data.len() ==> qwf(#[trigger] m.data@[k]@))
}

impl Mat {
    pub closed spec fn rdim(&self) -> int {
        self.rows as int
    }

    pub closed spec fn cdim(&self) -> int {
        self.cols as int
    }

    /// The view is an `rdim` by `cdim` grid.
    pub proof fn lemma_shape(&self)
        ensures
            mat_shape(self@, self.rdim(), self.cdim()),
            self@.len() == self.rdim(),
    {
    }

    pub fn rows(&self) -> (r: usize)
        ensures
            r as int == self.rdim(),
    {
        self.rows
    }

    pub fn cols(&self) -> (r: usize)
        ensures
            r as int == self.cdim(),
    {
        self.cols
    }

    pub fn is_square(&self) -> (r: bool)
        ensures
            r == (self.rdim() == self.cdim()),
    {
        self.rows == self.cols
    }

    /// Well-formedness of the entries, recovered from the stored scalars.
    pub fn entries_wf(&self) -> (r: bool)
        ensures
            r,
            mat_qwf(self@),
            mat_shape(self@, self.rdim(), self.cdim()),
    {
        proof {
            use_type_invariant(self);
            assert forall|i: int, j: int|
                0 <= i < self@.len() && 0 <= j < self@[i].len() implies qwf(
                #[trigger] self@[i][j],
            ) by {
                lemma_rm_index(i, j, self.rows as int, self.cols as int);
            }
        }
        true
    }

    /// The zero-filled `r` by `c` matrix.
    pub fn new(r: usize, c: usize) -> (m: Mat)
        requires
            r as int * c as int <= usize::MAX,
        ensures
            m.rdim() == r,
            m.cdim() == c,
            forall|i: int, j: int| 0 <= i < r && 0 <= j < c ==> #[trigger] m@[i][j] == qzero(),
    {
        let total: usize = r * c;
        let mut data: Vec<Rat> = Vec::new();
        let mut k: usize = 0;
        while k < total
            invariant
                data.len() == k,
                k <= total,
                forall|t: int| 0 <= t < k ==> #[trigger] data@[t]@ == qzero(),
                forall|t: int| 0 <= t < k ==> qwf(#[trigger] data@[t]@),
            decreases total - k,
        {
            data.push(Rat::zero());
            proof {
                assert(qwf((0int, 1int)));
            }
            k = k + 1;
        }
        let m = Mat { rows: r, cols: c, data };
        proof {
            assert forall|i: int, j: int| 0 <= i < r && 0 <= j < c implies #[trigger] m@[i][j]
                == qzero() by {
                lemma_rm_index(i, j, r as int, c as int);
            }
        }
        m
    }

    /// The `n` by `n` identity.
    pub fn identity(n: usize) -> (m: Mat)
        requires
            n as int * n as int <= usize::MAX,
        ensures
            m.rdim() == n,
            m.cdim() == n,
            forall|i: int, j: int| 0 <= i < n && 0 <= j < n ==> #[trigger] m@[i][j] == qid(i, j),
    {
        let mut data: Vec<Rat> = Vec::new();
        let mut i: usize = 0;
        while i < n
            invariant
                i <= n,
                n as int * n as int <= usize::MAX,
                data.len() == i as int * n as int,
                forall|a: int, b: int|
                    0 <= a < i && 0 <= b < n ==> #[trigger] data@[a * n as int + b]@ == qid(a, b),
                forall|t: int| 0 <= t < data.len() ==> qwf(#[trigger] data@[t]@),
            decreases n - i,
        {
            let mut j: usize = 0;
            while j < n
                invariant
                    i < n,
                    j <= n,
                    n as int * n as int <= usize::MAX,
                    data.len() == i as int * n as int + j as int,
                    forall|a: int, b: int|
                        0 <= a < i && 0 <= b < n ==> #[trigger] data@[a * n as int + b]@ == qid(
                            a,
                            b,
                        ),
                    forall|b: int|
                        0 <= b < j ==> #[trigger] data@[i as int * n as int + b]@ == qid(
                            i as int,
                            b,
                        ),
                    forall|t: int| 0 <= t < data.len() ==> qwf(#[trigger] data@[t]@),
                decreases n - j,
            {
                proof {
                    lemma_rm_index(i as int, j as int, n as int, n as int);
                }
                if i == j {
                    data.push(Rat::one());
                } else {
                    data.push(Rat::zero());
                }
                j = j + 1;
                proof {
                    assert forall|a: int, b: int|
                        0 <= a < i && 0 <= b < n implies #[trigger] data@[a * n as int + b]@
                        == qid(a, b) by {
                        lemma_rm_index(a, b, i as int, n as int);
                    }
                }
            }
            proof {
                lemma_row_step(i as int, n as int);
                assert forall|a: int, b: int|
                    0 <= a < i + 1 && 0 <= b < n implies #[trigger] data@[a * n as int + b]@
                    == qid(a, b) by {
                    lemma_rm_index(a, b, i as int + 1, n as int);
                }
            }
            i = i + 1;
        }
        let m = Mat { rows: n, cols: n, data };
        proof {
            assert forall|i2: int, j2: int| 0 <= i2 < n && 0 <= j2 < n implies #[trigger] m@[i2][j2]
                == qid(i2, j2) by {
                lemma_rm_index(i2, j2, n as int, n as int);
            }
        }
        m
    }

    /// Entry `(i, j)`.
    pub fn get(&self, i: usize, j: usize) -> (r: Rat)
        requires
            0 <= i < self.rdim(),
            0 <= j < self.cdim(),
        ensures
            r@ == self@[i as int][j as int],
    {
        proof {
            use_type_invariant(self);
            lemma_rm_index(i as int, j as int, self.rows as int, self.cols as int);
        }
        self.data[i * self.cols + j]
    }

    /// An `n` by `1` column from a vector of samples.
    pub fn from_col(v: &Vec<Rat>) -> (m: Mat)
        ensures
            m.rdim() == v.len(),
            m.cdim() == 1,
            forall|i: int| 0 <= i < v.len() ==> #[trigger] m@[i][0] == v@[i]@,
    {
        let n: usize = v.len();
        let mut data: Vec<Rat> = Vec::new();
        let mut k: usize = 0;
        while k < n
            invariant
                data.len() == k,
                k <= n,
                n == v.len(),
                forall|t: int| 0 <= t < k ==> #[trigger] data@[t] == v@[t],
                forall|t: int| 0 <= t < k ==> qwf(#[trigger] data@[t]@),
            decreases n - k,
        {
            let e: Rat = v[k];
            proof {
                use_type_invariant(&e);
            }
            data.push(e);
            k = k + 1;
        }
        Mat { rows: n, cols: 1, data }
    }

    /// The single column of an `n` by `1` matrix, as a vector of samples.
    pub fn col0(&self) -> (r: Vec<Rat>)
        requires
            self.cdim() >= 1,
        ensures
            r.len() == self.rdim(),
            forall|i: int| 0 <= i < r.len() ==> #[trigger] r@[i]@ == self@[i][0],
    {
        let n: usize = self.rows;
        let mut out: Vec<Rat> = Vec::new();
        let mut i: usize = 0;
        while i < n
            invariant
                out.len() == i,
                i <= n,
                n as int == self.rdim(),
                self.cdim() >= 1,
                forall|t: int| 0 <= t < i ==> #[trigger] out@[t]@ == self@[t][0],
            decreases n - i,
        {
            let e = self.get(i, 0);
            out.push(e);
            i = i + 1;
        }
        out
    }

    /// A matrix from explicit rows; `None` when the rows are ragged or there
    /// are no entries at all.
    pub fn from_rows(rows_in: &Vec<Vec<Rat>>) -> (m: Option<Mat>)
        ensures
            m matches Some(q) ==> {
                &&& q.rdim() == rows_in.len()
                &&& rows_in.len() > 0
                &&& forall|i: int|
                    0 <= i < rows_in.len() ==> (#[trigger] rows_in@[i]).len() == q.cdim()
                &&& forall|i: int, j: int|
                    0 <= i < q.rdim() && 0 <= j < q.cdim() ==> #[trigger] q@[i][j]
                        == rows_in@[i]@[j]@
            },
            (rows_in.len() > 0 && (forall|i: int|
                0 <= i < rows_in.len() ==> (#[trigger] rows_in@[i]).len() == rows_in@[0].len())
                && rows_in@[0].len() > 0 && rows_in.len() * rows_in@[0].len() <= usize::MAX)
                ==> m is Some,
    {
        let r: usize = rows_in.len();
        if r == 0 {
            return None;
        }
        let first_row = &rows_in[0];
        let c: usize = first_row.len();
        proof {
            assert(c == rows_in@[0].len());
        }
        if c == 0 {
            return None;
        }
        if r > usize::MAX / c {
            proof {
                lemma_cap_div(r as int, c as int, usize::MAX as int);
            }
            return None;
        }
        proof {
            lemma_cap_div_ok(r as int, c as int, usize::MAX as int);
        }
        let mut data: Vec<Rat> = Vec::new();
        let mut i: usize = 0;
        while i < r
            invariant
                i <= r,
                r == rows_in.len(),
                c == rows_in@[0].len(),
                data.len() == i as int * c as int,
                r as int * c as int <= usize::MAX,
                forall|a: int| 0 <= a < i ==> (#[trigger] rows_in@[a]).len() == c,
                forall|a: int, b: int|
                    0 <= a < i && 0 <= b < c ==> #[trigger] data@[a * c as int + b]
                        == rows_in@[a]@[b],
                forall|t: int| 0 <= t < data.len() ==> qwf(#[trigger] data@[t]@),
            decreases r - i,
        {
            let row = &rows_in[i];
            if row.len() != c {
                proof {
                    assert(c == rows_in@[0].len());
                    assert(rows_in@[i as int].len() != rows_in@[0].len());
                }
                return None;
            }
            let mut j: usize = 0;
            while j < c
                invariant
                    j <= c,
                    i < r,
                    r == rows_in.len(),
                    rows_in@[i as int].len() == c,
                    data.len() == i as int * c as int + j as int,
                    r as int * c as int <= usize::MAX,
                    forall|a: int| 0 <= a < i ==> (#[trigger] rows_in@[a]).len() == c,
                    forall|a: int, b: int|
                        0 <= a < i && 0 <= b < c ==> #[trigger] data@[a * c as int + b]
                            == rows_in@[a]@[b],
                    forall|b: int|
                        0 <= b < j ==> #[trigger] data@[i as int * c as int + b]
                            == rows_in@[i as int]@[b],
                    forall|t: int| 0 <= t < data.len() ==> qwf(#[trigger] data@[t]@),
                decreases c - j,
            {
                proof {
                    lemma_rm_index(i as int, j as int, r as int, c as int);
                }
                let e: Rat = rows_in[i][j];
                proof {
                    use_type_invariant(&e);
                }
                data.push(e);
                j = j + 1;
                proof {
                    assert forall|a: int, b: int|
                        0 <= a < i && 0 <= b < c implies #[trigger] data@[a * c as int + b]
                        == rows_in@[a]@[b] by {
                        lemma_rm_index(a, b, i as int, c as int);
                    }
                }
            }
            proof {
                lemma_row_step(i as int, c as int);
                assert forall|a: int, b: int|
                    0 <= a < i + 1 && 0 <= b < c implies #[trigger] data@[a * c as int + b]
                    == rows_in@[a]@[b] by {
                    lemma_rm_index(a, b, i as int + 1, c as int);
                }
            }
            i = i + 1;
        }
        let m = Mat { rows: r, cols: c, data };
        proof {
            assert forall|a: int, b: int|
                0 <= a < m.rdim() && 0 <= b < m.cdim() implies #[trigger] m@[a][b]
                == rows_in@[a]@[b]@ by {
                lemma_rm_index(a, b, r as int, c as int);
            }
        }
        Some(m)
    }
}

/// Two distinct cells never share a row-major index.
proof fn lemma_rm_same_cell(a: int, b: int, i: int, j: int, c: int)
    by (nonlinear_arith)
    requires
        0 <= b < c,
        0 <= j < c,
        a * c + b == i * c + j,
    ensures
        a == i && b == j,
{
}

/// Row-major length bookkeeping: finishing a row advances by one row.
proof fn lemma_row_step(i: int, c: int)
    by (nonlinear_arith)
    ensures
        i * c + c == (i + 1) * c,
{
}

/// If `r > cap / c` (with `c > 0`) then `r * c > cap`.
pub proof fn lemma_cap_div(r: int, c: int, cap: int)
    by (nonlinear_arith)
    requires
        c > 0,
        cap >= 0,
        r > cap / c,
    ensures
        r * c > cap,
{
}

/// If `r <= cap / c` (with `c > 0`) then `r * c <= cap`.
pub proof fn lemma_cap_div_ok(r: int, c: int, cap: int)
    by (nonlinear_arith)
    requires
        c > 0,
        cap >= 0,
        r <= cap / c,
    ensures
        r * c <= cap,
{
}


/// Entry well-formedness of a matrix product.
pub proof fn lemma_mm_entry_wf(
    a: Seq<Seq<(int, int)>>,
    b: Seq<Seq<(int, int)>>,
    i: int,
    j: int,
)
    requires
        mat_qwf(a),
        mat_qwf(b),
        0 <= i < a.len(),
        a[i].len() == b.len(),
        forall|k: int| 0 <= k < b.len() ==> 0 <= j < (#[trigger] b[k]).len(),
    ensures
        qwf(mm_entry(a, b, i, j)),
{
    let terms = Seq::new(b.len(), |k: int| qmul(a[i][k], b[k][j]));
    assert forall|k: int| 0 <= k < terms.len() implies qwf(#[trigger] terms[k]) by {
        lemma_qadd_wf(a[i][k], b[k][j]);
    }
    lemma_qsum_wf(terms);
}

impl Mat {
    /// Entrywise sum; `None` only when an entry leaves the machine range.
    pub fn try_add(&self, other: &Mat) -> (r: Option<Mat>)
        requires
            self.rdim() == other.rdim(),
            self.cdim() == other.cdim(),
        ensures
            r matches Some(m) ==> {
                &&& m.rdim() == self.rdim()
                &&& m.cdim() == self.cdim()
                &&& forall|i: int, j: int|
                    0 <= i < m.rdim() && 0 <= j < m.cdim() ==> qeq(
                        #[trigger] m@[i][j],
                        qadd(self@[i][j], other@[i][j]),
                    )
            },
            (forall|i: int, j: int|
                0 <= i < self.rdim() && 0 <= j < self.cdim() ==> q_in_range(
                    (#[trigger] qadd(self@[i][j], other@[i][j])).0,
                    qadd(self@[i][j], other@[i][j]).1,
                )) ==> r is Some,
    {
        let rr: usize = self.rows();
        let cc: usize = self.cols();
        proof {
            use_type_invariant(self);
        }
        let mut data: Vec<Rat> = Vec::new();
        let mut i: usize = 0;
        while i < rr
            invariant
                i <= rr,
                rr as int == self.rdim() && rr as int == other.rdim(),
                cc as int == self.cdim() && cc as int == other.cdim(),
                rr as int * cc as int <= usize::MAX,
                data.len() == i as int * cc as int,
                forall|a: int, b: int|
                    0 <= a < i && 0 <= b < cc ==> qeq(
                        #[trigger] data@[a * cc as int + b]@,
                        qadd(self@[a][b], other@[a][b]),
                    ),
                forall|t: int| 0 <= t < data.len() ==> qwf(#[trigger] data@[t]@),
            decreases rr - i,
        {
            let mut j: usize = 0;
            while j < cc
                invariant
                    i < rr,
                    j <= cc,
                    rr as int == self.rdim() && rr as int == other.rdim(),
                    cc as int == self.cdim() && cc as int == other.cdim(),
                    rr as int * cc as int <= usize::MAX,
                    data.len() == i as int * cc as int + j as int,
                    forall|a: int, b: int|
                        0 <= a < i && 0 <= b < cc ==> qeq(
                            #[trigger] data@[a * cc as int + b]@,
                            qadd(self@[a][b], other@[a][b]),
                        ),
                    forall|b: int|
                        0 <= b < j ==> qeq(
                            #[trigger] data@[i as int * cc as int + b]@,
                            qadd(self@[i as int][b], other@[i as int][b]),
                        ),
                    forall|t: int| 0 <= t < data.len() ==> qwf(#[trigger] data@[t]@),
                decreases cc - j,
            {
                proof {
                    lemma_rm_index(i as int, j as int, rr as int, cc as int);
                }
                let x = self.get(i, j);
                let y = other.get(i, j);
                let z = match x.try_add(&y) {
                    Some(z) => z,
                    None => {
                        proof {
                            assert(!q_in_range(
                                qadd(self@[i as int][j as int], other@[i as int][j as int]).0,
                                qadd(self@[i as int][j as int], other@[i as int][j as int]).1,
                            ));
                        }
                        return None;
                    },
                };
                data.push(z);
                j = j + 1;
                proof {
                    assert forall|a: int, b: int|
                        0 <= a < i && 0 <= b < cc implies qeq(
                        #[trigger] data@[a * cc as int + b]@,
                        qadd(self@[a][b], other@[a][b]),
                    ) by {
                        lemma_rm_index(a, b, i as int, cc as int);
                    }
                }
            }
            proof {
                lemma_row_step(i as int, cc as int);
                assert forall|a: int, b: int|
                    0 <= a < i + 1 && 0 <= b < cc implies qeq(
                    #[trigger] data@[a * cc as int + b]@,
                    qadd(self@[a][b], other@[a][b]),
                ) by {
                    lemma_rm_index(a, b, i as int + 1, cc as int);
                }
            }
            i = i + 1;
        }
        let m = Mat { rows: rr, cols: cc, data };
        proof {
            assert forall|i2: int, j2: int|
                0 <= i2 < m.rdim() && 0 <= j2 < m.cdim() implies qeq(
                #[trigger] m@[i2][j2],
                qadd(self@[i2][j2], other@[i2][j2]),
            ) by {
                lemma_rm_index(i2, j2, rr as int, cc as int);
            }
        }
        Some(m)
    }

    /// Entrywise difference; `None` only when an entry leaves the machine
    /// range.
    pub fn try_sub(&self, other: &Mat) -> (r: Option<Mat>)
        requires
            self.rdim() == other.rdim(),
            self.cdim() == other.cdim(),
        ensures
            r matches Some(m) ==> {
                &&& m.rdim() == self.rdim()
                &&& m.cdim() == self.cdim()
                &&& forall|i: int, j: int|
                    0 <= i < m.rdim() && 0 <= j < m.cdim() ==> qeq(
                        #[trigger] m@[i][j],
                        qsub(self@[i][j], other@[i][j]),
                    )
            },
            (forall|i: int, j: int|
                0 <= i < self.rdim() && 0 <= j < self.cdim() ==> q_in_range(
                    (#[trigger] qsub(self@[i][j], other@[i][j])).0,
                    qsub(self@[i][j], other@[i][j]).1,
                )) ==> r is Some,
    {
        let rr: usize = self.rows();
        let cc: usize = self.cols();
        proof {
            use_type_invariant(self);
        }
        let mut data: Vec<Rat> = Vec::new();
        let mut i: usize = 0;
        while i < rr
            invariant
                i <= rr,
                rr as int == self.rdim() && rr as int == other.rdim(),
                cc as int == self.cdim() && cc as int == other.cdim(),
                rr as int * cc as int <= usize::MAX,
                data.len() == i as int * cc as int,
                forall|a: int, b: int|
                    0 <= a < i && 0 <= b < cc ==> qeq(
                        #[trigger] data@[a * cc as int + b]@,
                        qsub(self@[a][b], other@[a][b]),
                    ),
                forall|t: int| 0 <= t < data.len() ==> qwf(#[trigger] data@[t]@),
            decreases rr - i,
        {
            let mut j: usize = 0;
            while j < cc
                invariant
                    i < rr,
                    j <= cc,
                    rr as int == self.rdim() && rr as int == other.rdim(),
                    cc as int == self.cdim() && cc as int == other.cdim(),
                    rr as int * cc as int <= usize::MAX,
                    data.len() == i as int * cc as int + j as int,
                    forall|a: int, b: int|
                        0 <= a < i && 0 <= b < cc ==> qeq(
                            #[trigger] data@[a * cc as int + b]@,
                            qsub(self@[a][b], other@[a][b]),
                        ),
                    forall|b: int|
                        0 <= b < j ==> qeq(
                            #[trigger] data@[i as int * cc as int + b]@,
                            qsub(self@[i as int][b], other@[i as int][b]),
                        ),
                    forall|t: int| 0 <= t < data.len() ==> qwf(#[trigger] data@[t]@),
                decreases cc - j,
            {
                proof {
                    lemma_rm_index(i as int, j as int, rr as int, cc as int);
                }
                let x = self.get(i, j);
                let y = other.get(i, j);
                let z = match x.try_sub(&y) {
                    Some(z) => z,
                    None => {
                        proof {
                            assert(!q_in_range(
                                qsub(self@[i as int][j as int], other@[i as int][j as int]).0,
                                qsub(self@[i as int][j as int], other@[i as int][j as int]).1,
                            ));
                        }
                        return None;
                    },
                };
                data.push(z);
                j = j + 1;
                proof {
                    assert forall|a: int, b: int|
                        0 <= a < i && 0 <= b < cc implies qeq(
                        #[trigger] data@[a * cc as int + b]@,
                        qsub(self@[a][b], other@[a][b]),
                    ) by {
                        lemma_rm_index(a, b, i as int, cc as int);
                    }
                }
            }
            proof {
                lemma_row_step(i as int, cc as int);
                assert forall|a: int, b: int|
                    0 <= a < i + 1 && 0 <= b < cc implies qeq(
                    #[trigger] data@[a * cc as int + b]@,
                    qsub(self@[a][b], other@[a][b]),
                ) by {
                    lemma_rm_index(a, b, i as int + 1, cc as int);
                }
            }
            i = i + 1;
        }
        let m = Mat { rows: rr, cols: cc, data };
        proof {
            assert forall|i2: int, j2: int|
                0 <= i2 < m.rdim() && 0 <= j2 < m.cdim() implies qeq(
                #[trigger] m@[i2][j2],
                qsub(self@[i2][j2], other@[i2][j2]),
            ) by {
                lemma_rm_index(i2, j2, rr as int, cc as int);
            }
        }
        Some(m)
    }

    /// Matrix product; `None` only when an entry leaves the machine range.
    pub fn try_mul(&self, other: &Mat) -> (r: Option<Mat>)
        requires
            self.cdim() == other.rdim(),
        ensures
            r matches Some(m) ==> {
                &&& m.rdim() == self.rdim()
                &&& m.cdim() == other.cdim()
                &&& forall|i: int, j: int|
                    0 <= i < m.rdim() && 0 <= j < m.cdim() ==> qeq(
                        #[trigger] m@[i][j],
                        mm_entry(self@, other@, i, j),
                    )
            },
            mat_fits(self@, other@) && self.rdim() * other.cdim() <= usize::MAX ==> r is Some,
    {
        let rr: usize = self.rows();
        let mm: usize = self.cols();
        let cc: usize = other.cols();
        let _wa = self.entries_wf();
        let _wb = other.entries_wf();
        if cc > 0 && rr > usize::MAX / cc {
            proof {
                lemma_cap_div(rr as int, cc as int, usize::MAX as int);
            }
            return None;
        }
        if cc == 0 {
            proof {
                lemma_zero_cols(rr as int);
            }
            let m = Mat { rows: rr, cols: 0, data: Vec::new() };
            return Some(m);
        }
        proof {
            lemma_cap_div_ok(rr as int, cc as int, usize::MAX as int);
        }
        let mut data: Vec<Rat> = Vec::new();
        let mut i: usize = 0;
        while i < rr
            invariant
                i <= rr,
                rr as int == self.rdim(),
                mm as int == self.cdim() && mm as int == other.rdim(),
                cc as int == other.cdim(),
                mat_qwf(self@),
                mat_qwf(other@),
                mat_shape(self@, self.rdim(), self.cdim()),
                mat_shape(other@, other.rdim(), other.cdim()),
                rr as int * cc as int <= usize::MAX,
                data.len() == i as int * cc as int,
                forall|a: int, b: int|
                    0 <= a < i && 0 <= b < cc ==> qeq(
                        #[trigger] data@[a * cc as int + b]@,
                        mm_entry(self@, other@, a, b),
                    ),
                forall|t: int| 0 <= t < data.len() ==> qwf(#[trigger] data@[t]@),
            decreases rr - i,
        {
            let mut j: usize = 0;
            while j < cc
                invariant
                    i < rr,
                    j <= cc,
                    rr as int == self.rdim(),
                    mm as int == self.cdim() && mm as int == other.rdim(),
                    cc as int == other.cdim(),
                    mat_qwf(self@),
                    mat_qwf(other@),
                    mat_shape(self@, self.rdim(), self.cdim()),
                    mat_shape(other@, other.rdim(), other.cdim()),
                    rr as int * cc as int <= usize::MAX,
                    data.len() == i as int * cc as int + j as int,
                    forall|a: int, b: int|
                        0 <= a < i && 0 <= b < cc ==> qeq(
                            #[trigger] data@[a * cc as int + b]@,
                            mm_entry(self@, other@, a, b),
                        ),
                    forall|b: int|
                        0 <= b < j ==> qeq(
                            #[trigger] data@[i as int * cc as int + b]@,
                            mm_entry(self@, other@, i as int, b),
                        ),
                    forall|t: int| 0 <= t < data.len() ==> qwf(#[trigger] data@[t]@),
                decreases cc - j,
            {
                let ghost terms = Seq::new(
                    other@.len() as nat,
                    |k: int| qmul(self@[i as int][k], other@[k][j as int]),
                );
                proof {
                    assert forall|k: int| 0 <= k < terms.len() implies qwf(
                        #[trigger] terms[k],
                    ) by {
                        lemma_qadd_wf(self@[i as int][k], other@[k][j as int]);
                    }
                }
                let mut acc = Rat::zero();
                let mut k: usize = 0;
                while k < mm
                    invariant
                        i < rr,
                        j < cc,
                        k <= mm,
                        rr as int == self.rdim(),
                        mm as int == self.cdim() && mm as int == other.rdim(),
                        cc as int == other.cdim(),
                        mat_qwf(self@),
                        mat_qwf(other@),
                        mat_shape(self@, self.rdim(), self.cdim()),
                        mat_shape(other@, other.rdim(), other.cdim()),
                        terms == Seq::new(
                            other@.len() as nat,
                            |t: int| qmul(self@[i as int][t], other@[t][j as int]),
                        ),
                        qseq_wf(terms),
                        qwf(acc@),
                        qeq(acc@, qsum(terms.take(k as int))),
                        iabs(acc@.0) <= mat_accmag(self@, other@, i as int, j as int, k as int).0,
                        acc@.1 <= mat_accmag(self@, other@, i as int, j as int, k as int).1,
                    decreases mm - k,
                {
                    let x = self.get(i, k);
                    let y = other.get(k, j);
                    let ghost tt = mat_tmag(self@, other@, i as int, j as int, k as int);
                    let ghost bb = mat_accmag(self@, other@, i as int, j as int, k as int);
                    proof {
                        assert(x@ == self@[i as int][k as int]);
                        assert(y@ == other@[k as int][j as int]);
                        lemma_mag_mul(x@.0, y@.0);
                        assert(tt.0 >= 0 && tt.1 >= 1) by (nonlinear_arith)
                            requires
                                tt == (iabs(x@.0) * iabs(y@.0), x@.1 * y@.1),
                                iabs(x@.0) >= 0,
                                iabs(y@.0) >= 0,
                                x@.1 >= 1,
                                y@.1 >= 1,
                        ;
                        lemma_mat_accmag_pos(self@, other@, i as int, j as int, k as int);
                        assert(mat_accmag(self@, other@, i as int, j as int, k as int + 1) == (
                            bb.0 * tt.1 + tt.0 * bb.1,
                            bb.1 * tt.1,
                        ));
                    }
                    let t = match x.try_mul(&y) {
                        Some(t) => t,
                        None => {
                            proof {
                                if mat_fits(self@, other@) {
                                    assert(tt.0 <= 0x7fff_ffff_ffff_ffff && tt.1
                                        <= 0x7fff_ffff_ffff_ffff);
                                    assert(q_in_range(qmul(x@, y@).0, qmul(x@, y@).1));
                                    assert(false);
                                }
                            }
                            return None;
                        },
                    };
                    let acc2 = match acc.try_add(&t) {
                        Some(a) => a,
                        None => {
                            proof {
                                assert(iabs(t@.0) <= tt.0 && t@.1 <= tt.1);
                                lemma_envelope_step(acc@.0, acc@.1, t@.0, t@.1, bb, tt);
                                if mat_fits(self@, other@) {
                                    assert(mat_accmag(
                                        self@,
                                        other@,
                                        i as int,
                                        j as int,
                                        k as int + 1,
                                    ).0 <= 0x7fff_ffff_ffff_ffff && mat_accmag(
                                        self@,
                                        other@,
                                        i as int,
                                        j as int,
                                        k as int + 1,
                                    ).1 <= 0x7fff_ffff_ffff_ffff);
                                    assert(q_in_range(qadd(acc@, t@).0, qadd(acc@, t@).1));
                                    assert(false);
                                }
                            }
                            return None;
                        },
                    };
                    proof {
                        assert(iabs(t@.0) <= tt.0 && t@.1 <= tt.1);
                        lemma_envelope_step(acc@.0, acc@.1, t@.0, t@.1, bb, tt);
                        assert(iabs(acc2@.0) <= mat_accmag(
                            self@,
                            other@,
                            i as int,
                            j as int,
                            k as int + 1,
                        ).0);
                        assert(acc2@.1 <= mat_accmag(
                            self@,
                            other@,
                            i as int,
                            j as int,
                            k as int + 1,
                        ).1);
                        let pre = terms.take(k as int);
                        let post = terms.take(k as int + 1);
                        assert(post.drop_last() =~= pre);
                        assert(post.last() == terms[k as int]);
                        assert(qseq_wf(pre));
                        lemma_qsum_wf(pre);
                        lemma_qadd_wf(qsum(pre), terms[k as int]);
                        lemma_qadd_wf(acc@, t@);
                        lemma_qadd_congr(acc@, t@, qsum(pre), terms[k as int]);
                        lemma_qeq_trans(acc2@, qadd(acc@, t@), qadd(qsum(pre), terms[k as int]));
                    }
                    acc = acc2;
                    k = k + 1;
                }
                proof {
                    assert(terms.take(mm as int) =~= terms);
                    lemma_rm_index(i as int, j as int, rr as int, cc as int);
                }
                data.push(acc);
                j = j + 1;
                proof {
                    assert forall|a: int, b: int|
                        0 <= a < i && 0 <= b < cc implies qeq(
                        #[trigger] data@[a * cc as int + b]@,
                        mm_entry(self@, other@, a, b),
                    ) by {
                        lemma_rm_index(a, b, i as int, cc as int);
                    }
                }
            }
            proof {
                lemma_row_step(i as int, cc as int);
                assert forall|a: int, b: int|
                    0 <= a < i + 1 && 0 <= b < cc implies qeq(
                    #[trigger] data@[a * cc as int + b]@,
                    mm_entry(self@, other@, a, b),
                ) by {
                    lemma_rm_index(a, b, i as int + 1, cc as int);
                }
            }
            i = i + 1;
        }
        let m = Mat { rows: rr, cols: cc, data };
        proof {
            assert forall|i2: int, j2: int|
                0 <= i2 < m.rdim() && 0 <= j2 < m.cdim() implies qeq(
                #[trigger] m@[i2][j2],
                mm_entry(self@, other@, i2, j2),
            ) by {
                lemma_rm_index(i2, j2, rr as int, cc as int);
            }
        }
        Some(m)
    }

    /// The transpose.
    pub fn transpose(&self) -> (r: Mat)
        ensures
            r.rdim() == self.cdim(),
            r.cdim() == self.rdim(),
            forall|i: int, j: int|
                0 <= i < r.rdim() && 0 <= j < r.cdim() ==> #[trigger] r@[i][j] == self@[j][i],
    {
        let rr: usize = self.cols();
        let cc: usize = self.rows();
        proof {
            use_type_invariant(self);
            lemma_mul_flip(self.rdim(), self.cdim());
        }
        let mut data: Vec<Rat> = Vec::new();
        let mut i: usize = 0;
        while i < rr
            invariant
                i <= rr,
                rr as int == self.cdim(),
                cc as int == self.rdim(),
                rr as int * cc as int <= usize::MAX,
                data.len() == i as int * cc as int,
                forall|a: int, b: int|
                    0 <= a < i && 0 <= b < cc ==> #[trigger] data@[a * cc as int + b]@
                        == self@[b][a],
                forall|t: int| 0 <= t < data.len() ==> qwf(#[trigger] data@[t]@),
            decreases rr - i,
        {
            let mut j: usize = 0;
            while j < cc
                invariant
                    i < rr,
                    j <= cc,
                    rr as int == self.cdim(),
                    cc as int == self.rdim(),
                    rr as int * cc as int <= usize::MAX,
                    data.len() == i as int * cc as int + j as int,
                    forall|a: int, b: int|
                        0 <= a < i && 0 <= b < cc ==> #[trigger] data@[a * cc as int + b]@
                            == self@[b][a],
                    forall|b: int|
                        0 <= b < j ==> #[trigger] data@[i as int * cc as int + b]@
                            == self@[b][i as int],
                    forall|t: int| 0 <= t < data.len() ==> qwf(#[trigger] data@[t]@),
                decreases cc - j,
            {
                proof {
                    lemma_rm_index(i as int, j as int, rr as int, cc as int);
                }
                let e = self.get(j, i);
                proof {
                    use_type_invariant(&e);
                }
                data.push(e);
                j = j + 1;
                proof {
                    assert forall|a: int, b: int|
                        0 <= a < i && 0 <= b < cc implies #[trigger] data@[a * cc as int + b]@
                        == self@[b][a] by {
                        lemma_rm_index(a, b, i as int, cc as int);
                    }
                }
            }
            proof {
                lemma_row_step(i as int, cc as int);
                assert forall|a: int, b: int|
                    0 <= a < i + 1 && 0 <= b < cc implies #[trigger] data@[a * cc as int + b]@
                    == self@[b][a] by {
                    lemma_rm_index(a, b, i as int + 1, cc as int);
                }
            }
            i = i + 1;
        }
        let m = Mat { rows: rr, cols: cc, data };
        proof {
            assert forall|i2: int, j2: int|
                0 <= i2 < m.rdim() && 0 <= j2 < m.cdim() implies #[trigger] m@[i2][j2]
                == self@[j2][i2] by {
                lemma_rm_index(i2, j2, rr as int, cc as int);
            }
        }
        m
    }
}

impl Mat {
    /// The inverse, by exact Gauss-Jordan elimination.  The candidate is
    /// multiplied back against `self` and compared with the identity entry by
    /// entry, so a `Some` result is a checked inverse; `None` reports a
    /// singular matrix or an entry outside the machine range.
    pub fn try_inverse(&self) -> (r: Option<Mat>)
        requires
            self.rdim() == self.cdim(),
        ensures
            self.rdim() == 0 ==> r is Some,
            r matches Some(m) ==> {
                &&& m.rdim() == self.rdim()
                &&& m.cdim() == self.rdim()
                &&& forall|i: int, j: int|
                    0 <= i < self.rdim() && 0 <= j < self.rdim() ==> qeq(
                        mm_entry(self@, m@, i, j),
                        #[trigger] qid(i, j),
                    )
            },
    {
        let n: usize = self.rows();
        if n == 0 {
            return Some(Mat { rows: 0, cols: 0, data: Vec::new() });
        }
        if n > usize::MAX / 2 || 2 * n > usize::MAX / n {
            return None;
        }
        let two_n: usize = 2 * n;
        proof {
            lemma_cap_div_ok(2 * n as int, n as int, usize::MAX as int);
            lemma_mul_flip(n as int, two_n as int);
        }
        let total: usize = two_n * n;
        // Augmented system [self | identity], row-major, n by 2n.
        let mut aug: Vec<Rat> = Vec::new();
        let mut i: usize = 0;
        while i < n
            invariant
                i <= n,
                two_n == 2 * n,
                n as int == self.rdim() && n as int == self.cdim(),
                n as int * two_n as int <= usize::MAX,
                aug.len() == i as int * two_n as int,
            decreases n - i,
        {
            let mut j: usize = 0;
            while j < two_n
                invariant
                    i < n,
                    j <= two_n,
                    two_n == 2 * n,
                    n as int == self.rdim() && n as int == self.cdim(),
                    n as int * two_n as int <= usize::MAX,
                    aug.len() == i as int * two_n as int + j as int,
                decreases two_n - j,
            {
                if j < n {
                    aug.push(self.get(i, j));
                } else if j == n + i {
                    aug.push(Rat::one());
                } else {
                    aug.push(Rat::zero());
                }
                j = j + 1;
            }
            proof {
                lemma_row_step(i as int, two_n as int);
            }
            i = i + 1;
        }
        // Elimination.
        let mut col: usize = 0;
        while col < n
            invariant
                col <= n,
                two_n == 2 * n,
                n >= 1,
                n as int == self.rdim(),
                n as int * two_n as int <= usize::MAX,
                aug.len() == n as int * two_n as int,
            decreases n - col,
        {
            // Find a row at or below `col` with a nonzero pivot entry.
            let mut piv: usize = n;
            let mut rr: usize = col;
            while rr < n
                invariant
                    col <= n,
                    col <= rr <= n,
                    n as int == self.rdim(),
                    piv == n || (col <= piv < n),
                    two_n == 2 * n,
                    n as int * two_n as int <= usize::MAX,
                    aug.len() == n as int * two_n as int,
                decreases n - rr,
            {
                proof {
                    lemma_rm_index(rr as int, col as int, n as int, two_n as int);
                }
                if !aug[rr * two_n + col].is_zero() {
                    piv = rr;
                    rr = n;
                } else {
                    rr = rr + 1;
                }
            }
            if piv == n {
                return None;
            }
            // Swap the pivot row into place.
            if piv != col {
                let mut j: usize = 0;
                while j < two_n
                    invariant
                        j <= two_n,
                        col < n,
                        piv < n,
                        two_n == 2 * n,
                        n as int * two_n as int <= usize::MAX,
                        aug.len() == n as int * two_n as int,
                    decreases two_n - j,
                {
                    proof {
                        lemma_rm_index(col as int, j as int, n as int, two_n as int);
                        lemma_rm_index(piv as int, j as int, n as int, two_n as int);
                    }
                    let a = aug[col * two_n + j];
                    let b = aug[piv * two_n + j];
                    aug[col * two_n + j] = b;
                    aug[piv * two_n + j] = a;
                    j = j + 1;
                }
            }
            // Scale the pivot row so the pivot becomes one.
            proof {
                lemma_rm_index(col as int, col as int, n as int, two_n as int);
            }
            let pv = aug[col * two_n + col];
            if pv.is_zero() {
                return None;
            }
            let mut j: usize = 0;
            while j < two_n
                invariant
                    j <= two_n,
                    col < n,
                    n as int == self.rdim(),
                    two_n == 2 * n,
                    n as int * two_n as int <= usize::MAX,
                    aug.len() == n as int * two_n as int,
                decreases two_n - j,
            {
                proof {
                    lemma_rm_index(col as int, j as int, n as int, two_n as int);
                }
                let e = aug[col * two_n + j];
                let scaled = match e.try_div(&pv) {
                    Some(v) => v,
                    None => {
                        return None;
                    },
                };
                aug[col * two_n + j] = scaled;
                j = j + 1;
            }
            // Clear the column everywhere else.
            let mut rr2: usize = 0;
            while rr2 < n
                invariant
                    rr2 <= n,
                    col < n,
                    n as int == self.rdim(),
                    two_n == 2 * n,
                    n as int * two_n as int <= usize::MAX,
                    aug.len() == n as int * two_n as int,
                decreases n - rr2,
            {
                if rr2 != col {
                    proof {
                        lemma_rm_index(rr2 as int, col as int, n as int, two_n as int);
                    }
                    let f = aug[rr2 * two_n + col];
                    if !f.is_zero() {
                        let mut j2: usize = 0;
                        while j2 < two_n
                            invariant
                                j2 <= two_n,
                                col < n,
                                rr2 < n,
                                n as int == self.rdim(),
                                two_n == 2 * n,
                                n as int * two_n as int <= usize::MAX,
                                aug.len() == n as int * two_n as int,
                            decreases two_n - j2,
                        {
                            proof {
                                lemma_rm_index(rr2 as int, j2 as int, n as int, two_n as int);
                                lemma_rm_index(col as int, j2 as int, n as int, two_n as int);
                            }
                            let p = match f.try_mul(&aug[col * two_n + j2]) {
                                Some(v) => v,
                                None => {
                                    return None;
                                },
                            };
                            let e2 = match aug[rr2 * two_n + j2].try_sub(&p) {
                                Some(v) => v,
                                None => {
                                    return None;
                                },
                            };
                            aug[rr2 * two_n + j2] = e2;
                            j2 = j2 + 1;
                        }
                    }
                }
                rr2 = rr2 + 1;
            }
            col = col + 1;
        }
        // Extract the right half as the candidate inverse.
        proof {
            use_type_invariant(self);
        }
        let mut data: Vec<Rat> = Vec::new();
        let mut i2: usize = 0;
        while i2 < n
            invariant
                i2 <= n,
                two_n == 2 * n,
                n as int * n as int <= usize::MAX,
                n as int * two_n as int <= usize::MAX,
                aug.len() == n as int * two_n as int,
                data.len() == i2 as int * n as int,
                forall|t: int| 0 <= t < data.len() ==> qwf(#[trigger] data@[t]@),
            decreases n - i2,
        {
            let mut j3: usize = 0;
            while j3 < n
                invariant
                    i2 < n,
                    j3 <= n,
                    two_n == 2 * n,
                    n as int * n as int <= usize::MAX,
                    n as int * two_n as int <= usize::MAX,
                    aug.len() == n as int * two_n as int,
                    data.len() == i2 as int * n as int + j3 as int,
                    forall|t: int| 0 <= t < data.len() ==> qwf(#[trigger] data@[t]@),
                decreases n - j3,
            {
                proof {
                    lemma_rm_index(i2 as int, (n + j3) as int, n as int, two_n as int);
                }
                let e = aug[i2 * two_n + n + j3];
                proof {
                    use_type_invariant(&e);
                }
                data.push(e);
                j3 = j3 + 1;
            }
            proof {
                lemma_row_step(i2 as int, n as int);
            }
            i2 = i2 + 1;
        }
        let cand = Mat { rows: n, cols: n, data };
        // Check the candidate: `self * cand` must be the identity, exactly.
        let prod = match self.try_mul(&cand) {
            Some(p) => p,
            None => {
                return None;
            },
        };
        let one = Rat::one();
        let zero = Rat::zero();
        let mut ci: usize = 0;
        while ci < n
            invariant
                ci <= n,
                n as int == self.rdim() && n as int == self.cdim(),
                prod.rdim() == n && prod.cdim() == n,
                cand.rdim() == n && cand.cdim() == n,
                one@ == qone() && zero@ == qzero(),
                forall|i3: int, j4: int|
                    0 <= i3 < n && 0 <= j4 < n ==> qeq(
                        #[trigger] prod@[i3][j4],
                        mm_entry(self@, cand@, i3, j4),
                    ),
                forall|i3: int, j4: int|
                    0 <= i3 < ci && 0 <= j4 < n ==> qeq(#[trigger] prod@[i3][j4], qid(i3, j4)),
            decreases n - ci,
        {
            let mut cj: usize = 0;
            while cj < n
                invariant
                    ci < n,
                    cj <= n,
                    n as int == self.rdim() && n as int == self.cdim(),
                    prod.rdim() == n && prod.cdim() == n,
                    cand.rdim() == n && cand.cdim() == n,
                    one@ == qone() && zero@ == qzero(),
                    forall|i3: int, j4: int|
                        0 <= i3 < n && 0 <= j4 < n ==> qeq(
                            #[trigger] prod@[i3][j4],
                            mm_entry(self@, cand@, i3, j4),
                        ),
                    forall|i3: int, j4: int|
                        0 <= i3 < ci && 0 <= j4 < n ==> qeq(#[trigger] prod@[i3][j4], qid(i3, j4)),
                    forall|j4: int|
                        0 <= j4 < cj ==> qeq(#[trigger] prod@[ci as int][j4], qid(ci as int, j4)),
                decreases n - cj,
            {
                let e = prod.get(ci, cj);
                let ok = if ci == cj {
                    e.eq_value(&one)
                } else {
                    e.eq_value(&zero)
                };
                if !ok {
                    return None;
                }
                cj = cj + 1;
            }
            ci = ci + 1;
        }
        let _wa2 = self.entries_wf();
        let _wc = cand.entries_wf();
        let _wp = prod.entries_wf();
        proof {
            assert forall|i3: int, j4: int|
                0 <= i3 < self.rdim() && 0 <= j4 < self.rdim() implies qeq(
                mm_entry(self@, cand@, i3, j4),
                #[trigger] qid(i3, j4),
            ) by {
                lemma_entry_qid(self@, cand@, prod@, i3, j4, n as int);
            }
        }
        Some(cand)
    }
}

/// From a product entry equal to the checked entry and the checked entry
/// equal to the identity entry, the product entry is the identity entry.
proof fn lemma_entry_qid(
    a: Seq<Seq<(int, int)>>,
    b: Seq<Seq<(int, int)>>,
    p: Seq<Seq<(int, int)>>,
    i: int,
    j: int,
    n: int,
)
    requires
        mat_qwf(a),
        mat_qwf(b),
        mat_shape(a, n, n),
        mat_shape(b, n, n),
        mat_shape(p, n, n),
        mat_qwf(p),
        0 <= i < n,
        0 <= j < n,
        qeq(p[i][j], mm_entry(a, b, i, j)),
        qeq(p[i][j], qid(i, j)),
    ensures
        qeq(mm_entry(a, b, i, j), qid(i, j)),
{
    lemma_mm_entry_wf(a, b, i, j);
    crate::rat::lemma_qeq_sym(p[i][j], mm_entry(a, b, i, j));
    lemma_qeq_trans(mm_entry(a, b, i, j), p[i][j], qid(i, j));
}

/// A matrix with zero columns has an empty grid of rows.
proof fn lemma_zero_cols(r: int)
    by (nonlinear_arith)
    requires
        r >= 0,
    ensures
        r * 0 == 0,
{
}

/// Swapping the factors keeps the product.
proof fn lemma_mul_flip(r: int, c: int)
    by (nonlinear_arith)
    ensures
        r * c == c * r,
{
}

/// The product grid, with the given result shape.
pub open spec fn gprod(
    a: Seq<Seq<(int, int)>>,
    b: Seq<Seq<(int, int)>>,
    rows: int,
    cols: int,
) -> Seq<Seq<(int, int)>> {
    Seq::new(rows as nat, |i: int| Seq::new(cols as nat, |j: int| mm_entry(a, b, i, j)))
}

/// The entrywise sum grid.
pub open spec fn gadd(
    a: Seq<Seq<(int, int)>>,
    b: Seq<Seq<(int, int)>>,
    rows: int,
    cols: int,
) -> Seq<Seq<(int, int)>> {
    Seq::new(rows as nat, |i: int| Seq::new(cols as nat, |j: int| qadd(a[i][j], b[i][j])))
}

/// The entrywise difference grid.
pub open spec fn gsub(
    a: Seq<Seq<(int, int)>>,
    b: Seq<Seq<(int, int)>>,
    rows: int,
    cols: int,
) -> Seq<Seq<(int, int)>> {
    Seq::new(rows as nat, |i: int| Seq::new(cols as nat, |j: int| qsub(a[i][j], b[i][j])))
}

/// The transposed grid of an `rows` by `cols` grid.
pub open spec fn gtrans(a: Seq<Seq<(int, int)>>, rows: int, cols: int) -> Seq<Seq<(int, int)>> {
    Seq::new(cols as nat, |i: int| Seq::new(rows as nat, |j: int| a[j][i]))
}

/// Product entries respect pointwise value equality of the factors.
pub proof fn lemma_mm_congr(
    a: Seq<Seq<(int, int)>>,
    a2: Seq<Seq<(int, int)>>,
    b: Seq<Seq<(int, int)>>,
    b2: Seq<Seq<(int, int)>>,
    i: int,
    j: int,
)
    requires
        a.len() == a2.len(),
        b.len() == b2.len(),
        mat_qwf(a),
        mat_qwf(a2),
        mat_qwf(b),
        mat_qwf(b2),
        0 <= i < a.len(),
        a[i].len() == b.len(),
        a2[i].len() == b2.len(),
        forall|k: int| 0 <= k < b.len() ==> 0 <= j < (#[trigger] b[k]).len(),
        forall|k: int| 0 <= k < b2.len() ==> 0 <= j < (#[trigger] b2[k]).len(),
        forall|r: int, c: int|
            0 <= r < a.len() && 0 <= c < a[r].len() ==> qeq(#[trigger] a[r][c], a2[r][c]),
        forall|r: int, c: int|
            0 <= r < b.len() && 0 <= c < b[r].len() ==> qeq(#[trigger] b[r][c], b2[r][c]),
    ensures
        qwf(mm_entry(a, b, i, j)),
        qwf(mm_entry(a2, b2, i, j)),
        qeq(mm_entry(a, b, i, j), mm_entry(a2, b2, i, j)),
{
    let t1 = Seq::new(b.len(), |k: int| qmul(a[i][k], b[k][j]));
    let t2 = Seq::new(b2.len(), |k: int| qmul(a2[i][k], b2[k][j]));
    assert forall|k: int| 0 <= k < t1.len() implies qwf(#[trigger] t1[k]) && qwf(t2[k]) && qeq(
        t1[k],
        t2[k],
    ) by {
        lemma_qadd_wf(a[i][k], b[k][j]);
        lemma_qadd_wf(a2[i][k], b2[k][j]);
        crate::rat::lemma_qmul_congr(a[i][k], b[k][j], a2[i][k], b2[k][j]);
    }
    assert forall|k: int| 0 <= k < t2.len() implies qwf(#[trigger] t2[k]) by {
        lemma_qadd_wf(a2[i][k], b2[k][j]);
    }
    lemma_qsum_wf(t1);
    lemma_qsum_wf(t2);
    crate::rat::lemma_qsum_congr(t1, t2);
}

} // verus!
