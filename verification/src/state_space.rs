//! The discrete state-space engine shared by the LTI blocks.
//!
//! An engine is `(A, B, C, D, x)` with `A` square `n` by `n`, `B` `n` by
//! `m`, `C` `p` by `n`, `D` `p` by `m` and `x` the `n` by `1` state.  One
//! step advances `x` to `A x + B u` and emits `y = C x + D u` with the new
//! state.  Beyond raw matrices, an engine can be built from a transfer
//! function (controllable canonical form) or from zeros, poles and gain.

use crate::matrix::{lemma_mm_entry_wf, mm_entry, Mat};
use crate::rat::{
    iabs, lemma_envelope_step, lemma_mag_mul, lemma_qadd_congr, lemma_qadd_wf, lemma_qdiv_congr,
    lemma_qeq_trans, lemma_qmul_congr, lemma_qneg_congr, lemma_qsum_congr, lemma_qsum_wf,
    q_in_range, qadd, qdiv, qeq, qmul, qneg, qone, qseq_wf, qsum, qwf, qzero, rats_wf, seq_rats,
    Rat,
};
use vstd::prelude::*;

verus! {

/// Entry `i` of the next state: `(A x)[i] + (B u)[i]`.
pub open spec fn ss_next_entry(
    a: Seq<Seq<(int, int)>>,
    b: Seq<Seq<(int, int)>>,
    x: Seq<Seq<(int, int)>>,
    u: Seq<Seq<(int, int)>>,
    i: int,
) -> (int, int) {
    qadd(mm_entry(a, x, i, 0), mm_entry(b, u, i, 0))
}

/// Entry `i` of the output: `(C x')[i] + (D u)[i]`, over the new state.
pub open spec fn ss_out_entry(
    c: Seq<Seq<(int, int)>>,
    d: Seq<Seq<(int, int)>>,
    xn: Seq<Seq<(int, int)>>,
    u: Seq<Seq<(int, int)>>,
    i: int,
) -> (int, int) {
    qadd(mm_entry(c, xn, i, 0), mm_entry(d, u, i, 0))
}

/// Entry `k` of the product of the polynomials `a` and `b` (coefficient
/// sequences, lowest degree first).
pub open spec fn conv_entry(a: Seq<(int, int)>, b: Seq<(int, int)>, k: int) -> (int, int) {
    qsum(
        Seq::new(
            a.len(),
            |i: int|
                if 0 <= k - i < b.len() {
                    qmul(a[i], b[k - i])
                } else {
                    qzero()
                },
        ),
    )
}

/// The product of two polynomials.
pub open spec fn conv_spec(a: Seq<(int, int)>, b: Seq<(int, int)>) -> Seq<(int, int)> {
    Seq::new((a.len() + b.len() - 1) as nat, |k: int| conv_entry(a, b, k))
}

/// The magnitude envelope of one convolution term: componentwise absolute
/// bounds of the unreduced product, `(0, 1)` where the indices clip.
pub open spec fn conv_tmag(a: Seq<(int, int)>, b: Seq<(int, int)>, k: int, i: int) -> (int, int) {
    if 0 <= k - i < b.len() {
        (iabs(a[i].0) * iabs(b[k - i].0), a[i].1 * b[k - i].1)
    } else {
        (0, 1)
    }
}

/// The magnitude envelope of the running sum after the first `i` terms of
/// product entry `k`: every stored intermediate stays componentwise inside
/// it, because reduction only shrinks magnitudes.
pub open spec fn conv_accmag(
    a: Seq<(int, int)>,
    b: Seq<(int, int)>,
    k: int,
    i: int,
) -> (int, int)
    decreases i,
{
    if i <= 0 {
        (0, 1)
    } else {
        let bb = conv_accmag(a, b, k, i - 1);
        let t = conv_tmag(a, b, k, i - 1);
        (bb.0 * t.1 + t.0 * bb.1, bb.1 * t.1)
    }
}

/// Every term and running-sum envelope of the whole product stays inside
/// the representable range; under this the convolution is owed to succeed.
pub open spec fn conv_fits(a: Seq<(int, int)>, b: Seq<(int, int)>) -> bool {
    forall|k: int, i: int|
        0 <= k < a.len() + b.len() - 1 && 0 <= i < a.len() ==> {
            let t = #[trigger] conv_tmag(a, b, k, i);
            let bb = conv_accmag(a, b, k, i + 1);
            &&& t.0 <= 0x7fff_ffff_ffff_ffff
            &&& t.1 <= 0x7fff_ffff_ffff_ffff
            &&& bb.0 <= 0x7fff_ffff_ffff_ffff
            &&& bb.1 <= 0x7fff_ffff_ffff_ffff
        }
}

/// The envelope components are non-negative, with a positive denominator.
proof fn lemma_conv_accmag_pos(a: Seq<(int, int)>, b: Seq<(int, int)>, k: int, i: int)
    requires
        qseq_wf(a),
        qseq_wf(b),
        0 <= i <= a.len(),
    ensures
        conv_accmag(a, b, k, i).0 >= 0,
        conv_accmag(a, b, k, i).1 >= 1,
    decreases i,
{
    if i > 0 {
        lemma_conv_accmag_pos(a, b, k, i - 1);
        let bb = conv_accmag(a, b, k, i - 1);
        let t = conv_tmag(a, b, k, i - 1);
        if 0 <= k - (i - 1) < b.len() {
            assert(t.0 >= 0 && t.1 >= 1) by (nonlinear_arith)
                requires
                    t == (iabs(a[i - 1].0) * iabs(b[k - (i - 1)].0), a[i - 1].1 * b[k - (i - 1)].1),
                    iabs(a[i - 1].0) >= 0,
                    iabs(b[k - (i - 1)].0) >= 0,
                    a[i - 1].1 >= 1,
                    b[k - (i - 1)].1 >= 1,
            ;
        }
        assert(bb.0 * t.1 + t.0 * bb.1 >= 0 && bb.1 * t.1 >= 1) by (nonlinear_arith)
            requires
                bb.0 >= 0,
                bb.1 >= 1,
                t.0 >= 0,
                t.1 >= 1,
        ;
    }
}

/// The discrete state-space engine.
pub struct StateSpace {
    pub a: Mat,
    pub b: Mat,
    pub c: Mat,
    pub d: Mat,
    pub x: Mat,
}

impl StateSpace {
    /// The dimensions agree: `A` is `n` by `n`, `B` `n` by `m`, `C` `p` by
    /// `n`, `D` `p` by `m`, `x` `n` by `1`.
    pub open spec fn wf(&self) -> bool {
        &&& self.a.rdim() == self.a.cdim()
        &&& self.b.rdim() == self.a.rdim()
        &&& self.c.cdim() == self.a.cdim()
        &&& self.d.rdim() == self.c.rdim()
        &&& self.d.cdim() == self.b.cdim()
        &&& self.x.rdim() == self.a.rdim()
        &&& self.x.cdim() == 1
    }

    /// An engine from raw matrices.
    pub fn new(a: Mat, b: Mat, c: Mat, d: Mat, x0: Mat) -> (s: StateSpace)
        requires
            a.rdim() == a.cdim(),
            b.rdim() == a.rdim(),
            c.cdim() == a.cdim(),
            d.rdim() == c.rdim(),
            d.cdim() == b.cdim(),
            x0.rdim() == a.rdim(),
            x0.cdim() == 1,
        ensures
            s.wf(),
            s.a == a && s.b == b && s.c == c && s.d == d && s.x == x0,
    {
        StateSpace { a, b, c, d, x: x0 }
    }

    /// The number of inputs the engine consumes per step.
    pub fn get_input_size(&self) -> (r: usize)
        ensures
            r as int == self.b.cdim(),
    {
        self.b.cols()
    }

    /// One step: `x <- A x + B u`, `y = C x + D u` over the new state.
    /// `None`, with the engine unchanged, when an entry leaves the machine
    /// range.
    pub fn update(&mut self, u: &Mat) -> (r: Option<Mat>)
        requires
            old(self).wf(),
            u.rdim() == old(self).b.cdim(),
            u.cdim() == 1,
        ensures
            r is None ==> *final(self) == *old(self),
            r matches Some(y) ==> {
                &&& final(self).wf()
                &&& final(self).a == old(self).a && final(self).b == old(self).b && final(self).c
                    == old(self).c && final(self).d == old(self).d
                &&& final(self).x.rdim() == old(self).x.rdim() && final(self).x.cdim() == 1
                &&& forall|i: int|
                    0 <= i < final(self).x.rdim() ==> qeq(
                        #[trigger] final(self).x@[i][0],
                        ss_next_entry(old(self).a@, old(self).b@, old(self).x@, u@, i),
                    )
                &&& y.rdim() == old(self).c.rdim() && y.cdim() == 1
                &&& forall|i: int|
                    0 <= i < y.rdim() ==> qeq(
                        #[trigger] y@[i][0],
                        ss_out_entry(old(self).c@, old(self).d@, final(self).x@, u@, i),
                    )
            },
    {
        let xa = match self.a.try_mul(&self.x) {
            Some(v) => v,
            None => {
                return None;
            },
        };
        let xb = match self.b.try_mul(u) {
            Some(v) => v,
            None => {
                return None;
            },
        };
        let xn = match xa.try_add(&xb) {
            Some(v) => v,
            None => {
                return None;
            },
        };
        let yc = match self.c.try_mul(&xn) {
            Some(v) => v,
            None => {
                return None;
            },
        };
        let yd = match self.d.try_mul(u) {
            Some(v) => v,
            None => {
                return None;
            },
        };
        let y = match yc.try_add(&yd) {
            Some(v) => v,
            None => {
                return None;
            },
        };
        let _w1 = self.a.entries_wf();
        let _w2 = self.b.entries_wf();
        let _w3 = self.c.entries_wf();
        let _w4 = self.d.entries_wf();
        let _w5 = self.x.entries_wf();
        let _w6 = u.entries_wf();
        let _w7 = xa.entries_wf();
        let _w8 = xb.entries_wf();
        let _w9 = xn.entries_wf();
        let _w10 = yc.entries_wf();
        let _w11 = yd.entries_wf();
        let _w12 = y.entries_wf();
        proof {
            assert forall|i: int| 0 <= i < xn.rdim() implies qeq(
                #[trigger] xn@[i][0],
                ss_next_entry(self.a@, self.b@, self.x@, u@, i),
            ) by {
                lemma_mm_entry_wf(self.a@, self.x@, i, 0);
                lemma_mm_entry_wf(self.b@, u@, i, 0);
                lemma_qadd_congr(
                    xa@[i][0],
                    xb@[i][0],
                    mm_entry(self.a@, self.x@, i, 0),
                    mm_entry(self.b@, u@, i, 0),
                );
                lemma_qadd_wf(xa@[i][0], xb@[i][0]);
                lemma_qadd_wf(mm_entry(self.a@, self.x@, i, 0), mm_entry(self.b@, u@, i, 0));
                lemma_qeq_trans(
                    xn@[i][0],
                    qadd(xa@[i][0], xb@[i][0]),
                    ss_next_entry(self.a@, self.b@, self.x@, u@, i),
                );
            }
            assert forall|i: int| 0 <= i < y.rdim() implies qeq(
                #[trigger] y@[i][0],
                ss_out_entry(self.c@, self.d@, xn@, u@, i),
            ) by {
                lemma_mm_entry_wf(self.c@, xn@, i, 0);
                lemma_mm_entry_wf(self.d@, u@, i, 0);
                lemma_qadd_congr(
                    yc@[i][0],
                    yd@[i][0],
                    mm_entry(self.c@, xn@, i, 0),
                    mm_entry(self.d@, u@, i, 0),
                );
                lemma_qadd_wf(yc@[i][0], yd@[i][0]);
                lemma_qadd_wf(mm_entry(self.c@, xn@, i, 0), mm_entry(self.d@, u@, i, 0));
                lemma_qeq_trans(
                    y@[i][0],
                    qadd(yc@[i][0], yd@[i][0]),
                    ss_out_entry(self.c@, self.d@, xn@, u@, i),
                );
            }
        }
        self.x = xn;
        Some(y)
    }

    /// The product of two coefficient vectors (polynomial convolution);
    /// `None` only when an entry leaves the machine range.
    pub fn cauchy(a: &Vec<Rat>, b: &Vec<Rat>) -> (r: Option<Vec<Rat>>)
        requires
            a.len() >= 1,
            b.len() >= 1,
            a.len() + b.len() - 1 <= usize::MAX,
        ensures
            r matches Some(p) ==> {
                &&& p.len() == a.len() + b.len() - 1
                &&& qseq_wf(seq_rats(p))
                &&& forall|k: int|
                    0 <= k < p.len() ==> qeq(
                        #[trigger] seq_rats(p)[k],
                        conv_entry(seq_rats(*a), seq_rats(*b), k),
                    )
            },
            conv_fits(seq_rats(*a), seq_rats(*b)) ==> r is Some,
    {
        let n: usize = a.len();
        let m: usize = b.len();
        let total: usize = n - 1 + m;
        let _aw = rats_wf(a);
        let _bw = rats_wf(b);
        let ghost am = seq_rats(*a);
        let ghost bm = seq_rats(*b);
        let mut out: Vec<Rat> = Vec::new();
        let mut k: usize = 0;
        while k < total
            invariant
                k <= total,
                total == n + m - 1,
                n == a.len() && m == b.len(),
                n >= 1 && m >= 1,
                am == seq_rats(*a),
                bm == seq_rats(*b),
                qseq_wf(am),
                qseq_wf(bm),
                out.len() == k,
                forall|j: int| 0 <= j < k ==> qeq(#[trigger] out[j]@, conv_entry(am, bm, j)),
                forall|j: int| 0 <= j < k ==> qwf(#[trigger] out[j]@),
            decreases total - k,
        {
            let ghost terms = Seq::new(
                am.len(),
                |i: int|
                    if 0 <= k - i < bm.len() {
                        qmul(am[i], bm[k - i])
                    } else {
                        qzero()
                    },
            );
            proof {
                assert forall|i: int| 0 <= i < terms.len() implies qwf(#[trigger] terms[i]) by {
                    if 0 <= k - i < bm.len() {
                        lemma_qadd_wf(am[i], bm[k - i]);
                    }
                }
            }
            let mut acc = Rat::zero();
            let mut i: usize = 0;
            while i < n
                invariant
                    i <= n,
                    k < total,
                    total == n + m - 1,
                    n == a.len() && m == b.len(),
                    am == seq_rats(*a),
                    bm == seq_rats(*b),
                    qseq_wf(am),
                    qseq_wf(bm),
                    terms == Seq::new(
                        am.len(),
                        |i2: int|
                            if 0 <= k - i2 < bm.len() {
                                qmul(am[i2], bm[k - i2])
                            } else {
                                qzero()
                            },
                    ),
                    qseq_wf(terms),
                    qwf(acc@),
                    qeq(acc@, qsum(terms.take(i as int))),
                    iabs(acc@.0) <= conv_accmag(am, bm, k as int, i as int).0,
                    acc@.1 <= conv_accmag(am, bm, k as int, i as int).1,
                decreases n - i,
            {
                let ghost tt = conv_tmag(am, bm, k as int, i as int);
                let ghost bb = conv_accmag(am, bm, k as int, i as int);
                proof {
                    assert(a[i as int]@ == am[i as int]);
                    lemma_conv_accmag_pos(am, bm, k as int, i as int);
                    if i <= k && (k as int - i as int) < bm.len() {
                        assert(b[k - i]@ == bm[k as int - i as int]);
                        lemma_mag_mul(am[i as int].0, bm[k as int - i as int].0);
                        assert(tt.0 >= 0 && tt.1 >= 1) by (nonlinear_arith)
                            requires
                                tt == (
                                    iabs(am[i as int].0) * iabs(bm[k as int - i as int].0),
                                    am[i as int].1 * bm[k as int - i as int].1,
                                ),
                                iabs(am[i as int].0) >= 0,
                                iabs(bm[k as int - i as int].0) >= 0,
                                am[i as int].1 >= 1,
                                bm[k as int - i as int].1 >= 1,
                        ;
                    }
                    assert(conv_accmag(am, bm, k as int, i as int + 1) == (
                        bb.0 * tt.1 + tt.0 * bb.1,
                        bb.1 * tt.1,
                    ));
                }
                let t = if k >= i && k - i < m {
                    let p = match a[i].try_mul(&b[k - i]) {
                        Some(v) => v,
                        None => {
                            proof {
                                if conv_fits(am, bm) {
                                    assert(tt.0 <= 0x7fff_ffff_ffff_ffff && tt.1
                                        <= 0x7fff_ffff_ffff_ffff);
                                    assert(q_in_range(
                                        qmul(am[i as int], bm[k as int - i as int]).0,
                                        qmul(am[i as int], bm[k as int - i as int]).1,
                                    ));
                                    assert(false);
                                }
                            }
                            return None;
                        },
                    };
                    p
                } else {
                    Rat::zero()
                };
                let acc2 = match acc.try_add(&t) {
                    Some(v) => v,
                    None => {
                        proof {
                            assert(iabs(t@.0) <= tt.0 && t@.1 <= tt.1);
                            lemma_envelope_step(acc@.0, acc@.1, t@.0, t@.1, bb, tt);
                            if conv_fits(am, bm) {
                                assert(conv_accmag(am, bm, k as int, i as int + 1).0
                                    <= 0x7fff_ffff_ffff_ffff && conv_accmag(
                                    am,
                                    bm,
                                    k as int,
                                    i as int + 1,
                                ).1 <= 0x7fff_ffff_ffff_ffff);
                                assert(q_in_range(qadd(acc@, t@).0, qadd(acc@, t@).1));
                                assert(false);
                            }
                        }
                        return None;
                    },
                };
                proof {
                    assert(iabs(t@.0) <= tt.0 && t@.1 <= tt.1);
                    lemma_envelope_step(acc@.0, acc@.1, t@.0, t@.1, bb, tt);
                    assert(iabs(acc2@.0) <= conv_accmag(am, bm, k as int, i as int + 1).0);
                    assert(acc2@.1 <= conv_accmag(am, bm, k as int, i as int + 1).1);
                    assert(a[i as int]@ == am[i as int]);
                    if k >= i && k - i < m {
                        assert(b[k - i]@ == bm[k - i]);
                    }
                    let pre = terms.take(i as int);
                    let post = terms.take(i as int + 1);
                    assert(post.drop_last() =~= pre);
                    assert(post.last() == terms[i as int]);
                    lemma_qsum_wf(pre);
                    lemma_qadd_wf(qsum(pre), terms[i as int]);
                    lemma_qadd_wf(acc@, t@);
                    lemma_qadd_congr(acc@, t@, qsum(pre), terms[i as int]);
                    lemma_qeq_trans(acc2@, qadd(acc@, t@), qadd(qsum(pre), terms[i as int]));
                }
                acc = acc2;
                i = i + 1;
            }
            proof {
                assert(terms.take(n as int) =~= terms);
            }
            let ghost oldoutv = out@;
            out.push(acc);
            k = k + 1;
            proof {
                assert forall|j: int| 0 <= j < k implies qeq(
                    #[trigger] out[j]@,
                    conv_entry(am, bm, j),
                ) by {
                    if j < k - 1 {
                        assert(out@[j] == oldoutv[j]);
                    } else {
                        assert(out@[j] == acc);
                    }
                }
            }
        }
        proof {
            assert forall|j: int| 0 <= j < seq_rats(out).len() implies qwf(
                #[trigger] seq_rats(out)[j],
            ) && qeq(seq_rats(out)[j], conv_entry(am, bm, j)) by {
                assert(seq_rats(out)[j] == out[j]@);
            }
        }
        Some(out)
    }
}

/// Entry `(i, j)` of the companion matrix `A` built from a denominator.
pub open spec fn tf_a_entry(den: Seq<(int, int)>, i: int, j: int) -> (int, int) {
    let n = den.len() - 1;
    if i == n - 1 {
        qneg(qdiv(den[j + 1], den[0]))
    } else if j == i + 1 {
        qone()
    } else {
        qzero()
    }
}

/// Entry `i` of the input matrix `B` built from a transfer function.
pub open spec fn tf_b_entry(num: Seq<(int, int)>, den: Seq<(int, int)>, i: int) -> (int, int) {
    if i + 1 < num.len() {
        qdiv(num[i + 1], den[0])
    } else {
        qzero()
    }
}

/// Entry `j` of the output matrix `C`: one at the last state.
pub open spec fn tf_c_entry(n: int, j: int) -> (int, int) {
    if j == n - 1 {
        qone()
    } else {
        qzero()
    }
}

/// The direct feed-through `D`: `num[0] / den[0]` exactly when the orders
/// agree, zero otherwise.
pub open spec fn tf_d_entry(num: Seq<(int, int)>, den: Seq<(int, int)>) -> (int, int) {
    if num.len() == den.len() {
        qdiv(num[0], den[0])
    } else {
        qzero()
    }
}

/// Every fraction the canonical form constructs from `num / den` is inside
/// the representable range, and the leading denominator coefficient is
/// nonzero: under these, building the engine is owed to succeed.
pub open spec fn tf_fits(num: Seq<(int, int)>, den: Seq<(int, int)>) -> bool {
    &&& den[0].0 != 0
    &&& forall|j: int|
        0 <= j < den.len() - 1 ==> q_in_range(
            (#[trigger] qdiv(den[j + 1], den[0])).0,
            qdiv(den[j + 1], den[0]).1,
        )
    &&& forall|i: int|
        0 <= i && i + 1 < num.len() ==> q_in_range(
            (#[trigger] qdiv(num[i + 1], den[0])).0,
            qdiv(num[i + 1], den[0]).1,
        )
    &&& (num.len() == den.len() ==> q_in_range(qdiv(num[0], den[0]).0, qdiv(num[0], den[0]).1))
}

impl StateSpace {
    /// The controllable-canonical-form engine of the transfer function
    /// `num / den`, with initial state `x0`.  `None` when the leading
    /// denominator coefficient is zero or an entry leaves the machine
    /// range.
    pub fn from_tf(num: &Vec<Rat>, den: &Vec<Rat>, x0: &Vec<Rat>) -> (r: Option<StateSpace>)
        requires
            den.len() >= 2,
            num.len() <= den.len(),
            x0.len() == den.len() - 1,
        ensures
            seq_rats(*den)[0].0 == 0 ==> r is None,
            tf_fits(seq_rats(*num), seq_rats(*den)) && (den.len() - 1) * (den.len() - 1)
                <= usize::MAX ==> r is Some,
            r matches Some(s) ==> {
                let n = den.len() - 1;
                let numm = seq_rats(*num);
                let denm = seq_rats(*den);
                &&& s.wf()
                &&& seq_rats(*den)[0].0 != 0
                &&& s.a.rdim() == n && s.a.cdim() == n
                &&& s.b.rdim() == n && s.b.cdim() == 1
                &&& s.c.rdim() == 1 && s.c.cdim() == n
                &&& s.d.rdim() == 1 && s.d.cdim() == 1
                &&& s.x.rdim() == n && s.x.cdim() == 1
                &&& forall|i: int, j: int|
                    0 <= i < n && 0 <= j < n ==> qeq(#[trigger] s.a@[i][j], tf_a_entry(denm, i, j))
                &&& forall|i: int|
                    0 <= i < n ==> qeq(#[trigger] s.b@[i][0], tf_b_entry(numm, denm, i))
                &&& forall|j: int| 0 <= j < n ==> #[trigger] s.c@[0][j] == tf_c_entry(n, j)
                &&& qeq(s.d@[0][0], tf_d_entry(numm, denm))
                &&& forall|i: int| 0 <= i < n ==> #[trigger] s.x@[i][0] == seq_rats(*x0)[i]
            },
    {
        let n: usize = den.len() - 1;
        let _dw = rats_wf(den);
        let _nw = rats_wf(num);
        let _xw = rats_wf(x0);
        let ghost numm = seq_rats(*num);
        let ghost denm = seq_rats(*den);
        let den0 = den[0];
        proof {
            assert(denm[0] == den[0int]@);
        }
        if den0.is_zero() {
            return None;
        }
        if n > usize::MAX / n {
            proof {
                crate::matrix::lemma_cap_div(n as int, n as int, usize::MAX as int);
            }
            return None;
        }
        proof {
            crate::matrix::lemma_cap_div_ok(n as int, n as int, usize::MAX as int);
        }
        // A: ones on the superdiagonal, the scaled denominator on the last
        // row.
        let mut arows: Vec<Vec<Rat>> = Vec::new();
        let mut i: usize = 0;
        while i < n
            invariant
                i <= n,
                n == den.len() - 1,
                n >= 1,
                denm == seq_rats(*den),
                qseq_wf(denm),
                den0 == den[0],
                den0@ == denm[0],
                denm[0].0 != 0,
                arows.len() == i,
                forall|a2: int| 0 <= a2 < i ==> (#[trigger] arows[a2]).len() == n,
                forall|a2: int, b2: int|
                    0 <= a2 < i && 0 <= b2 < n ==> qeq(
                        (#[trigger] arows[a2][b2])@,
                        tf_a_entry(denm, a2, b2),
                    ),
            decreases n - i,
        {
            let mut row: Vec<Rat> = Vec::new();
            let mut j: usize = 0;
            while j < n
                invariant
                    j <= n,
                    i < n,
                    n == den.len() - 1,
                    denm == seq_rats(*den),
                    qseq_wf(denm),
                    den0 == den[0],
                    den0@ == denm[0],
                    denm[0].0 != 0,
                    row.len() == j,
                    forall|b2: int|
                        0 <= b2 < j ==> qeq((#[trigger] row[b2])@, tf_a_entry(denm, i as int, b2)),
                decreases n - j,
            {
                let v: Rat = if i == n - 1 {
                    let q = match den[j + 1].try_div(&den0) {
                        Some(q) => q,
                        None => {
                            proof {
                                assert(den[j + 1 as int]@ == denm[j + 1]);
                                assert(!q_in_range(
                                    qdiv(denm[j + 1], denm[0]).0,
                                    qdiv(denm[j + 1], denm[0]).1,
                                ));
                                assert(!tf_fits(numm, denm));
                            }
                            return None;
                        },
                    };
                    let neg = match q.try_neg() {
                        Some(v2) => v2,
                        None => {
                            proof {
                                assert(false);
                            }
                            return None;
                        },
                    };
                    proof {
                        assert(den[j + 1 as int]@ == denm[j + 1]);
                        lemma_qdiv_congr(denm[j + 1], denm[0], denm[j + 1], denm[0]);
                        lemma_qneg_congr(q@, qdiv(denm[j + 1], denm[0]));
                        lemma_qeq_trans(
                            neg@,
                            qneg(q@),
                            qneg(qdiv(denm[j + 1], denm[0])),
                        );
                    }
                    neg
                } else if j == i + 1 {
                    Rat::one()
                } else {
                    Rat::zero()
                };
                row.push(v);
                j = j + 1;
            }
            arows.push(row);
            i = i + 1;
        }
        let amat = match Mat::from_rows(&arows) {
            Some(m) => m,
            None => {
                proof {
                    assert(arows[0].len() == n);
                    assert(false);
                }
                return None;
            },
        };
        // B: the scaled numerator tail.
        let mut brows: Vec<Vec<Rat>> = Vec::new();
        let mut i2: usize = 0;
        while i2 < n
            invariant
                i2 <= n,
                n == den.len() - 1,
                num.len() <= den.len(),
                numm == seq_rats(*num),
                denm == seq_rats(*den),
                qseq_wf(numm),
                qseq_wf(denm),
                den0 == den[0],
                den0@ == denm[0],
                denm[0].0 != 0,
                brows.len() == i2,
                forall|a2: int| 0 <= a2 < i2 ==> (#[trigger] brows[a2]).len() == 1,
                forall|a2: int|
                    0 <= a2 < i2 ==> qeq(
                        (#[trigger] brows[a2][0])@,
                        tf_b_entry(numm, denm, a2),
                    ),
            decreases n - i2,
        {
            let v: Rat = if i2 + 1 < num.len() {
                let q = match num[i2 + 1].try_div(&den0) {
                    Some(q) => q,
                    None => {
                        proof {
                            assert(num[i2 + 1 as int]@ == numm[i2 + 1]);
                            assert(!q_in_range(
                                qdiv(numm[i2 + 1], denm[0]).0,
                                qdiv(numm[i2 + 1], denm[0]).1,
                            ));
                            assert(!tf_fits(numm, denm));
                        }
                        return None;
                    },
                };
                proof {
                    assert(num[i2 + 1 as int]@ == numm[i2 + 1]);
                    lemma_qdiv_congr(numm[i2 + 1], denm[0], numm[i2 + 1], denm[0]);
                }
                q
            } else {
                Rat::zero()
            };
            let mut row: Vec<Rat> = Vec::new();
            row.push(v);
            brows.push(row);
            i2 = i2 + 1;
        }
        let bmat = match Mat::from_rows(&brows) {
            Some(m) => m,
            None => {
                proof {
                    assert(brows.len() == n > 0);
                    assert(brows@[0].len() == 1);
                    assert(forall|i4: int|
                        0 <= i4 < brows.len() ==> (#[trigger] brows@[i4]).len()
                            == brows@[0].len());
                    assert(brows.len() * brows@[0].len() <= usize::MAX);
                    assert(false);
                }
                return None;
            },
        };
        // C: one at the last state.
        let mut crow: Vec<Rat> = Vec::new();
        let mut j2: usize = 0;
        while j2 < n
            invariant
                j2 <= n,
                n >= 1,
                crow.len() == j2,
                forall|b2: int|
                    0 <= b2 < j2 ==> (#[trigger] crow[b2])@ == tf_c_entry(n as int, b2),
            decreases n - j2,
        {
            if j2 == n - 1 {
                crow.push(Rat::one());
            } else {
                crow.push(Rat::zero());
            }
            j2 = j2 + 1;
        }
        let mut crows: Vec<Vec<Rat>> = Vec::new();
        crows.push(crow);
        let cmat = match Mat::from_rows(&crows) {
            Some(m) => m,
            None => {
                proof {
                    assert(crows[0].len() == n);
                    assert(false);
                }
                return None;
            },
        };
        // D: the direct feed-through.
        let dval: Rat = if num.len() == den.len() {
            let q = match num[0].try_div(&den0) {
                Some(q) => q,
                None => {
                    proof {
                        assert(num[0int]@ == numm[0]);
                        assert(!tf_fits(numm, denm));
                    }
                    return None;
                },
            };
            proof {
                assert(num[0int]@ == numm[0]);
                lemma_qdiv_congr(numm[0], denm[0], numm[0], denm[0]);
            }
            q
        } else {
            Rat::zero()
        };
        let mut drow: Vec<Rat> = Vec::new();
        drow.push(dval);
        let mut drows: Vec<Vec<Rat>> = Vec::new();
        drows.push(drow);
        let dmat = match Mat::from_rows(&drows) {
            Some(m) => m,
            None => {
                proof {
                    assert(drows[0].len() == 1);
                    assert(false);
                }
                return None;
            },
        };
        let xmat = Mat::from_col(x0);
        let s = StateSpace { a: amat, b: bmat, c: cmat, d: dmat, x: xmat };
        proof {
            assert forall|i3: int| 0 <= i3 < n implies #[trigger] s.x@[i3][0]
                == seq_rats(*x0)[i3] by {
                assert(seq_rats(*x0)[i3] == x0[i3]@);
            }
        }
        Some(s)
    }
}

/// The monic polynomial with the given roots: the product of `(x - r)` over
/// the first `t` roots, lowest degree first.
pub open spec fn poly_from_roots(roots: Seq<(int, int)>, t: int) -> Seq<(int, int)>
    decreases t,
{
    if t <= 0 {
        seq![qone()]
    } else {
        conv_spec(poly_from_roots(roots, t - 1), seq![qneg(roots[t - 1]), qone()])
    }
}

/// Every coefficient scaled by `g`.
pub open spec fn scale_poly(p: Seq<(int, int)>, g: (int, int)) -> Seq<(int, int)> {
    Seq::new(p.len(), |i: int| qmul(p[i], g))
}

/// The coefficients reversed (to highest degree first).
pub open spec fn rev_poly(p: Seq<(int, int)>) -> Seq<(int, int)> {
    Seq::new(p.len(), |i: int| p[p.len() - 1 - i])
}

/// The polynomial left-padded with zeros to length `len`.
pub open spec fn pad_front(p: Seq<(int, int)>, len: int) -> Seq<(int, int)> {
    Seq::new(len as nat, |i: int| if i < len - p.len() { qzero() } else { p[i - (len - p.len())] })
}

/// The monic polynomial with `t` roots has `t + 1` coefficients.
pub proof fn lemma_poly_from_roots_len(roots: Seq<(int, int)>, t: int)
    requires
        t >= 0,
    ensures
        poly_from_roots(roots, t).len() == t + 1,
    decreases t,
{
    if t > 0 {
        lemma_poly_from_roots_len(roots, t - 1);
    }
}

/// Convolution entries respect pointwise value equality.
pub proof fn lemma_conv_congr(
    a: Seq<(int, int)>,
    a2: Seq<(int, int)>,
    b: Seq<(int, int)>,
    b2: Seq<(int, int)>,
    k: int,
)
    requires
        a.len() == a2.len(),
        b.len() == b2.len(),
        qseq_wf(a),
        qseq_wf(a2),
        qseq_wf(b),
        qseq_wf(b2),
        forall|i: int| 0 <= i < a.len() ==> qeq(#[trigger] a[i], a2[i]),
        forall|i: int| 0 <= i < b.len() ==> qeq(#[trigger] b[i], b2[i]),
    ensures
        qwf(conv_entry(a, b, k)),
        qwf(conv_entry(a2, b2, k)),
        qeq(conv_entry(a, b, k), conv_entry(a2, b2, k)),
{
    let t1 = Seq::new(
        a.len(),
        |i: int|
            if 0 <= k - i < b.len() {
                qmul(a[i], b[k - i])
            } else {
                qzero()
            },
    );
    let t2 = Seq::new(
        a2.len(),
        |i: int|
            if 0 <= k - i < b2.len() {
                qmul(a2[i], b2[k - i])
            } else {
                qzero()
            },
    );
    assert forall|i: int| 0 <= i < t1.len() implies qwf(#[trigger] t1[i]) && qwf(t2[i]) && qeq(
        t1[i],
        t2[i],
    ) by {
        if 0 <= k - i < b.len() {
            lemma_qadd_wf(a[i], b[k - i]);
            lemma_qadd_wf(a2[i], b2[k - i]);
            lemma_qmul_congr(a[i], b[k - i], a2[i], b2[k - i]);
        }
    }
    assert forall|i: int| 0 <= i < t2.len() implies qwf(#[trigger] t2[i]) by {
        if 0 <= k - i < b2.len() {
            lemma_qadd_wf(a2[i], b2[k - i]);
        }
    }
    lemma_qsum_wf(t1);
    lemma_qsum_wf(t2);
    lemma_qsum_congr(t1, t2);
}

impl StateSpace {
    /// The engine of the zero-pole-gain description: the denominator is the
    /// monic polynomial with the poles as roots, the numerator the monic
    /// polynomial with the zeros as roots scaled by the gain, both reversed
    /// to highest degree first, the numerator left-padded to the
    /// denominator's length.  `None` when an entry leaves the machine range.
    pub fn from_zpk(zeros: &Vec<Rat>, poles: &Vec<Rat>, gain: Rat, x0: &Vec<Rat>) -> (r: Option<
        StateSpace,
    >)
        requires
            poles.len() >= 1,
            zeros.len() <= poles.len(),
            x0.len() == poles.len(),
        ensures
            r matches Some(s) ==> {
                let n = poles.len() as int;
                let denf = rev_poly(poly_from_roots(seq_rats(*poles), n));
                let numf = pad_front(
                    rev_poly(scale_poly(poly_from_roots(seq_rats(*zeros), zeros.len() as int), gain@)),
                    n + 1,
                );
                &&& s.wf()
                &&& s.a.rdim() == n && s.a.cdim() == n
                &&& s.b.rdim() == n && s.b.cdim() == 1
                &&& s.c.rdim() == 1 && s.c.cdim() == n
                &&& s.d.rdim() == 1 && s.d.cdim() == 1
                &&& s.x.rdim() == n && s.x.cdim() == 1
                &&& forall|i: int, j: int|
                    0 <= i < n && 0 <= j < n ==> qeq(#[trigger] s.a@[i][j], tf_a_entry(denf, i, j))
                &&& forall|i: int|
                    0 <= i < n ==> qeq(#[trigger] s.b@[i][0], tf_b_entry(numf, denf, i))
                &&& forall|j: int| 0 <= j < n ==> #[trigger] s.c@[0][j] == tf_c_entry(n, j)
                &&& qeq(s.d@[0][0], tf_d_entry(numf, denf))
                &&& forall|i: int| 0 <= i < n ==> #[trigger] s.x@[i][0] == seq_rats(*x0)[i]
            },
    {
        let np: usize = poles.len();
        let nz: usize = zeros.len();
        let _pw = rats_wf(poles);
        let _zw = rats_wf(zeros);
        proof {
            use_type_invariant(&gain);
        }
        if np > usize::MAX / 2 {
            return None;
        }
        // The denominator: fold in one linear factor per pole.
        let mut den: Vec<Rat> = Vec::new();
        den.push(Rat::one());
        proof {
            assert(seq_rats(den) =~= poly_from_roots(seq_rats(*poles), 0));
            lemma_poly_from_roots_len(seq_rats(*poles), 0);
        }
        let mut t: usize = 0;
        while t < np
            invariant
                t <= np,
                np == poles.len(),
                np <= usize::MAX / 2,
                den.len() == t + 1,
                qseq_wf(seq_rats(*poles)),
                qseq_wf(seq_rats(den)),
                poly_from_roots(seq_rats(*poles), t as int).len() == t + 1,
                forall|i: int|
                    0 <= i < t + 1 ==> qeq(
                        #[trigger] seq_rats(den)[i],
                        poly_from_roots(seq_rats(*poles), t as int)[i],
                    ),
            decreases np - t,
        {
            let negp = match poles[t].try_neg() {
                Some(v) => v,
                None => {
                    return None;
                },
            };
            let mut fac: Vec<Rat> = Vec::new();
            fac.push(negp);
            fac.push(Rat::one());
            let den2 = match StateSpace::cauchy(&den, &fac) {
                Some(v) => v,
                None => {
                    return None;
                },
            };
            proof {
                let pm = seq_rats(*poles);
                let prev = poly_from_roots(pm, t as int);
                let cur = poly_from_roots(pm, t as int + 1);
                let facs = seq![qneg(pm[t as int]), qone()];
                assert(cur == conv_spec(prev, facs));
                assert(poles[t as int]@ == pm[t as int]);
                assert(qseq_wf(seq_rats(fac))) by {
                    assert(seq_rats(fac)[0] == negp@);
                    assert(seq_rats(fac)[1] == fac[1]@ && fac@[1]@ == (1int, 1int));
                }
                assert(qseq_wf(facs)) by {
                    lemma_qneg_congr(pm[t as int], pm[t as int]);
                }
                lemma_poly_from_roots_wf(pm, t as int);
                assert(seq_rats(fac).len() == 2 && facs.len() == 2);
                assert(qeq(seq_rats(fac)[0], facs[0])) by {
                    lemma_qneg_congr(pm[t as int], pm[t as int]);
                }
                assert(qeq(seq_rats(fac)[1], facs[1]));
                lemma_poly_from_roots_len(pm, t as int + 1);
                assert forall|i: int| 0 <= i < t + 2 implies qeq(
                    #[trigger] seq_rats(den2)[i],
                    cur[i],
                ) by {
                    assert(cur[i] == conv_entry(prev, facs, i));
                    assert(qeq(seq_rats(den2)[i], conv_entry(seq_rats(den), seq_rats(fac), i)));
                    lemma_conv_congr(seq_rats(den), prev, seq_rats(fac), facs, i);
                    lemma_qeq_trans(
                        seq_rats(den2)[i],
                        conv_entry(seq_rats(den), seq_rats(fac), i),
                        conv_entry(prev, facs, i),
                    );
                }
            }
            den = den2;
            t = t + 1;
        }
        // The numerator: the zeros' polynomial scaled by the gain.
        let mut num: Vec<Rat> = Vec::new();
        num.push(Rat::one());
        proof {
            assert(seq_rats(num) =~= poly_from_roots(seq_rats(*zeros), 0));
            lemma_poly_from_roots_len(seq_rats(*zeros), 0);
        }
        let mut t2: usize = 0;
        while t2 < nz
            invariant
                t2 <= nz,
                nz == zeros.len(),
                nz <= usize::MAX / 2,
                num.len() == t2 + 1,
                qseq_wf(seq_rats(*zeros)),
                qseq_wf(seq_rats(num)),
                poly_from_roots(seq_rats(*zeros), t2 as int).len() == t2 + 1,
                forall|i: int|
                    0 <= i < t2 + 1 ==> qeq(
                        #[trigger] seq_rats(num)[i],
                        poly_from_roots(seq_rats(*zeros), t2 as int)[i],
                    ),
            decreases nz - t2,
        {
            let negz = match zeros[t2].try_neg() {
                Some(v) => v,
                None => {
                    return None;
                },
            };
            let mut fac: Vec<Rat> = Vec::new();
            fac.push(negz);
            fac.push(Rat::one());
            let num2 = match StateSpace::cauchy(&num, &fac) {
                Some(v) => v,
                None => {
                    return None;
                },
            };
            proof {
                let zm = seq_rats(*zeros);
                let prev = poly_from_roots(zm, t2 as int);
                let cur = poly_from_roots(zm, t2 as int + 1);
                let facs = seq![qneg(zm[t2 as int]), qone()];
                assert(cur == conv_spec(prev, facs));
                assert(zeros[t2 as int]@ == zm[t2 as int]);
                assert(qseq_wf(seq_rats(fac))) by {
                    assert(seq_rats(fac)[0] == negz@);
                    assert(seq_rats(fac)[1] == fac[1]@ && fac@[1]@ == (1int, 1int));
                }
                assert(qseq_wf(facs)) by {
                    lemma_qneg_congr(zm[t2 as int], zm[t2 as int]);
                }
                lemma_poly_from_roots_wf(zm, t2 as int);
                assert(seq_rats(fac).len() == 2 && facs.len() == 2);
                assert(qeq(seq_rats(fac)[0], facs[0])) by {
                    lemma_qneg_congr(zm[t2 as int], zm[t2 as int]);
                }
                assert(qeq(seq_rats(fac)[1], facs[1]));
                lemma_poly_from_roots_len(zm, t2 as int + 1);
                assert forall|i: int| 0 <= i < t2 + 2 implies qeq(
                    #[trigger] seq_rats(num2)[i],
                    cur[i],
                ) by {
                    assert(cur[i] == conv_entry(prev, facs, i));
                    lemma_conv_congr(seq_rats(num), prev, seq_rats(fac), facs, i);
                    lemma_qeq_trans(
                        seq_rats(num2)[i],
                        conv_entry(seq_rats(num), seq_rats(fac), i),
                        conv_entry(prev, facs, i),
                    );
                }
            }
            num = num2;
            t2 = t2 + 1;
        }
        let ghost polyp = poly_from_roots(seq_rats(*poles), np as int);
        let ghost polyz = poly_from_roots(seq_rats(*zeros), nz as int);
        proof {
            lemma_poly_from_roots_wf(seq_rats(*poles), np as int);
            lemma_poly_from_roots_wf(seq_rats(*zeros), nz as int);
        }
        // Scale the numerator by the gain.
        let mut nums: Vec<Rat> = Vec::new();
        let mut t3: usize = 0;
        while t3 < nz + 1
            invariant
                t3 <= nz + 1,
                num.len() == nz + 1,
                nz <= usize::MAX / 2,
                qseq_wf(polyz),
                polyz.len() == nz + 1,
                forall|i: int|
                    0 <= i < nz + 1 ==> qeq(#[trigger] seq_rats(num)[i], polyz[i]),
                nums.len() == t3,
                forall|i: int|
                    0 <= i < t3 ==> qwf(#[trigger] seq_rats(nums)[i]) && qeq(
                        seq_rats(nums)[i],
                        qmul(polyz[i], gain@),
                    ),
                qwf(gain@),
            decreases nz + 1 - t3,
        {
            let e = num[t3];
            proof {
                use_type_invariant(&e);
            }
            let p = match e.try_mul(&gain) {
                Some(v) => v,
                None => {
                    return None;
                },
            };
            proof {
                assert(e@ == seq_rats(num)[t3 as int]);
                lemma_qmul_congr(e@, gain@, polyz[t3 as int], gain@);
                lemma_qadd_wf(polyz[t3 as int], gain@);
                lemma_qadd_wf(e@, gain@);
                lemma_qeq_trans(p@, qmul(e@, gain@), qmul(polyz[t3 as int], gain@));
            }
            let ghost oldnums = nums@;
            let ghost oldm = seq_rats(nums);
            nums.push(p);
            t3 = t3 + 1;
            proof {
                assert forall|i: int| 0 <= i < t3 implies qwf(#[trigger] seq_rats(nums)[i]) && qeq(
                    seq_rats(nums)[i],
                    qmul(polyz[i], gain@),
                ) by {
                    assert(seq_rats(nums)[i] == nums@[i]@);
                    if i < t3 - 1 {
                        assert(nums@[i] == oldnums[i]);
                        assert(oldm[i] == oldnums[i]@);
                    } else {
                        assert(nums@[i] == p);
                    }
                }
            }
        }
        // Reverse both polynomials to highest degree first.
        let mut denr: Vec<Rat> = Vec::new();
        let mut t4: usize = 0;
        while t4 < np + 1
            invariant
                t4 <= np + 1,
                den.len() == np + 1,
                np <= usize::MAX / 2,
                denr.len() == t4,
                forall|i: int| 0 <= i < t4 ==> #[trigger] denr[i] == den[np - i],
            decreases np + 1 - t4,
        {
            denr.push(den[np - t4]);
            t4 = t4 + 1;
        }
        let mut numr: Vec<Rat> = Vec::new();
        let mut t5: usize = 0;
        while t5 < nz + 1
            invariant
                t5 <= nz + 1,
                nums.len() == nz + 1,
                nz <= usize::MAX / 2,
                numr.len() == t5,
                forall|i: int| 0 <= i < t5 ==> #[trigger] numr[i] == nums[nz - i],
            decreases nz + 1 - t5,
        {
            numr.push(nums[nz - t5]);
            t5 = t5 + 1;
        }
        // Left-pad the numerator to the denominator's length.
        let mut numf: Vec<Rat> = Vec::new();
        let mut t6: usize = 0;
        let padlen: usize = np - nz;
        while t6 < padlen
            invariant
                t6 <= padlen,
                padlen == np - nz,
                nz <= np,
                numf.len() == t6,
                forall|i: int| 0 <= i < t6 ==> #[trigger] numf[i]@ == qzero(),
            decreases padlen - t6,
        {
            numf.push(Rat::zero());
            t6 = t6 + 1;
        }
        let mut t7: usize = 0;
        while t7 < nz + 1
            invariant
                t7 <= nz + 1,
                numr.len() == nz + 1,
                padlen == np - nz,
                nz <= np,
                numf.len() == padlen + t7,
                forall|i: int| 0 <= i < padlen ==> #[trigger] numf[i]@ == qzero(),
                forall|i: int|
                    0 <= i < t7 ==> #[trigger] numf[padlen + i] == numr[i],
            decreases nz + 1 - t7,
        {
            numf.push(numr[t7]);
            t7 = t7 + 1;
        }
        // Build the canonical form.
        let s = match StateSpace::from_tf(&numf, &denr, x0) {
            Some(v) => v,
            None => {
                return None;
            },
        };
        let _swa = s.a.entries_wf();
        let _swb = s.b.entries_wf();
        let _swd = s.d.entries_wf();
        proof {
            let pm = seq_rats(*poles);
            let zm = seq_rats(*zeros);
            let n = np as int;
            let denf = rev_poly(polyp);
            let numfs = pad_front(rev_poly(scale_poly(polyz, gain@)), n + 1);
            let dx = seq_rats(denr);
            let nx = seq_rats(numf);
            assert(denf.len() == n + 1 && dx.len() == n + 1);
            assert(numfs.len() == n + 1 && nx.len() == n + 1);
            assert forall|i: int| 0 <= i < n + 1 implies qwf(#[trigger] dx[i]) && qwf(denf[i])
                && qeq(dx[i], denf[i]) by {
                assert(dx[i] == denr[i]@);
                assert(denr[i] == den[np - i]);
                assert(seq_rats(den)[n - i] == den[np - i]@);
                assert(denf[i] == polyp[n - i]);
            }
            assert forall|i: int| 0 <= i < n + 1 implies qwf(#[trigger] nx[i]) && qwf(numfs[i])
                && qeq(nx[i], numfs[i]) by {
                if i < n - nz {
                    assert(nx[i] == numf[i]@);
                    assert(numf[i]@ == qzero());
                    assert(numfs[i] == qzero());
                } else {
                    assert(nx[i] == numf[i]@);
                    assert(numf[padlen + (i - padlen)] == numr[i - padlen]);
                    assert(numr[i - padlen] == nums[nz - (i - padlen)]);
                    assert(seq_rats(nums)[nz - (i - padlen)] == nums[nz - (i - padlen)]@);
                    assert(rev_poly(scale_poly(polyz, gain@))[i - padlen] == scale_poly(
                        polyz,
                        gain@,
                    )[nz - (i - padlen)]);
                    assert(numfs[i] == rev_poly(scale_poly(polyz, gain@))[i - padlen]);
                    assert(scale_poly(polyz, gain@)[nz - (i - padlen)] == qmul(
                        polyz[nz - (i - padlen)],
                        gain@,
                    ));
                    lemma_qadd_wf(polyz[nz - (i - padlen)], gain@);
                }
            }
            assert forall|i: int| 0 <= i < denf.len() implies qwf(#[trigger] denf[i]) by {
                assert(denf[i] == polyp[n - i]);
            }
            assert forall|i: int| 0 <= i < numfs.len() implies qwf(#[trigger] numfs[i]) by {
                if i >= n - nz {
                    assert(numfs[i] == rev_poly(scale_poly(polyz, gain@))[i - (n - nz)]);
                    assert(rev_poly(scale_poly(polyz, gain@))[i - (n - nz)] == scale_poly(
                        polyz,
                        gain@,
                    )[nz - (i - (n - nz))]);
                    lemma_qadd_wf(polyz[nz - (i - (n - nz))], gain@);
                }
            }
            assert(dx[0].0 != 0);
            lemma_qdiv_congr(dx[0], dx[0], denf[0], denf[0]);
            assert(denf[0].0 != 0);
            assert forall|i: int, j: int| 0 <= i < n && 0 <= j < n implies qeq(
                #[trigger] s.a@[i][j],
                tf_a_entry(denf, i, j),
            ) by {
                lemma_tf_a_congr(dx, denf, i, j);
                lemma_qeq_trans(s.a@[i][j], tf_a_entry(dx, i, j), tf_a_entry(denf, i, j));
            }
            assert forall|i: int| 0 <= i < n implies qeq(
                #[trigger] s.b@[i][0],
                tf_b_entry(numfs, denf, i),
            ) by {
                lemma_tf_b_congr(nx, numfs, dx, denf, i);
                lemma_qeq_trans(s.b@[i][0], tf_b_entry(nx, dx, i), tf_b_entry(numfs, denf, i));
            }
            lemma_tf_d_congr(nx, numfs, dx, denf);
            lemma_qeq_trans(s.d@[0][0], tf_d_entry(nx, dx), tf_d_entry(numfs, denf));
        }
        Some(s)
    }
}

/// The companion entries respect pointwise value equality of denominators.
pub proof fn lemma_tf_a_congr(dx: Seq<(int, int)>, ds: Seq<(int, int)>, i: int, j: int)
    requires
        dx.len() == ds.len(),
        dx.len() >= 2,
        0 <= i < dx.len() - 1,
        0 <= j < dx.len() - 1,
        qseq_wf(dx),
        qseq_wf(ds),
        dx[0].0 != 0,
        forall|t: int| 0 <= t < dx.len() ==> qeq(#[trigger] dx[t], ds[t]),
    ensures
        qwf(tf_a_entry(dx, i, j)),
        qwf(tf_a_entry(ds, i, j)),
        qeq(tf_a_entry(dx, i, j), tf_a_entry(ds, i, j)),
{
    let n = dx.len() - 1;
    if i == n - 1 {
        lemma_qdiv_congr(dx[j + 1], dx[0], ds[j + 1], ds[0]);
        lemma_qdiv_congr(ds[j + 1], ds[0], dx[j + 1], dx[0]);
        lemma_qneg_congr(qdiv(dx[j + 1], dx[0]), qdiv(ds[j + 1], ds[0]));
        lemma_qneg_congr(qdiv(ds[j + 1], ds[0]), qdiv(dx[j + 1], dx[0]));
    }
}

/// The input entries respect pointwise value equality.
pub proof fn lemma_tf_b_congr(
    nx: Seq<(int, int)>,
    ns: Seq<(int, int)>,
    dx: Seq<(int, int)>,
    ds: Seq<(int, int)>,
    i: int,
)
    requires
        nx.len() == ns.len(),
        dx.len() == ds.len(),
        dx.len() >= 1,
        nx.len() >= 1,
        0 <= i,
        qseq_wf(nx),
        qseq_wf(ns),
        qseq_wf(dx),
        qseq_wf(ds),
        dx[0].0 != 0,
        i + 1 < nx.len() ==> i + 1 < nx.len(),
        forall|t: int| 0 <= t < nx.len() ==> qeq(#[trigger] nx[t], ns[t]),
        forall|t: int| 0 <= t < dx.len() ==> qeq(#[trigger] dx[t], ds[t]),
    ensures
        qwf(tf_b_entry(nx, dx, i)),
        qwf(tf_b_entry(ns, ds, i)),
        qeq(tf_b_entry(nx, dx, i), tf_b_entry(ns, ds, i)),
{
    if i + 1 < nx.len() {
        lemma_qdiv_congr(nx[i + 1], dx[0], ns[i + 1], ds[0]);
        lemma_qdiv_congr(ns[i + 1], ds[0], nx[i + 1], dx[0]);
    }
}

/// The feed-through respects pointwise value equality.
pub proof fn lemma_tf_d_congr(
    nx: Seq<(int, int)>,
    ns: Seq<(int, int)>,
    dx: Seq<(int, int)>,
    ds: Seq<(int, int)>,
)
    requires
        nx.len() == ns.len(),
        dx.len() == ds.len(),
        dx.len() >= 1,
        nx.len() >= 1,
        qseq_wf(nx),
        qseq_wf(ns),
        qseq_wf(dx),
        qseq_wf(ds),
        dx[0].0 != 0,
        forall|t: int| 0 <= t < nx.len() ==> qeq(#[trigger] nx[t], ns[t]),
        forall|t: int| 0 <= t < dx.len() ==> qeq(#[trigger] dx[t], ds[t]),
    ensures
        qwf(tf_d_entry(nx, dx)),
        qwf(tf_d_entry(ns, ds)),
        qeq(tf_d_entry(nx, dx), tf_d_entry(ns, ds)),
{
    if nx.len() == dx.len() {
        lemma_qdiv_congr(nx[0], dx[0], ns[0], ds[0]);
        lemma_qdiv_congr(ns[0], ds[0], nx[0], dx[0]);
    }
}

/// The monic polynomial of well-formed roots has well-formed coefficients.
pub proof fn lemma_poly_from_roots_wf(roots: Seq<(int, int)>, t: int)
    requires
        qseq_wf(roots),
        t <= roots.len(),
    ensures
        qseq_wf(poly_from_roots(roots, t)),
    decreases t,
{
    if t <= 0 {
        assert forall|i: int| 0 <= i < poly_from_roots(roots, t).len() implies qwf(
            #[trigger] poly_from_roots(roots, t)[i],
        ) by {
            assert(poly_from_roots(roots, t)[i] == qone());
        }
    } else {
        lemma_poly_from_roots_wf(roots, t - 1);
        let prev = poly_from_roots(roots, t - 1);
        let facs = seq![qneg(roots[t - 1]), qone()];
        assert(qseq_wf(facs)) by {
            assert(facs[0] == qneg(roots[t - 1]) && facs[1] == qone());
        }
        let cur = poly_from_roots(roots, t);
        assert(cur == conv_spec(prev, facs));
        assert forall|i: int| 0 <= i < cur.len() implies qwf(#[trigger] cur[i]) by {
            lemma_conv_congr(prev, prev, facs, facs, i);
            assert(cur[i] == conv_entry(prev, facs, i));
        }
    }
}

} // verus!
