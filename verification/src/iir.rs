//! The IIR filter block.
//!
//! Statics: `order`, `a_coefficient` (length `order + 1`) and
//! `b_coefficient` (length `order`), checked at `init`.  State: two
//! zero-filled histories of length `order`, one of inputs and one of
//! outputs.  Each output sample follows the direct-form difference equation
//! `y[k] = sum_i b[i] x[k-i] - sum_{j>=1} a[j] y[k-j]`.

use crate::connectors::PortMap;
use crate::rat::{
    lemma_qadd_congr, lemma_qadd_wf, lemma_qeq_trans, lemma_qmul_congr, lemma_qmul_zero_left,
    lemma_qsub_congr, lemma_qsub_zero, lemma_qsum_congr, lemma_qsum_wf, lemma_qsum_zero, qadd,
    qeq, qmul, qseq_wf, qsub, qsum, qwf, qzero, rats_wf, seq_rats, Rat,
};
use crate::stream_processor::{BlockCore, StreamProcessor};
use crate::streaming_data::{StreamingError, StreamingState};
use crate::tags::Tag;
use crate::value::{model_kind, Validator, Value, ValueKind, ValueModel};
use vstd::prelude::*;

verus! {

/// The feed-forward part of sample `k`: `sum_{i < order} b[i] * extx[order +
/// k - i]`, over the extended input signal (history then current block).
pub open spec fn iir_ff(
    b: Seq<(int, int)>,
    extx: Seq<(int, int)>,
    k: int,
) -> (int, int) {
    qsum(Seq::new(b.len(), |i: int| qmul(b[i], extx[b.len() + k - i])))
}

/// The feedback part of sample `k`: `sum_{j = 1..order} a[j] * exty[order +
/// k - j]`, over the extended output signal known so far.
pub open spec fn iir_fb(
    a: Seq<(int, int)>,
    exty: Seq<(int, int)>,
    k: int,
) -> (int, int) {
    qsum(Seq::new((a.len() - 1) as nat, |j: int| qmul(a[j + 1], exty[a.len() - 2 + k - j])))
}

/// Output sample `k` of the difference equation, given the outputs before
/// it.
pub open spec fn iir_y(
    b: Seq<(int, int)>,
    a: Seq<(int, int)>,
    extx: Seq<(int, int)>,
    exty: Seq<(int, int)>,
    k: int,
) -> (int, int) {
    qsub(iir_ff(b, extx, k), iir_fb(a, exty, k))
}

/// The extended output signal after `n` samples: the retained output
/// history followed by each sample of the difference equation in turn.
pub open spec fn iir_exty(
    b: Seq<(int, int)>,
    a: Seq<(int, int)>,
    extx: Seq<(int, int)>,
    memy: Seq<(int, int)>,
    n: int,
) -> Seq<(int, int)>
    decreases n,
{
    if n <= 0 {
        memy
    } else {
        let prev = iir_exty(b, a, extx, memy, n - 1);
        prev.push(iir_y(b, a, extx, prev, n - 1))
    }
}

/// With every feedback coefficient `a[j]`, `j >= 1`, equal to zero, the
/// difference equation degenerates to the feed-forward convolution alone.
pub proof fn lemma_iir_no_feedback(
    b: Seq<(int, int)>,
    a: Seq<(int, int)>,
    extx: Seq<(int, int)>,
    exty: Seq<(int, int)>,
    k: int,
)
    requires
        qseq_wf(b),
        qseq_wf(a),
        qseq_wf(extx),
        qseq_wf(exty),
        a.len() >= 1,
        b.len() == a.len() - 1,
        0 <= k,
        b.len() + k < extx.len(),
        a.len() - 2 + k < exty.len(),
        forall|j: int| 1 <= j < a.len() ==> qeq(#[trigger] a[j], qzero()),
    ensures
        qeq(iir_y(b, a, extx, exty, k), iir_ff(b, extx, k)),
{
    let fb = Seq::new((a.len() - 1) as nat, |j: int| qmul(a[j + 1], exty[a.len() - 2 + k - j]));
    assert forall|j: int| 0 <= j < fb.len() implies qwf(#[trigger] fb[j]) && qeq(
        fb[j],
        qzero(),
    ) by {
        lemma_qadd_wf(a[j + 1], exty[a.len() - 2 + k - j]);
        lemma_qmul_zero_left(a[j + 1], exty[a.len() - 2 + k - j]);
    }
    lemma_qsum_zero(fb);
    lemma_qsum_wf(fb);
    let ff = Seq::new(b.len(), |i: int| qmul(b[i], extx[b.len() + k - i]));
    assert forall|i: int| 0 <= i < ff.len() implies qwf(#[trigger] ff[i]) by {
        lemma_qadd_wf(b[i], extx[b.len() + k - i]);
    }
    lemma_qsum_wf(ff);
    lemma_qsub_zero(iir_ff(b, extx, k), iir_fb(a, exty, k));
}

/// The IIR filter kernel.  Returns the output block, the new input history
/// and the new output history, or `None` when a sample leaves the machine
/// range of the exact arithmetic.
pub fn iir_filter(bc: &Vec<Rat>, ac: &Vec<Rat>, memx: &Vec<Rat>, memy: &Vec<Rat>, input: &Vec<
    Rat,
>) -> (r: Option<(Vec<Rat>, Vec<Rat>, Vec<Rat>)>)
    requires
        ac.len() >= 1,
        bc.len() == ac.len() - 1,
        memx.len() == bc.len(),
        memy.len() == bc.len(),
    ensures
        r matches Some(p) ==> {
            let bm = seq_rats(*bc);
            let am = seq_rats(*ac);
            let extx = seq_rats(*memx) + seq_rats(*input);
            let exty = iir_exty(bm, am, extx, seq_rats(*memy), input.len() as int);
            &&& p.0.len() == input.len()
            &&& qseq_wf(seq_rats(p.0))
            &&& forall|k: int|
                0 <= k < input.len() ==> qeq(
                    #[trigger] seq_rats(p.0)[k],
                    exty[bc.len() + k],
                )
            &&& seq_rats(p.1) == extx.subrange(input.len() as int, extx.len() as int)
            &&& seq_rats(p.2).len() == memy.len()
            &&& forall|j: int|
                0 <= j < memy.len() ==> qeq(
                    #[trigger] seq_rats(p.2)[j],
                    exty[input.len() + j],
                )
        },
{
    let order: usize = bc.len();
    let n: usize = input.len();
    let _bw = rats_wf(bc);
    let _aw = rats_wf(ac);
    let _xw = rats_wf(memx);
    let _yw = rats_wf(memy);
    let _iw = rats_wf(input);
    let ghost bm = seq_rats(*bc);
    let ghost am = seq_rats(*ac);
    let ghost extx = seq_rats(*memx) + seq_rats(*input);
    // Extended input: history then current block.
    let mut extxv: Vec<Rat> = Vec::new();
    let mut t: usize = 0;
    while t < order
        invariant
            t <= order,
            order == memx.len(),
            extxv.len() == t,
            forall|j: int| 0 <= j < t ==> #[trigger] extxv[j] == memx[j],
        decreases order - t,
    {
        extxv.push(memx[t]);
        t = t + 1;
    }
    let mut t2: usize = 0;
    while t2 < n
        invariant
            t2 <= n,
            n == input.len(),
            order == memx.len(),
            extxv.len() == order + t2,
            forall|j: int| 0 <= j < order ==> #[trigger] extxv[j] == memx[j],
            forall|j: int| 0 <= j < t2 ==> #[trigger] extxv[order + j] == input[j],
        decreases n - t2,
    {
        extxv.push(input[t2]);
        t2 = t2 + 1;
    }
    proof {
        assert forall|j: int| 0 <= j < extx.len() implies #[trigger] extxv[j]@ == extx[j] by {
            if j < order {
                assert(extx[j] == seq_rats(*memx)[j]);
            } else {
                assert(extxv[order + (j - order)] == input[j - order]);
                assert(extx[j] == seq_rats(*input)[j - order]);
            }
        }
        assert(qseq_wf(extx)) by {
            assert forall|j: int| 0 <= j < extx.len() implies qwf(#[trigger] extx[j]) by {
                if j < order {
                    assert(extx[j] == seq_rats(*memx)[j]);
                } else {
                    assert(extx[j] == seq_rats(*input)[j - order]);
                }
            }
        }
    }
    // Extended output: starts as the output history and grows by one sample
    // per input sample.
    let mut extyv: Vec<Rat> = Vec::new();
    let mut t3: usize = 0;
    while t3 < order
        invariant
            t3 <= order,
            order == memy.len(),
            extyv.len() == t3,
            forall|j: int| 0 <= j < t3 ==> #[trigger] extyv[j] == memy[j],
        decreases order - t3,
    {
        extyv.push(memy[t3]);
        t3 = t3 + 1;
    }
    proof {
        assert(seq_rats(extyv) =~= seq_rats(*memy));
        assert(iir_exty(bm, am, extx, seq_rats(*memy), 0) == seq_rats(*memy));
        assert forall|j: int| 0 <= j < memy.len() implies qwf(#[trigger] extyv[j]@) && qeq(
            extyv[j]@,
            iir_exty(bm, am, extx, seq_rats(*memy), 0)[j],
        ) by {
            assert(seq_rats(*memy)[j] == memy[j]@);
            assert(extyv[j] == memy[j]);
        }
        assert forall|j: int| 0 <= j < memy.len() implies qwf(#[trigger] seq_rats(*memy)[j]) by {
            assert(seq_rats(*memy)[j] == memy[j]@);
        }
    }
    let mut k: usize = 0;
    while k < n
        invariant
            k <= n,
            n == input.len(),
            order == memx.len() && order == memy.len(),
            bc.len() == order,
            ac.len() == order + 1,
            extxv.len() == order + n,
            bm == seq_rats(*bc),
            am == seq_rats(*ac),
            extx == seq_rats(*memx) + seq_rats(*input),
            forall|j: int| 0 <= j < extx.len() ==> #[trigger] extxv[j]@ == extx[j],
            qseq_wf(bm),
            qseq_wf(am),
            qseq_wf(extx),
            qseq_wf(seq_rats(*memy)),
            extyv.len() == order + k,
            forall|j: int|
                0 <= j < order + k ==> qwf(#[trigger] extyv[j]@) && qeq(
                    extyv[j]@,
                    iir_exty(bm, am, extx, seq_rats(*memy), k as int)[j],
                ),
        decreases n - k,
    {
        let ghost prev = iir_exty(bm, am, extx, seq_rats(*memy), k as int);
        proof {
            lemma_exty_len(bm, am, extx, seq_rats(*memy), k as int);
            lemma_exty_wf(bm, am, extx, seq_rats(*memy), k as int);
        }
        // Feed-forward accumulation.
        let ghost ffterms = Seq::new(bm.len(), |i: int| qmul(bm[i], extx[bm.len() + k - i]));
        proof {
            assert forall|i: int| 0 <= i < ffterms.len() implies qwf(#[trigger] ffterms[i]) by {
                lemma_qadd_wf(bm[i], extx[bm.len() + k - i]);
            }
        }
        let mut acc1 = Rat::zero();
        let mut i: usize = 0;
        while i < order
            invariant
                i <= order,
                k < n,
                n == input.len(),
                order == memx.len(),
                bc.len() == order,
                extxv.len() == order + n,
                bm == seq_rats(*bc),
                forall|j: int| 0 <= j < extx.len() ==> #[trigger] extxv[j]@ == extx[j],
                extx.len() == order + n,
                qseq_wf(bm),
                qseq_wf(extx),
                ffterms == Seq::new(bm.len(), |i2: int| qmul(bm[i2], extx[bm.len() + k - i2])),
                qseq_wf(ffterms),
                qwf(acc1@),
                qeq(acc1@, qsum(ffterms.take(i as int))),
            decreases order - i,
        {
            let idx: usize = order + k - i;
            let x = bc[i];
            let y = extxv[idx];
            let t4 = match x.try_mul(&y) {
                Some(v) => v,
                None => {
                    return None;
                },
            };
            let acc2 = match acc1.try_add(&t4) {
                Some(v) => v,
                None => {
                    return None;
                },
            };
            proof {
                let pre = ffterms.take(i as int);
                let post = ffterms.take(i as int + 1);
                assert(post.drop_last() =~= pre);
                assert(post.last() == ffterms[i as int]);
                lemma_qsum_wf(pre);
                lemma_qadd_wf(qsum(pre), ffterms[i as int]);
                lemma_qadd_wf(acc1@, t4@);
                lemma_qadd_congr(acc1@, t4@, qsum(pre), ffterms[i as int]);
                lemma_qeq_trans(acc2@, qadd(acc1@, t4@), qadd(qsum(pre), ffterms[i as int]));
            }
            acc1 = acc2;
            i = i + 1;
        }
        proof {
            assert(ffterms.take(order as int) =~= ffterms);
        }
        // Feedback accumulation over the outputs known so far.
        let ghost fbspec = Seq::new(
            (am.len() - 1) as nat,
            |j: int| qmul(am[j + 1], prev[am.len() - 2 + k - j]),
        );
        let ghost fbexec = Seq::new(
            (am.len() - 1) as nat,
            |j: int| qmul(am[j + 1], extyv[am.len() - 2 + k - j]@),
        );
        proof {
            assert forall|j: int| 0 <= j < fbexec.len() implies qwf(#[trigger] fbexec[j]) by {
                lemma_qadd_wf(am[j + 1], extyv[am.len() - 2 + k - j]@);
            }
            assert forall|j: int| 0 <= j < fbspec.len() implies qwf(#[trigger] fbspec[j]) && qwf(
                fbexec[j],
            ) && qeq(fbexec[j], fbspec[j]) by {
                assert(qeq(extyv[am.len() - 2 + k - j]@, prev[am.len() - 2 + k - j]));
                lemma_qadd_wf(am[j + 1], prev[am.len() - 2 + k - j]);
                lemma_qadd_wf(am[j + 1], extyv[am.len() - 2 + k - j]@);
                lemma_qmul_congr(
                    am[j + 1],
                    extyv[am.len() - 2 + k - j]@,
                    am[j + 1],
                    prev[am.len() - 2 + k - j],
                );
            }
        }
        let mut acc3 = Rat::zero();
        let mut j2: usize = 0;
        while j2 < order
            invariant
                j2 <= order,
                k < n,
                n == input.len(),
                order == memy.len(),
                ac.len() == order + 1,
                extyv.len() == order + k,
                am == seq_rats(*ac),
                qseq_wf(am),
                qseq_wf(fbexec),
                fbexec == Seq::new(
                    (am.len() - 1) as nat,
                    |j3: int| qmul(am[j3 + 1], extyv[am.len() - 2 + k - j3]@),
                ),
                qwf(acc3@),
                qeq(acc3@, qsum(fbexec.take(j2 as int))),
            decreases order - j2,
        {
            let idx: usize = order + k - j2 - 1;
            let x = ac[j2 + 1];
            let y = extyv[idx];
            proof {
                use_type_invariant(&y);
            }
            let t5 = match x.try_mul(&y) {
                Some(v) => v,
                None => {
                    return None;
                },
            };
            let acc4 = match acc3.try_add(&t5) {
                Some(v) => v,
                None => {
                    return None;
                },
            };
            proof {
                assert(y@ == extyv[am.len() - 2 + k - j2]@);
                let pre = fbexec.take(j2 as int);
                let post = fbexec.take(j2 as int + 1);
                assert(post.drop_last() =~= pre);
                assert(post.last() == fbexec[j2 as int]);
                lemma_qsum_wf(pre);
                lemma_qadd_wf(qsum(pre), fbexec[j2 as int]);
                lemma_qadd_wf(acc3@, t5@);
                lemma_qadd_congr(acc3@, t5@, qsum(pre), fbexec[j2 as int]);
                lemma_qeq_trans(acc4@, qadd(acc3@, t5@), qadd(qsum(pre), fbexec[j2 as int]));
            }
            acc3 = acc4;
            j2 = j2 + 1;
        }
        proof {
            assert(fbexec.take(order as int) =~= fbexec);
        }
        // The sample.
        let yk = match acc1.try_sub(&acc3) {
            Some(v) => v,
            None => {
                return None;
            },
        };
        proof {
            assert(iir_ff(bm, extx, k as int) == qsum(ffterms));
            assert(iir_fb(am, prev, k as int) == qsum(fbspec));
            lemma_qsum_wf(ffterms);
            lemma_qsum_wf(fbspec);
            lemma_qsum_wf(fbexec);
            // Exec feedback sum equals the specified one over `prev`.
            lemma_qsum_congr(fbexec, fbspec);
            assert(qeq(acc3@, iir_fb(am, prev, k as int))) by {
                lemma_qeq_trans(acc3@, qsum(fbexec), qsum(fbspec));
            }
            lemma_qsub_congr(acc1@, acc3@, iir_ff(bm, extx, k as int), iir_fb(am, prev, k as int));
            lemma_qadd_wf(acc1@, acc3@);
            lemma_qadd_wf(iir_ff(bm, extx, k as int), iir_fb(am, prev, k as int));
            lemma_qeq_trans(
                yk@,
                qsub(acc1@, acc3@),
                qsub(iir_ff(bm, extx, k as int), iir_fb(am, prev, k as int)),
            );
        }
        extyv.push(yk);
        k = k + 1;
        proof {
            let cur = iir_exty(bm, am, extx, seq_rats(*memy), k as int);
            assert(cur == prev.push(iir_y(bm, am, extx, prev, k as int - 1)));
            assert forall|j: int| 0 <= j < order + k implies qwf(#[trigger] extyv[j]@) && qeq(
                extyv[j]@,
                cur[j],
            ) by {
                if j < order + k - 1 {
                    assert(cur[j] == prev[j]);
                } else {
                    assert(extyv[j] == yk);
                    assert(cur[j] == iir_y(bm, am, extx, prev, k as int - 1));
                }
            }
        }
    }
    // Collect the outputs and the two new histories.
    let mut out: Vec<Rat> = Vec::new();
    let mut m: usize = 0;
    while m < n
        invariant
            m <= n,
            extyv.len() == order + n,
            order == memy.len(),
            n == input.len(),
            out.len() == m,
            forall|j: int| 0 <= j < m ==> #[trigger] out[j] == extyv[order + j],
        decreases n - m,
    {
        out.push(extyv[order + m]);
        m = m + 1;
    }
    let mut memx2: Vec<Rat> = Vec::new();
    let mut m2: usize = 0;
    while m2 < order
        invariant
            m2 <= order,
            order == memx.len(),
            n == input.len(),
            extxv.len() == order + n,
            memx2.len() == m2,
            forall|j: int| 0 <= j < m2 ==> #[trigger] memx2[j] == extxv[n + j],
        decreases order - m2,
    {
        memx2.push(extxv[n + m2]);
        m2 = m2 + 1;
    }
    let mut memy2: Vec<Rat> = Vec::new();
    let mut m3: usize = 0;
    while m3 < order
        invariant
            m3 <= order,
            order == memy.len(),
            n == input.len(),
            extyv.len() == order + n,
            memy2.len() == m3,
            forall|j: int| 0 <= j < m3 ==> #[trigger] memy2[j] == extyv[n + j],
        decreases order - m3,
    {
        memy2.push(extyv[n + m3]);
        m3 = m3 + 1;
    }
    proof {
        let exty = iir_exty(bm, am, extx, seq_rats(*memy), n as int);
        lemma_exty_len(bm, am, extx, seq_rats(*memy), n as int);
        assert(seq_rats(memx2) =~= extx.subrange(n as int, extx.len() as int));
        assert forall|j: int| 0 <= j < out.len() implies qeq(
            #[trigger] seq_rats(out)[j],
            exty[order + j],
        ) by {
            assert(seq_rats(out)[j] == out[j]@);
            assert(out[j] == extyv[order + j]);
        }
        assert forall|j: int| 0 <= j < seq_rats(out).len() implies qwf(
            #[trigger] seq_rats(out)[j],
        ) by {
            assert(seq_rats(out)[j] == out[j]@);
        }
        assert forall|j: int| 0 <= j < memy.len() implies qeq(
            #[trigger] seq_rats(memy2)[j],
            exty[n + j],
        ) by {
            assert(seq_rats(memy2)[j] == memy2[j]@);
            assert(memy2[j] == extyv[n + j]);
        }
    }
    Some((out, memx2, memy2))
}

/// The extended output signal after `n` samples has `memy.len() + n`
/// entries.
pub proof fn lemma_exty_len(
    b: Seq<(int, int)>,
    a: Seq<(int, int)>,
    extx: Seq<(int, int)>,
    memy: Seq<(int, int)>,
    n: int,
)
    requires
        n >= 0,
    ensures
        iir_exty(b, a, extx, memy, n).len() == memy.len() + n,
    decreases n,
{
    if n > 0 {
        lemma_exty_len(b, a, extx, memy, n - 1);
    }
}

/// Every entry of the extended output signal is well formed, as long as
/// the indices the difference equation reads stay inside the signals.
pub proof fn lemma_exty_wf(
    b: Seq<(int, int)>,
    a: Seq<(int, int)>,
    extx: Seq<(int, int)>,
    memy: Seq<(int, int)>,
    n: int,
)
    requires
        n >= 0,
        qseq_wf(b),
        qseq_wf(a),
        qseq_wf(extx),
        qseq_wf(memy),
        a.len() == b.len() + 1,
        memy.len() == b.len(),
        extx.len() >= b.len() + n,
    ensures
        qseq_wf(iir_exty(b, a, extx, memy, n)),
    decreases n,
{
    if n > 0 {
        lemma_exty_wf(b, a, extx, memy, n - 1);
        lemma_exty_len(b, a, extx, memy, n - 1);
        let prev = iir_exty(b, a, extx, memy, n - 1);
        let k = n - 1;
        let ff = Seq::new(b.len(), |i: int| qmul(b[i], extx[b.len() + k - i]));
        let fb = Seq::new(
            (a.len() - 1) as nat,
            |j: int| qmul(a[j + 1], prev[a.len() - 2 + k - j]),
        );
        assert forall|i: int| 0 <= i < ff.len() implies qwf(#[trigger] ff[i]) by {
            lemma_qadd_wf(b[i], extx[b.len() + k - i]);
        }
        assert forall|j: int| 0 <= j < fb.len() implies qwf(#[trigger] fb[j]) by {
            lemma_qadd_wf(a[j + 1], prev[a.len() - 2 + k - j]);
        }
        lemma_qsum_wf(ff);
        lemma_qsum_wf(fb);
        lemma_qadd_wf(iir_ff(b, extx, k), iir_fb(a, prev, k));
        let cur = iir_exty(b, a, extx, memy, n);
        assert forall|j: int| 0 <= j < cur.len() implies qwf(#[trigger] cur[j]) by {
            if j < prev.len() {
                assert(cur[j] == prev[j]);
            } else {
                assert(cur[j] == iir_y(b, a, extx, prev, k));
            }
        }
    }
}

/// The IIR filter block.
pub struct Iir {
    pub core: BlockCore,
}

impl Iir {
    /// The block's fixed shape: its ports and slots, with their kinds.
    pub open spec fn shape_wf(&self) -> bool {
        &&& self.core.wf()
        &&& self.core.inputs_spec().contains_spec(Tag::Input)
        &&& self.core.inputs_spec().kind_spec(Tag::Input) == ValueKind::RealVec
        &&& self.core.outputs_spec().contains_spec(Tag::Output)
        &&& self.core.outputs_spec().kind_spec(Tag::Output) == ValueKind::RealVec
        &&& self.core.statics_spec().contains_spec(Tag::Order)
        &&& self.core.statics_spec().kind_spec(Tag::Order) == ValueKind::Int
        &&& self.core.statics_spec().contains_spec(Tag::ACoefficient)
        &&& self.core.statics_spec().kind_spec(Tag::ACoefficient) == ValueKind::RealVec
        &&& self.core.statics_spec().contains_spec(Tag::BCoefficient)
        &&& self.core.statics_spec().kind_spec(Tag::BCoefficient) == ValueKind::RealVec
        &&& self.core.state_spec().contains_spec(Tag::InputsMemory)
        &&& self.core.state_spec().kind_spec(Tag::InputsMemory) == ValueKind::RealVec
        &&& self.core.state_spec().contains_spec(Tag::OutputsMemory)
        &&& self.core.state_spec().kind_spec(Tag::OutputsMemory) == ValueKind::RealVec
    }

    pub open spec fn order_spec(&self) -> int {
        self.core.statics_spec().val_spec(Tag::Order)->Int_0
    }

    pub open spec fn a_spec(&self) -> Seq<(int, int)> {
        self.core.statics_spec().val_spec(Tag::ACoefficient)->RealVec_0
    }

    pub open spec fn b_spec(&self) -> Seq<(int, int)> {
        self.core.statics_spec().val_spec(Tag::BCoefficient)->RealVec_0
    }

    pub open spec fn memx_spec(&self) -> Seq<(int, int)> {
        self.core.state_spec().val_spec(Tag::InputsMemory)->RealVec_0
    }

    pub open spec fn memy_spec(&self) -> Seq<(int, int)> {
        self.core.state_spec().val_spec(Tag::OutputsMemory)->RealVec_0
    }

    /// The shape `process` needs: feedback coefficients one longer than the
    /// order, feed-forward coefficients and both histories exactly as long
    /// as the order.
    pub open spec fn shapes_ok(&self) -> bool {
        &&& self.a_spec().len() >= 1
        &&& self.order_spec() == self.a_spec().len() - 1
        &&& self.b_spec().len() == self.order_spec()
        &&& self.memx_spec().len() == self.order_spec()
        &&& self.memy_spec().len() == self.order_spec()
    }

    /// A fresh IIR block named `name`, in state `Null`: exactly the ports
    /// `input` and `output`, the statics `order` (default zero),
    /// `a_coefficient` and `b_coefficient` (default empty), all
    /// unconstrained and unassigned, and the two history state slots.
    pub fn new(name: String) -> (b: Iir)
        ensures
            b.wf(),
            b.lifecycle() == StreamingState::Null,
            !b.initialized(),
            b.core.name_spec() == name@,
            b.core.statics_spec().val_spec(Tag::Order) == ValueModel::Int(0),
            b.core.statics_spec().validator_spec(Tag::Order) == Validator::Any,
            !b.core.statics_spec().assigned_spec(Tag::Order),
            b.core.statics_spec().val_spec(Tag::ACoefficient)->RealVec_0.len() == 0,
            b.core.statics_spec().validator_spec(Tag::ACoefficient) == Validator::Any,
            !b.core.statics_spec().assigned_spec(Tag::ACoefficient),
            b.core.statics_spec().val_spec(Tag::BCoefficient)->RealVec_0.len() == 0,
            b.core.statics_spec().validator_spec(Tag::BCoefficient) == Validator::Any,
            !b.core.statics_spec().assigned_spec(Tag::BCoefficient),
            forall|t: Tag|
                #[trigger] b.core.statics_spec().contains_spec(t) ==> t == Tag::Order || t
                    == Tag::ACoefficient || t == Tag::BCoefficient,
            b.core.state_spec().val_spec(Tag::InputsMemory)->RealVec_0.len() == 0,
            b.core.state_spec().val_spec(Tag::OutputsMemory)->RealVec_0.len() == 0,
            forall|t: Tag|
                #[trigger] b.core.state_spec().contains_spec(t) ==> t == Tag::InputsMemory || t
                    == Tag::OutputsMemory,
            forall|t: Tag| #[trigger] b.core.inputs_spec().contains_spec(t) ==> t == Tag::Input,
            forall|t: Tag| #[trigger] b.core.outputs_spec().contains_spec(t) ==> t == Tag::Output,
            forall|t: Tag| !b.core.parameters_spec().contains_spec(t),
    {
        let mut core = BlockCore::new(name);
        let ghost in0 = core.inputs_spec();
        let _ = core.new_input(Tag::Input, ValueKind::RealVec);
        let ghost out0 = core.outputs_spec();
        let _ = core.new_output(Tag::Output, ValueKind::RealVec);
        let ghost st0 = core.statics_spec();
        let _ = core.new_statics(Tag::Order, Value::Int(0), Validator::Any);
        let ghost st1 = core.statics_spec();
        let _ = core.new_statics(Tag::ACoefficient, Value::RealVec(Vec::new()), Validator::Any);
        let ghost st2 = core.statics_spec();
        proof {
            assert(core.statics_spec().contains_spec(Tag::Order));
            assert(!core.statics_spec().assigned_spec(Tag::Order));
        }
        let _ = core.new_statics(Tag::BCoefficient, Value::RealVec(Vec::new()), Validator::Any);
        let ghost st3 = core.statics_spec();
        proof {
            assert(core.statics_spec().contains_spec(Tag::Order));
            assert(core.statics_spec().contains_spec(Tag::ACoefficient));
            assert(!core.statics_spec().assigned_spec(Tag::Order));
        }
        let ghost sv0 = core.state_spec();
        let _ = core.new_state(Tag::InputsMemory, Value::RealVec(Vec::new()));
        let ghost sv1 = core.state_spec();
        let _ = core.new_state(Tag::OutputsMemory, Value::RealVec(Vec::new()));
        proof {
            assert(core.state_spec().contains_spec(Tag::InputsMemory));
        }
        let b = Iir { core };
        proof {
            assert(!b.core.statics_spec().assigned_spec(Tag::Order));
            assert(b.core.statics_spec().val_spec(Tag::ACoefficient)->RealVec_0 =~= Seq::empty());
            assert(b.core.statics_spec().val_spec(Tag::BCoefficient)->RealVec_0 =~= Seq::empty());
            assert(b.core.state_spec().val_spec(Tag::InputsMemory)->RealVec_0 =~= Seq::empty());
            assert(b.core.state_spec().val_spec(Tag::OutputsMemory)->RealVec_0 =~= Seq::empty());
            assert forall|t: Tag| #[trigger] b.core.statics_spec().contains_spec(t) implies t
                == Tag::Order || t == Tag::ACoefficient || t == Tag::BCoefficient by {
                if t != Tag::Order && t != Tag::ACoefficient && t != Tag::BCoefficient {
                    assert(st3.contains_spec(t) == st2.contains_spec(t));
                    assert(st2.contains_spec(t) == st1.contains_spec(t));
                    assert(st1.contains_spec(t) == st0.contains_spec(t));
                    assert(!st0.contains_spec(t));
                }
            }
            assert forall|t: Tag| #[trigger] b.core.state_spec().contains_spec(t) implies t
                == Tag::InputsMemory || t == Tag::OutputsMemory by {
                if t != Tag::InputsMemory && t != Tag::OutputsMemory {
                    assert(sv1.contains_spec(t) == sv0.contains_spec(t));
                    assert(!sv0.contains_spec(t));
                }
            }
            assert forall|t: Tag| #[trigger] b.core.inputs_spec().contains_spec(t) implies t
                == Tag::Input by {
                if t != Tag::Input {
                    assert(!in0.contains_spec(t));
                }
            }
            assert forall|t: Tag| #[trigger] b.core.outputs_spec().contains_spec(t) implies t
                == Tag::Output by {
                if t != Tag::Output {
                    assert(!out0.contains_spec(t));
                }
            }
        }
        b
    }

    /// Exact `init`: rejected from `Running`; rejected while a static is
    /// unassigned or the coefficient lengths disagree with the order, all
    /// without side effects; otherwise zero-fills both histories and enters
    /// `Initial`.
    pub fn init_block(&mut self) -> (r: Result<(), StreamingError>)
        requires
            old(self).wf(),
        ensures
            final(self).wf(),
            r is Err ==> *final(self) == *old(self),
            old(self).lifecycle() == StreamingState::Running ==> r == Err::<(), StreamingError>(
                StreamingError::InvalidStateTransition,
            ),
            old(self).lifecycle() != StreamingState::Running && !old(self).initialized() ==> r
                == Err::<(), StreamingError>(StreamingError::InvalidStatics),
            old(self).lifecycle() != StreamingState::Running && old(self).initialized() ==> {
                if old(self).a_spec().len() == old(self).order_spec() + 1 && old(self).b_spec().len() == old(self).order_spec() {
                    &&& r == Ok::<(), StreamingError>(())
                    &&& final(self).lifecycle() == StreamingState::Initial
                    &&& final(self).core.statics_spec() == old(self).core.statics_spec()
                    &&& final(self).memx_spec().len() == old(self).order_spec()
                    &&& final(self).memy_spec().len() == old(self).order_spec()
                    &&& forall|i: int|
                        0 <= i < final(self).memx_spec().len() ==> final(self).memx_spec()[i]
                            == qzero()
                    &&& forall|i: int|
                        0 <= i < final(self).memy_spec().len() ==> final(self).memy_spec()[i]
                            == qzero()
                } else {
                    r == Err::<(), StreamingError>(StreamingError::InvalidStatics)
                }
            },
    {
        match self.core.init_guard() {
            Err(e) => {
                return Err(e);
            },
            Ok(()) => {},
        }
        let o: usize = match self.core.get_statics(Tag::Order, ValueKind::Int) {
            Ok(Value::Int(o)) => o,
            _ => {
                proof {
                    assert(false);
                }
                return Err(StreamingError::InvalidStatics);
            },
        };
        let a: Vec<Rat> = match self.core.get_statics(Tag::ACoefficient, ValueKind::RealVec) {
            Ok(Value::RealVec(a)) => a,
            _ => {
                proof {
                    assert(false);
                }
                return Err(StreamingError::InvalidStatics);
            },
        };
        let bv: Vec<Rat> = match self.core.get_statics(Tag::BCoefficient, ValueKind::RealVec) {
            Ok(Value::RealVec(b)) => b,
            _ => {
                proof {
                    assert(false);
                }
                return Err(StreamingError::InvalidStatics);
            },
        };
        if a.len() == 0 || o != a.len() - 1 || bv.len() != o {
            return Err(StreamingError::InvalidStatics);
        }
        let mut mx: Vec<Rat> = Vec::new();
        let mut i: usize = 0;
        while i < o
            invariant
                i <= o,
                mx.len() == i,
                forall|j: int| 0 <= j < i ==> #[trigger] mx[j]@ == qzero(),
            decreases o - i,
        {
            mx.push(Rat::zero());
            i = i + 1;
        }
        let mut my: Vec<Rat> = Vec::new();
        let mut i2: usize = 0;
        while i2 < o
            invariant
                i2 <= o,
                my.len() == i2,
                forall|j: int| 0 <= j < i2 ==> #[trigger] my[j]@ == qzero(),
            decreases o - i2,
        {
            my.push(Rat::zero());
            i2 = i2 + 1;
        }
        match self.core.set_state_value(Tag::InputsMemory, Value::RealVec(mx)) {
            Ok(()) => {},
            Err(e) => {
                proof {
                    assert(false);
                }
                return Err(e);
            },
        }
        proof {
            assert(self.core.state_spec().contains_spec(Tag::OutputsMemory));
            assert(self.core.state_spec().kind_spec(Tag::OutputsMemory) == ValueKind::RealVec);
        }
        match self.core.set_state_value(Tag::OutputsMemory, Value::RealVec(my)) {
            Ok(()) => {},
            Err(e) => {
                proof {
                    assert(false);
                }
                return Err(e);
            },
        }
        proof {
            assert(self.core.state_spec().contains_spec(Tag::InputsMemory));
            assert(self.core.state_spec().kind_spec(Tag::InputsMemory) == ValueKind::RealVec);
        }
        self.core.set_state(StreamingState::Initial);
        Ok(())
    }

    /// Exact `process`: receives one block on `input`, emits the difference
    /// equation's outputs on `output`, and retains the last `order` input
    /// and output samples.
    pub fn process_block(&mut self, inputs: &PortMap) -> (r: Result<PortMap, StreamingError>)
        requires
            old(self).wf(),
            inputs.wf(),
        ensures
            final(self).wf(),
            r == Err::<PortMap, StreamingError>(StreamingError::ChannelClosed)
                <==> !inputs.contains_spec(Tag::Input),
            !inputs.contains_spec(Tag::Input) ==> *final(self) == *old(self),
            r == Err::<PortMap, StreamingError>(StreamingError::InvalidInput) ==> final(self).lifecycle() == StreamingState::Stopped,
            inputs.contains_spec(Tag::Input) && model_kind(inputs.val_spec(Tag::Input))
                != ValueKind::RealVec ==> r == Err::<PortMap, StreamingError>(
                StreamingError::InvalidInput,
            ),
            r == Err::<PortMap, StreamingError>(StreamingError::InvalidStatics) <==> (
            inputs.contains_spec(Tag::Input) && model_kind(inputs.val_spec(Tag::Input))
                == ValueKind::RealVec && !old(self).shapes_ok()),
            r == Err::<PortMap, StreamingError>(StreamingError::InvalidStatics) ==> *final(self)
                == *old(self),
            r != Err::<PortMap, StreamingError>(StreamingError::InvalidStateTransition),
            inputs.contains_spec(Tag::Input) && model_kind(inputs.val_spec(Tag::Input))
                == ValueKind::RealVec && old(self).shapes_ok() ==> (r is Ok || r == Err::<
                PortMap,
                StreamingError,
            >(StreamingError::InvalidInput)),
            r matches Ok(out) ==> {
                let x = inputs.val_spec(Tag::Input)->RealVec_0;
                let bm = old(self).b_spec();
                let am = old(self).a_spec();
                let extx = old(self).memx_spec() + x;
                let exty = iir_exty(bm, am, extx, old(self).memy_spec(), x.len() as int);
                &&& inputs.contains_spec(Tag::Input)
                &&& model_kind(inputs.val_spec(Tag::Input)) == ValueKind::RealVec
                &&& am.len() == old(self).order_spec() + 1
                &&& bm.len() == old(self).order_spec()
                &&& old(self).memx_spec().len() == old(self).order_spec()
                &&& old(self).memy_spec().len() == old(self).order_spec()
                &&& out.wf()
                &&& out.contains_spec(Tag::Output)
                &&& model_kind(out.val_spec(Tag::Output)) == ValueKind::RealVec
                &&& out.val_spec(Tag::Output)->RealVec_0.len() == x.len()
                &&& forall|k: int|
                    0 <= k < x.len() ==> qeq(
                        #[trigger] out.val_spec(Tag::Output)->RealVec_0[k],
                        exty[bm.len() + k],
                    )
                &&& final(self).memx_spec() == extx.subrange(x.len() as int, extx.len() as int)
                &&& final(self).memy_spec().len() == old(self).order_spec()
                &&& forall|j: int|
                    0 <= j < final(self).memy_spec().len() ==> qeq(
                        #[trigger] final(self).memy_spec()[j],
                        exty[x.len() + j],
                    )
                &&& forall|t: Tag|
                    t != Tag::InputsMemory && t != Tag::OutputsMemory ==> #[trigger] final(self).core.state_spec().contains_spec(t) == old(self).core.state_spec().contains_spec(t)
                        && (final(self).core.state_spec().contains_spec(t) ==> final(self).core.state_spec().val_spec(t) == old(self).core.state_spec().val_spec(t))
                &&& final(self).core.statics_spec() == old(self).core.statics_spec()
                &&& final(self).core.parameters_spec() == old(self).core.parameters_spec()
                &&& final(self).core.inputs_spec() == old(self).core.inputs_spec()
                &&& final(self).core.outputs_spec() == old(self).core.outputs_spec()
                &&& final(self).core.name_spec() == old(self).core.name_spec()
                &&& final(self).lifecycle() == old(self).lifecycle()
            },
    {
        let got = match inputs.get(Tag::Input) {
            Some(v) => v,
            None => {
                return Err(StreamingError::ChannelClosed);
            },
        };
        let x: Vec<Rat> = match got {
            Value::RealVec(x) => x,
            _ => {
                self.core.set_state(StreamingState::Stopped);
                return Err(StreamingError::InvalidInput);
            },
        };
        let o: usize = match self.core.get_statics(Tag::Order, ValueKind::Int) {
            Ok(Value::Int(o)) => o,
            _ => {
                proof {
                    assert(false);
                }
                return Err(StreamingError::InvalidStatics);
            },
        };
        let a: Vec<Rat> = match self.core.get_statics(Tag::ACoefficient, ValueKind::RealVec) {
            Ok(Value::RealVec(a)) => a,
            _ => {
                proof {
                    assert(false);
                }
                return Err(StreamingError::InvalidStatics);
            },
        };
        let bv: Vec<Rat> = match self.core.get_statics(Tag::BCoefficient, ValueKind::RealVec) {
            Ok(Value::RealVec(b)) => b,
            _ => {
                proof {
                    assert(false);
                }
                return Err(StreamingError::InvalidStatics);
            },
        };
        let mx: Vec<Rat> = match self.core.get_state_value(Tag::InputsMemory, ValueKind::RealVec) {
            Ok(Value::RealVec(m)) => m,
            _ => {
                proof {
                    assert(false);
                }
                return Err(StreamingError::InvalidStatics);
            },
        };
        let my: Vec<Rat> = match self.core.get_state_value(
            Tag::OutputsMemory,
            ValueKind::RealVec,
        ) {
            Ok(Value::RealVec(m)) => m,
            _ => {
                proof {
                    assert(false);
                }
                return Err(StreamingError::InvalidStatics);
            },
        };
        if a.len() == 0 || o != a.len() - 1 || bv.len() != o || mx.len() != o || my.len() != o {
            return Err(StreamingError::InvalidStatics);
        }
        let kr = iir_filter(&bv, &a, &mx, &my, &x);
        match kr {
            None => {
                self.core.set_state(StreamingState::Stopped);
                Err(StreamingError::InvalidInput)
            },
            Some((y, mx2, my2)) => {
                proof {
                    assert(seq_rats(x) =~= inputs.val_spec(Tag::Input)->RealVec_0);
                    assert(seq_rats(a) =~= old(self).a_spec());
                    assert(seq_rats(bv) =~= old(self).b_spec());
                    assert(seq_rats(mx) =~= old(self).memx_spec());
                    assert(seq_rats(my) =~= old(self).memy_spec());
                }
                match self.core.set_state_value(Tag::InputsMemory, Value::RealVec(mx2)) {
                    Ok(()) => {},
                    Err(e) => {
                        proof {
                            assert(false);
                        }
                        return Err(e);
                    },
                }
                proof {
                    assert(self.core.state_spec().contains_spec(Tag::OutputsMemory));
                    assert(self.core.state_spec().kind_spec(Tag::OutputsMemory)
                        == ValueKind::RealVec);
                }
                match self.core.set_state_value(Tag::OutputsMemory, Value::RealVec(my2)) {
                    Ok(()) => {},
                    Err(e) => {
                        proof {
                            assert(false);
                        }
                        return Err(e);
                    },
                }
                proof {
                    assert(self.core.state_spec().contains_spec(Tag::InputsMemory));
                    assert(self.core.state_spec().kind_spec(Tag::InputsMemory)
                        == ValueKind::RealVec);
                }
                let mut out = PortMap::new();
                out.insert(Tag::Output, Value::RealVec(y));
                proof {
                    assert(out.val_spec(Tag::Output)->RealVec_0 =~= seq_rats(y));
                    assert(final(self).memx_spec() =~= seq_rats(mx2));
                    assert(final(self).memy_spec() =~= seq_rats(my2));
                }
                Ok(out)
            },
        }
    }
}

impl StreamProcessor for Iir {
    open spec fn lifecycle(&self) -> StreamingState {
        self.core.lifecycle_spec()
    }

    open spec fn initialized(&self) -> bool {
        self.core.initialized_spec()
    }

    open spec fn wf(&self) -> bool {
        self.shape_wf()
    }

    fn init(&mut self) -> (r: Result<(), StreamingError>) {
        self.init_block()
    }

    fn run(&mut self) -> (r: Result<(), StreamingError>) {
        match self.core.run_guard() {
            Err(e) => Err(e),
            Ok(()) => {
                self.core.set_state(StreamingState::Running);
                Ok(())
            },
        }
    }

    fn process(&mut self, inputs: &PortMap) -> (r: Result<PortMap, StreamingError>) {
        self.process_block(inputs)
    }

    fn stop(&mut self) -> (r: Result<(), StreamingError>) {
        self.core.set_state(StreamingState::Stopped);
        Ok(())
    }
}

} // verus!
