//! The Kalman filter block.
//!
//! Statics: the model matrices `A`, `B`, `H`, `Q`, `R`, the initial
//! covariance `P0` and the `initial_state`.  State: the current state
//! vector and covariance `P`.  Each process step consumes a control vector
//! `u` and a measurement `z` (two input ports), performs the predict and
//! update equations with an exactly checked inverse of the innovation
//! covariance, and emits the new state.

use crate::connectors::PortMap;
use crate::matrix::{grid_cols, gtrans, mat_col, mat_qwf, mat_shape, mm_entry, qid, Mat};
use crate::rat::{qadd, qeq, qmul, qone, qsub, qwf, qzero, seq_rats, Rat};
use crate::stream_processor::{BlockCore, StreamProcessor};
use crate::streaming_data::{StreamingError, StreamingState};
use crate::tags::Tag;
use crate::value::{model_kind, Validator, Value, ValueKind, ValueModel};
use vstd::prelude::*;

verus! {

/// One Kalman step, equation by equation, over named intermediates:
/// the prior state `xp = A x + B u` (through `ax = A x` and `bu = B u`),
/// the prior covariance `pp = (A P) A^T + Q` (through `ap` and `apat`),
/// the innovation `yv = z - H xp` (through `hx`), the innovation
/// covariance `s = (H pp) H^T + R` (through `hp` and `hpht`), an exact
/// right inverse `si` of `s`, the gain `kk = (pp H^T) si` (through `pht`),
/// the new state `xn = xp + kk yv` (through `ky`), and the new covariance
/// `pn = (I - kk H) pp` (through `kh` and `imkh`).  Every link is an exact
/// value equality of rationals.
pub open spec fn kalman_wit(
    a: Seq<Seq<(int, int)>>,
    b: Seq<Seq<(int, int)>>,
    h: Seq<Seq<(int, int)>>,
    q: Seq<Seq<(int, int)>>,
    rm: Seq<Seq<(int, int)>>,
    p: Seq<Seq<(int, int)>>,
    x: Seq<Seq<(int, int)>>,
    u: Seq<Seq<(int, int)>>,
    z: Seq<Seq<(int, int)>>,
    n: int,
    pd: int,
    w: KalmanTrace,
    xn: Seq<Seq<(int, int)>>,
    pn: Seq<Seq<(int, int)>>,
) -> bool {
    let m = u.len() as int;
    &&& mat_shape(a, n, n) && mat_qwf(a)
    &&& mat_shape(b, n, m) && mat_qwf(b)
    &&& mat_shape(h, pd, n) && mat_qwf(h)
    &&& mat_shape(q, n, n) && mat_qwf(q)
    &&& mat_shape(rm, pd, pd) && mat_qwf(rm)
    &&& mat_shape(p, n, n) && mat_qwf(p)
    &&& mat_shape(x, n, 1) && mat_qwf(x)
    &&& mat_shape(u, m, 1) && mat_qwf(u)
    &&& mat_shape(z, pd, 1) && mat_qwf(z)
    &&& mat_shape(w.ax, n, 1) && mat_qwf(w.ax)
    &&& mat_shape(w.bu, n, 1) && mat_qwf(w.bu)
    &&& mat_shape(w.xp, n, 1) && mat_qwf(w.xp)
    &&& mat_shape(w.ap, n, n) && mat_qwf(w.ap)
    &&& mat_shape(w.apat, n, n) && mat_qwf(w.apat)
    &&& mat_shape(w.pp, n, n) && mat_qwf(w.pp)
    &&& mat_shape(w.hx, pd, 1) && mat_qwf(w.hx)
    &&& mat_shape(w.yv, pd, 1) && mat_qwf(w.yv)
    &&& mat_shape(w.hp, pd, n) && mat_qwf(w.hp)
    &&& mat_shape(w.hpht, pd, pd) && mat_qwf(w.hpht)
    &&& mat_shape(w.s, pd, pd) && mat_qwf(w.s)
    &&& mat_shape(w.si, pd, pd) && mat_qwf(w.si)
    &&& mat_shape(w.pht, n, pd) && mat_qwf(w.pht)
    &&& mat_shape(w.kk, n, pd) && mat_qwf(w.kk)
    &&& mat_shape(w.ky, n, 1) && mat_qwf(w.ky)
    &&& mat_shape(w.kh, n, n) && mat_qwf(w.kh)
    &&& mat_shape(w.imkh, n, n) && mat_qwf(w.imkh)
    &&& mat_shape(xn, n, 1) && mat_qwf(xn)
    &&& mat_shape(pn, n, n) && mat_qwf(pn)
    &&& forall|i: int| 0 <= i < n ==> qeq(#[trigger] w.ax[i][0], mm_entry(a, x, i, 0))
    &&& forall|i: int| 0 <= i < n ==> qeq(#[trigger] w.bu[i][0], mm_entry(b, u, i, 0))
    &&& forall|i: int| 0 <= i < n ==> qeq(#[trigger] w.xp[i][0], qadd(w.ax[i][0], w.bu[i][0]))
    &&& forall|i: int, j: int|
        0 <= i < n && 0 <= j < n ==> qeq(#[trigger] w.ap[i][j], mm_entry(a, p, i, j))
    &&& forall|i: int, j: int|
        0 <= i < n && 0 <= j < n ==> qeq(
            #[trigger] w.apat[i][j],
            mm_entry(w.ap, gtrans(a, n, n), i, j),
        )
    &&& forall|i: int, j: int|
        0 <= i < n && 0 <= j < n ==> qeq(#[trigger] w.pp[i][j], qadd(w.apat[i][j], q[i][j]))
    &&& forall|i: int| 0 <= i < pd ==> qeq(#[trigger] w.hx[i][0], mm_entry(h, w.xp, i, 0))
    &&& forall|i: int| 0 <= i < pd ==> qeq(#[trigger] w.yv[i][0], qsub(z[i][0], w.hx[i][0]))
    &&& forall|i: int, j: int|
        0 <= i < pd && 0 <= j < n ==> qeq(#[trigger] w.hp[i][j], mm_entry(h, w.pp, i, j))
    &&& forall|i: int, j: int|
        0 <= i < pd && 0 <= j < pd ==> qeq(
            #[trigger] w.hpht[i][j],
            mm_entry(w.hp, gtrans(h, pd, n), i, j),
        )
    &&& forall|i: int, j: int|
        0 <= i < pd && 0 <= j < pd ==> qeq(#[trigger] w.s[i][j], qadd(w.hpht[i][j], rm[i][j]))
    &&& forall|i: int, j: int|
        0 <= i < pd && 0 <= j < pd ==> qeq(mm_entry(w.s, w.si, i, j), #[trigger] qid(i, j))
    &&& forall|i: int, j: int|
        0 <= i < n && 0 <= j < pd ==> qeq(
            #[trigger] w.pht[i][j],
            mm_entry(w.pp, gtrans(h, pd, n), i, j),
        )
    &&& forall|i: int, j: int|
        0 <= i < n && 0 <= j < pd ==> qeq(#[trigger] w.kk[i][j], mm_entry(w.pht, w.si, i, j))
    &&& forall|i: int| 0 <= i < n ==> qeq(#[trigger] w.ky[i][0], mm_entry(w.kk, w.yv, i, 0))
    &&& forall|i: int| 0 <= i < n ==> qeq(#[trigger] xn[i][0], qadd(w.xp[i][0], w.ky[i][0]))
    &&& forall|i: int, j: int|
        0 <= i < n && 0 <= j < n ==> qeq(#[trigger] w.kh[i][j], mm_entry(w.kk, h, i, j))
    &&& forall|i: int, j: int|
        0 <= i < n && 0 <= j < n ==> qeq(#[trigger] w.imkh[i][j], qsub(qid(i, j), w.kh[i][j]))
    &&& forall|i: int, j: int|
        0 <= i < n && 0 <= j < n ==> qeq(#[trigger] pn[i][j], mm_entry(w.imkh, w.pp, i, j))
}

/// The intermediate grids of one Kalman step.
pub struct KalmanTrace {
    pub ax: Seq<Seq<(int, int)>>,
    pub bu: Seq<Seq<(int, int)>>,
    pub xp: Seq<Seq<(int, int)>>,
    pub ap: Seq<Seq<(int, int)>>,
    pub apat: Seq<Seq<(int, int)>>,
    pub pp: Seq<Seq<(int, int)>>,
    pub hx: Seq<Seq<(int, int)>>,
    pub yv: Seq<Seq<(int, int)>>,
    pub hp: Seq<Seq<(int, int)>>,
    pub hpht: Seq<Seq<(int, int)>>,
    pub s: Seq<Seq<(int, int)>>,
    pub si: Seq<Seq<(int, int)>>,
    pub pht: Seq<Seq<(int, int)>>,
    pub kk: Seq<Seq<(int, int)>>,
    pub ky: Seq<Seq<(int, int)>>,
    pub kh: Seq<Seq<(int, int)>>,
    pub imkh: Seq<Seq<(int, int)>>,
}

/// One Kalman predict-and-update step.  Returns the new state and
/// covariance together with the intermediate grids of the seven equations;
/// `None` when the innovation covariance has no exact inverse or an entry
/// leaves the machine range.
pub fn kalman_step(
    a: &Mat,
    b: &Mat,
    h: &Mat,
    q: &Mat,
    rm: &Mat,
    p: &Mat,
    x: &Mat,
    u: &Mat,
    z: &Mat,
) -> (r: Option<(Mat, Mat, Ghost<KalmanTrace>)>)
    requires
        a.rdim() == a.cdim(),
        b.rdim() == a.rdim(),
        h.cdim() == a.rdim(),
        q.rdim() == a.rdim() && q.cdim() == a.rdim(),
        rm.rdim() == h.rdim() && rm.cdim() == h.rdim(),
        p.rdim() == a.rdim() && p.cdim() == a.rdim(),
        x.rdim() == a.rdim() && x.cdim() == 1,
        u.rdim() == b.cdim() && u.cdim() == 1,
        z.rdim() == h.rdim() && z.cdim() == 1,
    ensures
        r matches Some(t) ==> {
            let n = a.rdim();
            let pd = h.rdim();
            &&& t.0.rdim() == n && t.0.cdim() == 1
            &&& t.1.rdim() == n && t.1.cdim() == n
            &&& kalman_wit(a@, b@, h@, q@, rm@, p@, x@, u@, z@, n, pd, t.2@, t.0@, t.1@)
        },
{
    let n: usize = a.rows();
    // Prior state: xp = A x + B u.
    let ax = match a.try_mul(x) {
        Some(v) => v,
        None => {
            return None;
        },
    };
    let bu = match b.try_mul(u) {
        Some(v) => v,
        None => {
            return None;
        },
    };
    let xp = match ax.try_add(&bu) {
        Some(v) => v,
        None => {
            return None;
        },
    };
    // Prior covariance: pp = A P Aᵀ + Q.
    let ap = match a.try_mul(p) {
        Some(v) => v,
        None => {
            return None;
        },
    };
    let at = a.transpose();
    let apat = match ap.try_mul(&at) {
        Some(v) => v,
        None => {
            return None;
        },
    };
    let pp = match apat.try_add(q) {
        Some(v) => v,
        None => {
            return None;
        },
    };
    // Innovation: yv = z - H xp.
    let hx = match h.try_mul(&xp) {
        Some(v) => v,
        None => {
            return None;
        },
    };
    let yv = match z.try_sub(&hx) {
        Some(v) => v,
        None => {
            return None;
        },
    };
    // Innovation covariance: s = H pp Hᵀ + R.
    let hpm = match h.try_mul(&pp) {
        Some(v) => v,
        None => {
            return None;
        },
    };
    let ht = h.transpose();
    let hpht = match hpm.try_mul(&ht) {
        Some(v) => v,
        None => {
            return None;
        },
    };
    let s = match hpht.try_add(rm) {
        Some(v) => v,
        None => {
            return None;
        },
    };
    // Gain: kk = pp Hᵀ s⁻¹.
    let si = match s.try_inverse() {
        Some(v) => v,
        None => {
            return None;
        },
    };
    let pht = match pp.try_mul(&ht) {
        Some(v) => v,
        None => {
            return None;
        },
    };
    let kk = match pht.try_mul(&si) {
        Some(v) => v,
        None => {
            return None;
        },
    };
    // New state: xn = xp + kk yv.
    let ky = match kk.try_mul(&yv) {
        Some(v) => v,
        None => {
            return None;
        },
    };
    let xn = match xp.try_add(&ky) {
        Some(v) => v,
        None => {
            return None;
        },
    };
    // New covariance: pn = (I - kk H) pp.
    let kh = match kk.try_mul(h) {
        Some(v) => v,
        None => {
            return None;
        },
    };
    if n == 0 || n > usize::MAX / n {
        return None;
    }
    proof {
        crate::matrix::lemma_cap_div_ok(n as int, n as int, usize::MAX as int);
    }
    let ident = Mat::identity(n);
    let imkh = match ident.try_sub(&kh) {
        Some(v) => v,
        None => {
            return None;
        },
    };
    let pn = match imkh.try_mul(&pp) {
        Some(v) => v,
        None => {
            return None;
        },
    };
    let _wfa = a.entries_wf();
    let _wfb = b.entries_wf();
    let _wfh = h.entries_wf();
    let _wfq = q.entries_wf();
    let _wfr = rm.entries_wf();
    let _wfp = p.entries_wf();
    let _wfx = x.entries_wf();
    let _wfu = u.entries_wf();
    let _wfz = z.entries_wf();
    let _wf1 = ax.entries_wf();
    let _wf2 = bu.entries_wf();
    let _wf3 = xp.entries_wf();
    let _wf4 = ap.entries_wf();
    let _wf5 = apat.entries_wf();
    let _wf6 = pp.entries_wf();
    let _wf7 = hx.entries_wf();
    let _wf8 = yv.entries_wf();
    let _wf9 = hpm.entries_wf();
    let _wf10 = hpht.entries_wf();
    let _wf11 = s.entries_wf();
    let _wf12 = si.entries_wf();
    let _wf13 = pht.entries_wf();
    let _wf14 = kk.entries_wf();
    let _wf15 = ky.entries_wf();
    let _wf16 = kh.entries_wf();
    let _wf17 = imkh.entries_wf();
    let _wf18 = xn.entries_wf();
    let _wf19 = pn.entries_wf();
    proof {
        let nn = a.rdim();
        let pd = h.rdim();
        a.lemma_shape();
        h.lemma_shape();
        u.lemma_shape();
        at.lemma_shape();
        ht.lemma_shape();
        assert forall|i: int| 0 <= i < nn implies #[trigger] at@[i] =~= gtrans(a@, nn, nn)[i] by {
            assert forall|j: int| 0 <= j < nn implies #[trigger] at@[i][j] == a@[j][i] by {}
        }
        assert(at@ =~~= gtrans(a@, nn, nn));
        assert forall|i: int| 0 <= i < nn implies #[trigger] ht@[i] =~= gtrans(h@, pd, nn)[i] by {
            assert forall|j: int| 0 <= j < pd implies #[trigger] ht@[i][j] == h@[j][i] by {}
        }
        assert(ht@ =~~= gtrans(h@, pd, nn));
        assert forall|i: int, j: int| 0 <= i < nn && 0 <= j < nn implies qeq(
            #[trigger] imkh@[i][j],
            qsub(qid(i, j), kh@[i][j]),
        ) by {
            assert(qeq(imkh@[i][j], qsub(ident@[i][j], kh@[i][j])));
        }
    }
    let ghost wit = KalmanTrace {
        ax: ax@,
        bu: bu@,
        xp: xp@,
        ap: ap@,
        apat: apat@,
        pp: pp@,
        hx: hx@,
        yv: yv@,
        hp: hpm@,
        hpht: hpht@,
        s: s@,
        si: si@,
        pht: pht@,
        kk: kk@,
        ky: ky@,
        kh: kh@,
        imkh: imkh@,
    };
    Some((xn, pn, Ghost(wit)))
}

/// The shapes `init` demands of the configured model: `A` square `n` by
/// `n` with `n` at least one, `B` with `n` rows, `H` with at least one row
/// and `n` columns, `Q` and `P0` square `n` by `n`, `R` square `H.rows` by
/// `H.rows`, and an `initial_state` of length `n`.  The zero-dimensional
/// model (no state, or no measurement row) is counted among the rejected
/// shapes: the stored value of a matrix with no rows does not determine
/// its column count, so the dimension agreements are not even expressible
/// of it, and such a filter estimates nothing.
pub open spec fn kalman_shapes_ok(st: crate::memory_manager::SlotStore) -> bool {
    let a = st.val_spec(Tag::MatA)->Matrix_0;
    let b = st.val_spec(Tag::MatB)->Matrix_0;
    let h = st.val_spec(Tag::MatH)->Matrix_0;
    let q = st.val_spec(Tag::MatQ)->Matrix_0;
    let rm = st.val_spec(Tag::MatR)->Matrix_0;
    let p0 = st.val_spec(Tag::MatP0)->Matrix_0;
    let x0 = st.val_spec(Tag::InitialState)->RealVec_0;
    &&& a.len() >= 1
    &&& grid_cols(a) == a.len()
    &&& b.len() == a.len()
    &&& h.len() >= 1
    &&& grid_cols(h) == a.len()
    &&& q.len() == a.len()
    &&& grid_cols(q) == q.len()
    &&& rm.len() == h.len()
    &&& grid_cols(rm) == rm.len()
    &&& p0.len() == a.len()
    &&& grid_cols(p0) == p0.len()
    &&& x0.len() == a.len()
}

/// The shapes `process` re-validates: the configured statics as `init`
/// demands them, a covariance shaped `n` by `n`, and a state of length
/// `n`.
pub open spec fn kalman_run_shapes_ok(core: crate::stream_processor::BlockCore) -> bool {
    let st = core.statics_spec();
    let a = st.val_spec(Tag::MatA)->Matrix_0;
    let b = st.val_spec(Tag::MatB)->Matrix_0;
    let h = st.val_spec(Tag::MatH)->Matrix_0;
    let q = st.val_spec(Tag::MatQ)->Matrix_0;
    let rm = st.val_spec(Tag::MatR)->Matrix_0;
    let p = core.state_spec().val_spec(Tag::MatP)->Matrix_0;
    let x = core.state_spec().val_spec(Tag::State)->RealVec_0;
    &&& a.len() >= 1
    &&& grid_cols(a) == a.len()
    &&& b.len() == a.len()
    &&& h.len() >= 1
    &&& grid_cols(h) == a.len()
    &&& q.len() == a.len()
    &&& grid_cols(q) == q.len()
    &&& rm.len() == h.len()
    &&& grid_cols(rm) == rm.len()
    &&& p.len() == a.len()
    &&& grid_cols(p) == a.len()
    &&& x.len() == a.len()
}

/// A one-by-one product entry is the product of the two entries.
proof fn lemma_mm1(a: Seq<Seq<(int, int)>>, b: Seq<Seq<(int, int)>>)
    requires
        b.len() == 1,
    ensures
        mm_entry(a, b, 0, 0) == qmul(a[0][0], b[0][0]),
{
    let terms = Seq::new(b.len(), |k: int| qmul(a[0][k], b[k][0]));
    assert(mm_entry(a, b, 0, 0) == crate::rat::qsum(terms));
    assert(terms.drop_last() =~= Seq::<(int, int)>::empty());
    assert(crate::rat::qsum(terms.drop_last()) == crate::rat::qzero());
    assert(terms.last() == qmul(a[0][0], b[0][0]));
    let t = terms[0];
    assert(crate::rat::qsum(terms) == qadd(crate::rat::qzero(), t));
    assert(qadd(crate::rat::qzero(), t) == (0 * t.1 + t.0 * 1, 1 * t.1));
    assert((0 * t.1 + t.0 * 1, 1 * t.1) == t);
}

/// Adding back a subtracted value recovers it: `x + (z - x) ~ z`.
proof fn lemma_add_sub_cancel(x: (int, int), z: (int, int))
    requires
        qwf(x),
        qwf(z),
    ensures
        qeq(qadd(x, qsub(z, x)), z),
{
    let x0: int = x.0;
    let x1: int = x.1;
    let z0: int = z.0;
    let z1: int = z.1;
    let l = qadd(x, qsub(z, x));
    assert(l.0 == x0 * (z1 * x1) + (z0 * x1 - x0 * z1) * x1);
    assert(l.1 == x1 * (z1 * x1));
    vstd::arithmetic::mul::lemma_mul_is_distributive_sub_other_way(x1, z0 * x1, x0 * z1);
    vstd::arithmetic::mul::lemma_mul_is_distributive_add_other_way(
        z1,
        x0 * (z1 * x1),
        (z0 * x1) * x1 - (x0 * z1) * x1,
    );
    vstd::arithmetic::mul::lemma_mul_is_distributive_sub_other_way(
        z1,
        (z0 * x1) * x1,
        (x0 * z1) * x1,
    );
    assert((x0 * (z1 * x1)) * z1 == ((x0 * z1) * x1) * z1) by (nonlinear_arith);
    assert(((z0 * x1) * x1) * z1 == z0 * (x1 * (z1 * x1))) by (nonlinear_arith);
}

/// With an identity model, no process or measurement noise and unit prior
/// covariance (`A ~ I`, `B ~ 0`, `H ~ I`, `Q ~ 0`, `R ~ 0`, `P ~ I`,
/// one-dimensional), the gain is one and the corrected state equals the
/// measurement exactly, whatever the trace the step produced.
pub proof fn lemma_kalman_perfect_measurement(
    a: Seq<Seq<(int, int)>>,
    b: Seq<Seq<(int, int)>>,
    h: Seq<Seq<(int, int)>>,
    q: Seq<Seq<(int, int)>>,
    rm: Seq<Seq<(int, int)>>,
    p: Seq<Seq<(int, int)>>,
    x: Seq<Seq<(int, int)>>,
    u: Seq<Seq<(int, int)>>,
    z: Seq<Seq<(int, int)>>,
    w: KalmanTrace,
    xn: Seq<Seq<(int, int)>>,
    pn: Seq<Seq<(int, int)>>,
)
    requires
        a.len() == 1 && a[0].len() == 1,
        b.len() == 1 && b[0].len() == 1,
        h.len() == 1 && h[0].len() == 1,
        q.len() == 1 && q[0].len() == 1,
        rm.len() == 1 && rm[0].len() == 1,
        p.len() == 1 && p[0].len() == 1,
        x.len() == 1 && x[0].len() == 1,
        u.len() == 1 && u[0].len() == 1,
        z.len() == 1 && z[0].len() == 1,
        qeq(a[0][0], qone()),
        qeq(b[0][0], qzero()),
        qeq(h[0][0], qone()),
        qeq(q[0][0], qzero()),
        qeq(rm[0][0], qzero()),
        qeq(p[0][0], qone()),
        kalman_wit(a, b, h, q, rm, p, x, u, z, 1, 1, w, xn, pn),
    ensures
        qeq(xn[0][0], z[0][0]),
{
    assert(qwf(a[0][0]) && qwf(b[0][0]) && qwf(h[0][0]) && qwf(q[0][0]) && qwf(rm[0][0]) && qwf(
        p[0][0],
    ) && qwf(x[0][0]) && qwf(u[0][0]) && qwf(z[0][0]));
    assert(w.xp.len() == 1 && w.pp.len() == 1 && w.si.len() == 1 && w.yv.len() == 1);
    assert(qwf(w.ax[0][0]) && qwf(w.bu[0][0]) && qwf(w.xp[0][0]) && qwf(w.ap[0][0]) && qwf(
        w.apat[0][0],
    ) && qwf(w.pp[0][0]) && qwf(w.hx[0][0]) && qwf(w.yv[0][0]) && qwf(w.hp[0][0]) && qwf(
        w.hpht[0][0],
    ) && qwf(w.s[0][0]) && qwf(w.si[0][0]) && qwf(w.pht[0][0]) && qwf(w.kk[0][0]) && qwf(
        w.ky[0][0],
    ) && qwf(xn[0][0]));
    let one = qone();
    let zero = qzero();
    let at = gtrans(a, 1, 1);
    let ht = gtrans(h, 1, 1);
    assert(at[0][0] == a[0][0]);
    assert(ht[0][0] == h[0][0]);
    // xp ~ x: the prediction moves nothing.
    lemma_mm1(a, x);
    crate::rat::lemma_qmul_congr(a[0][0], x[0][0], one, x[0][0]);
    assert(qmul(one, x[0][0]) == (1 * x[0][0].0, 1 * x[0][0].1));
    crate::rat::lemma_qadd_wf(a[0][0], x[0][0]);
    crate::rat::lemma_qeq_trans(w.ax[0][0], qmul(a[0][0], x[0][0]), x[0][0]);
    lemma_mm1(b, u);
    crate::rat::lemma_qmul_zero_left(b[0][0], u[0][0]);
    crate::rat::lemma_qadd_wf(b[0][0], u[0][0]);
    crate::rat::lemma_qeq_trans(w.bu[0][0], qmul(b[0][0], u[0][0]), zero);
    crate::rat::lemma_qadd_congr(w.ax[0][0], w.bu[0][0], x[0][0], zero);
    crate::rat::lemma_qadd_zero(x[0][0], zero);
    crate::rat::lemma_qadd_wf(w.ax[0][0], w.bu[0][0]);
    crate::rat::lemma_qadd_wf(x[0][0], zero);
    crate::rat::lemma_qeq_trans(w.xp[0][0], qadd(w.ax[0][0], w.bu[0][0]), qadd(x[0][0], zero));
    crate::rat::lemma_qeq_trans(w.xp[0][0], qadd(x[0][0], zero), x[0][0]);
    // pp ~ 1: identity covariance propagates.
    lemma_mm1(a, p);
    crate::rat::lemma_qmul_congr(a[0][0], p[0][0], one, one);
    assert(qmul(one, one) == (1 * 1int, 1 * 1int));
    crate::rat::lemma_qadd_wf(a[0][0], p[0][0]);
    crate::rat::lemma_qeq_trans(w.ap[0][0], qmul(a[0][0], p[0][0]), one);
    lemma_mm1(w.ap, at);
    crate::rat::lemma_qmul_congr(w.ap[0][0], at[0][0], one, one);
    crate::rat::lemma_qadd_wf(w.ap[0][0], at[0][0]);
    crate::rat::lemma_qeq_trans(w.apat[0][0], qmul(w.ap[0][0], at[0][0]), one);
    crate::rat::lemma_qadd_congr(w.apat[0][0], q[0][0], one, zero);
    crate::rat::lemma_qadd_zero(one, zero);
    crate::rat::lemma_qadd_wf(w.apat[0][0], q[0][0]);
    crate::rat::lemma_qadd_wf(one, zero);
    crate::rat::lemma_qeq_trans(w.pp[0][0], qadd(w.apat[0][0], q[0][0]), qadd(one, zero));
    crate::rat::lemma_qeq_trans(w.pp[0][0], qadd(one, zero), one);
    // The innovation is the full error z - x.
    lemma_mm1(h, w.xp);
    crate::rat::lemma_qmul_congr(h[0][0], w.xp[0][0], one, x[0][0]);
    crate::rat::lemma_qadd_wf(h[0][0], w.xp[0][0]);
    crate::rat::lemma_qeq_trans(w.hx[0][0], qmul(h[0][0], w.xp[0][0]), qmul(one, x[0][0]));
    crate::rat::lemma_qeq_trans(w.hx[0][0], qmul(one, x[0][0]), x[0][0]);
    crate::rat::lemma_qsub_congr(z[0][0], w.hx[0][0], z[0][0], x[0][0]);
    crate::rat::lemma_qadd_wf(z[0][0], w.hx[0][0]);
    crate::rat::lemma_qadd_wf(z[0][0], x[0][0]);
    crate::rat::lemma_qeq_trans(
        w.yv[0][0],
        qsub(z[0][0], w.hx[0][0]),
        qsub(z[0][0], x[0][0]),
    );
    // s ~ 1, so its exact inverse is ~ 1 too.
    lemma_mm1(h, w.pp);
    crate::rat::lemma_qmul_congr(h[0][0], w.pp[0][0], one, one);
    crate::rat::lemma_qadd_wf(h[0][0], w.pp[0][0]);
    crate::rat::lemma_qeq_trans(w.hp[0][0], qmul(h[0][0], w.pp[0][0]), one);
    lemma_mm1(w.hp, ht);
    crate::rat::lemma_qmul_congr(w.hp[0][0], ht[0][0], one, one);
    crate::rat::lemma_qadd_wf(w.hp[0][0], ht[0][0]);
    crate::rat::lemma_qeq_trans(w.hpht[0][0], qmul(w.hp[0][0], ht[0][0]), one);
    crate::rat::lemma_qadd_congr(w.hpht[0][0], rm[0][0], one, zero);
    crate::rat::lemma_qadd_wf(w.hpht[0][0], rm[0][0]);
    crate::rat::lemma_qeq_trans(w.s[0][0], qadd(w.hpht[0][0], rm[0][0]), qadd(one, zero));
    crate::rat::lemma_qeq_trans(w.s[0][0], qadd(one, zero), one);
    lemma_mm1(w.s, w.si);
    assert(qid(0, 0) == qone());
    assert(qeq(mm_entry(w.s, w.si, 0, 0), qid(0, 0)));
    assert(qeq(qmul(w.s[0][0], w.si[0][0]), one));
    crate::rat::lemma_qmul_congr(w.s[0][0], w.si[0][0], one, w.si[0][0]);
    assert(qmul(one, w.si[0][0]) == (1 * w.si[0][0].0, 1 * w.si[0][0].1));
    crate::rat::lemma_qadd_wf(w.s[0][0], w.si[0][0]);
    crate::rat::lemma_qeq_sym(qmul(w.s[0][0], w.si[0][0]), w.si[0][0]);
    crate::rat::lemma_qeq_trans(w.si[0][0], qmul(w.s[0][0], w.si[0][0]), one);
    // The gain is one.
    lemma_mm1(w.pp, ht);
    crate::rat::lemma_qmul_congr(w.pp[0][0], ht[0][0], one, one);
    crate::rat::lemma_qadd_wf(w.pp[0][0], ht[0][0]);
    crate::rat::lemma_qeq_trans(w.pht[0][0], qmul(w.pp[0][0], ht[0][0]), one);
    lemma_mm1(w.pht, w.si);
    crate::rat::lemma_qmul_congr(w.pht[0][0], w.si[0][0], one, one);
    crate::rat::lemma_qadd_wf(w.pht[0][0], w.si[0][0]);
    crate::rat::lemma_qeq_trans(w.kk[0][0], qmul(w.pht[0][0], w.si[0][0]), one);
    // The correction applies the whole innovation.
    lemma_mm1(w.kk, w.yv);
    crate::rat::lemma_qadd_wf(z[0][0], x[0][0]);
    crate::rat::lemma_qmul_congr(w.kk[0][0], w.yv[0][0], one, qsub(z[0][0], x[0][0]));
    assert(qmul(one, qsub(z[0][0], x[0][0])) == (
        1 * qsub(z[0][0], x[0][0]).0,
        1 * qsub(z[0][0], x[0][0]).1,
    ));
    crate::rat::lemma_qadd_wf(w.kk[0][0], w.yv[0][0]);
    crate::rat::lemma_qeq_trans(
        w.ky[0][0],
        qmul(w.kk[0][0], w.yv[0][0]),
        qsub(z[0][0], x[0][0]),
    );
    crate::rat::lemma_qadd_congr(w.xp[0][0], w.ky[0][0], x[0][0], qsub(z[0][0], x[0][0]));
    lemma_add_sub_cancel(x[0][0], z[0][0]);
    crate::rat::lemma_qadd_wf(w.xp[0][0], w.ky[0][0]);
    crate::rat::lemma_qadd_wf(x[0][0], qsub(z[0][0], x[0][0]));
    crate::rat::lemma_qeq_trans(
        xn[0][0],
        qadd(w.xp[0][0], w.ky[0][0]),
        qadd(x[0][0], qsub(z[0][0], x[0][0])),
    );
    crate::rat::lemma_qeq_trans(xn[0][0], qadd(x[0][0], qsub(z[0][0], x[0][0])), z[0][0]);
}

/// The Kalman filter block.
pub struct KalmanFilter {
    pub core: BlockCore,
}

impl KalmanFilter {
    /// The block's fixed shape: its ports and slots, with their kinds.
    pub open spec fn shape_wf(&self) -> bool {
        &&& self.core.wf()
        &&& self.core.inputs_spec().contains_spec(Tag::Control)
        &&& self.core.inputs_spec().kind_spec(Tag::Control) == ValueKind::RealVec
        &&& self.core.inputs_spec().contains_spec(Tag::Measurement)
        &&& self.core.inputs_spec().kind_spec(Tag::Measurement) == ValueKind::RealVec
        &&& self.core.outputs_spec().contains_spec(Tag::Output)
        &&& self.core.outputs_spec().kind_spec(Tag::Output) == ValueKind::RealVec
        &&& self.core.statics_spec().contains_spec(Tag::MatA)
        &&& self.core.statics_spec().kind_spec(Tag::MatA) == ValueKind::Matrix
        &&& self.core.statics_spec().contains_spec(Tag::MatB)
        &&& self.core.statics_spec().kind_spec(Tag::MatB) == ValueKind::Matrix
        &&& self.core.statics_spec().contains_spec(Tag::MatH)
        &&& self.core.statics_spec().kind_spec(Tag::MatH) == ValueKind::Matrix
        &&& self.core.statics_spec().contains_spec(Tag::MatQ)
        &&& self.core.statics_spec().kind_spec(Tag::MatQ) == ValueKind::Matrix
        &&& self.core.statics_spec().contains_spec(Tag::MatR)
        &&& self.core.statics_spec().kind_spec(Tag::MatR) == ValueKind::Matrix
        &&& self.core.statics_spec().contains_spec(Tag::MatP0)
        &&& self.core.statics_spec().kind_spec(Tag::MatP0) == ValueKind::Matrix
        &&& self.core.statics_spec().contains_spec(Tag::InitialState)
        &&& self.core.statics_spec().kind_spec(Tag::InitialState) == ValueKind::RealVec
        &&& self.core.state_spec().contains_spec(Tag::State)
        &&& self.core.state_spec().kind_spec(Tag::State) == ValueKind::RealVec
        &&& self.core.state_spec().contains_spec(Tag::MatP)
        &&& self.core.state_spec().kind_spec(Tag::MatP) == ValueKind::Matrix
    }

    /// A fresh Kalman filter named `name`, in state `Null`: exactly the
    /// input ports `control` and `measurement`, the output `output`, the
    /// seven model statics (placeholder identity and empty defaults), all
    /// unconstrained and unassigned, and the state slots for the estimate
    /// and the covariance.
    pub fn new(name: String) -> (bl: KalmanFilter)
        ensures
            bl.wf(),
            bl.lifecycle() == StreamingState::Null,
            !bl.initialized(),
            bl.core.name_spec() == name@,
            bl.core.statics_spec().validator_spec(Tag::MatA) == Validator::Any,
            bl.core.statics_spec().validator_spec(Tag::MatB) == Validator::Any,
            bl.core.statics_spec().validator_spec(Tag::MatH) == Validator::Any,
            bl.core.statics_spec().validator_spec(Tag::MatQ) == Validator::Any,
            bl.core.statics_spec().validator_spec(Tag::MatR) == Validator::Any,
            bl.core.statics_spec().validator_spec(Tag::MatP0) == Validator::Any,
            bl.core.statics_spec().validator_spec(Tag::InitialState) == Validator::Any,
            !bl.core.statics_spec().assigned_spec(Tag::MatA),
            !bl.core.statics_spec().assigned_spec(Tag::MatB),
            !bl.core.statics_spec().assigned_spec(Tag::MatH),
            !bl.core.statics_spec().assigned_spec(Tag::MatQ),
            !bl.core.statics_spec().assigned_spec(Tag::MatR),
            !bl.core.statics_spec().assigned_spec(Tag::MatP0),
            !bl.core.statics_spec().assigned_spec(Tag::InitialState),
            bl.core.statics_spec().val_spec(Tag::InitialState)->RealVec_0.len() == 0,
            forall|t: Tag|
                #[trigger] bl.core.statics_spec().contains_spec(t) ==> t == Tag::MatA || t
                    == Tag::MatB || t == Tag::MatH || t == Tag::MatQ || t == Tag::MatR || t
                    == Tag::MatP0 || t == Tag::InitialState,
            bl.core.state_spec().val_spec(Tag::State)->RealVec_0.len() == 0,
            forall|t: Tag|
                #[trigger] bl.core.state_spec().contains_spec(t) ==> t == Tag::State || t
                    == Tag::MatP,
            forall|t: Tag|
                #[trigger] bl.core.inputs_spec().contains_spec(t) ==> t == Tag::Control || t
                    == Tag::Measurement,
            forall|t: Tag| #[trigger] bl.core.outputs_spec().contains_spec(t) ==> t == Tag::Output,
            forall|t: Tag| !bl.core.parameters_spec().contains_spec(t),
    {
        let mut core = BlockCore::new(name);
        let ghost in0 = core.inputs_spec();
        let _ = core.new_input(Tag::Control, ValueKind::RealVec);
        let ghost in1 = core.inputs_spec();
        let _ = core.new_input(Tag::Measurement, ValueKind::RealVec);
        let ghost out0 = core.outputs_spec();
        let _ = core.new_output(Tag::Output, ValueKind::RealVec);
        let ghost st0 = core.statics_spec();
        let _ = core.new_statics(Tag::MatA, Value::Matrix(Mat::identity(1)), Validator::Any);
        let ghost st1 = core.statics_spec();
        let _ = core.new_statics(Tag::MatB, Value::Matrix(Mat::identity(1)), Validator::Any);
        let ghost st2 = core.statics_spec();
        proof {
            assert(core.statics_spec().contains_spec(Tag::MatA));
            assert(!core.statics_spec().assigned_spec(Tag::MatA));
        }
        let _ = core.new_statics(Tag::MatH, Value::Matrix(Mat::identity(1)), Validator::Any);
        let ghost st3 = core.statics_spec();
        proof {
            assert(core.statics_spec().contains_spec(Tag::MatA));
            assert(core.statics_spec().contains_spec(Tag::MatB));
            assert(!core.statics_spec().assigned_spec(Tag::MatA));
            assert(!core.statics_spec().assigned_spec(Tag::MatB));
        }
        let _ = core.new_statics(Tag::MatQ, Value::Matrix(Mat::identity(1)), Validator::Any);
        let ghost st4 = core.statics_spec();
        proof {
            assert(core.statics_spec().contains_spec(Tag::MatA));
            assert(core.statics_spec().contains_spec(Tag::MatB));
            assert(core.statics_spec().contains_spec(Tag::MatH));
            assert(!core.statics_spec().assigned_spec(Tag::MatA));
            assert(!core.statics_spec().assigned_spec(Tag::MatB));
            assert(!core.statics_spec().assigned_spec(Tag::MatH));
        }
        let _ = core.new_statics(Tag::MatR, Value::Matrix(Mat::identity(1)), Validator::Any);
        let ghost st5 = core.statics_spec();
        proof {
            assert(core.statics_spec().contains_spec(Tag::MatA));
            assert(core.statics_spec().contains_spec(Tag::MatB));
            assert(core.statics_spec().contains_spec(Tag::MatH));
            assert(core.statics_spec().contains_spec(Tag::MatQ));
            assert(!core.statics_spec().assigned_spec(Tag::MatA));
            assert(!core.statics_spec().assigned_spec(Tag::MatB));
            assert(!core.statics_spec().assigned_spec(Tag::MatH));
            assert(!core.statics_spec().assigned_spec(Tag::MatQ));
        }
        let _ = core.new_statics(Tag::MatP0, Value::Matrix(Mat::identity(1)), Validator::Any);
        let ghost st6 = core.statics_spec();
        proof {
            assert(core.statics_spec().contains_spec(Tag::MatA));
            assert(core.statics_spec().contains_spec(Tag::MatB));
            assert(core.statics_spec().contains_spec(Tag::MatH));
            assert(core.statics_spec().contains_spec(Tag::MatQ));
            assert(core.statics_spec().contains_spec(Tag::MatR));
            assert(!core.statics_spec().assigned_spec(Tag::MatA));
            assert(!core.statics_spec().assigned_spec(Tag::MatB));
            assert(!core.statics_spec().assigned_spec(Tag::MatH));
            assert(!core.statics_spec().assigned_spec(Tag::MatQ));
            assert(!core.statics_spec().assigned_spec(Tag::MatR));
        }
        let _ = core.new_statics(Tag::InitialState, Value::RealVec(Vec::new()), Validator::Any);
        let ghost st7 = core.statics_spec();
        proof {
            assert(core.statics_spec().contains_spec(Tag::MatA));
            assert(core.statics_spec().contains_spec(Tag::MatB));
            assert(core.statics_spec().contains_spec(Tag::MatH));
            assert(core.statics_spec().contains_spec(Tag::MatQ));
            assert(core.statics_spec().contains_spec(Tag::MatR));
            assert(core.statics_spec().contains_spec(Tag::MatP0));
            assert(core.statics_spec().contains_spec(Tag::InitialState));
            assert(!core.statics_spec().assigned_spec(Tag::MatA));
            assert(!core.statics_spec().assigned_spec(Tag::MatB));
            assert(!core.statics_spec().assigned_spec(Tag::MatH));
            assert(!core.statics_spec().assigned_spec(Tag::MatQ));
            assert(!core.statics_spec().assigned_spec(Tag::MatR));
            assert(!core.statics_spec().assigned_spec(Tag::MatP0));
            assert(!core.statics_spec().assigned_spec(Tag::InitialState));
        }
        let ghost sv0 = core.state_spec();
        let _ = core.new_state(Tag::State, Value::RealVec(Vec::new()));
        let ghost sv1 = core.state_spec();
        let _ = core.new_state(Tag::MatP, Value::Matrix(Mat::identity(1)));
        proof {
            assert(core.state_spec().contains_spec(Tag::State));
            assert(core.state_spec().contains_spec(Tag::MatP));
            assert(core.inputs_spec().contains_spec(Tag::Control));
            assert(core.inputs_spec().contains_spec(Tag::Measurement));
            assert(core.outputs_spec().contains_spec(Tag::Output));
        }
        let bl = KalmanFilter { core };
        proof {
            assert(bl.core.statics_spec().val_spec(Tag::InitialState)->RealVec_0
                =~= Seq::empty());
            assert(bl.core.state_spec().val_spec(Tag::State)->RealVec_0 =~= Seq::empty());
            assert forall|t: Tag| #[trigger] bl.core.statics_spec().contains_spec(t) implies t
                == Tag::MatA || t == Tag::MatB || t == Tag::MatH || t == Tag::MatQ || t
                == Tag::MatR || t == Tag::MatP0 || t == Tag::InitialState by {
                if t != Tag::MatA && t != Tag::MatB && t != Tag::MatH && t != Tag::MatQ && t
                    != Tag::MatR && t != Tag::MatP0 && t != Tag::InitialState {
                    assert(st7.contains_spec(t) == st6.contains_spec(t));
                    assert(st6.contains_spec(t) == st5.contains_spec(t));
                    assert(st5.contains_spec(t) == st4.contains_spec(t));
                    assert(st4.contains_spec(t) == st3.contains_spec(t));
                    assert(st3.contains_spec(t) == st2.contains_spec(t));
                    assert(st2.contains_spec(t) == st1.contains_spec(t));
                    assert(st1.contains_spec(t) == st0.contains_spec(t));
                    assert(!st0.contains_spec(t));
                }
            }
            assert forall|t: Tag| #[trigger] bl.core.state_spec().contains_spec(t) implies t
                == Tag::State || t == Tag::MatP by {
                if t != Tag::State && t != Tag::MatP {
                    assert(sv1.contains_spec(t) == sv0.contains_spec(t));
                    assert(!sv0.contains_spec(t));
                }
            }
            assert forall|t: Tag| #[trigger] bl.core.inputs_spec().contains_spec(t) implies t
                == Tag::Control || t == Tag::Measurement by {
                if t != Tag::Control && t != Tag::Measurement {
                    assert(in1.contains_spec(t) == in0.contains_spec(t));
                    assert(!in0.contains_spec(t));
                }
            }
            assert forall|t: Tag| #[trigger] bl.core.outputs_spec().contains_spec(t) implies t
                == Tag::Output by {
                if t != Tag::Output {
                    assert(!out0.contains_spec(t));
                }
            }
        }
        bl
    }

    /// Exact `init`: rejected from `Running`; rejected, without side
    /// effects, while a static is unassigned or the shapes disagree (`A`
    /// square `n` by `n`, `B.rows == n`, `H.cols == n`, `Q` and `P0`
    /// square `n` by `n`, `R` square with `R.rows == H.rows`,
    /// `initial_state` of length `n`); otherwise seeds the state and
    /// covariance and enters `Initial`.
    pub fn init_block(&mut self) -> (r: Result<(), StreamingError>)
        requires
            old(self).wf(),
        ensures
            final(self).wf(),
            r is Err ==> *final(self) == *old(self),
            old(self).lifecycle() == StreamingState::Running ==> r == Err::<(), StreamingError>(
                StreamingError::InvalidStateTransition,
            ),
            old(self).lifecycle() != StreamingState::Running && !old(self).initialized() ==> r
                == Err::<(), StreamingError>(StreamingError::InvalidStatics),
            old(self).lifecycle() != StreamingState::Running && old(self).initialized() ==> (r
                is Ok <==> kalman_shapes_ok(old(self).core.statics_spec())),
            old(self).lifecycle() != StreamingState::Running && old(self).initialized()
                && !kalman_shapes_ok(old(self).core.statics_spec()) ==> r == Err::<
                (),
                StreamingError,
            >(StreamingError::InvalidStatics),
            r is Ok ==> {
                let st = old(self).core.statics_spec();
                &&& old(self).lifecycle() != StreamingState::Running
                &&& old(self).initialized()
                &&& final(self).lifecycle() == StreamingState::Initial
                &&& final(self).core.statics_spec() == old(self).core.statics_spec()
                &&& final(self).core.state_spec().val_spec(Tag::State) == st.val_spec(
                    Tag::InitialState,
                )
                &&& final(self).core.state_spec().val_spec(Tag::MatP) == st.val_spec(Tag::MatP0)
            },
    {
        match self.core.init_guard() {
            Err(e) => {
                return Err(e);
            },
            Ok(()) => {},
        }
        let a: Mat = match self.core.get_statics(Tag::MatA, ValueKind::Matrix) {
            Ok(Value::Matrix(m)) => m,
            _ => {
                proof {
                    assert(false);
                }
                return Err(StreamingError::InvalidStatics);
            },
        };
        proof {
            a.lemma_shape();
        }
        if a.rows() == 0 || !a.is_square() {
            return Err(StreamingError::InvalidStatics);
        }
        let b: Mat = match self.core.get_statics(Tag::MatB, ValueKind::Matrix) {
            Ok(Value::Matrix(m)) => m,
            _ => {
                proof {
                    assert(false);
                }
                return Err(StreamingError::InvalidStatics);
            },
        };
        proof {
            b.lemma_shape();
        }
        if b.rows() != a.rows() {
            return Err(StreamingError::InvalidStatics);
        }
        let h: Mat = match self.core.get_statics(Tag::MatH, ValueKind::Matrix) {
            Ok(Value::Matrix(m)) => m,
            _ => {
                proof {
                    assert(false);
                }
                return Err(StreamingError::InvalidStatics);
            },
        };
        proof {
            h.lemma_shape();
        }
        if h.rows() == 0 || h.cols() != a.rows() {
            return Err(StreamingError::InvalidStatics);
        }
        let q: Mat = match self.core.get_statics(Tag::MatQ, ValueKind::Matrix) {
            Ok(Value::Matrix(m)) => m,
            _ => {
                proof {
                    assert(false);
                }
                return Err(StreamingError::InvalidStatics);
            },
        };
        proof {
            q.lemma_shape();
        }
        if q.rows() != a.rows() || !q.is_square() {
            return Err(StreamingError::InvalidStatics);
        }
        let rmat: Mat = match self.core.get_statics(Tag::MatR, ValueKind::Matrix) {
            Ok(Value::Matrix(m)) => m,
            _ => {
                proof {
                    assert(false);
                }
                return Err(StreamingError::InvalidStatics);
            },
        };
        proof {
            rmat.lemma_shape();
        }
        if rmat.rows() != h.rows() || !rmat.is_square() {
            return Err(StreamingError::InvalidStatics);
        }
        let p0: Mat = match self.core.get_statics(Tag::MatP0, ValueKind::Matrix) {
            Ok(Value::Matrix(m)) => m,
            _ => {
                proof {
                    assert(false);
                }
                return Err(StreamingError::InvalidStatics);
            },
        };
        proof {
            p0.lemma_shape();
        }
        if p0.rows() != a.rows() || !p0.is_square() {
            return Err(StreamingError::InvalidStatics);
        }
        let init_state: Vec<Rat> = match self.core.get_statics(
            Tag::InitialState,
            ValueKind::RealVec,
        ) {
            Ok(Value::RealVec(v)) => v,
            _ => {
                proof {
                    assert(false);
                }
                return Err(StreamingError::InvalidStatics);
            },
        };
        if init_state.len() != a.rows() {
            return Err(StreamingError::InvalidStatics);
        }
        proof {
            assert(seq_rats(init_state) =~= old(
                self,
            ).core.statics_spec().val_spec(Tag::InitialState)->RealVec_0);
            assert(kalman_shapes_ok(old(self).core.statics_spec()));
        }
        match self.core.set_state_value(Tag::State, Value::RealVec(init_state)) {
            Ok(()) => {},
            Err(e) => {
                proof {
                    assert(false);
                }
                return Err(e);
            },
        }
        proof {
            assert(self.core.state_spec().contains_spec(Tag::MatP));
            assert(self.core.state_spec().kind_spec(Tag::MatP) == ValueKind::Matrix);
        }
        match self.core.set_state_value(Tag::MatP, Value::Matrix(p0)) {
            Ok(()) => {},
            Err(e) => {
                proof {
                    assert(false);
                }
                return Err(e);
            },
        }
        proof {
            assert(self.core.state_spec().contains_spec(Tag::State));
            assert(self.core.state_spec().kind_spec(Tag::State) == ValueKind::RealVec);
        }
        self.core.set_state(StreamingState::Initial);
        Ok(())
    }

    /// Exact `process`: consumes a control vector on `control` and a
    /// measurement on `measurement`, performs one Kalman step, stores the
    /// new state and covariance, and emits the state.  Shape mismatches,
    /// a singular innovation covariance, and samples outside the machine
    /// range stop the block with `InvalidInput`; missing inputs report
    /// `ChannelClosed`; broken statics report `InvalidStatics` without side
    /// effects.
    pub fn process_block(&mut self, inputs: &PortMap) -> (r: Result<PortMap, StreamingError>)
        requires
            old(self).wf(),
            inputs.wf(),
        ensures
            final(self).wf(),
            r == Err::<PortMap, StreamingError>(StreamingError::ChannelClosed)
                <==> (!inputs.contains_spec(Tag::Control) || !inputs.contains_spec(
                Tag::Measurement,
            )),
            !inputs.contains_spec(Tag::Control) || !inputs.contains_spec(Tag::Measurement)
                ==> *final(self) == *old(self),
            r == Err::<PortMap, StreamingError>(StreamingError::InvalidInput) ==> final(self).lifecycle() == StreamingState::Stopped,
            inputs.contains_spec(Tag::Control) && inputs.contains_spec(Tag::Measurement) && (
            model_kind(inputs.val_spec(Tag::Control)) != ValueKind::RealVec || model_kind(
                inputs.val_spec(Tag::Measurement),
            ) != ValueKind::RealVec) ==> r == Err::<PortMap, StreamingError>(
                StreamingError::InvalidInput,
            ),
            r == Err::<PortMap, StreamingError>(StreamingError::InvalidStatics) <==> (
            inputs.contains_spec(Tag::Control) && inputs.contains_spec(Tag::Measurement)
                && model_kind(inputs.val_spec(Tag::Control)) == ValueKind::RealVec && model_kind(
                inputs.val_spec(Tag::Measurement),
            ) == ValueKind::RealVec && !kalman_run_shapes_ok(old(self).core)),
            r == Err::<PortMap, StreamingError>(StreamingError::InvalidStatics) ==> *final(self)
                == *old(self),
            r != Err::<PortMap, StreamingError>(StreamingError::InvalidStateTransition),
            inputs.contains_spec(Tag::Control) && inputs.contains_spec(Tag::Measurement)
                && model_kind(inputs.val_spec(Tag::Control)) == ValueKind::RealVec && model_kind(
                inputs.val_spec(Tag::Measurement),
            ) == ValueKind::RealVec && kalman_run_shapes_ok(old(self).core) ==> (r is Ok || r
                == Err::<PortMap, StreamingError>(StreamingError::InvalidInput)),
            r matches Ok(out) ==> {
                let st = old(self).core.statics_spec();
                let a = st.val_spec(Tag::MatA)->Matrix_0;
                let h = st.val_spec(Tag::MatH)->Matrix_0;
                let n = a.len() as int;
                let u = inputs.val_spec(Tag::Control)->RealVec_0;
                let z = inputs.val_spec(Tag::Measurement)->RealVec_0;
                &&& inputs.contains_spec(Tag::Control)
                &&& inputs.contains_spec(Tag::Measurement)
                &&& out.wf()
                &&& out.contains_spec(Tag::Output)
                &&& model_kind(out.val_spec(Tag::Output)) == ValueKind::RealVec
                &&& final(self).core.statics_spec() == old(self).core.statics_spec()
                &&& final(self).core.parameters_spec() == old(self).core.parameters_spec()
                &&& final(self).core.inputs_spec() == old(self).core.inputs_spec()
                &&& final(self).core.outputs_spec() == old(self).core.outputs_spec()
                &&& final(self).core.name_spec() == old(self).core.name_spec()
                &&& forall|t: Tag|
                    t != Tag::State && t != Tag::MatP ==> #[trigger] final(self).core.state_spec().contains_spec(t) == old(self).core.state_spec().contains_spec(t)
                        && (final(self).core.state_spec().contains_spec(t) ==> final(self).core.state_spec().val_spec(t) == old(self).core.state_spec().val_spec(t))
                &&& final(self).lifecycle() == old(self).lifecycle()
                &&& final(self).core.state_spec().val_spec(Tag::State) is RealVec
                &&& out.val_spec(Tag::Output) == final(self).core.state_spec().val_spec(Tag::State)
                &&& exists|wit: KalmanTrace|
                    #[trigger] kalman_wit(
                        a,
                        st.val_spec(Tag::MatB)->Matrix_0,
                        h,
                        st.val_spec(Tag::MatQ)->Matrix_0,
                        st.val_spec(Tag::MatR)->Matrix_0,
                        old(self).core.state_spec().val_spec(Tag::MatP)->Matrix_0,
                        mat_col(old(self).core.state_spec().val_spec(Tag::State)->RealVec_0),
                        mat_col(u),
                        mat_col(z),
                        n,
                        h.len() as int,
                        wit,
                        mat_col(out.val_spec(Tag::Output)->RealVec_0),
                        final(self).core.state_spec().val_spec(Tag::MatP)->Matrix_0,
                    )
            },
    {
        let gu = match inputs.get(Tag::Control) {
            Some(v) => v,
            None => {
                return Err(StreamingError::ChannelClosed);
            },
        };
        let gz = match inputs.get(Tag::Measurement) {
            Some(v) => v,
            None => {
                return Err(StreamingError::ChannelClosed);
            },
        };
        let uv: Vec<Rat> = match gu {
            Value::RealVec(v) => v,
            _ => {
                self.core.set_state(StreamingState::Stopped);
                return Err(StreamingError::InvalidInput);
            },
        };
        let zv: Vec<Rat> = match gz {
            Value::RealVec(v) => v,
            _ => {
                self.core.set_state(StreamingState::Stopped);
                return Err(StreamingError::InvalidInput);
            },
        };
        let a: Mat = match self.core.get_statics(Tag::MatA, ValueKind::Matrix) {
            Ok(Value::Matrix(m)) => m,
            _ => {
                proof {
                    assert(false);
                }
                return Err(StreamingError::InvalidStatics);
            },
        };
        let b: Mat = match self.core.get_statics(Tag::MatB, ValueKind::Matrix) {
            Ok(Value::Matrix(m)) => m,
            _ => {
                proof {
                    assert(false);
                }
                return Err(StreamingError::InvalidStatics);
            },
        };
        let h: Mat = match self.core.get_statics(Tag::MatH, ValueKind::Matrix) {
            Ok(Value::Matrix(m)) => m,
            _ => {
                proof {
                    assert(false);
                }
                return Err(StreamingError::InvalidStatics);
            },
        };
        let q: Mat = match self.core.get_statics(Tag::MatQ, ValueKind::Matrix) {
            Ok(Value::Matrix(m)) => m,
            _ => {
                proof {
                    assert(false);
                }
                return Err(StreamingError::InvalidStatics);
            },
        };
        let rmat: Mat = match self.core.get_statics(Tag::MatR, ValueKind::Matrix) {
            Ok(Value::Matrix(m)) => m,
            _ => {
                proof {
                    assert(false);
                }
                return Err(StreamingError::InvalidStatics);
            },
        };
        let p: Mat = match self.core.get_state_value(Tag::MatP, ValueKind::Matrix) {
            Ok(Value::Matrix(m)) => m,
            _ => {
                proof {
                    assert(false);
                }
                return Err(StreamingError::InvalidStatics);
            },
        };
        let xv: Vec<Rat> = match self.core.get_state_value(Tag::State, ValueKind::RealVec) {
            Ok(Value::RealVec(v)) => v,
            _ => {
                proof {
                    assert(false);
                }
                return Err(StreamingError::InvalidStatics);
            },
        };
        // Re-validate the shapes against the current statics.
        proof {
            a.lemma_shape();
            b.lemma_shape();
            h.lemma_shape();
            q.lemma_shape();
            rmat.lemma_shape();
            p.lemma_shape();
        }
        if a.rows() == 0 || !a.is_square() || b.rows() != a.rows() || h.rows() == 0 || h.cols()
            != a.rows() || q.rows() != a.rows() || !q.is_square() || rmat.rows() != h.rows()
            || !rmat.is_square() || p.rows() != a.rows() || p.cols() != a.rows() || xv.len()
            != a.rows() {
            return Err(StreamingError::InvalidStatics);
        }
        proof {
            assert(seq_rats(xv) =~= old(self).core.state_spec().val_spec(Tag::State)->RealVec_0);
            assert(a@[0].len() == a.cdim());
            assert(h@[0].len() == h.cdim());
            assert(q@[0].len() == q.cdim());
            assert(rmat@[0].len() == rmat.cdim());
            assert(p@[0].len() == p.cdim());
            assert(b@.len() == b.rdim());
            assert(kalman_run_shapes_ok(old(self).core));
        }
        if uv.len() != b.cols() || zv.len() != h.rows() {
            self.core.set_state(StreamingState::Stopped);
            return Err(StreamingError::InvalidInput);
        }
        let x = Mat::from_col(&xv);
        let u = Mat::from_col(&uv);
        let z = Mat::from_col(&zv);
        proof {
            x.lemma_shape();
            u.lemma_shape();
            z.lemma_shape();
            lemma_col_view(&xv, &x);
            lemma_col_view(&uv, &u);
            lemma_col_view(&zv, &z);
        }
        let step = kalman_step(&a, &b, &h, &q, &rmat, &p, &x, &u, &z);
        match step {
            None => {
                self.core.set_state(StreamingState::Stopped);
                Err(StreamingError::InvalidInput)
            },
            Some((xn, pn, wit)) => {
                let xnv = xn.col0();
                proof {
                    lemma_col_view(&xnv, &xn);
                }
                match self.core.set_state_value(Tag::State, Value::RealVec(xnv)) {
                    Ok(()) => {},
                    Err(e) => {
                        proof {
                            assert(false);
                        }
                        return Err(e);
                    },
                }
                proof {
                    assert(self.core.state_spec().contains_spec(Tag::MatP));
                    assert(self.core.state_spec().kind_spec(Tag::MatP) == ValueKind::Matrix);
                }
                match self.core.set_state_value(Tag::MatP, Value::Matrix(pn)) {
                    Ok(()) => {},
                    Err(e) => {
                        proof {
                            assert(false);
                        }
                        return Err(e);
                    },
                }
                proof {
                    assert(self.core.state_spec().contains_spec(Tag::State));
                    assert(self.core.state_spec().kind_spec(Tag::State) == ValueKind::RealVec);
                }
                let out_state = match self.core.get_state_value(Tag::State, ValueKind::RealVec) {
                    Ok(v) => v,
                    Err(e) => {
                        proof {
                            assert(false);
                        }
                        return Err(e);
                    },
                };
                let mut out = PortMap::new();
                out.insert(Tag::Output, out_state);
                proof {
                    let st = old(self).core.statics_spec();
                    let am = st.val_spec(Tag::MatA)->Matrix_0;
                    let hm = st.val_spec(Tag::MatH)->Matrix_0;
                    let nn = am.len() as int;
                    a.lemma_shape();
                    h.lemma_shape();
                    assert(am == a@ && hm == h@);
                    assert(nn == a.rdim());
                    assert(hm.len() as int == h.rdim());
                    let um = inputs.val_spec(Tag::Control)->RealVec_0;
                    let zm = inputs.val_spec(Tag::Measurement)->RealVec_0;
                    assert(u@ =~~= mat_col(um)) by {
                        assert(seq_rats(uv) =~= um);
                    }
                    assert(z@ =~~= mat_col(zm)) by {
                        assert(seq_rats(zv) =~= zm);
                    }
                    assert(x@ =~~= mat_col(
                        old(self).core.state_spec().val_spec(Tag::State)->RealVec_0,
                    )) by {
                        assert(seq_rats(xv) =~= old(self).core.state_spec().val_spec(
                            Tag::State,
                        )->RealVec_0);
                    }
                    assert(mat_col(out.val_spec(Tag::Output)->RealVec_0) =~~= xn@) by {
                        assert(out.val_spec(Tag::Output)->RealVec_0 =~= seq_rats(xnv));
                        xn.lemma_shape();
                    }
                    assert(kalman_wit(
                        am,
                        st.val_spec(Tag::MatB)->Matrix_0,
                        hm,
                        st.val_spec(Tag::MatQ)->Matrix_0,
                        st.val_spec(Tag::MatR)->Matrix_0,
                        old(self).core.state_spec().val_spec(Tag::MatP)->Matrix_0,
                        mat_col(old(self).core.state_spec().val_spec(Tag::State)->RealVec_0),
                        mat_col(um),
                        mat_col(zm),
                        nn,
                        hm.len() as int,
                        wit@,
                        mat_col(out.val_spec(Tag::Output)->RealVec_0),
                        final(self).core.state_spec().val_spec(Tag::MatP)->Matrix_0,
                    ));
                }
                Ok(out)
            },
        }
    }
}

/// The single column of an `n` by `1` matrix built from a vector matches
/// the vector, entry by entry, as a column grid.
proof fn lemma_col_view(v: &Vec<Rat>, m: &Mat)
    requires
        m.rdim() == v.len(),
        m.cdim() == 1,
        forall|i: int| 0 <= i < v.len() ==> #[trigger] m@[i][0] == v[i]@,
    ensures
        m@ =~~= mat_col(seq_rats(*v)),
{
    m.lemma_shape();
    assert forall|i: int| 0 <= i < m@.len() implies #[trigger] m@[i] =~= mat_col(
        seq_rats(*v),
    )[i] by {
        assert(mat_col(seq_rats(*v))[i] == seq![seq_rats(*v)[i]]);
        assert(seq_rats(*v)[i] == v[i]@);
    }
}

impl StreamProcessor for KalmanFilter {
    open spec fn lifecycle(&self) -> StreamingState {
        self.core.lifecycle_spec()
    }

    open spec fn initialized(&self) -> bool {
        self.core.initialized_spec()
    }

    open spec fn wf(&self) -> bool {
        self.shape_wf()
    }

    fn init(&mut self) -> (r: Result<(), StreamingError>) {
        self.init_block()
    }

    fn run(&mut self) -> (r: Result<(), StreamingError>) {
        match self.core.run_guard() {
            Err(e) => Err(e),
            Ok(()) => {
                self.core.set_state(StreamingState::Running);
                Ok(())
            },
        }
    }

    fn process(&mut self, inputs: &PortMap) -> (r: Result<PortMap, StreamingError>) {
        self.process_block(inputs)
    }

    fn stop(&mut self) -> (r: Result<(), StreamingError>) {
        self.core.set_state(StreamingState::Stopped);
        Ok(())
    }
}

} // verus!
