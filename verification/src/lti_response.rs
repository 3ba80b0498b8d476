//! Closed forms of the first-order engine responses.
//!
//! A transfer function `num = [1]`, `den = [1, -a]` yields, in canonical
//! form, the scalar recurrence `x' = a x + u` with `y` the new state; under
//! a unit step its outputs are the partial geometric sums `1 + a + ... +
//! a^k`.  A zero-pole-gain description with no zeros, a single pole `p`
//! and gain `g` yields `x' = p x + g u`; under a unit impulse its outputs
//! are `g`, `g p`, `g p^2`, and so on.  Both laws are proved here for
//! every trace of value equalities that the engine's step contract
//! produces.

use crate::rat::{
    lemma_qadd_congr, lemma_qadd_wf, lemma_qeq_sym, lemma_qeq_trans, lemma_qmul_congr,
    lemma_qmul_zero, qadd, qeq, qmul, qone, qseq_wf, qwf, qzero,
};
use vstd::arithmetic::mul::{lemma_mul_is_associative, lemma_mul_is_commutative};
use vstd::prelude::*;

verus! {

/// The `k`-th power of a value.
pub open spec fn qpow(a: (int, int), k: int) -> (int, int)
    decreases k,
{
    if k <= 0 {
        qone()
    } else {
        qmul(qpow(a, k - 1), a)
    }
}

/// The partial geometric sum `1 + a + ... + a^k`.
pub open spec fn geom_sum(a: (int, int), k: int) -> (int, int)
    decreases k + 1,
{
    if k < 0 {
        qzero()
    } else {
        qadd(geom_sum(a, k - 1), qpow(a, k))
    }
}

/// Powers of a well-formed value are well formed.
pub proof fn lemma_qpow_wf(a: (int, int), k: int)
    requires
        qwf(a),
    ensures
        qwf(qpow(a, k)),
    decreases k,
{
    if k > 0 {
        lemma_qpow_wf(a, k - 1);
        lemma_qadd_wf(qpow(a, k - 1), a);
    }
}

/// Partial geometric sums of a well-formed value are well formed.
pub proof fn lemma_geom_wf(a: (int, int), k: int)
    requires
        qwf(a),
    ensures
        qwf(geom_sum(a, k)),
    decreases k + 1,
{
    if k >= 0 {
        lemma_geom_wf(a, k - 1);
        lemma_qpow_wf(a, k);
        lemma_qadd_wf(geom_sum(a, k - 1), qpow(a, k));
    }
}

/// Rearrangements of three- and four-factor products.
proof fn lemma_mul_rearrange(p: int, q: int, r: int, s: int)
    by (nonlinear_arith)
    ensures
        (p * q) * r == (p * r) * q,
        (p * q) * r == p * (q * r),
        (p * q) * (r * s) == r * (p * (q * s)),
{
}

/// Scaling numerator and denominator by a positive factor keeps the value.
proof fn lemma_qscale(t: int, n: int, d: int)
    by (nonlinear_arith)
    requires
        t > 0,
        d > 0,
    ensures
        qeq((t * n, t * d), (n, d)),
{
}

/// Multiplication distributes over addition, as values.
proof fn lemma_qdistr(c: (int, int), x: (int, int), y: (int, int))
    requires
        qwf(c),
        qwf(x),
        qwf(y),
    ensures
        qeq(qmul(c, qadd(x, y)), qadd(qmul(c, x), qmul(c, y))),
{
    let c0: int = c.0;
    let c1: int = c.1;
    let x0: int = x.0;
    let x1: int = x.1;
    let y0: int = y.0;
    let y1: int = y.1;
    let l = qmul(c, qadd(x, y));
    let r = qadd(qmul(c, x), qmul(c, y));
    assert(r.0 == c1 * l.0) by {
        vstd::arithmetic::mul::lemma_mul_is_distributive_add(c0, x0 * y1, y0 * x1);
        vstd::arithmetic::mul::lemma_mul_is_distributive_add(
            c1,
            c0 * (x0 * y1),
            c0 * (y0 * x1),
        );
        lemma_mul_rearrange(c0, x0, c1, y1);
        lemma_mul_rearrange(c0, y0, c1, x1);
    }
    assert(r.1 == c1 * l.1) by {
        lemma_mul_rearrange(c1, x1, c1, y1);
    }
    lemma_qadd_wf(x, y);
    lemma_qadd_wf(c, qadd(x, y));
    lemma_qscale(c1, l.0, l.1);
    crate::rat::lemma_qeq_sym((c1 * l.0, c1 * l.1), l);
    assert(r == (c1 * l.0, c1 * l.1));
}

/// The partial geometric sums satisfy the step recursion
/// `s_k = a s_{k-1} + 1`.
pub proof fn lemma_geom_step(a: (int, int), k: int)
    requires
        qwf(a),
        k >= 0,
    ensures
        qeq(geom_sum(a, k), qadd(qmul(a, geom_sum(a, k - 1)), qone())),
    decreases k,
{
    lemma_geom_wf(a, k);
    lemma_geom_wf(a, k - 1);
    lemma_qpow_wf(a, k);
    if k == 0 {
        assert(geom_sum(a, 0) == qadd(qzero(), qone()));
        assert(qmul(a, qzero()) == (a.0 * 0, a.1 * 1));
        lemma_qmul_zero(a, qzero());
        lemma_qadd_congr(qmul(a, qzero()), qone(), qzero(), qone());
        lemma_qadd_wf(qmul(a, qzero()), qone());
        lemma_qadd_wf(qzero(), qone());
        lemma_qeq_sym(qadd(qmul(a, qzero()), qone()), qadd(qzero(), qone()));
    } else {
        lemma_geom_step(a, k - 1);
        lemma_geom_wf(a, k - 2);
        lemma_qpow_wf(a, k - 1);
        // a * s_{k-1} distributes over s_{k-1} = s_{k-2} + a^{k-1}.
        lemma_qdistr(a, geom_sum(a, k - 2), qpow(a, k - 1));
        // a * a^{k-1} is a^k, by commutativity.
        assert(qmul(a, qpow(a, k - 1)) == qpow(a, k)) by {
            lemma_mul_is_commutative(a.0, qpow(a, k - 1).0);
            lemma_mul_is_commutative(a.1, qpow(a, k - 1).1);
        }
        // s_k = (s_{k-1}) + a^k and s_{k-1} ~ a s_{k-2} + 1, so
        // s_k ~ (a s_{k-2} + 1) + a^k ~ (a s_{k-2} + a^k) + 1
        //     ~ a (s_{k-2} + a^{k-1}) + 1 = a s_{k-1} + 1.
        let s2 = geom_sum(a, k - 2);
        let p1 = qpow(a, k - 1);
        let pk = qpow(a, k);
        lemma_qadd_wf(a, s2);
        lemma_qadd_wf(a, p1);
        lemma_qadd_wf(qmul(a, s2), qone());
        lemma_qadd_wf(qmul(a, s2), pk);
        lemma_qadd_wf(qadd(qmul(a, s2), pk), qone());
        lemma_qadd_wf(qadd(qmul(a, s2), qone()), pk);
        lemma_qadd_wf(s2, p1);
        lemma_qadd_wf(a, qadd(s2, p1));
        // geom_sum(a, k) ~ qadd(qadd(a s2, 1), a^k).
        lemma_qadd_congr(
            geom_sum(a, k - 1),
            pk,
            qadd(qmul(a, s2), qone()),
            pk,
        );
        // Reassociate: ((a s2) + 1) + a^k equals ((a s2) + a^k) + 1.
        lemma_qshuffle(qmul(a, s2), qone(), pk);
        // (a s2) + a^k = (a s2) + (a a^{k-1}) ~ a (s2 + a^{k-1}).
        lemma_qdistr(a, s2, p1);
        lemma_qeq_sym(qmul(a, qadd(s2, p1)), qadd(qmul(a, s2), qmul(a, p1)));
        lemma_qadd_congr(
            qadd(qmul(a, s2), pk),
            qone(),
            qmul(a, qadd(s2, p1)),
            qone(),
        );
        lemma_qadd_wf(qmul(a, qadd(s2, p1)), qone());
        // And s2 + a^{k-1} = geom_sum(a, k-1) by definition.
        assert(qadd(s2, p1) == geom_sum(a, k - 1));
        // Chain it all together.
        lemma_qeq_trans(
            geom_sum(a, k),
            qadd(qadd(qmul(a, s2), qone()), pk),
            qadd(qadd(qmul(a, s2), pk), qone()),
        );
        lemma_qeq_trans(
            geom_sum(a, k),
            qadd(qadd(qmul(a, s2), pk), qone()),
            qadd(qmul(a, qadd(s2, p1)), qone()),
        );
    }
}

/// Sums reassociate: `(x + y) + z` equals `(x + z) + y`, component by
/// component.
proof fn lemma_qshuffle(x: (int, int), y: (int, int), z: (int, int))
    requires
        qwf(x),
        qwf(y),
        qwf(z),
    ensures
        qeq(qadd(qadd(x, y), z), qadd(qadd(x, z), y)),
{
    let x0: int = x.0;
    let x1: int = x.1;
    let y0: int = y.0;
    let y1: int = y.1;
    let z0: int = z.0;
    let z1: int = z.1;
    let l = qadd(qadd(x, y), z);
    let r = qadd(qadd(x, z), y);
    assert(l.1 == r.1) by {
        lemma_mul_rearrange(x1, y1, z1, 1);
    }
    assert(l.0 == r.0) by {
        vstd::arithmetic::mul::lemma_mul_is_distributive_add_other_way(z1, x0 * y1, y0 * x1);
        vstd::arithmetic::mul::lemma_mul_is_distributive_add_other_way(y1, x0 * z1, z0 * x1);
        lemma_mul_rearrange(x0, y1, z1, 1);
        lemma_mul_rearrange(y0, x1, z1, 1);
        lemma_mul_rearrange(z0, x1, y1, 1);
        lemma_mul_rearrange(x0, z1, y1, 1);
    }
    assert(l == r);
}

/// The step response of the first-order engine (transfer function
/// `num = [1]`, `den = [1, -a]`): for every trace of states linked by the
/// engine's step relation under a unit step, the state after `k + 1` steps
/// is the partial geometric sum `1 + a + ... + a^k`.  The hypotheses are
/// exactly what the step contract yields with the canonical matrices:
/// `a00 ~ a`, `b00 ~ 1`, and each new state `~ a00 x + b00 u` with `u = 1`.
pub proof fn lemma_tf_step_response(
    alpha: (int, int),
    a00: (int, int),
    b00: (int, int),
    xs: Seq<(int, int)>,
    k: int,
)
    requires
        qwf(alpha),
        qwf(a00),
        qwf(b00),
        qseq_wf(xs),
        qeq(a00, alpha),
        qeq(b00, qone()),
        0 <= k,
        k + 2 <= xs.len(),
        qeq(xs[0], qzero()),
        forall|t: int|
            0 <= t <= k ==> qeq(
                #[trigger] xs[t + 1],
                qadd(qmul(a00, xs[t]), qmul(b00, qone())),
            ),
    ensures
        qeq(xs[k + 1], geom_sum(alpha, k)),
    decreases k,
{
    lemma_geom_wf(alpha, k);
    lemma_geom_wf(alpha, k - 1);
    lemma_qadd_wf(a00, xs[k]);
    lemma_qadd_wf(b00, qone());
    lemma_qadd_wf(qmul(a00, xs[k]), qmul(b00, qone()));
    // b00 * 1 ~ 1.
    assert(qmul(b00, qone()) == (b00.0 * 1, b00.1 * 1));
    if k == 0 {
        // x1 ~ a00 x0 + b00 ~ 0 + 1 ~ geom_sum(alpha, 0).
        assert(qeq(xs[0int + 1], qadd(qmul(a00, xs[0]), qmul(b00, qone()))));
        lemma_qmul_zero(a00, xs[0]);
        lemma_qadd_congr(qmul(a00, xs[0]), qmul(b00, qone()), qzero(), qone());
        lemma_qadd_wf(qzero(), qone());
        lemma_qeq_trans(xs[1], qadd(qmul(a00, xs[0]), qmul(b00, qone())), qadd(qzero(), qone()));
        assert(geom_sum(alpha, 0) == qadd(qzero(), qpow(alpha, 0)));
        lemma_qeq_sym(geom_sum(alpha, 0), qadd(qzero(), qone()));
        lemma_qadd_wf(qzero(), qone());
        lemma_qeq_trans(xs[1], qadd(qzero(), qone()), geom_sum(alpha, 0));
    } else {
        lemma_tf_step_response(alpha, a00, b00, xs, k - 1);
        // x_{k+1} ~ a00 x_k + 1 ~ alpha geom_sum(alpha, k-1) + 1
        //        ~ geom_sum(alpha, k).
        lemma_qadd_wf(alpha, geom_sum(alpha, k - 1));
        lemma_qmul_congr(a00, xs[k], alpha, geom_sum(alpha, k - 1));
        lemma_qadd_congr(
            qmul(a00, xs[k]),
            qmul(b00, qone()),
            qmul(alpha, geom_sum(alpha, k - 1)),
            qone(),
        );
        lemma_qadd_wf(qmul(alpha, geom_sum(alpha, k - 1)), qone());
        lemma_qeq_trans(
            xs[k + 1],
            qadd(qmul(a00, xs[k]), qmul(b00, qone())),
            qadd(qmul(alpha, geom_sum(alpha, k - 1)), qone()),
        );
        lemma_geom_step(alpha, k);
        lemma_qeq_sym(geom_sum(alpha, k), qadd(qmul(alpha, geom_sum(alpha, k - 1)), qone()));
        lemma_qeq_trans(
            xs[k + 1],
            qadd(qmul(alpha, geom_sum(alpha, k - 1)), qone()),
            geom_sum(alpha, k),
        );
    }
}

/// The impulse response of the single-pole engine (no zeros, pole `p`,
/// gain `g`): for every trace of states linked by the engine's step
/// relation under a unit impulse, the state after `k + 1` steps is
/// `g * p^k`.  The hypotheses are what the step contract yields with the
/// canonical matrices of the zero-pole-gain form: `a00 ~ p`, `b00 ~ g`,
/// the first input one and every later input zero.
pub proof fn lemma_zpk_impulse_response(
    p: (int, int),
    g: (int, int),
    a00: (int, int),
    b00: (int, int),
    us: Seq<(int, int)>,
    xs: Seq<(int, int)>,
    k: int,
)
    requires
        qwf(p),
        qwf(g),
        qwf(a00),
        qwf(b00),
        qseq_wf(us),
        qseq_wf(xs),
        qeq(a00, p),
        qeq(b00, g),
        0 <= k,
        k + 2 <= xs.len(),
        k + 1 <= us.len(),
        qeq(xs[0], qzero()),
        qeq(us[0], qone()),
        forall|t: int| 1 <= t <= k ==> qeq(#[trigger] us[t], qzero()),
        forall|t: int|
            0 <= t <= k ==> qeq(#[trigger] xs[t + 1], qadd(qmul(a00, xs[t]), qmul(b00, us[t]))),
    ensures
        qeq(xs[k + 1], qmul(qpow(p, k), g)),
    decreases k,
{
    lemma_qpow_wf(p, k);
    lemma_qadd_wf(qpow(p, k), g);
    lemma_qadd_wf(a00, xs[k]);
    lemma_qadd_wf(b00, us[k]);
    lemma_qadd_wf(qmul(a00, xs[k]), qmul(b00, us[k]));
    if k == 0 {
        // x1 ~ a00 x0 + b00 u0 ~ 0 + g ~ 1 g = p^0 g.
        assert(qeq(xs[0int + 1], qadd(qmul(a00, xs[0]), qmul(b00, us[0]))));
        lemma_qmul_zero(a00, xs[0]);
        lemma_qmul_congr(b00, us[0], g, qone());
        lemma_qadd_wf(g, qone());
        lemma_qadd_congr(qmul(a00, xs[0]), qmul(b00, us[0]), qzero(), qmul(g, qone()));
        lemma_qadd_wf(qzero(), qmul(g, qone()));
        lemma_qeq_trans(
            xs[1],
            qadd(qmul(a00, xs[0]), qmul(b00, us[0])),
            qadd(qzero(), qmul(g, qone())),
        );
        assert(qadd(qzero(), qmul(g, qone())) == (0 * (g.1 * 1) + (g.0 * 1) * 1, 1 * (g.1 * 1)));
        assert(qmul(qpow(p, 0), g) == (1 * g.0, 1 * g.1));
        lemma_qeq_trans(xs[1], qadd(qzero(), qmul(g, qone())), qmul(qpow(p, 0), g));
    } else {
        lemma_zpk_impulse_response(p, g, a00, b00, us, xs, k - 1);
        lemma_qpow_wf(p, k - 1);
        lemma_qadd_wf(qpow(p, k - 1), g);
        // The impulse has passed: b00 u_k ~ 0, so x_{k+1} ~ a00 x_k.
        lemma_qmul_zero(b00, us[k]);
        lemma_qmul_congr(a00, xs[k], p, qmul(qpow(p, k - 1), g));
        lemma_qadd_wf(p, qmul(qpow(p, k - 1), g));
        lemma_qadd_congr(
            qmul(a00, xs[k]),
            qmul(b00, us[k]),
            qmul(p, qmul(qpow(p, k - 1), g)),
            qzero(),
        );
        lemma_qadd_wf(qmul(p, qmul(qpow(p, k - 1), g)), qzero());
        lemma_qeq_trans(
            xs[k + 1],
            qadd(qmul(a00, xs[k]), qmul(b00, us[k])),
            qadd(qmul(p, qmul(qpow(p, k - 1), g)), qzero()),
        );
        crate::rat::lemma_qadd_zero(qmul(p, qmul(qpow(p, k - 1), g)), qzero());
        lemma_qeq_trans(
            xs[k + 1],
            qadd(qmul(p, qmul(qpow(p, k - 1), g)), qzero()),
            qmul(p, qmul(qpow(p, k - 1), g)),
        );
        // p (p^{k-1} g) is (p p^{k-1}) g is p^k g, structurally.
        assert(qmul(p, qmul(qpow(p, k - 1), g)) == qmul(qmul(p, qpow(p, k - 1)), g)) by {
            lemma_mul_is_associative(p.0, qpow(p, k - 1).0, g.0);
            lemma_mul_is_associative(p.1, qpow(p, k - 1).1, g.1);
        }
        assert(qmul(p, qpow(p, k - 1)) == qpow(p, k)) by {
            lemma_mul_is_commutative(p.0, qpow(p, k - 1).0);
            lemma_mul_is_commutative(p.1, qpow(p, k - 1).1);
        }
    }
}

} // verus!
