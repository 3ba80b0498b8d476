//! Exact rational scalars.
//!
//! Every signal sample, coefficient and matrix entry in this crate is a
//! rational number held as a 64-bit numerator over a positive 64-bit
//! denominator.  Specifications model such a value as a pair of mathematical
//! integers `(numerator, denominator)`; two pairs denote the same rational
//! exactly when they cross-multiply equally (`qeq`).  Executable operations
//! compute through 128-bit intermediates, cancel a common divisor, and report
//! `None` only when a result has no 64-bit representation.

use vstd::prelude::*;
use vstd::arithmetic::div_mod::{
    lemma_fundamental_div_mod, lemma_div_nonincreasing, lemma_div_pos_is_pos,
};
use vstd::calc;

verus! {

// ------------------------------------------------------------------
// Specification-level rationals
// ------------------------------------------------------------------

/// A specification pair denotes a rational; it is well formed when its
/// denominator is positive.
pub open spec fn qwf(a: (int, int)) -> bool {
    a.1 > 0
}

/// Two pairs denote the same rational value.
pub open spec fn qeq(a: (int, int), b: (int, int)) -> bool {
    a.0 * b.1 == b.0 * a.1
}

pub open spec fn qzero() -> (int, int) {
    (0, 1)
}

pub open spec fn qone() -> (int, int) {
    (1, 1)
}

pub open spec fn qint(n: int) -> (int, int) {
    (n, 1)
}

pub open spec fn qadd(a: (int, int), b: (int, int)) -> (int, int) {
    (a.0 * b.1 + b.0 * a.1, a.1 * b.1)
}

pub open spec fn qneg(a: (int, int)) -> (int, int) {
    (-a.0, a.1)
}

pub open spec fn qsub(a: (int, int), b: (int, int)) -> (int, int) {
    (a.0 * b.1 - b.0 * a.1, a.1 * b.1)
}

pub open spec fn qmul(a: (int, int), b: (int, int)) -> (int, int) {
    (a.0 * b.0, a.1 * b.1)
}

/// Division keeps the denominator positive by flipping both signs when the
/// divisor is negative.
pub open spec fn qdiv(a: (int, int), b: (int, int)) -> (int, int) {
    if b.0 >= 0 {
        (a.0 * b.1, a.1 * b.0)
    } else {
        (-(a.0 * b.1), -(a.1 * b.0))
    }
}

pub open spec fn qle(a: (int, int), b: (int, int)) -> bool {
    a.0 * b.1 <= b.0 * a.1
}

pub open spec fn qlt(a: (int, int), b: (int, int)) -> bool {
    a.0 * b.1 < b.0 * a.1
}

/// Sum of a sequence of pairs, folded from the left.
pub open spec fn qsum(s: Seq<(int, int)>) -> (int, int)
    decreases s.len(),
{
    if s.len() == 0 {
        qzero()
    } else {
        qadd(qsum(s.drop_last()), s.last())
    }
}

pub open spec fn qseq_wf(s: Seq<(int, int)>) -> bool {
    forall|i: int| 0 <= i < s.len() ==> qwf(#[trigger] s[i])
}

// ------------------------------------------------------------------
// Laws of the specification rationals
// ------------------------------------------------------------------

pub proof fn lemma_qeq_trans(a: (int, int), b: (int, int), c: (int, int))
    by (nonlinear_arith)
    requires
        qwf(a),
        qwf(b),
        qwf(c),
        qeq(a, b),
        qeq(b, c),
    ensures
        qeq(a, c),
{
}

pub proof fn lemma_qeq_sym(a: (int, int), b: (int, int))
    requires
        qeq(a, b),
    ensures
        qeq(b, a),
{
}

pub proof fn lemma_qadd_wf(a: (int, int), b: (int, int))
    by (nonlinear_arith)
    requires
        qwf(a),
        qwf(b),
    ensures
        qwf(qadd(a, b)),
        qwf(qsub(a, b)),
        qwf(qmul(a, b)),
{
}

/// Rearranges a product of two products.
proof fn lemma_mul_shuffle(p: int, q: int, r: int, s: int)
    by (nonlinear_arith)
    ensures
        (p * q) * (r * s) == (p * r) * (q * s),
        (p * q) * (r * s) == (p * s) * (q * r),
{
}

pub proof fn lemma_qadd_congr(a: (int, int), b: (int, int), a2: (int, int), b2: (int, int))
    requires
        qwf(a),
        qwf(b),
        qwf(a2),
        qwf(b2),
        qeq(a, a2),
        qeq(b, b2),
    ensures
        qeq(qadd(a, b), qadd(a2, b2)),
{
    let x0: int = a.0;
    let x1: int = a.1;
    let y0: int = b.0;
    let y1: int = b.1;
    let u0: int = a2.0;
    let u1: int = a2.1;
    let v0: int = b2.0;
    let v1: int = b2.1;
    vstd::arithmetic::mul::lemma_mul_is_distributive_add_other_way(
        u1 * v1,
        x0 * y1,
        y0 * x1,
    );
    vstd::arithmetic::mul::lemma_mul_is_distributive_add_other_way(
        x1 * y1,
        u0 * v1,
        v0 * u1,
    );
    calc! {
        (==)
        (x0 * y1) * (u1 * v1); {
            lemma_mul_shuffle(x0, y1, u1, v1);
        }
        (x0 * u1) * (y1 * v1); {}
        (u0 * x1) * (y1 * v1); {
            lemma_mul_shuffle(u0, x1, y1, v1);
        }
        (u0 * v1) * (x1 * y1); {}
        (u0 * v1) * (x1 * y1);
    }
    calc! {
        (==)
        (y0 * x1) * (u1 * v1); {
            lemma_mul_shuffle(y0, x1, u1, v1);
        }
        (y0 * v1) * (x1 * u1); {}
        (v0 * y1) * (x1 * u1); {
            lemma_mul_shuffle(v0, y1, x1, u1);
        }
        (v0 * u1) * (y1 * x1); {
            vstd::arithmetic::mul::lemma_mul_is_commutative(y1, x1);
        }
        (v0 * u1) * (x1 * y1);
    }
}

pub proof fn lemma_qsub_congr(a: (int, int), b: (int, int), a2: (int, int), b2: (int, int))
    requires
        qwf(a),
        qwf(b),
        qwf(a2),
        qwf(b2),
        qeq(a, a2),
        qeq(b, b2),
    ensures
        qeq(qsub(a, b), qsub(a2, b2)),
{
    vstd::arithmetic::mul::lemma_mul_unary_negation(b.0, b2.1);
    vstd::arithmetic::mul::lemma_mul_unary_negation(b2.0, b.1);
    lemma_qadd_congr(a, qneg(b), a2, qneg(b2));
    vstd::arithmetic::mul::lemma_mul_unary_negation(b.0, a.1);
    vstd::arithmetic::mul::lemma_mul_unary_negation(b2.0, a2.1);
    assert(qsub(a, b).0 == qadd(a, qneg(b)).0);
    assert(qsub(a2, b2).0 == qadd(a2, qneg(b2)).0);
}

pub proof fn lemma_qmul_congr(a: (int, int), b: (int, int), a2: (int, int), b2: (int, int))
    by (nonlinear_arith)
    requires
        qwf(a),
        qwf(b),
        qwf(a2),
        qwf(b2),
        qeq(a, a2),
        qeq(b, b2),
    ensures
        qeq(qmul(a, b), qmul(a2, b2)),
{
}

pub proof fn lemma_qdiv_congr(a: (int, int), b: (int, int), a2: (int, int), b2: (int, int))
    by (nonlinear_arith)
    requires
        qwf(a),
        qwf(b),
        qwf(a2),
        qwf(b2),
        b.0 != 0,
        qeq(a, a2),
        qeq(b, b2),
    ensures
        b2.0 != 0,
        qwf(qdiv(a, b)),
        qeq(qdiv(a, b), qdiv(a2, b2)),
{
}

pub proof fn lemma_qsum_wf(s: Seq<(int, int)>)
    requires
        qseq_wf(s),
    ensures
        qwf(qsum(s)),
    decreases s.len(),
{
    if s.len() == 0 {
    } else {
        assert(qseq_wf(s.drop_last()));
        lemma_qsum_wf(s.drop_last());
        lemma_qadd_wf(qsum(s.drop_last()), s.last());
    }
}

/// Sums of pointwise equal sequences are equal.
pub proof fn lemma_qsum_congr(s: Seq<(int, int)>, t: Seq<(int, int)>)
    requires
        s.len() == t.len(),
        qseq_wf(s),
        qseq_wf(t),
        forall|i: int| 0 <= i < s.len() ==> qeq(#[trigger] s[i], t[i]),
    ensures
        qeq(qsum(s), qsum(t)),
    decreases s.len(),
{
    lemma_qsum_wf(s);
    lemma_qsum_wf(t);
    if s.len() == 0 {
    } else {
        assert(qseq_wf(s.drop_last()));
        assert(qseq_wf(t.drop_last()));
        lemma_qsum_congr(s.drop_last(), t.drop_last());
        lemma_qsum_wf(s.drop_last());
        lemma_qsum_wf(t.drop_last());
        lemma_qadd_congr(qsum(s.drop_last()), s.last(), qsum(t.drop_last()), t.last());
    }
}

/// Adding a zero-valued pair keeps the value.
pub proof fn lemma_qadd_zero(a: (int, int), z: (int, int))
    requires
        qwf(a),
        qwf(z),
        qeq(z, qzero()),
    ensures
        qeq(qadd(a, z), a),
{
    assert(z.0 == 0);
    assert((a.0 * z.1 + 0 * a.1) * a.1 == a.0 * (a.1 * z.1)) by (nonlinear_arith);
}

/// A sum of zero-valued pairs is zero.
pub proof fn lemma_qsum_zero(s: Seq<(int, int)>)
    requires
        qseq_wf(s),
        forall|i: int| 0 <= i < s.len() ==> qeq(#[trigger] s[i], qzero()),
    ensures
        qeq(qsum(s), qzero()),
    decreases s.len(),
{
    lemma_qsum_wf(s);
    if s.len() > 0 {
        assert(qseq_wf(s.drop_last()));
        lemma_qsum_zero(s.drop_last());
        lemma_qsum_wf(s.drop_last());
        lemma_qadd_congr(qsum(s.drop_last()), s.last(), qzero(), qzero());
        lemma_qeq_trans(qsum(s), qadd(qzero(), qzero()), qzero());
    }
}

/// A sum whose terms are all zero-valued except the one at `j` has the value
/// of that term.
pub proof fn lemma_qsum_single(s: Seq<(int, int)>, j: int)
    requires
        qseq_wf(s),
        0 <= j < s.len(),
        forall|i: int| 0 <= i < s.len() && i != j ==> qeq(#[trigger] s[i], qzero()),
    ensures
        qeq(qsum(s), s[j]),
    decreases s.len(),
{
    lemma_qsum_wf(s);
    let pre = s.drop_last();
    assert(qseq_wf(pre));
    lemma_qsum_wf(pre);
    if j == s.len() - 1 {
        lemma_qsum_zero(pre);
        lemma_qadd_congr(qsum(pre), s.last(), qzero(), s.last());
        lemma_qadd_zero(s.last(), qzero());
        assert(qeq(qadd(qzero(), s.last()), qadd(s.last(), qzero()))) by (nonlinear_arith);
        lemma_qadd_wf(qzero(), s.last());
        lemma_qadd_wf(s.last(), qzero());
        lemma_qeq_trans(qsum(s), qadd(qzero(), s.last()), qadd(s.last(), qzero()));
        lemma_qeq_trans(qsum(s), qadd(s.last(), qzero()), s.last());
    } else {
        lemma_qsum_single(pre, j);
        lemma_qadd_congr(qsum(pre), s.last(), s[j], qzero());
        lemma_qadd_zero(s[j], qzero());
        lemma_qadd_wf(s[j], qzero());
        lemma_qeq_trans(qsum(s), qadd(s[j], qzero()), s[j]);
    }
}

/// The model of a vector of stored scalars.
pub open spec fn seq_rats(v: Vec<Rat>) -> Seq<(int, int)> {
    Seq::new(v.len() as nat, |i: int| v[i]@)
}

/// Multiplying by a zero-valued pair gives a zero-valued pair.
pub proof fn lemma_qmul_zero(a: (int, int), z: (int, int))
    requires
        qwf(a),
        qwf(z),
        qeq(z, qzero()),
    ensures
        qeq(qmul(a, z), qzero()),
{
    assert(z.0 == 0);
    assert(a.0 * 0 == 0) by (nonlinear_arith);
}

/// Multiplying a zero-valued pair by anything gives a zero-valued pair.
pub proof fn lemma_qmul_zero_left(z: (int, int), a: (int, int))
    requires
        qwf(a),
        qwf(z),
        qeq(z, qzero()),
    ensures
        qeq(qmul(z, a), qzero()),
{
    assert(z.0 == 0);
    assert(0 * a.0 == 0) by (nonlinear_arith);
}

/// Negation respects value equality.
pub proof fn lemma_qneg_congr(a: (int, int), b: (int, int))
    by (nonlinear_arith)
    requires
        qwf(a),
        qwf(b),
        qeq(a, b),
    ensures
        qwf(qneg(a)),
        qeq(qneg(a), qneg(b)),
{
}

/// Subtracting a zero-valued pair keeps the value.
pub proof fn lemma_qsub_zero(a: (int, int), z: (int, int))
    requires
        qwf(a),
        qwf(z),
        qeq(z, qzero()),
    ensures
        qeq(qsub(a, z), a),
{
    assert(z.0 == 0);
    assert((a.0 * z.1 - 0 * a.1) * a.1 == a.0 * (a.1 * z.1)) by (nonlinear_arith);
}

/// Establishes, by inspection, that a vector's scalars are all well formed;
/// true of every reachable vector.
pub fn rats_wf(v: &Vec<Rat>) -> (r: bool)
    ensures
        r,
        qseq_wf(seq_rats(*v)),
{
    let n: usize = v.len();
    let mut i: usize = 0;
    while i < n
        invariant
            i <= n,
            n == v.len(),
            forall|t: int| 0 <= t < i ==> qwf(#[trigger] v[t]@),
        decreases n - i,
    {
        let e: Rat = v[i];
        proof {
            use_type_invariant(&e);
        }
        i = i + 1;
    }
    proof {
        assert forall|t: int| 0 <= t < seq_rats(*v).len() implies qwf(
            #[trigger] seq_rats(*v)[t],
        ) by {
            assert(seq_rats(*v)[t] == v[t]@);
        }
    }
    true
}

// ------------------------------------------------------------------
// Greatest common divisor, for cancelling stored fractions
// ------------------------------------------------------------------

pub open spec fn gcd_int(a: int, b: int) -> int
    decreases b,
{
    if b <= 0 {
        a
    } else {
        gcd_int(b, a % b)
    }
}

pub open spec fn divides(d: int, a: int) -> bool {
    exists|k: int| a == #[trigger] (d * k)
}

pub proof fn lemma_gcd(a: int, b: int)
    requires
        0 <= a,
        0 <= b,
    ensures
        0 <= gcd_int(a, b),
        divides(gcd_int(a, b), a),
        divides(gcd_int(a, b), b),
        b > 0 ==> gcd_int(a, b) > 0,
        b == 0 ==> gcd_int(a, b) == a,
    decreases b,
{
    let g = gcd_int(a, b);
    if b <= 0 {
        assert(a == g * 1);
        assert(b == g * 0);
    } else {
        let r = a % b;
        lemma_gcd(b, r);
        let kb = choose|k: int| b == #[trigger] (gcd_int(b, r) * k);
        let kr = choose|k: int| r == #[trigger] (gcd_int(b, r) * k);
        lemma_fundamental_div_mod(a, b);
        let q = a / b;
        assert(a == g * (kb * q + kr)) by (nonlinear_arith)
            requires
                a == q * b + r,
                b == g * kb,
                r == g * kr,
        ;
    }
}

/// Cancelling a common divisor preserves the denoted rational.
proof fn lemma_cancel(n: int, d: int, g: int)
    requires
        0 <= n,
        0 < d,
        0 < g,
        divides(g, n),
        divides(g, d),
    ensures
        1 <= d / g <= d,
        0 <= n / g <= n,
        (n / g) * d == n * (d / g),
{
    let kn = choose|k: int| n == #[trigger] (g * k);
    let kd = choose|k: int| d == #[trigger] (g * k);
    lemma_fundamental_div_mod(n, g);
    lemma_fundamental_div_mod(d, g);
    assert(n % g == 0 && n / g == kn) by (nonlinear_arith)
        requires
            n == g * kn,
            n == g * (n / g) + n % g,
            0 <= n % g < g,
            0 < g,
            0 <= n,
    ;
    assert(d % g == 0 && d / g == kd) by (nonlinear_arith)
        requires
            d == g * kd,
            d == g * (d / g) + d % g,
            0 <= d % g < g,
            0 < g,
            0 < d,
    ;
    lemma_div_nonincreasing(n, g);
    lemma_div_nonincreasing(d, g);
    lemma_div_pos_is_pos(d, g);
    assert(kd >= 1) by (nonlinear_arith)
        requires
            d == g * kd,
            0 < d,
            0 < g,
    ;
    assert(kn * (g * kd) == (g * kn) * kd) by (nonlinear_arith);
}

// ------------------------------------------------------------------
// The executable scalar
// ------------------------------------------------------------------

/// An exact rational: numerator over positive denominator.
#[derive(Clone, Copy, Debug, PartialEq, Eq, Structural)]
pub struct Rat {
    n: i64,
    d: i64,
}

impl View for Rat {
    type V = (int, int);

    closed spec fn view(&self) -> (int, int) {
        (self.n as int, self.d as int)
    }
}

/// Every reachable scalar has a positive denominator.
#[verifier::type_invariant]
pub open spec fn rat_wf(q: Rat) -> bool {
    qwf(q@)
}

/// The absolute value of a mathematical integer.
pub open spec fn iabs(x: int) -> int {
    if x >= 0 {
        x
    } else {
        -x
    }
}

/// The magnitude of a product is the product of the magnitudes.
pub proof fn lemma_mag_mul(x: int, y: int)
    by (nonlinear_arith)
    ensures
        iabs(x * y) == iabs(x) * iabs(y),
{
}

/// A stored intermediate inside the envelope `bb`, summed with a term
/// inside its own envelope `tt`, stays inside the grown envelope: the
/// componentwise magnitude bound of an unreduced sum of two fractions.
pub proof fn lemma_envelope_step(a0: int, a1: int, t0: int, t1: int, bb: (int, int), tt: (int, int))
    by (nonlinear_arith)
    requires
        iabs(a0) <= bb.0,
        0 < a1 <= bb.1,
        iabs(t0) <= tt.0,
        0 < t1 <= tt.1,
        bb.0 >= 0,
        tt.0 >= 0,
    ensures
        iabs(a0 * t1 + t0 * a1) <= bb.0 * tt.1 + tt.0 * bb.1,
        a1 * t1 <= bb.1 * tt.1,
{
}

/// Magnitudes up to `i64::MAX` always have a representable reduced form.
pub open spec fn q_in_range(n: int, d: int) -> bool {
    -0x7fff_ffff_ffff_ffff <= n <= 0x7fff_ffff_ffff_ffff
        && -0x7fff_ffff_ffff_ffff <= d <= 0x7fff_ffff_ffff_ffff
}

/// Euclid's algorithm.
fn gcd_u128(a: u128, b: u128) -> (g: u128)
    ensures
        g as int == gcd_int(a as int, b as int),
{
    let mut x: u128 = a;
    let mut y: u128 = b;
    while y > 0
        invariant
            gcd_int(x as int, y as int) == gcd_int(a as int, b as int),
        decreases y,
    {
        let r: u128 = x % y;
        x = y;
        y = r;
    }
    x
}

/// Builds the reduced stored form of `n / d` from wide intermediates.
fn rat_from_frac_i128(n: i128, d: i128) -> (r: Option<Rat>)
    requires
        d != 0,
        n > i128::MIN,
        d > i128::MIN,
    ensures
        r matches Some(q) ==> q@.1 > 0 && qeq(q@, (n as int, d as int)),
        r matches Some(q) ==> -0x7fff_ffff_ffff_ffff <= q@.0 <= 0x7fff_ffff_ffff_ffff
            && q@.1 <= 0x7fff_ffff_ffff_ffff,
        r matches Some(q) ==> iabs(q@.0) <= iabs(n as int) && q@.1 <= iabs(d as int),
        q_in_range(n as int, d as int) ==> r is Some,
{
    let neg: bool = (n < 0) != (d < 0);
    let na: u128 = if n >= 0 { n as u128 } else { (-n) as u128 };
    let da: u128 = if d >= 0 { d as u128 } else { (-d) as u128 };
    let g: u128 = gcd_u128(na, da);
    proof {
        lemma_gcd(na as int, da as int);
    }
    let nr: u128 = na / g;
    let dr: u128 = da / g;
    proof {
        lemma_cancel(na as int, da as int, g as int);
    }
    if nr > 0x7fff_ffff_ffff_ffff || dr > 0x7fff_ffff_ffff_ffff {
        return None;
    }
    let nn: i64 = if neg { -(nr as i64) } else { nr as i64 };
    let q = Rat { n: nn, d: dr as i64 };
    proof {
        lemma_signed_value(n as int, d as int, na as int, da as int, nr as int, dr as int, neg);
    }
    Some(q)
}

/// Relates the reduced magnitude form back to the signed fraction.
proof fn lemma_signed_value(n: int, d: int, na: int, da: int, nr: int, dr: int, neg: bool)
    by (nonlinear_arith)
    requires
        d != 0,
        na == if n >= 0 { n } else { -n },
        da == if d >= 0 { d } else { -d },
        neg == ((n < 0) != (d < 0)),
        nr * da == na * dr,
        0 <= nr,
        0 < dr,
    ensures
        qeq(((if neg { -nr } else { nr }), dr), (n, d)),
{
}

impl Rat {
    /// The rational `n / d`; `None` only when `d` is zero or the reduced
    /// form does not fit (possible only for the extreme value `i64::MIN`).
    pub fn new(n: i64, d: i64) -> (r: Option<Rat>)
        ensures
            r matches Some(q) ==> q@.1 > 0 && qeq(q@, (n as int, d as int)),
            r matches Some(q) ==> -0x7fff_ffff_ffff_ffff <= q@.0 <= 0x7fff_ffff_ffff_ffff
                && q@.1 <= 0x7fff_ffff_ffff_ffff,
            d != 0 && n > i64::MIN && d > i64::MIN ==> r is Some,
    {
        if d == 0 {
            return None;
        }
        rat_from_frac_i128(n as i128, d as i128)
    }

    /// The integer `n` as a rational.
    pub fn from_int(n: i64) -> (r: Rat)
        ensures
            r@ == (n as int, 1int),
    {
        Rat { n, d: 1 }
    }

    pub fn zero() -> (r: Rat)
        ensures
            r@ == qzero(),
    {
        Rat { n: 0, d: 1 }
    }

    pub fn one() -> (r: Rat)
        ensures
            r@ == qone(),
    {
        Rat { n: 1, d: 1 }
    }

    pub fn num(&self) -> (r: i64)
        ensures
            r as int == self@.0,
    {
        self.n
    }

    pub fn den(&self) -> (r: i64)
        ensures
            r as int == self@.1,
            r > 0,
    {
        proof {
            use_type_invariant(self);
        }
        self.d
    }

    pub fn try_add(&self, other: &Rat) -> (r: Option<Rat>)
        ensures
            r matches Some(q) ==> q@.1 > 0 && qeq(q@, qadd(self@, other@)),
            r matches Some(q) ==> -0x7fff_ffff_ffff_ffff <= q@.0 <= 0x7fff_ffff_ffff_ffff
                && q@.1 <= 0x7fff_ffff_ffff_ffff,
            r matches Some(q) ==> iabs(q@.0) <= iabs(qadd(self@, other@).0) && q@.1 <= iabs(qadd(self@, other@).1),
            q_in_range(qadd(self@, other@).0, qadd(self@, other@).1) ==> r is Some,
    {
        proof {
            use_type_invariant(self);
            use_type_invariant(other);
            lemma_prod_bound(self.n as int, other.d as int);
            lemma_prod_bound(other.n as int, self.d as int);
            lemma_prod_bound(self.d as int, other.d as int);
        }
        let n: i128 = (self.n as i128) * (other.d as i128) + (other.n as i128) * (self.d as i128);
        let d: i128 = (self.d as i128) * (other.d as i128);
        rat_from_frac_i128(n, d)
    }

    pub fn try_sub(&self, other: &Rat) -> (r: Option<Rat>)
        ensures
            r matches Some(q) ==> q@.1 > 0 && qeq(q@, qsub(self@, other@)),
            r matches Some(q) ==> -0x7fff_ffff_ffff_ffff <= q@.0 <= 0x7fff_ffff_ffff_ffff
                && q@.1 <= 0x7fff_ffff_ffff_ffff,
            r matches Some(q) ==> iabs(q@.0) <= iabs(qsub(self@, other@).0) && q@.1 <= iabs(qsub(self@, other@).1),
            q_in_range(qsub(self@, other@).0, qsub(self@, other@).1) ==> r is Some,
    {
        proof {
            use_type_invariant(self);
            use_type_invariant(other);
            lemma_prod_bound(self.n as int, other.d as int);
            lemma_prod_bound(other.n as int, self.d as int);
            lemma_prod_bound(self.d as int, other.d as int);
        }
        let n: i128 = (self.n as i128) * (other.d as i128) - (other.n as i128) * (self.d as i128);
        let d: i128 = (self.d as i128) * (other.d as i128);
        rat_from_frac_i128(n, d)
    }

    pub fn try_mul(&self, other: &Rat) -> (r: Option<Rat>)
        ensures
            r matches Some(q) ==> q@.1 > 0 && qeq(q@, qmul(self@, other@)),
            r matches Some(q) ==> -0x7fff_ffff_ffff_ffff <= q@.0 <= 0x7fff_ffff_ffff_ffff
                && q@.1 <= 0x7fff_ffff_ffff_ffff,
            r matches Some(q) ==> iabs(q@.0) <= iabs(qmul(self@, other@).0) && q@.1 <= iabs(qmul(self@, other@).1),
            q_in_range(qmul(self@, other@).0, qmul(self@, other@).1) ==> r is Some,
    {
        proof {
            use_type_invariant(self);
            use_type_invariant(other);
            lemma_num_prod_bound(self.n as int, other.n as int);
            lemma_prod_bound(1, self.d as int);
            lemma_prod_bound(self.d as int, other.d as int);
        }
        let n: i128 = (self.n as i128) * (other.n as i128);
        let d: i128 = (self.d as i128) * (other.d as i128);
        rat_from_frac_i128(n, d)
    }

    /// `None` when the divisor is zero or the result does not fit.
    pub fn try_div(&self, other: &Rat) -> (r: Option<Rat>)
        ensures
            r matches Some(q) ==> other@.0 != 0 && q@.1 > 0 && qeq(q@, qdiv(self@, other@)),
            r matches Some(q) ==> -0x7fff_ffff_ffff_ffff <= q@.0 <= 0x7fff_ffff_ffff_ffff
                && q@.1 <= 0x7fff_ffff_ffff_ffff,
            other@.0 != 0 && q_in_range(qdiv(self@, other@).0, qdiv(self@, other@).1) ==> r
                is Some,
    {
        proof {
            use_type_invariant(self);
            use_type_invariant(other);
            lemma_prod_bound(self.n as int, other.d as int);
            lemma_prod_bound(other.n as int, self.d as int);
        }
        if other.n == 0 {
            return None;
        }
        let n: i128 = (self.n as i128) * (other.d as i128);
        let d: i128 = (other.n as i128) * (self.d as i128);
        if other.n > 0 {
            rat_from_frac_i128(n, d)
        } else {
            rat_from_frac_i128(-n, -d)
        }
    }

    pub fn try_neg(&self) -> (r: Option<Rat>)
        ensures
            r matches Some(q) ==> q@.1 > 0 && qeq(q@, qneg(self@)),
            r matches Some(q) ==> -0x7fff_ffff_ffff_ffff <= q@.0 <= 0x7fff_ffff_ffff_ffff
                && q@.1 <= 0x7fff_ffff_ffff_ffff,
            self@.0 > i64::MIN ==> r is Some,
    {
        proof {
            use_type_invariant(self);
        }
        rat_from_frac_i128(-(self.n as i128), self.d as i128)
    }

    /// Exact value equality (not representation equality).
    pub fn eq_value(&self, other: &Rat) -> (r: bool)
        ensures
            r == qeq(self@, other@),
    {
        proof {
            use_type_invariant(self);
            use_type_invariant(other);
            lemma_prod_bound(self.n as int, other.d as int);
            lemma_prod_bound(other.n as int, self.d as int);
        }
        (self.n as i128) * (other.d as i128) == (other.n as i128) * (self.d as i128)
    }

    pub fn lt(&self, other: &Rat) -> (r: bool)
        ensures
            r == qlt(self@, other@),
    {
        proof {
            use_type_invariant(self);
            use_type_invariant(other);
            lemma_prod_bound(self.n as int, other.d as int);
            lemma_prod_bound(other.n as int, self.d as int);
        }
        (self.n as i128) * (other.d as i128) < (other.n as i128) * (self.d as i128)
    }

    pub fn le(&self, other: &Rat) -> (r: bool)
        ensures
            r == qle(self@, other@),
    {
        proof {
            use_type_invariant(self);
            use_type_invariant(other);
            lemma_prod_bound(self.n as int, other.d as int);
            lemma_prod_bound(other.n as int, self.d as int);
        }
        (self.n as i128) * (other.d as i128) <= (other.n as i128) * (self.d as i128)
    }

    pub fn is_zero(&self) -> (r: bool)
        ensures
            r == (self@.0 == 0),
    {
        self.n == 0
    }
}

/// A numerator times a denominator stays well inside the 128-bit range.
proof fn lemma_prod_bound(a: int, b: int)
    by (nonlinear_arith)
    requires
        -0x8000_0000_0000_0000 <= a <= 0x7fff_ffff_ffff_ffff,
        1 <= b <= 0x7fff_ffff_ffff_ffff,
    ensures
        -0x3fff_ffff_ffff_ffff_8000_0000_0000_0000 <= a * b
            <= 0x3fff_ffff_ffff_ffff_8000_0000_0000_0000,
        a * b == b * a,
        a != 0 ==> a * b != 0,
        a > 0 ==> a * b > 0,
        a < 0 ==> a * b < 0,
{
}

/// A numerator times a numerator fits in 128 bits.
proof fn lemma_num_prod_bound(a: int, b: int)
    by (nonlinear_arith)
    requires
        -0x8000_0000_0000_0000 <= a <= 0x7fff_ffff_ffff_ffff,
        -0x8000_0000_0000_0000 <= b <= 0x7fff_ffff_ffff_ffff,
    ensures
        -0x4000_0000_0000_0000_0000_0000_0000_0000 <= a * b
            <= 0x4000_0000_0000_0000_0000_0000_0000_0000,
        a * b == b * a,
{
}

} // verus!
