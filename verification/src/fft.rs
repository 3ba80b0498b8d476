//! The spectral-transform block.
//!
//! Statics: `fft_size`, `inverse` and `complex_input`.  `init` builds the
//! plan: the verified prime factorization of `fft_size` that a mixed-radix
//! recursion follows.  One process step consumes either the real or the
//! complex input port and yields the length-`fft_size` zero-padded complex
//! buffer ready for the transform.  The butterfly arithmetic itself works
//! in floating point and lives with the host, outside this crate; the host
//! drives it with a production transform library against the prepared
//! buffer and this plan.

use crate::connectors::PortMap;
use crate::cplx::Cplx;
use crate::rat::{qzero, Rat};
use crate::stream_processor::BlockCore;
use crate::streaming_data::{StreamingError, StreamingState};
use crate::tags::Tag;
use crate::value::{Validator, Value, ValueKind, ValueModel};
use vstd::arithmetic::div_mod::lemma_fundamental_div_mod;
use vstd::prelude::*;

verus! {

/// A prime: at least two, with no proper divisor.
pub open spec fn is_prime(p: int) -> bool {
    p >= 2 && forall|d: int| 2 <= d < p ==> #[trigger] (p % d) != 0
}

/// The product of a sequence of factors.
pub open spec fn prod_of(s: Seq<int>) -> int
    decreases s.len(),
{
    if s.len() == 0 {
        1
    } else {
        prod_of(s.drop_last()) * s.last()
    }
}

/// Divisibility carries through a divisor.
proof fn lemma_mod_trans(e: int, d: int, m: int)
    requires
        1 <= e,
        1 <= d,
        0 <= m,
        m % d == 0,
        d % e == 0,
    ensures
        m % e == 0,
{
    lemma_fundamental_div_mod(m, d);
    lemma_fundamental_div_mod(d, e);
    let k = (d / e) * (m / d);
    assert(m == e * k) by (nonlinear_arith)
        requires
            m == d * (m / d) + m % d,
            m % d == 0,
            d == e * (d / e) + d % e,
            d % e == 0,
            k == (d / e) * (m / d),
    ;
    assert(m % e == 0) by (nonlinear_arith)
        requires
            m == e * k,
            1 <= e,
    ;
}

/// The verified planner: the prime factors of `n`, in non-decreasing
/// order, whose product is `n`.
pub fn factorize(n: usize) -> (r: Vec<usize>)
    requires
        n >= 1,
    ensures
        prod_of(Seq::new(r.len() as nat, |i: int| r[i] as int)) == n,
        forall|i: int| 0 <= i < r.len() ==> is_prime(#[trigger] r[i] as int),
{
    let mut fs: Vec<usize> = Vec::new();
    let mut m: usize = n;
    let mut d: usize = 2;
    proof {
        assert(Seq::new(fs.len() as nat, |i: int| fs[i] as int) =~= Seq::<int>::empty());
    }
    while m > 1
        invariant
            1 <= m <= n,
            2 <= d,
            m > 1 ==> d <= m,
            prod_of(Seq::new(fs.len() as nat, |i: int| fs[i] as int)) * m == n,
            forall|e: int| 2 <= e < d ==> #[trigger] (m as int % e) != 0,
            forall|i: int| 0 <= i < fs.len() ==> is_prime(#[trigger] fs[i] as int),
        decreases m, m - d,
    {
        if m % d == 0 {
            let ghost oldfs = Seq::new(fs.len() as nat, |i: int| fs[i] as int);
            let ghost oldm = m as int;
            fs.push(d);
            m = m / d;
            proof {
                lemma_fundamental_div_mod(oldm, d as int);
                assert(is_prime(d as int)) by {
                    assert forall|e: int| 2 <= e < d implies #[trigger] (d as int % e) != 0 by {
                        if d as int % e == 0 {
                            lemma_mod_trans(e, d as int, oldm);
                        }
                    }
                }
                let newfs = Seq::new(fs.len() as nat, |i: int| fs[i] as int);
                assert(newfs.drop_last() =~= oldfs);
                assert(newfs.last() == d as int);
                assert(prod_of(newfs) * m == n) by (nonlinear_arith)
                    requires
                        prod_of(newfs) == prod_of(oldfs) * d,
                        prod_of(oldfs) * oldm == n,
                        oldm == d * (m as int),
                ;
                assert(1 <= m) by (nonlinear_arith)
                    requires
                        oldm == d * (m as int),
                        oldm >= 2,
                        d >= 2,
                ;
                assert(m <= n) by {
                    vstd::arithmetic::div_mod::lemma_div_nonincreasing(oldm, d as int);
                }
                assert(m < oldm) by (nonlinear_arith)
                    requires
                        oldm == d * (m as int),
                        d >= 2,
                        m >= 1,
                ;
                assert forall|e: int| 2 <= e < d implies #[trigger] (m as int % e) != 0 by {
                    if m as int % e == 0 {
                        lemma_fundamental_div_mod(m as int, e);
                        let mdive = m as int / e;
                        assert(oldm == (d * mdive) * e) by (nonlinear_arith)
                            requires
                                oldm == d * (m as int),
                                m as int == e * mdive,
                        ;
                        vstd::arithmetic::div_mod::lemma_mod_multiples_basic(d * mdive, e);
                    }
                }
                assert(m > 1 ==> d <= m) by {
                    if m > 1 && d > m {
                        lemma_fundamental_div_mod(m as int, m as int);
                        assert(m as int % (m as int) == 0) by (nonlinear_arith)
                            requires
                                m > 1,
                                m as int == (m as int) * ((m as int) / (m as int)) + (m as int) % (
                                m as int),
                                0 <= (m as int) % (m as int) < m as int,
                        ;
                    }
                }
            }
        } else {
            d = d + 1;
            proof {
                if m > 1 && d > m {
                    lemma_fundamental_div_mod(m as int, m as int);
                    assert(m as int % (m as int) == 0) by (nonlinear_arith)
                        requires
                            m > 1,
                            m as int == (m as int) * ((m as int) / (m as int)) + (m as int) % (
                            m as int),
                            0 <= (m as int) % (m as int) < m as int,
                    ;
                }
            }
        }
    }
    proof {
        assert(prod_of(Seq::new(fs.len() as nat, |i: int| fs[i] as int)) * 1 == n);
    }
    fs
}

/// The spectral-transform block.
pub struct FftProcessor {
    pub core: BlockCore,
    pub plan: Vec<usize>,
    pub plan_size: usize,
    pub planned: bool,
}

impl FftProcessor {
    /// The block's fixed shape, and a consistent plan once one is built.
    pub open spec fn shape_wf(&self) -> bool {
        &&& self.core.wf()
        &&& self.core.inputs_spec().contains_spec(Tag::RealSignal)
        &&& self.core.inputs_spec().kind_spec(Tag::RealSignal) == ValueKind::RealVec
        &&& self.core.inputs_spec().contains_spec(Tag::ComplexSignal)
        &&& self.core.inputs_spec().kind_spec(Tag::ComplexSignal) == ValueKind::ComplexVec
        &&& self.core.outputs_spec().contains_spec(Tag::OutputTransform)
        &&& self.core.outputs_spec().kind_spec(Tag::OutputTransform) == ValueKind::ComplexVec
        &&& self.core.statics_spec().contains_spec(Tag::FftSize)
        &&& self.core.statics_spec().kind_spec(Tag::FftSize) == ValueKind::Int
        &&& self.core.statics_spec().contains_spec(Tag::Inverse)
        &&& self.core.statics_spec().kind_spec(Tag::Inverse) == ValueKind::Bool
        &&& self.core.statics_spec().contains_spec(Tag::ComplexInput)
        &&& self.core.statics_spec().kind_spec(Tag::ComplexInput) == ValueKind::Bool
        &&& (self.planned ==> prod_of(
            Seq::new(self.plan.len() as nat, |i: int| self.plan[i] as int),
        ) == self.plan_size && (forall|i: int|
            0 <= i < self.plan.len() ==> is_prime(#[trigger] self.plan[i] as int))
            && self.plan_size >= 1)
    }

    pub open spec fn lifecycle(&self) -> StreamingState {
        self.core.lifecycle_spec()
    }

    pub open spec fn initialized(&self) -> bool {
        self.core.initialized_spec()
    }

    pub open spec fn wf(&self) -> bool {
        self.shape_wf()
    }

    /// A fresh spectral-transform block named `name`, in state `Null`:
    /// exactly the ports `real_signal`, `complex_signal` and
    /// `output_transform`, and the statics `fft_size` (default 1024,
    /// constrained positive), `inverse` and `complex_input` (default
    /// false, unconstrained), all unassigned, with no plan yet.
    pub fn new(name: String) -> (b: FftProcessor)
        ensures
            b.wf(),
            b.lifecycle() == StreamingState::Null,
            !b.initialized(),
            b.core.name_spec() == name@,
            !b.planned,
            b.core.statics_spec().val_spec(Tag::FftSize) == ValueModel::Int(1024),
            b.core.statics_spec().validator_spec(Tag::FftSize) == Validator::Positive,
            !b.core.statics_spec().assigned_spec(Tag::FftSize),
            b.core.statics_spec().val_spec(Tag::Inverse) == ValueModel::Bool(false),
            b.core.statics_spec().validator_spec(Tag::Inverse) == Validator::Any,
            !b.core.statics_spec().assigned_spec(Tag::Inverse),
            b.core.statics_spec().val_spec(Tag::ComplexInput) == ValueModel::Bool(false),
            b.core.statics_spec().validator_spec(Tag::ComplexInput) == Validator::Any,
            !b.core.statics_spec().assigned_spec(Tag::ComplexInput),
            forall|t: Tag|
                #[trigger] b.core.statics_spec().contains_spec(t) ==> t == Tag::FftSize || t
                    == Tag::Inverse || t == Tag::ComplexInput,
            forall|t: Tag| !b.core.state_spec().contains_spec(t),
            forall|t: Tag|
                #[trigger] b.core.inputs_spec().contains_spec(t) ==> t == Tag::RealSignal || t
                    == Tag::ComplexSignal,
            forall|t: Tag|
                #[trigger] b.core.outputs_spec().contains_spec(t) ==> t == Tag::OutputTransform,
            forall|t: Tag| !b.core.parameters_spec().contains_spec(t),
    {
        let mut core = BlockCore::new(name);
        let ghost in0 = core.inputs_spec();
        let _ = core.new_input(Tag::RealSignal, ValueKind::RealVec);
        let ghost in1 = core.inputs_spec();
        let _ = core.new_input(Tag::ComplexSignal, ValueKind::ComplexVec);
        let ghost out0 = core.outputs_spec();
        let _ = core.new_output(Tag::OutputTransform, ValueKind::ComplexVec);
        let ghost st0 = core.statics_spec();
        let _ = core.new_statics(Tag::FftSize, Value::Int(1024), Validator::Positive);
        let ghost st1 = core.statics_spec();
        let _ = core.new_statics(Tag::Inverse, Value::Bool(false), Validator::Any);
        let ghost st2 = core.statics_spec();
        proof {
            assert(core.statics_spec().contains_spec(Tag::FftSize));
            assert(!core.statics_spec().assigned_spec(Tag::FftSize));
        }
        let _ = core.new_statics(Tag::ComplexInput, Value::Bool(false), Validator::Any);
        let ghost st3 = core.statics_spec();
        proof {
            assert(core.statics_spec().contains_spec(Tag::FftSize));
            assert(core.statics_spec().contains_spec(Tag::Inverse));
            assert(core.statics_spec().contains_spec(Tag::ComplexInput));
            assert(core.inputs_spec().contains_spec(Tag::RealSignal));
            assert(core.inputs_spec().contains_spec(Tag::ComplexSignal));
            assert(core.outputs_spec().contains_spec(Tag::OutputTransform));
            assert(!core.statics_spec().assigned_spec(Tag::FftSize));
            assert(!core.statics_spec().assigned_spec(Tag::Inverse));
        }
        let b = FftProcessor { core, plan: Vec::new(), plan_size: 0, planned: false };
        proof {
            assert forall|t: Tag| #[trigger] b.core.statics_spec().contains_spec(t) implies t
                == Tag::FftSize || t == Tag::Inverse || t == Tag::ComplexInput by {
                if t != Tag::FftSize && t != Tag::Inverse && t != Tag::ComplexInput {
                    assert(st3.contains_spec(t) == st2.contains_spec(t));
                    assert(st2.contains_spec(t) == st1.contains_spec(t));
                    assert(st1.contains_spec(t) == st0.contains_spec(t));
                    assert(!st0.contains_spec(t));
                }
            }
            assert forall|t: Tag| #[trigger] b.core.inputs_spec().contains_spec(t) implies t
                == Tag::RealSignal || t == Tag::ComplexSignal by {
                if t != Tag::RealSignal && t != Tag::ComplexSignal {
                    assert(in1.contains_spec(t) == in0.contains_spec(t));
                    assert(!in0.contains_spec(t));
                }
            }
            assert forall|t: Tag| #[trigger] b.core.outputs_spec().contains_spec(t) implies t
                == Tag::OutputTransform by {
                if t != Tag::OutputTransform {
                    assert(!out0.contains_spec(t));
                }
            }
        }
        b
    }

    /// Exact `init`: rejected from `Running` and while a static is
    /// unassigned, without side effects; rejected for a zero `fft_size`;
    /// otherwise factorizes the size into the plan and enters `Initial`.
    pub fn init_block(&mut self) -> (r: Result<(), StreamingError>)
        requires
            old(self).wf(),
        ensures
            final(self).wf(),
            r is Err ==> *final(self) == *old(self),
            old(self).lifecycle() == StreamingState::Running ==> r == Err::<(), StreamingError>(
                StreamingError::InvalidStateTransition,
            ),
            old(self).lifecycle() != StreamingState::Running && !old(self).initialized() ==> r
                == Err::<(), StreamingError>(StreamingError::InvalidStatics),
            old(self).lifecycle() != StreamingState::Running && old(self).initialized() ==> {
                if old(self).core.statics_spec().val_spec(Tag::FftSize)->Int_0 >= 1 {
                    &&& r == Ok::<(), StreamingError>(())
                    &&& final(self).lifecycle() == StreamingState::Initial
                    &&& final(self).core.statics_spec() == old(self).core.statics_spec()
                    &&& final(self).planned
                    &&& final(self).plan_size == old(self).core.statics_spec().val_spec(
                        Tag::FftSize,
                    )->Int_0
                } else {
                    r == Err::<(), StreamingError>(StreamingError::InvalidStatics)
                }
            },
    {
        match self.core.init_guard() {
            Err(e) => {
                return Err(e);
            },
            Ok(()) => {},
        }
        let size: usize = match self.core.get_statics(Tag::FftSize, ValueKind::Int) {
            Ok(Value::Int(s)) => s,
            _ => {
                proof {
                    assert(false);
                }
                return Err(StreamingError::InvalidStatics);
            },
        };
        if size == 0 {
            return Err(StreamingError::InvalidStatics);
        }
        let factors = factorize(size);
        self.plan = factors;
        self.plan_size = size;
        self.planned = true;
        self.core.set_state(StreamingState::Initial);
        Ok(())
    }

    /// Enters the processing state: legal exactly from `Initial`.
    pub fn run(&mut self) -> (r: Result<(), StreamingError>)
        requires
            old(self).wf(),
        ensures
            final(self).wf(),
            r is Ok <==> old(self).lifecycle() == StreamingState::Initial,
            r is Err ==> r == Err::<(), StreamingError>(StreamingError::InvalidStateTransition)
                && *final(self) == *old(self),
            r is Ok ==> final(self).lifecycle() == StreamingState::Running,
    {
        match self.core.run_guard() {
            Err(e) => Err(e),
            Ok(()) => {
                self.core.set_state(StreamingState::Running);
                Ok(())
            },
        }
    }

    /// Stops the block: always succeeds, from any state, idempotently.
    pub fn stop(&mut self) -> (r: Result<(), StreamingError>)
        requires
            old(self).wf(),
        ensures
            final(self).wf(),
            r == Ok::<(), StreamingError>(()),
            final(self).lifecycle() == StreamingState::Stopped,
            final(self).initialized() == old(self).initialized(),
    {
        self.core.set_state(StreamingState::Stopped);
        Ok(())
    }

    /// Whether one step's consumed input is present, of the declared kind,
    /// and no longer than the plan.
    pub open spec fn input_ok(&self, inputs: PortMap) -> bool {
        let ci = self.core.statics_spec().val_spec(Tag::ComplexInput)->Bool_0;
        if ci {
            &&& inputs.contains_spec(Tag::ComplexSignal)
            &&& inputs.val_spec(Tag::ComplexSignal) is ComplexVec
            &&& inputs.val_spec(Tag::ComplexSignal)->ComplexVec_0.len() <= self.plan_size
        } else {
            &&& inputs.contains_spec(Tag::RealSignal)
            &&& inputs.val_spec(Tag::RealSignal) is RealVec
            &&& inputs.val_spec(Tag::RealSignal)->RealVec_0.len() <= self.plan_size
        }
    }

    /// The consumed input of one step, lifted to the complex plane and
    /// zero-padded to the plan size: under `complex_input` the complex
    /// port's signal as received, otherwise the real port's samples with
    /// zero imaginary parts.  A missing upstream value reports
    /// `ChannelClosed`; a wrong kind, a signal longer than the plan, or a
    /// missing plan reports `InvalidInput`; with a plan, a present value of
    /// the declared kind that fits it, the prepared buffer is owed.
    pub fn prepare_input(&self, inputs: &PortMap) -> (r: Result<Vec<Cplx>, StreamingError>)
        requires
            self.wf(),
            inputs.wf(),
        ensures
            r != Err::<Vec<Cplx>, StreamingError>(StreamingError::InvalidStateTransition),
            r != Err::<Vec<Cplx>, StreamingError>(StreamingError::InvalidStatics),
            !self.planned ==> r == Err::<Vec<Cplx>, StreamingError>(StreamingError::InvalidInput),
            self.planned ==> (r == Err::<Vec<Cplx>, StreamingError>(StreamingError::ChannelClosed)
                <==> (if self.core.statics_spec().val_spec(Tag::ComplexInput)->Bool_0 {
                !inputs.contains_spec(Tag::ComplexSignal)
            } else {
                !inputs.contains_spec(Tag::RealSignal)
            })),
            self.planned ==> (r is Ok <==> self.input_ok(*inputs)),
            r matches Ok(buf) ==> {
                let ci = self.core.statics_spec().val_spec(Tag::ComplexInput)->Bool_0;
                &&& self.planned
                &&& buf.len() == self.plan_size
                &&& (ci ==> {
                    let sig = inputs.val_spec(Tag::ComplexSignal)->ComplexVec_0;
                    &&& inputs.contains_spec(Tag::ComplexSignal)
                    &&& sig.len() <= self.plan_size
                    &&& forall|i: int| 0 <= i < sig.len() ==> #[trigger] buf[i]@ == sig[i]
                    &&& forall|i: int|
                        sig.len() <= i < buf.len() ==> #[trigger] buf[i]@ == (qzero(), qzero())
                })
                &&& (!ci ==> {
                    let sig = inputs.val_spec(Tag::RealSignal)->RealVec_0;
                    &&& inputs.contains_spec(Tag::RealSignal)
                    &&& sig.len() <= self.plan_size
                    &&& forall|i: int|
                        0 <= i < sig.len() ==> #[trigger] buf[i]@ == (sig[i], qzero())
                    &&& forall|i: int|
                        sig.len() <= i < buf.len() ==> #[trigger] buf[i]@ == (qzero(), qzero())
                })
            },
    {
        if !self.planned {
            return Err(StreamingError::InvalidInput);
        }
        let ci: bool = match self.core.get_statics(Tag::ComplexInput, ValueKind::Bool) {
            Ok(Value::Bool(b)) => b,
            _ => {
                proof {
                    assert(false);
                }
                return Err(StreamingError::InvalidStatics);
            },
        };
        let mut buf: Vec<Cplx> = Vec::new();
        if ci {
            let sig: Vec<Cplx> = match inputs.get(Tag::ComplexSignal) {
                Some(Value::ComplexVec(v)) => v,
                Some(_) => {
                    return Err(StreamingError::InvalidInput);
                },
                None => {
                    return Err(StreamingError::ChannelClosed);
                },
            };
            if sig.len() > self.plan_size {
                return Err(StreamingError::InvalidInput);
            }
            let mut i: usize = 0;
            while i < sig.len()
                invariant
                    i <= sig.len(),
                    buf.len() == i,
                    forall|j: int| 0 <= j < i ==> #[trigger] buf[j] == sig[j],
                decreases sig.len() - i,
            {
                buf.push(sig[i]);
                i = i + 1;
            }
            let mut j: usize = sig.len();
            while j < self.plan_size
                invariant
                    sig.len() <= j <= self.plan_size,
                    buf.len() == j,
                    forall|t: int| 0 <= t < sig.len() ==> #[trigger] buf[t] == sig[t],
                    forall|t: int|
                        sig.len() <= t < j ==> #[trigger] buf[t]@ == (qzero(), qzero()),
                decreases self.plan_size - j,
            {
                buf.push(Cplx::zero());
                j = j + 1;
            }
            proof {
                let sigm = inputs.val_spec(Tag::ComplexSignal)->ComplexVec_0;
                assert forall|t: int| 0 <= t < sigm.len() implies #[trigger] buf[t]@
                    == sigm[t] by {
                    assert(buf[t] == sig[t]);
                    assert(sigm[t] == sig[t]@);
                }
            }
            Ok(buf)
        } else {
            let sig: Vec<Rat> = match inputs.get(Tag::RealSignal) {
                Some(Value::RealVec(v)) => v,
                Some(_) => {
                    return Err(StreamingError::InvalidInput);
                },
                None => {
                    return Err(StreamingError::ChannelClosed);
                },
            };
            if sig.len() > self.plan_size {
                return Err(StreamingError::InvalidInput);
            }
            let mut i: usize = 0;
            while i < sig.len()
                invariant
                    i <= sig.len(),
                    buf.len() == i,
                    forall|j: int| 0 <= j < i ==> #[trigger] buf[j]@ == (sig[j]@, qzero()),
                decreases sig.len() - i,
            {
                buf.push(Cplx::from_real(sig[i]));
                i = i + 1;
            }
            let mut j: usize = sig.len();
            while j < self.plan_size
                invariant
                    sig.len() <= j <= self.plan_size,
                    buf.len() == j,
                    forall|t: int| 0 <= t < sig.len() ==> #[trigger] buf[t]@ == (sig[t]@, qzero()),
                    forall|t: int|
                        sig.len() <= t < j ==> #[trigger] buf[t]@ == (qzero(), qzero()),
                decreases self.plan_size - j,
            {
                buf.push(Cplx::zero());
                j = j + 1;
            }
            proof {
                let sigm = inputs.val_spec(Tag::RealSignal)->RealVec_0;
                assert forall|t: int| 0 <= t < sigm.len() implies #[trigger] buf[t]@ == (
                    sigm[t],
                    qzero(),
                ) by {
                    assert(buf[t]@ == (sig[t]@, qzero()));
                    assert(sigm[t] == sig[t]@);
                }
            }
            Ok(buf)
        }
    }
}

} // verus!
