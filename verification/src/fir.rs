//! The FIR filter block.
//!
//! Statics: `order` and `coefficient`, with `coefficient.len() == order + 1`
//! checked at `init`.  State: `inputs_memory`, the last `order` input
//! samples, zero-filled at `init`.  One process step receives one input
//! block and emits its convolution with the coefficients, reading history
//! from the memory, which then holds the last `order` samples seen.

use crate::connectors::PortMap;
use crate::rat::{
    iabs, lemma_envelope_step, lemma_mag_mul, lemma_qadd_congr, lemma_qadd_wf, lemma_qeq_trans,
    lemma_qmul_zero, lemma_qsum_single, lemma_qsum_wf, lemma_qsum_zero, q_in_range, qadd, qeq,
    qmul, qone, qseq_wf, qsum, qwf, qzero, rats_wf, seq_rats, Rat,
};
use crate::stream_processor::{BlockCore, StreamProcessor};
use crate::streaming_data::{StreamingError, StreamingState};
use crate::tags::Tag;
use crate::value::{model_kind, Validator, Value, ValueKind, ValueModel};
use vstd::prelude::*;

verus! {

/// Output sample `k` of a FIR filter: the convolution `y[k] = sum_i c[i] *
/// ext[order + k - i]`, where `ext` is the retained history followed by the
/// current input block and `order = c.len() - 1`.
pub open spec fn fir_out(c: Seq<(int, int)>, ext: Seq<(int, int)>, k: int) -> (int, int) {
    qsum(Seq::new(c.len(), |i: int| qmul(c[i], ext[c.len() - 1 + k - i])))
}

/// The magnitude envelope of one convolution term: componentwise absolute
/// bounds of the unreduced product.
pub open spec fn fir_tmag(c: (int, int), e: (int, int)) -> (int, int) {
    (iabs(c.0) * iabs(e.0), c.1 * e.1)
}

/// The magnitude envelope of the running sum after the first `i` terms of
/// output sample `k`: every stored intermediate stays componentwise inside
/// it, because reduction only shrinks magnitudes.
pub open spec fn fir_accmag(
    c: Seq<(int, int)>,
    ext: Seq<(int, int)>,
    k: int,
    i: int,
) -> (int, int)
    decreases i,
{
    if i <= 0 {
        (0, 1)
    } else {
        let b = fir_accmag(c, ext, k, i - 1);
        let t = fir_tmag(c[i - 1], ext[c.len() - 1 + k - (i - 1)]);
        (b.0 * t.1 + t.0 * b.1, b.1 * t.1)
    }
}

/// Every term and running-sum envelope of the whole block stays inside the
/// representable range; under this the filter is owed to succeed.
pub open spec fn fir_fits(c: Seq<(int, int)>, ext: Seq<(int, int)>, n: int) -> bool {
    forall|k: int, i: int|
        0 <= k < n && 0 <= i < c.len() ==> {
            let t = #[trigger] fir_tmag(c[i], ext[c.len() - 1 + k - i]);
            let b = fir_accmag(c, ext, k, i + 1);
            &&& t.0 <= 0x7fff_ffff_ffff_ffff
            &&& t.1 <= 0x7fff_ffff_ffff_ffff
            &&& b.0 <= 0x7fff_ffff_ffff_ffff
            &&& b.1 <= 0x7fff_ffff_ffff_ffff
        }
}

/// The envelope components are non-negative, with a positive denominator.
proof fn lemma_accmag_pos(c: Seq<(int, int)>, ext: Seq<(int, int)>, k: int, i: int)
    requires
        qseq_wf(c),
        qseq_wf(ext),
        0 <= k,
        0 <= i <= c.len(),
        c.len() - 1 + k < ext.len(),
    ensures
        fir_accmag(c, ext, k, i).0 >= 0,
        fir_accmag(c, ext, k, i).1 >= 1,
    decreases i,
{
    if i > 0 {
        lemma_accmag_pos(c, ext, k, i - 1);
        let b = fir_accmag(c, ext, k, i - 1);
        let t = fir_tmag(c[i - 1], ext[c.len() - 1 + k - (i - 1)]);
        assert(t.0 >= 0 && t.1 >= 1) by (nonlinear_arith)
            requires
                t == fir_tmag(c[i - 1], ext[c.len() - 1 + k - (i - 1)]),
                iabs(c[i - 1].0) >= 0,
                iabs(ext[c.len() - 1 + k - (i - 1)].0) >= 0,
                c[i - 1].1 >= 1,
                ext[c.len() - 1 + k - (i - 1)].1 >= 1,
        ;
        assert(b.0 * t.1 + t.0 * b.1 >= 0 && b.1 * t.1 >= 1) by (nonlinear_arith)
            requires
                b.0 >= 0,
                b.1 >= 1,
                t.0 >= 0,
                t.1 >= 1,
        ;
    }
}

/// The FIR filter kernel.  Returns the output block and the new history, or
/// `None` when a sample leaves the machine range of the exact arithmetic;
/// success is owed whenever the whole computation's magnitude envelopes
/// stay representable.
pub fn fir_filter(coeff: &Vec<Rat>, mem: &Vec<Rat>, input: &Vec<Rat>) -> (r: Option<
    (Vec<Rat>, Vec<Rat>),
>)
    requires
        coeff.len() >= 1,
        mem.len() == coeff.len() - 1,
    ensures
        r matches Some(p) ==> {
            let c = seq_rats(*coeff);
            let ext = seq_rats(*mem) + seq_rats(*input);
            &&& p.0.len() == input.len()
            &&& qseq_wf(seq_rats(p.0))
            &&& forall|k: int|
                0 <= k < input.len() ==> qeq(#[trigger] seq_rats(p.0)[k], fir_out(c, ext, k))
            &&& seq_rats(p.1) == ext.subrange(input.len() as int, ext.len() as int)
        },
        fir_fits(
            seq_rats(*coeff),
            seq_rats(*mem) + seq_rats(*input),
            input.len() as int,
        ) ==> r is Some,
{
    let order: usize = coeff.len() - 1;
    let n: usize = input.len();
    let _cw = rats_wf(coeff);
    let _mw = rats_wf(mem);
    let _iw = rats_wf(input);
    let ghost cm = seq_rats(*coeff);
    let ghost ext = seq_rats(*mem) + seq_rats(*input);
    // The history followed by the current block.
    let mut extv: Vec<Rat> = Vec::new();
    let mut t: usize = 0;
    while t < order
        invariant
            t <= order,
            order == mem.len(),
            extv.len() == t,
            forall|j: int| 0 <= j < t ==> #[trigger] extv[j] == mem[j],
        decreases order - t,
    {
        extv.push(mem[t]);
        t = t + 1;
    }
    let mut t2: usize = 0;
    while t2 < n
        invariant
            t2 <= n,
            n == input.len(),
            order == mem.len(),
            extv.len() == order + t2,
            forall|j: int| 0 <= j < order ==> #[trigger] extv[j] == mem[j],
            forall|j: int| 0 <= j < t2 ==> #[trigger] extv[order + j] == input[j],
        decreases n - t2,
    {
        extv.push(input[t2]);
        t2 = t2 + 1;
    }
    proof {
        assert forall|j: int| 0 <= j < ext.len() implies #[trigger] extv[j]@ == ext[j] by {
            if j < order {
                assert(ext[j] == seq_rats(*mem)[j]);
            } else {
                assert(extv[order + (j - order)] == input[j - order]);
                assert(ext[j] == seq_rats(*input)[j - order]);
            }
        }
        assert(qseq_wf(ext)) by {
            assert forall|j: int| 0 <= j < ext.len() implies qwf(#[trigger] ext[j]) by {
                if j < order {
                    assert(ext[j] == seq_rats(*mem)[j]);
                } else {
                    assert(ext[j] == seq_rats(*input)[j - order]);
                }
            }
        }
    }
    let mut out: Vec<Rat> = Vec::new();
    let mut k: usize = 0;
    while k < n
        invariant
            k <= n,
            n == input.len(),
            order == mem.len(),
            coeff.len() == order + 1,
            extv.len() == order + n,
            cm == seq_rats(*coeff),
            ext == seq_rats(*mem) + seq_rats(*input),
            forall|j: int| 0 <= j < ext.len() ==> #[trigger] extv[j]@ == ext[j],
            qseq_wf(cm),
            qseq_wf(ext),
            out.len() == k,
            forall|j: int| 0 <= j < k ==> qeq(#[trigger] out[j]@, fir_out(cm, ext, j)),
            forall|j: int| 0 <= j < k ==> qwf(#[trigger] out[j]@),
        decreases n - k,
    {
        let ghost terms = Seq::new(cm.len(), |i: int| qmul(cm[i], ext[cm.len() - 1 + k - i]));
        proof {
            assert forall|i: int| 0 <= i < terms.len() implies qwf(#[trigger] terms[i]) by {
                lemma_qadd_wf(cm[i], ext[cm.len() - 1 + k - i]);
            }
        }
        let mut acc = Rat::zero();
        let mut i: usize = 0;
        while i < order + 1
            invariant
                i <= order + 1,
                k < n,
                n == input.len(),
                order == mem.len(),
                coeff.len() == order + 1,
                extv.len() == order + n,
                cm == seq_rats(*coeff),
                ext == seq_rats(*mem) + seq_rats(*input),
                forall|j: int| 0 <= j < ext.len() ==> #[trigger] extv[j]@ == ext[j],
                ext.len() == order + n,
                qseq_wf(cm),
                qseq_wf(ext),
                terms == Seq::new(
                    cm.len(),
                    |i2: int| qmul(cm[i2], ext[cm.len() - 1 + k - i2]),
                ),
                qseq_wf(terms),
                qwf(acc@),
                qeq(acc@, qsum(terms.take(i as int))),
                iabs(acc@.0) <= fir_accmag(cm, ext, k as int, i as int).0,
                acc@.1 <= fir_accmag(cm, ext, k as int, i as int).1,
            decreases order + 1 - i,
        {
            let idx: usize = order + k - i;
            let x = coeff[i];
            let y = extv[idx];
            proof {
                assert(x@ == cm[i as int]);
                assert(y@ == ext[idx as int]);
                lemma_mag_mul(x@.0, y@.0);
            }
            let ghost tt = fir_tmag(cm[i as int], ext[cm.len() - 1 + k - i]);
            let ghost bb = fir_accmag(cm, ext, k as int, i as int);
            proof {
                assert(tt.0 >= 0 && tt.1 >= 1) by (nonlinear_arith)
                    requires
                        tt == (iabs(x@.0) * iabs(y@.0), x@.1 * y@.1),
                        iabs(x@.0) >= 0,
                        iabs(y@.0) >= 0,
                        x@.1 >= 1,
                        y@.1 >= 1,
                ;
                lemma_accmag_pos(cm, ext, k as int, i as int);
                assert(fir_accmag(cm, ext, k as int, i as int + 1) == (
                    bb.0 * tt.1 + tt.0 * bb.1,
                    bb.1 * tt.1,
                ));
            }
            let t3 = match x.try_mul(&y) {
                Some(v) => v,
                None => {
                    proof {
                        if fir_fits(cm, ext, n as int) {
                            assert(tt.0 <= 0x7fff_ffff_ffff_ffff && tt.1
                                <= 0x7fff_ffff_ffff_ffff);
                            assert(q_in_range(qmul(x@, y@).0, qmul(x@, y@).1));
                            assert(false);
                        }
                    }
                    return None;
                },
            };
            let acc2 = match acc.try_add(&t3) {
                Some(v) => v,
                None => {
                    proof {
                        assert(iabs(t3@.0) <= tt.0 && t3@.1 <= tt.1);
                        lemma_envelope_step(acc@.0, acc@.1, t3@.0, t3@.1, bb, tt);
                        if fir_fits(cm, ext, n as int) {
                            assert(fir_accmag(cm, ext, k as int, i as int + 1).0
                                <= 0x7fff_ffff_ffff_ffff && fir_accmag(
                                cm,
                                ext,
                                k as int,
                                i as int + 1,
                            ).1 <= 0x7fff_ffff_ffff_ffff);
                            assert(q_in_range(qadd(acc@, t3@).0, qadd(acc@, t3@).1));
                            assert(false);
                        }
                    }
                    return None;
                },
            };
            proof {
                assert(iabs(t3@.0) <= tt.0 && t3@.1 <= tt.1);
                lemma_envelope_step(acc@.0, acc@.1, t3@.0, t3@.1, bb, tt);
                assert(iabs(acc2@.0) <= fir_accmag(cm, ext, k as int, i as int + 1).0);
                assert(acc2@.1 <= fir_accmag(cm, ext, k as int, i as int + 1).1);
                assert(x@ == cm[i as int]);
                assert(y@ == ext[idx as int]);
                let pre = terms.take(i as int);
                let post = terms.take(i as int + 1);
                assert(post.drop_last() =~= pre);
                assert(post.last() == terms[i as int]);
                lemma_qsum_wf(pre);
                lemma_qadd_wf(qsum(pre), terms[i as int]);
                lemma_qadd_wf(acc@, t3@);
                lemma_qadd_congr(acc@, t3@, qsum(pre), terms[i as int]);
                lemma_qeq_trans(acc2@, qadd(acc@, t3@), qadd(qsum(pre), terms[i as int]));
            }
            acc = acc2;
            i = i + 1;
        }
        proof {
            assert(terms.take(order as int + 1) =~= terms);
        }
        out.push(acc);
        k = k + 1;
    }
    // The new history: the last `order` extended samples.
    let mut mem2: Vec<Rat> = Vec::new();
    let mut m: usize = 0;
    while m < order
        invariant
            m <= order,
            order == mem.len(),
            n == input.len(),
            extv.len() == order + n,
            mem2.len() == m,
            forall|j: int| 0 <= j < m ==> #[trigger] mem2[j] == extv[n + j],
        decreases order - m,
    {
        mem2.push(extv[n + m]);
        m = m + 1;
    }
    proof {
        assert(seq_rats(mem2) =~= ext.subrange(n as int, ext.len() as int));
        assert forall|j: int| 0 <= j < out.len() implies qeq(
            #[trigger] seq_rats(out)[j],
            fir_out(cm, ext, j),
        ) by {
            assert(seq_rats(out)[j] == out[j]@);
        }
        assert forall|j: int| 0 <= j < seq_rats(out).len() implies qwf(
            #[trigger] seq_rats(out)[j],
        ) by {
            assert(seq_rats(out)[j] == out[j]@);
        }
    }
    Some((out, mem2))
}

/// The FIR filter block.
pub struct Fir {
    pub core: BlockCore,
}

impl Fir {
    /// The block's fixed shape: its ports and slots, with their kinds.
    pub open spec fn shape_wf(&self) -> bool {
        &&& self.core.wf()
        &&& self.core.inputs_spec().contains_spec(Tag::Input)
        &&& self.core.inputs_spec().kind_spec(Tag::Input) == ValueKind::RealVec
        &&& self.core.outputs_spec().contains_spec(Tag::Output)
        &&& self.core.outputs_spec().kind_spec(Tag::Output) == ValueKind::RealVec
        &&& self.core.statics_spec().contains_spec(Tag::Order)
        &&& self.core.statics_spec().kind_spec(Tag::Order) == ValueKind::Int
        &&& self.core.statics_spec().contains_spec(Tag::Coefficient)
        &&& self.core.statics_spec().kind_spec(Tag::Coefficient) == ValueKind::RealVec
        &&& self.core.state_spec().contains_spec(Tag::InputsMemory)
        &&& self.core.state_spec().kind_spec(Tag::InputsMemory) == ValueKind::RealVec
    }

    /// The configured order.
    pub open spec fn order_spec(&self) -> int {
        self.core.statics_spec().val_spec(Tag::Order)->Int_0
    }

    /// The configured coefficients.
    pub open spec fn coeff_spec(&self) -> Seq<(int, int)> {
        self.core.statics_spec().val_spec(Tag::Coefficient)->RealVec_0
    }

    /// The retained input history.
    pub open spec fn memory_spec(&self) -> Seq<(int, int)> {
        self.core.state_spec().val_spec(Tag::InputsMemory)->RealVec_0
    }

    /// The shape `process` needs: a coefficient vector one longer than the
    /// order and a history exactly as long as the order.
    pub open spec fn shapes_ok(&self) -> bool {
        &&& self.coeff_spec().len() >= 1
        &&& self.order_spec() == self.coeff_spec().len() - 1
        &&& self.memory_spec().len() == self.order_spec()
    }

    /// A fresh FIR block named `name`, in state `Null`: exactly the ports
    /// `input` and `output`, the statics `order` (default zero) and
    /// `coefficient` (default empty), both unconstrained and unassigned,
    /// and the `inputs_memory` state slot.
    pub fn new(name: String) -> (b: Fir)
        ensures
            b.wf(),
            b.lifecycle() == StreamingState::Null,
            !b.initialized(),
            b.core.name_spec() == name@,
            b.core.statics_spec().val_spec(Tag::Order) == ValueModel::Int(0),
            b.core.statics_spec().validator_spec(Tag::Order) == Validator::Any,
            !b.core.statics_spec().assigned_spec(Tag::Order),
            b.core.statics_spec().val_spec(Tag::Coefficient)->RealVec_0.len() == 0,
            b.core.statics_spec().validator_spec(Tag::Coefficient) == Validator::Any,
            !b.core.statics_spec().assigned_spec(Tag::Coefficient),
            forall|t: Tag|
                #[trigger] b.core.statics_spec().contains_spec(t) ==> t == Tag::Order || t
                    == Tag::Coefficient,
            b.core.state_spec().val_spec(Tag::InputsMemory)->RealVec_0.len() == 0,
            forall|t: Tag|
                #[trigger] b.core.state_spec().contains_spec(t) ==> t == Tag::InputsMemory,
            forall|t: Tag| #[trigger] b.core.inputs_spec().contains_spec(t) ==> t == Tag::Input,
            forall|t: Tag| #[trigger] b.core.outputs_spec().contains_spec(t) ==> t == Tag::Output,
            forall|t: Tag| !b.core.parameters_spec().contains_spec(t),
    {
        let mut core = BlockCore::new(name);
        let ghost in0 = core.inputs_spec();
        let _ = core.new_input(Tag::Input, ValueKind::RealVec);
        let ghost out0 = core.outputs_spec();
        let _ = core.new_output(Tag::Output, ValueKind::RealVec);
        let ghost st0 = core.statics_spec();
        let _ = core.new_statics(Tag::Order, Value::Int(0), Validator::Any);
        let ghost st1 = core.statics_spec();
        proof {
            assert(core.statics_spec().contains_spec(Tag::Order));
            assert(!core.statics_spec().assigned_spec(Tag::Order));
        }
        let _ = core.new_statics(Tag::Coefficient, Value::RealVec(Vec::new()), Validator::Any);
        let ghost st2 = core.statics_spec();
        proof {
            assert(core.statics_spec().contains_spec(Tag::Order));
            assert(!core.statics_spec().assigned_spec(Tag::Order));
        }
        let ghost sv0 = core.state_spec();
        let _ = core.new_state(Tag::InputsMemory, Value::RealVec(Vec::new()));
        let b = Fir { core };
        proof {
            assert(!b.core.statics_spec().assigned_spec(Tag::Order));
            assert(b.core.statics_spec().val_spec(Tag::Coefficient)->RealVec_0 =~= Seq::empty());
            assert(b.core.state_spec().val_spec(Tag::InputsMemory)->RealVec_0 =~= Seq::empty());
            assert forall|t: Tag| #[trigger] b.core.statics_spec().contains_spec(t) implies t
                == Tag::Order || t == Tag::Coefficient by {
                if t != Tag::Order && t != Tag::Coefficient {
                    assert(st2.contains_spec(t) == st1.contains_spec(t));
                    assert(st1.contains_spec(t) == st0.contains_spec(t));
                    assert(!st0.contains_spec(t));
                }
            }
            assert forall|t: Tag| #[trigger] b.core.state_spec().contains_spec(t) implies t
                == Tag::InputsMemory by {
                if t != Tag::InputsMemory {
                    assert(!sv0.contains_spec(t));
                }
            }
            assert forall|t: Tag| #[trigger] b.core.inputs_spec().contains_spec(t) implies t
                == Tag::Input by {
                if t != Tag::Input {
                    assert(!in0.contains_spec(t));
                }
            }
            assert forall|t: Tag| #[trigger] b.core.outputs_spec().contains_spec(t) implies t
                == Tag::Output by {
                if t != Tag::Output {
                    assert(!out0.contains_spec(t));
                }
            }
        }
        b
    }

    /// Exact `init`: rejected from `Running`; rejected while a static is
    /// unassigned or `coefficient.len() != order + 1`, all without side
    /// effects; otherwise zero-fills the history and enters `Initial`.
    pub fn init_block(&mut self) -> (r: Result<(), StreamingError>)
        requires
            old(self).wf(),
        ensures
            final(self).wf(),
            r is Err ==> *final(self) == *old(self),
            old(self).lifecycle() == StreamingState::Running ==> r == Err::<(), StreamingError>(
                StreamingError::InvalidStateTransition,
            ),
            old(self).lifecycle() != StreamingState::Running && !old(self).initialized() ==> r
                == Err::<(), StreamingError>(StreamingError::InvalidStatics),
            old(self).lifecycle() != StreamingState::Running && old(self).initialized() ==> {
                if old(self).coeff_spec().len() == old(self).order_spec() + 1 {
                    &&& r == Ok::<(), StreamingError>(())
                    &&& final(self).lifecycle() == StreamingState::Initial
                    &&& final(self).core.statics_spec() == old(self).core.statics_spec()
                    &&& final(self).memory_spec().len() == old(self).order_spec()
                    &&& forall|i: int|
                        0 <= i < final(self).memory_spec().len() ==> final(self).memory_spec()[i]
                            == qzero()
                } else {
                    r == Err::<(), StreamingError>(StreamingError::InvalidStatics)
                }
            },
    {
        match self.core.init_guard() {
            Err(e) => {
                return Err(e);
            },
            Ok(()) => {},
        }
        let ov = match self.core.get_statics(Tag::Order, ValueKind::Int) {
            Ok(v) => v,
            Err(e) => {
                proof {
                    assert(false);
                }
                return Err(e);
            },
        };
        let o: usize = match ov {
            Value::Int(o) => o,
            _ => {
                proof {
                    assert(false);
                }
                return Err(StreamingError::InvalidStatics);
            },
        };
        let cv = match self.core.get_statics(Tag::Coefficient, ValueKind::RealVec) {
            Ok(v) => v,
            Err(e) => {
                proof {
                    assert(false);
                }
                return Err(e);
            },
        };
        let c: Vec<Rat> = match cv {
            Value::RealVec(c) => c,
            _ => {
                proof {
                    assert(false);
                }
                return Err(StreamingError::InvalidStatics);
            },
        };
        if c.len() == 0 || o != c.len() - 1 {
            return Err(StreamingError::InvalidStatics);
        }
        let mut memory: Vec<Rat> = Vec::new();
        let mut i: usize = 0;
        while i < o
            invariant
                i <= o,
                memory.len() == i,
                forall|j: int| 0 <= j < i ==> #[trigger] memory[j]@ == qzero(),
            decreases o - i,
        {
            memory.push(Rat::zero());
            i = i + 1;
        }
        match self.core.set_state_value(Tag::InputsMemory, Value::RealVec(memory)) {
            Ok(()) => {},
            Err(e) => {
                proof {
                    assert(false);
                }
                return Err(e);
            },
        }
        self.core.set_state(StreamingState::Initial);
        Ok(())
    }

    /// Exact `process`: receives one block on `input`, emits its
    /// convolution on `output`, and retains the last `order` samples.  A
    /// missing upstream value reports `ChannelClosed`; a value of the wrong
    /// kind, or a sample outside the machine range, is fatal and stops the
    /// block; statics whose shapes have been broken since `init` report
    /// `InvalidStatics` without side effects.
    pub fn process_block(&mut self, inputs: &PortMap) -> (r: Result<PortMap, StreamingError>)
        requires
            old(self).wf(),
            inputs.wf(),
        ensures
            final(self).wf(),
            r == Err::<PortMap, StreamingError>(StreamingError::ChannelClosed)
                <==> !inputs.contains_spec(Tag::Input),
            !inputs.contains_spec(Tag::Input) ==> *final(self) == *old(self),
            r == Err::<PortMap, StreamingError>(StreamingError::InvalidInput) ==> final(self).lifecycle() == StreamingState::Stopped,
            inputs.contains_spec(Tag::Input) && model_kind(inputs.val_spec(Tag::Input))
                != ValueKind::RealVec ==> r == Err::<PortMap, StreamingError>(
                StreamingError::InvalidInput,
            ),
            r == Err::<PortMap, StreamingError>(StreamingError::InvalidStatics) <==> (
            inputs.contains_spec(Tag::Input) && model_kind(inputs.val_spec(Tag::Input))
                == ValueKind::RealVec && !old(self).shapes_ok()),
            r == Err::<PortMap, StreamingError>(StreamingError::InvalidStatics) ==> *final(self)
                == *old(self),
            r != Err::<PortMap, StreamingError>(StreamingError::InvalidStateTransition),
            inputs.contains_spec(Tag::Input) && model_kind(inputs.val_spec(Tag::Input))
                == ValueKind::RealVec && old(self).shapes_ok() ==> (r is Ok || r == Err::<
                PortMap,
                StreamingError,
            >(StreamingError::InvalidInput)),
            inputs.contains_spec(Tag::Input) && model_kind(inputs.val_spec(Tag::Input))
                == ValueKind::RealVec && old(self).shapes_ok() && fir_fits(
                old(self).coeff_spec(),
                old(self).memory_spec() + inputs.val_spec(Tag::Input)->RealVec_0,
                inputs.val_spec(Tag::Input)->RealVec_0.len() as int,
            ) ==> r is Ok,
            r matches Ok(out) ==> {
                let x = inputs.val_spec(Tag::Input)->RealVec_0;
                let c = old(self).coeff_spec();
                let ext = old(self).memory_spec() + x;
                &&& inputs.contains_spec(Tag::Input)
                &&& model_kind(inputs.val_spec(Tag::Input)) == ValueKind::RealVec
                &&& c.len() == old(self).order_spec() + 1
                &&& old(self).memory_spec().len() == old(self).order_spec()
                &&& out.wf()
                &&& out.contains_spec(Tag::Output)
                &&& model_kind(out.val_spec(Tag::Output)) == ValueKind::RealVec
                &&& out.val_spec(Tag::Output)->RealVec_0.len() == x.len()
                &&& forall|k: int|
                    0 <= k < x.len() ==> qeq(
                        #[trigger] out.val_spec(Tag::Output)->RealVec_0[k],
                        fir_out(c, ext, k),
                    )
                &&& final(self).memory_spec() == ext.subrange(x.len() as int, ext.len() as int)
                &&& final(self).core.state_spec().same_but(&old(self).core.state_spec(), Tag::InputsMemory)
                &&& final(self).core.statics_spec() == old(self).core.statics_spec()
                &&& final(self).core.parameters_spec() == old(self).core.parameters_spec()
                &&& final(self).core.inputs_spec() == old(self).core.inputs_spec()
                &&& final(self).core.outputs_spec() == old(self).core.outputs_spec()
                &&& final(self).core.name_spec() == old(self).core.name_spec()
                &&& final(self).lifecycle() == old(self).lifecycle()
            },
    {
        let got = match inputs.get(Tag::Input) {
            Some(v) => v,
            None => {
                return Err(StreamingError::ChannelClosed);
            },
        };
        let x: Vec<Rat> = match got {
            Value::RealVec(x) => x,
            _ => {
                proof {
                    crate::connectors::lemma_portmap_val(inputs, Tag::Input);
                }
                self.core.set_state(StreamingState::Stopped);
                return Err(StreamingError::InvalidInput);
            },
        };
        let ov = match self.core.get_statics(Tag::Order, ValueKind::Int) {
            Ok(v) => v,
            Err(e) => {
                proof {
                    assert(false);
                }
                return Err(e);
            },
        };
        let o: usize = match ov {
            Value::Int(o) => o,
            _ => {
                proof {
                    assert(false);
                }
                return Err(StreamingError::InvalidStatics);
            },
        };
        let cv = match self.core.get_statics(Tag::Coefficient, ValueKind::RealVec) {
            Ok(v) => v,
            Err(e) => {
                proof {
                    assert(false);
                }
                return Err(e);
            },
        };
        let c: Vec<Rat> = match cv {
            Value::RealVec(c) => c,
            _ => {
                proof {
                    assert(false);
                }
                return Err(StreamingError::InvalidStatics);
            },
        };
        let mv = match self.core.get_state_value(Tag::InputsMemory, ValueKind::RealVec) {
            Ok(v) => v,
            Err(e) => {
                proof {
                    assert(false);
                }
                return Err(e);
            },
        };
        let mem: Vec<Rat> = match mv {
            Value::RealVec(m) => m,
            _ => {
                proof {
                    assert(false);
                }
                return Err(StreamingError::InvalidStatics);
            },
        };
        if c.len() == 0 || o != c.len() - 1 || mem.len() != o {
            return Err(StreamingError::InvalidStatics);
        }
        let kr = fir_filter(&c, &mem, &x);
        match kr {
            None => {
                proof {
                    assert(seq_rats(x) =~= inputs.val_spec(Tag::Input)->RealVec_0);
                    assert(seq_rats(c) =~= old(self).coeff_spec());
                    assert(seq_rats(mem) =~= old(self).memory_spec());
                }
                self.core.set_state(StreamingState::Stopped);
                Err(StreamingError::InvalidInput)
            },
            Some((y, mem2)) => {
                proof {
                    assert(seq_rats(x) =~= inputs.val_spec(Tag::Input)->RealVec_0);
                    assert(seq_rats(c) =~= old(self).coeff_spec());
                    assert(seq_rats(mem) =~= old(self).memory_spec());
                }
                match self.core.set_state_value(Tag::InputsMemory, Value::RealVec(mem2)) {
                    Ok(()) => {},
                    Err(e) => {
                        proof {
                            assert(false);
                        }
                        return Err(e);
                    },
                }
                let mut out = PortMap::new();
                out.insert(Tag::Output, Value::RealVec(y));
                proof {
                    assert(out.val_spec(Tag::Output)->RealVec_0 =~= seq_rats(y));
                    assert(final(self).memory_spec() =~= seq_rats(mem2));
                }
                Ok(out)
            },
        }
    }
}

impl StreamProcessor for Fir {
    open spec fn lifecycle(&self) -> StreamingState {
        self.core.lifecycle_spec()
    }

    open spec fn initialized(&self) -> bool {
        self.core.initialized_spec()
    }

    open spec fn wf(&self) -> bool {
        self.shape_wf()
    }

    fn init(&mut self) -> (r: Result<(), StreamingError>) {
        self.init_block()
    }

    fn run(&mut self) -> (r: Result<(), StreamingError>) {
        match self.core.run_guard() {
            Err(e) => Err(e),
            Ok(()) => {
                self.core.set_state(StreamingState::Running);
                Ok(())
            },
        }
    }

    fn process(&mut self, inputs: &PortMap) -> (r: Result<PortMap, StreamingError>) {
        self.process_block(inputs)
    }

    fn stop(&mut self) -> (r: Result<(), StreamingError>) {
        self.core.set_state(StreamingState::Stopped);
        Ok(())
    }
}

/// Driven by a unit impulse from a zero history, a FIR filter replays its
/// coefficient vector: sample `k` of the output is `c[k]` while `k <=
/// order`, and zero afterwards.
pub proof fn lemma_fir_impulse(c: Seq<(int, int)>, x: Seq<(int, int)>, k: int)
    requires
        qseq_wf(c),
        c.len() >= 1,
        qseq_wf(x),
        0 <= k < x.len(),
        x[0] == qone(),
        forall|i: int| 1 <= i < x.len() ==> qeq(#[trigger] x[i], qzero()),
    ensures
        k < c.len() ==> qeq(fir_out(c, Seq::new((c.len() - 1) as nat, |i: int| qzero()) + x, k), c[k]),
        k >= c.len() ==> qeq(
            fir_out(c, Seq::new((c.len() - 1) as nat, |i: int| qzero()) + x, k),
            qzero(),
        ),
{
    let ord = c.len() - 1;
    let ext = Seq::new(ord as nat, |i: int| qzero()) + x;
    let terms = Seq::new(c.len(), |i: int| qmul(c[i], ext[c.len() - 1 + k - i]));
    assert(qwf(qzero()));
    assert forall|j: int| 0 <= j < ext.len() implies qwf(#[trigger] ext[j]) by {
        if j >= ord {
            assert(ext[j] == x[j - ord]);
        }
    }
    assert forall|i: int| 0 <= i < terms.len() implies qwf(#[trigger] terms[i]) by {
        lemma_qadd_wf(c[i], ext[ord + k - i]);
    }
    assert forall|i: int| 0 <= i < terms.len() && i != k implies qeq(
        #[trigger] terms[i],
        qzero(),
    ) by {
        let j = ord + k - i;
        if j < ord {
            assert(ext[j] == qzero());
            lemma_qmul_zero(c[i], qzero());
        } else {
            assert(ext[j] == x[j - ord]);
            assert(j - ord == k - i);
            assert(k - i >= 1);
            lemma_qmul_zero(c[i], x[k - i]);
        }
    }
    if k < c.len() {
        assert(ext[ord + k - k] == x[0]);
        assert(terms[k] == qmul(c[k], qone()));
        assert(qmul(c[k], qone()).0 == c[k].0 && qmul(c[k], qone()).1 == c[k].1) by (nonlinear_arith);
        lemma_qsum_single(terms, k);
        assert(qeq(terms[k], c[k])) by {
            assert(terms[k] == c[k]);
        }
        lemma_qsum_wf(terms);
        lemma_qeq_trans(qsum(terms), terms[k], c[k]);
    } else {
        lemma_qsum_zero(terms);
    }
}

} // verus!
