//! The moving average block.
//!
//! Static: `order`.  Each output sample is the centred moving average with
//! half-window `order / 2`: the mean of the samples within the half-window
//! on both sides, with the window clipped at the edges so each edge output
//! divides by the actual (smaller) count.

use crate::connectors::PortMap;
use crate::rat::{
    lemma_qadd_congr, lemma_qadd_wf, lemma_qdiv_congr, lemma_qeq_trans, lemma_qsum_wf, q_in_range,
    qadd, qdiv, qeq, qseq_wf, qsum, qwf, qzero, rats_wf, seq_rats, Rat,
};
use crate::stream_processor::{BlockCore, StreamProcessor};
use crate::streaming_data::{StreamingError, StreamingState};
use crate::tags::Tag;
use crate::value::{model_kind, Validator, Value, ValueKind, ValueModel};
use vstd::prelude::*;

verus! {

/// The clipped window around sample `k` for half-window `h`.
pub open spec fn ma_window(x: Seq<(int, int)>, h: int, k: int) -> Seq<(int, int)> {
    x.subrange(
        if k - h >= 0 {
            k - h
        } else {
            0
        },
        if k + h + 1 <= x.len() {
            k + h + 1
        } else {
            x.len() as int
        },
    )
}

/// Output sample `k`: the mean of the clipped window around it.
pub open spec fn ma_out(x: Seq<(int, int)>, h: int, k: int) -> (int, int) {
    qdiv(qsum(ma_window(x, h, k)), (ma_window(x, h, k).len() as int, 1))
}

/// With `order` zero the half-window is empty and the average is the
/// sample itself: the moving average is the identity.
pub proof fn lemma_ma_identity(x: Seq<(int, int)>, k: int)
    requires
        qseq_wf(x),
        0 <= k < x.len(),
    ensures
        qeq(ma_out(x, 0, k), x[k]),
{
    let w = ma_window(x, 0, k);
    assert(w =~= seq![x[k]]);
    assert(w.drop_last() =~= Seq::<(int, int)>::empty());
    assert(qsum(Seq::<(int, int)>::empty()) == qzero());
    assert(w.last() == x[k]);
    assert(qsum(w) == qadd(qzero(), x[k]));
    assert(qadd(qzero(), x[k]) == (0 * x[k].1 + x[k].0 * 1, 1 * x[k].1));
    assert(qdiv(qsum(w), (1, 1)) == (qsum(w).0 * 1, qsum(w).1 * 1));
}

/// With a half-window reaching past both ends, every output is the mean of
/// the whole signal.
pub proof fn lemma_ma_full(x: Seq<(int, int)>, h: int, k: int)
    requires
        0 <= k < x.len(),
        h >= x.len() - 1,
    ensures
        ma_out(x, h, k) == qdiv(qsum(x), (x.len() as int, 1)),
{
    assert(ma_window(x, h, k) =~= x);
}

/// The moving average kernel; `None` only when a sample leaves the machine
/// range.
pub fn moving_average(order: usize, input: &Vec<Rat>) -> (r: Option<Vec<Rat>>)
    ensures
        r matches Some(y) ==> {
            &&& y.len() == input.len()
            &&& qseq_wf(seq_rats(y))
            &&& forall|k: int|
                0 <= k < input.len() ==> qeq(
                    #[trigger] seq_rats(y)[k],
                    ma_out(seq_rats(*input), order as int / 2, k),
                )
        },
        order == 0 && (forall|k: int|
            0 <= k < input.len() ==> q_in_range(
                (#[trigger] seq_rats(*input)[k]).0,
                seq_rats(*input)[k].1,
            )) ==> r is Some,
{
    let h: usize = order / 2;
    let n: usize = input.len();
    let _iw = rats_wf(input);
    let ghost xm = seq_rats(*input);
    let mut out: Vec<Rat> = Vec::new();
    let mut k: usize = 0;
    while k < n
        invariant
            k <= n,
            n == input.len(),
            h == order / 2,
            xm == seq_rats(*input),
            qseq_wf(xm),
            out.len() == k,
            forall|j: int|
                0 <= j < k ==> qeq(#[trigger] out[j]@, ma_out(xm, order as int / 2, j)),
            forall|j: int| 0 <= j < k ==> qwf(#[trigger] out[j]@),
        decreases n - k,
    {
        let lo: usize = if k >= h {
            k - h
        } else {
            0
        };
        let hi: usize = if k <= n - 1 && h < n - k {
            k + h + 1
        } else {
            n
        };
        let ghost w = ma_window(xm, h as int, k as int);
        proof {
            assert(w == xm.subrange(lo as int, hi as int));
            assert forall|j: int| 0 <= j < w.len() implies qwf(#[trigger] w[j]) by {
                assert(w[j] == xm[lo + j]);
            }
        }
        let mut acc = Rat::zero();
        let mut t: usize = lo;
        while t < hi
            invariant
                lo <= t <= hi,
                lo <= k < n,
                k < hi <= n,
                n == input.len(),
                xm == seq_rats(*input),
                qseq_wf(xm),
                w == xm.subrange(lo as int, hi as int),
                qseq_wf(w),
                qwf(acc@),
                qeq(acc@, qsum(w.take(t - lo))),
                order == 0 ==> lo == k && hi == k + 1,
                order == 0 && t == lo ==> acc@ == (0int, 1int),
                order == 0 && t == hi ==> -0x7fff_ffff_ffff_ffff <= acc@.0
                    <= 0x7fff_ffff_ffff_ffff && acc@.1 <= 0x7fff_ffff_ffff_ffff,
            decreases hi - t,
        {
            let e = input[t];
            let acc2 = match acc.try_add(&e) {
                Some(v) => v,
                None => {
                    proof {
                        if order == 0 {
                            assert(e@ == xm[t as int]);
                            assert(t == lo);
                            assert(acc@ == (0int, 1int));
                            assert(qadd(acc@, e@) == (0int * e@.1 + e@.0 * 1int, 1int * e@.1));
                            assert(qadd(acc@, e@) == (e@.0, e@.1));
                            assert(!q_in_range(xm[t as int].0, xm[t as int].1));
                        }
                    }
                    return None;
                },
            };
            proof {
                use_type_invariant(&e);
                let pre = w.take(t - lo);
                let post = w.take(t - lo + 1);
                assert(post.drop_last() =~= pre);
                assert(post.last() == w[t - lo]);
                assert(w[t - lo] == xm[t as int]);
                assert(xm[t as int] == input[t as int]@);
                lemma_qsum_wf(pre);
                lemma_qadd_wf(qsum(pre), w[t - lo]);
                lemma_qadd_wf(acc@, e@);
                lemma_qadd_congr(acc@, e@, qsum(pre), w[t - lo]);
                lemma_qeq_trans(acc2@, qadd(acc@, e@), qadd(qsum(pre), w[t - lo]));
            }
            acc = acc2;
            t = t + 1;
        }
        proof {
            assert(w.take(hi - lo) =~= w);
            lemma_qsum_wf(w);
        }
        let count: usize = hi - lo;
        if count as u128 > 0x7fff_ffff_ffff_ffffu128 {
            proof {
                assert(order != 0);
            }
            return None;
        }
        let cr = Rat::from_int(count as i64);
        let m = match acc.try_div(&cr) {
            Some(v) => v,
            None => {
                proof {
                    if order == 0 {
                        assert(count == 1);
                        assert(t == hi);
                        assert(-0x7fff_ffff_ffff_ffff <= acc@.0 <= 0x7fff_ffff_ffff_ffff
                            && acc@.1 <= 0x7fff_ffff_ffff_ffff);
                        assert(cr@ == (1int, 1int));
                        assert(qdiv(acc@, cr@) == (acc@.0 * 1, acc@.1 * 1));
                        assert(q_in_range(qdiv(acc@, cr@).0, qdiv(acc@, cr@).1));
                        assert(false);
                    }
                }
                return None;
            },
        };
        proof {
            crate::rat::lemma_qeq_sym(acc@, qsum(w));
            lemma_qdiv_congr(qsum(w), (w.len() as int, 1int), acc@, cr@);
            lemma_qdiv_congr(acc@, cr@, qsum(w), (w.len() as int, 1int));
            lemma_qeq_trans(m@, qdiv(acc@, cr@), qdiv(qsum(w), (w.len() as int, 1int)));
        }
        let ghost oldoutv = out@;
        out.push(m);
        k = k + 1;
        proof {
            assert forall|j: int| 0 <= j < k implies qeq(
                #[trigger] out[j]@,
                ma_out(xm, order as int / 2, j),
            ) by {
                if j < k - 1 {
                    assert(out@[j] == oldoutv[j]);
                } else {
                    assert(out@[j] == m);
                }
            }
        }
    }
    proof {
        assert forall|j: int| 0 <= j < seq_rats(out).len() implies qwf(#[trigger] seq_rats(out)[j])
            && qeq(seq_rats(out)[j], ma_out(xm, order as int / 2, j)) by {
            assert(seq_rats(out)[j] == out[j]@);
        }
    }
    Some(out)
}

/// The moving average block.
pub struct MovingAverage {
    pub core: BlockCore,
}

impl MovingAverage {
    /// The block's fixed shape: its ports and slots, with their kinds.
    pub open spec fn shape_wf(&self) -> bool {
        &&& self.core.wf()
        &&& self.core.inputs_spec().contains_spec(Tag::Input)
        &&& self.core.inputs_spec().kind_spec(Tag::Input) == ValueKind::RealVec
        &&& self.core.outputs_spec().contains_spec(Tag::Output)
        &&& self.core.outputs_spec().kind_spec(Tag::Output) == ValueKind::RealVec
        &&& self.core.statics_spec().contains_spec(Tag::Order)
        &&& self.core.statics_spec().kind_spec(Tag::Order) == ValueKind::Int
    }

    pub open spec fn order_spec(&self) -> int {
        self.core.statics_spec().val_spec(Tag::Order)->Int_0
    }

    /// A fresh moving average block named `name`, in state `Null`: exactly the
    /// ports `input` and `output` and the static `order` (default zero),
    /// unconstrained and unassigned.
    pub fn new(name: String) -> (b: MovingAverage)
        ensures
            b.wf(),
            b.lifecycle() == StreamingState::Null,
            !b.initialized(),
            b.core.name_spec() == name@,
            b.core.statics_spec().val_spec(Tag::Order) == ValueModel::Int(0),
            b.core.statics_spec().validator_spec(Tag::Order) == Validator::Any,
            !b.core.statics_spec().assigned_spec(Tag::Order),
            forall|t: Tag| #[trigger] b.core.statics_spec().contains_spec(t) ==> t == Tag::Order,
            forall|t: Tag| !b.core.state_spec().contains_spec(t),
            forall|t: Tag| #[trigger] b.core.inputs_spec().contains_spec(t) ==> t == Tag::Input,
            forall|t: Tag| #[trigger] b.core.outputs_spec().contains_spec(t) ==> t == Tag::Output,
            forall|t: Tag| !b.core.parameters_spec().contains_spec(t),
    {
        let mut core = BlockCore::new(name);
        let ghost in0 = core.inputs_spec();
        let _ = core.new_input(Tag::Input, ValueKind::RealVec);
        let ghost out0 = core.outputs_spec();
        let _ = core.new_output(Tag::Output, ValueKind::RealVec);
        let ghost st0 = core.statics_spec();
        let _ = core.new_statics(Tag::Order, Value::Int(0), Validator::Any);
        let b = MovingAverage { core };
        proof {
            assert(!b.core.statics_spec().assigned_spec(Tag::Order));
            assert forall|t: Tag| #[trigger] b.core.statics_spec().contains_spec(t) implies t
                == Tag::Order by {
                if t != Tag::Order {
                    assert(!st0.contains_spec(t));
                }
            }
            assert forall|t: Tag| #[trigger] b.core.inputs_spec().contains_spec(t) implies t
                == Tag::Input by {
                if t != Tag::Input {
                    assert(!in0.contains_spec(t));
                }
            }
            assert forall|t: Tag| #[trigger] b.core.outputs_spec().contains_spec(t) implies t
                == Tag::Output by {
                if t != Tag::Output {
                    assert(!out0.contains_spec(t));
                }
            }
        }
        b
    }

    /// Exact `init`: rejected from `Running`; rejected while `order` is
    /// unassigned; otherwise enters `Initial`.
    pub fn init_block(&mut self) -> (r: Result<(), StreamingError>)
        requires
            old(self).wf(),
        ensures
            final(self).wf(),
            r is Err ==> *final(self) == *old(self),
            old(self).lifecycle() == StreamingState::Running ==> r == Err::<(), StreamingError>(
                StreamingError::InvalidStateTransition,
            ),
            old(self).lifecycle() != StreamingState::Running && !old(self).initialized() ==> r
                == Err::<(), StreamingError>(StreamingError::InvalidStatics),
            old(self).lifecycle() != StreamingState::Running && old(self).initialized() ==> {
                &&& r == Ok::<(), StreamingError>(())
                &&& final(self).lifecycle() == StreamingState::Initial
                &&& final(self).core.statics_spec() == old(self).core.statics_spec()
            },
    {
        match self.core.init_guard() {
            Err(e) => {
                return Err(e);
            },
            Ok(()) => {},
        }
        self.core.set_state(StreamingState::Initial);
        Ok(())
    }

    /// Exact `process`: emits, for each input sample, the mean of the
    /// clipped centred window around it.
    pub fn process_block(&mut self, inputs: &PortMap) -> (r: Result<PortMap, StreamingError>)
        requires
            old(self).wf(),
            inputs.wf(),
        ensures
            final(self).wf(),
            r == Err::<PortMap, StreamingError>(StreamingError::ChannelClosed)
                <==> !inputs.contains_spec(Tag::Input),
            !inputs.contains_spec(Tag::Input) ==> *final(self) == *old(self),
            r == Err::<PortMap, StreamingError>(StreamingError::InvalidInput) ==> final(self).lifecycle() == StreamingState::Stopped,
            inputs.contains_spec(Tag::Input) && model_kind(inputs.val_spec(Tag::Input))
                != ValueKind::RealVec ==> r == Err::<PortMap, StreamingError>(
                StreamingError::InvalidInput,
            ),
            r != Err::<PortMap, StreamingError>(StreamingError::InvalidStatics),
            r != Err::<PortMap, StreamingError>(StreamingError::InvalidStateTransition),
            inputs.contains_spec(Tag::Input) && model_kind(inputs.val_spec(Tag::Input))
                == ValueKind::RealVec ==> (r is Ok || r == Err::<PortMap, StreamingError>(
                StreamingError::InvalidInput,
            )),
            inputs.contains_spec(Tag::Input) && model_kind(inputs.val_spec(Tag::Input))
                == ValueKind::RealVec && old(self).order_spec() == 0 && (forall|k: int|
                0 <= k < inputs.val_spec(Tag::Input)->RealVec_0.len() ==> q_in_range(
                    (#[trigger] inputs.val_spec(Tag::Input)->RealVec_0[k]).0,
                    inputs.val_spec(Tag::Input)->RealVec_0[k].1,
                )) ==> r is Ok,
            r matches Ok(out) ==> {
                let x = inputs.val_spec(Tag::Input)->RealVec_0;
                &&& inputs.contains_spec(Tag::Input)
                &&& model_kind(inputs.val_spec(Tag::Input)) == ValueKind::RealVec
                &&& out.wf()
                &&& out.contains_spec(Tag::Output)
                &&& model_kind(out.val_spec(Tag::Output)) == ValueKind::RealVec
                &&& out.val_spec(Tag::Output)->RealVec_0.len() == x.len()
                &&& forall|k: int|
                    0 <= k < x.len() ==> qeq(
                        #[trigger] out.val_spec(Tag::Output)->RealVec_0[k],
                        ma_out(x, old(self).order_spec() / 2, k),
                    )
                &&& *final(self) == *old(self)
            },
    {
        let got = match inputs.get(Tag::Input) {
            Some(v) => v,
            None => {
                return Err(StreamingError::ChannelClosed);
            },
        };
        let x: Vec<Rat> = match got {
            Value::RealVec(x) => x,
            _ => {
                self.core.set_state(StreamingState::Stopped);
                return Err(StreamingError::InvalidInput);
            },
        };
        let o: usize = match self.core.get_statics(Tag::Order, ValueKind::Int) {
            Ok(Value::Int(o)) => o,
            _ => {
                proof {
                    assert(false);
                }
                return Err(StreamingError::InvalidStatics);
            },
        };
        let kr = moving_average(o, &x);
        match kr {
            None => {
                proof {
                    assert(seq_rats(x) =~= inputs.val_spec(Tag::Input)->RealVec_0);
                }
                self.core.set_state(StreamingState::Stopped);
                Err(StreamingError::InvalidInput)
            },
            Some(y) => {
                proof {
                    assert(seq_rats(x) =~= inputs.val_spec(Tag::Input)->RealVec_0);
                }
                let mut out = PortMap::new();
                out.insert(Tag::Output, Value::RealVec(y));
                proof {
                    assert(out.val_spec(Tag::Output)->RealVec_0 =~= seq_rats(y));
                }
                Ok(out)
            },
        }
    }
}

impl StreamProcessor for MovingAverage {
    open spec fn lifecycle(&self) -> StreamingState {
        self.core.lifecycle_spec()
    }

    open spec fn initialized(&self) -> bool {
        self.core.initialized_spec()
    }

    open spec fn wf(&self) -> bool {
        self.shape_wf()
    }

    fn init(&mut self) -> (r: Result<(), StreamingError>) {
        self.init_block()
    }

    fn run(&mut self) -> (r: Result<(), StreamingError>) {
        match self.core.run_guard() {
            Err(e) => Err(e),
            Ok(()) => {
                self.core.set_state(StreamingState::Running);
                Ok(())
            },
        }
    }

    fn process(&mut self, inputs: &PortMap) -> (r: Result<PortMap, StreamingError>) {
        self.process_block(inputs)
    }

    fn stop(&mut self) -> (r: Result<(), StreamingError>) {
        self.core.set_state(StreamingState::Stopped);
        Ok(())
    }
}

} // verus!
