//! The transfer-function block.
//!
//! Statics: `numerator`, `denominator` and the initial state `x0`.  `init`
//! left-pads the numerator with zeros to the denominator's length and
//! builds the controllable-canonical-form state-space engine; each process
//! step advances the engine by one sample.

use crate::connectors::PortMap;
use crate::matrix::Mat;
use crate::rat::{qeq, qzero, seq_rats, Rat};
use crate::state_space::{
    ss_next_entry, ss_out_entry, tf_a_entry, tf_b_entry, tf_c_entry, tf_d_entry, tf_fits,
    StateSpace,
};
use crate::stream_processor::{BlockCore, StreamProcessor};
use crate::streaming_data::{StreamingError, StreamingState};
use crate::tags::Tag;
use crate::value::{model_kind, Validator, Value, ValueKind};
use vstd::prelude::*;

verus! {

/// The numerator left-padded with zero coefficients to length `len`.
pub open spec fn padded_num(num: Seq<(int, int)>, len: int) -> Seq<(int, int)> {
    Seq::new(
        len as nat,
        |i: int|
            if i < len - num.len() {
                qzero()
            } else {
                num[i - (len - num.len())]
            },
    )
}

/// The transfer-function block.
pub struct Tf {
    pub core: BlockCore,
    pub model: StateSpace,
}

impl Tf {
    /// The block's fixed shape: its ports and slots, with their kinds, and
    /// a dimensionally consistent engine.
    pub open spec fn shape_wf(&self) -> bool {
        &&& self.core.wf()
        &&& self.model.wf()
        &&& self.core.inputs_spec().contains_spec(Tag::Input)
        &&& self.core.inputs_spec().kind_spec(Tag::Input) == ValueKind::RealVec
        &&& self.core.outputs_spec().contains_spec(Tag::Output)
        &&& self.core.outputs_spec().kind_spec(Tag::Output) == ValueKind::RealVec
        &&& self.core.statics_spec().contains_spec(Tag::Numerator)
        &&& self.core.statics_spec().kind_spec(Tag::Numerator) == ValueKind::RealVec
        &&& self.core.statics_spec().contains_spec(Tag::Denominator)
        &&& self.core.statics_spec().kind_spec(Tag::Denominator) == ValueKind::RealVec
        &&& self.core.statics_spec().contains_spec(Tag::X0)
        &&& self.core.statics_spec().kind_spec(Tag::X0) == ValueKind::RealVec
    }

    pub open spec fn num_spec(&self) -> Seq<(int, int)> {
        self.core.statics_spec().val_spec(Tag::Numerator)->RealVec_0
    }

    pub open spec fn den_spec(&self) -> Seq<(int, int)> {
        self.core.statics_spec().val_spec(Tag::Denominator)->RealVec_0
    }

    pub open spec fn x0_spec(&self) -> Seq<(int, int)> {
        self.core.statics_spec().val_spec(Tag::X0)->RealVec_0
    }

    /// The shapes `init` demands: a denominator of at least two
    /// coefficients, a nonempty numerator no longer than it, and an initial
    /// state one shorter than the denominator.
    pub open spec fn init_shapes_ok(&self) -> bool {
        &&& self.den_spec().len() >= 2
        &&& self.num_spec().len() >= 1
        &&& self.num_spec().len() <= self.den_spec().len()
        &&& self.x0_spec().len() == self.den_spec().len() - 1
    }

    /// A fresh transfer-function block named `name`, in state `Null`:
    /// exactly the ports `input` and `output` and the statics `numerator`,
    /// `denominator` and `x0` (all default empty), unconstrained and
    /// unassigned.
    pub fn new(name: String) -> (b: Tf)
        ensures
            b.wf(),
            b.lifecycle() == StreamingState::Null,
            !b.initialized(),
            b.core.name_spec() == name@,
            b.core.statics_spec().val_spec(Tag::Numerator)->RealVec_0.len() == 0,
            b.core.statics_spec().validator_spec(Tag::Numerator) == Validator::Any,
            !b.core.statics_spec().assigned_spec(Tag::Numerator),
            b.core.statics_spec().val_spec(Tag::Denominator)->RealVec_0.len() == 0,
            b.core.statics_spec().validator_spec(Tag::Denominator) == Validator::Any,
            !b.core.statics_spec().assigned_spec(Tag::Denominator),
            b.core.statics_spec().val_spec(Tag::X0)->RealVec_0.len() == 0,
            b.core.statics_spec().validator_spec(Tag::X0) == Validator::Any,
            !b.core.statics_spec().assigned_spec(Tag::X0),
            forall|t: Tag|
                #[trigger] b.core.statics_spec().contains_spec(t) ==> t == Tag::Numerator || t
                    == Tag::Denominator || t == Tag::X0,
            forall|t: Tag| !b.core.state_spec().contains_spec(t),
            forall|t: Tag| #[trigger] b.core.inputs_spec().contains_spec(t) ==> t == Tag::Input,
            forall|t: Tag| #[trigger] b.core.outputs_spec().contains_spec(t) ==> t == Tag::Output,
            forall|t: Tag| !b.core.parameters_spec().contains_spec(t),
    {
        let mut core = BlockCore::new(name);
        let ghost in0 = core.inputs_spec();
        let _ = core.new_input(Tag::Input, ValueKind::RealVec);
        let ghost out0 = core.outputs_spec();
        let _ = core.new_output(Tag::Output, ValueKind::RealVec);
        let ghost st0 = core.statics_spec();
        let _ = core.new_statics(Tag::Numerator, Value::RealVec(Vec::new()), Validator::Any);
        let ghost st1 = core.statics_spec();
        proof {
            assert(core.statics_spec().contains_spec(Tag::Numerator));
            assert(!core.statics_spec().assigned_spec(Tag::Numerator));
        }
        let _ = core.new_statics(Tag::Denominator, Value::RealVec(Vec::new()), Validator::Any);
        let ghost st2 = core.statics_spec();
        proof {
            assert(core.statics_spec().contains_spec(Tag::Numerator));
            assert(!core.statics_spec().assigned_spec(Tag::Numerator));
        }
        let _ = core.new_statics(Tag::X0, Value::RealVec(Vec::new()), Validator::Any);
        let ghost st3 = core.statics_spec();
        proof {
            assert(core.statics_spec().contains_spec(Tag::Numerator));
            assert(core.statics_spec().contains_spec(Tag::Denominator));
            assert(core.statics_spec().contains_spec(Tag::X0));
            assert(core.inputs_spec().contains_spec(Tag::Input));
            assert(core.outputs_spec().contains_spec(Tag::Output));
            assert(!core.statics_spec().assigned_spec(Tag::Numerator));
        }
        let one = Mat::new(1, 1);
        let one2 = Mat::new(1, 1);
        let one3 = Mat::new(1, 1);
        let one4 = Mat::new(1, 1);
        let one5 = Mat::new(1, 1);
        let model = StateSpace::new(one, one2, one3, one4, one5);
        let b = Tf { core, model };
        proof {
            assert(b.core.statics_spec().val_spec(Tag::Numerator)->RealVec_0 =~= Seq::empty());
            assert(b.core.statics_spec().val_spec(Tag::Denominator)->RealVec_0 =~= Seq::empty());
            assert(b.core.statics_spec().val_spec(Tag::X0)->RealVec_0 =~= Seq::empty());
            assert forall|t: Tag| #[trigger] b.core.statics_spec().contains_spec(t) implies t
                == Tag::Numerator || t == Tag::Denominator || t == Tag::X0 by {
                if t != Tag::Numerator && t != Tag::Denominator && t != Tag::X0 {
                    assert(st3.contains_spec(t) == st2.contains_spec(t));
                    assert(st2.contains_spec(t) == st1.contains_spec(t));
                    assert(st1.contains_spec(t) == st0.contains_spec(t));
                    assert(!st0.contains_spec(t));
                }
            }
            assert forall|t: Tag| #[trigger] b.core.inputs_spec().contains_spec(t) implies t
                == Tag::Input by {
                if t != Tag::Input {
                    assert(!in0.contains_spec(t));
                }
            }
            assert forall|t: Tag| #[trigger] b.core.outputs_spec().contains_spec(t) implies t
                == Tag::Output by {
                if t != Tag::Output {
                    assert(!out0.contains_spec(t));
                }
            }
        }
        b
    }

    /// Exact `init`: rejected from `Running`; rejected, without side
    /// effects, while a static is unassigned, while the shapes disagree
    /// (`denominator` shorter than two, empty `numerator`, a numerator
    /// longer than the denominator, an `x0` that is not one shorter than
    /// the denominator), or when the leading denominator coefficient is
    /// zero; otherwise builds the canonical-form engine and enters
    /// `Initial`.
    pub fn init_block(&mut self) -> (r: Result<(), StreamingError>)
        requires
            old(self).wf(),
        ensures
            final(self).wf(),
            r is Err ==> *final(self) == *old(self),
            old(self).lifecycle() == StreamingState::Running ==> r == Err::<(), StreamingError>(
                StreamingError::InvalidStateTransition,
            ),
            old(self).lifecycle() != StreamingState::Running && !old(self).initialized() ==> r
                == Err::<(), StreamingError>(StreamingError::InvalidStatics),
            old(self).lifecycle() != StreamingState::Running && old(self).initialized() && !(old(
                self,
            ).init_shapes_ok() && old(self).den_spec()[0].0 != 0) ==> r == Err::<
                (),
                StreamingError,
            >(StreamingError::InvalidStatics),
            old(self).lifecycle() != StreamingState::Running && old(self).initialized() && old(
                self,
            ).init_shapes_ok() && tf_fits(
                padded_num(old(self).num_spec(), old(self).den_spec().len() as int),
                old(self).den_spec(),
            ) && (old(self).den_spec().len() - 1) * (old(self).den_spec().len() - 1)
                <= usize::MAX ==> r is Ok,
            r is Ok ==> {
                let den = old(self).den_spec();
                let num = padded_num(old(self).num_spec(), den.len() as int);
                let n = den.len() - 1;
                &&& old(self).lifecycle() != StreamingState::Running
                &&& old(self).initialized()
                &&& den.len() >= 2
                &&& old(self).num_spec().len() >= 1
                &&& old(self).num_spec().len() <= den.len()
                &&& old(self).x0_spec().len() == n
                &&& final(self).lifecycle() == StreamingState::Initial
                &&& final(self).core.statics_spec() == old(self).core.statics_spec()
                &&& final(self).model.wf()
                &&& final(self).model.a.rdim() == n && final(self).model.a.cdim() == n
                &&& final(self).model.b.cdim() == 1
                &&& forall|i: int, j: int|
                    0 <= i < n && 0 <= j < n ==> qeq(
                        #[trigger] final(self).model.a@[i][j],
                        tf_a_entry(den, i, j),
                    )
                &&& forall|i: int|
                    0 <= i < n ==> qeq(#[trigger] final(self).model.b@[i][0], tf_b_entry(num, den, i))
                &&& forall|j: int|
                    0 <= j < n ==> #[trigger] final(self).model.c@[0][j] == tf_c_entry(n as int, j)
                &&& qeq(final(self).model.d@[0][0], tf_d_entry(num, den))
                &&& forall|i: int|
                    0 <= i < n ==> #[trigger] final(self).model.x@[i][0] == old(self).x0_spec()[i]
            },
    {
        match self.core.init_guard() {
            Err(e) => {
                return Err(e);
            },
            Ok(()) => {},
        }
        let num: Vec<Rat> = match self.core.get_statics(Tag::Numerator, ValueKind::RealVec) {
            Ok(Value::RealVec(v)) => v,
            _ => {
                proof {
                    assert(false);
                }
                return Err(StreamingError::InvalidStatics);
            },
        };
        let den: Vec<Rat> = match self.core.get_statics(Tag::Denominator, ValueKind::RealVec) {
            Ok(Value::RealVec(v)) => v,
            _ => {
                proof {
                    assert(false);
                }
                return Err(StreamingError::InvalidStatics);
            },
        };
        let x0: Vec<Rat> = match self.core.get_statics(Tag::X0, ValueKind::RealVec) {
            Ok(Value::RealVec(v)) => v,
            _ => {
                proof {
                    assert(false);
                }
                return Err(StreamingError::InvalidStatics);
            },
        };
        if den.len() < 2 || num.len() == 0 || num.len() > den.len() || x0.len() != den.len() - 1 {
            return Err(StreamingError::InvalidStatics);
        }
        // Left-pad the numerator with zeros to the denominator's length.
        let padlen: usize = den.len() - num.len();
        let mut numf: Vec<Rat> = Vec::new();
        let mut t: usize = 0;
        while t < padlen
            invariant
                t <= padlen,
                numf.len() == t,
                forall|i: int| 0 <= i < t ==> #[trigger] numf[i]@ == qzero(),
            decreases padlen - t,
        {
            numf.push(Rat::zero());
            t = t + 1;
        }
        let mut t2: usize = 0;
        while t2 < num.len()
            invariant
                t2 <= num.len(),
                padlen == den.len() - num.len(),
                numf.len() == padlen + t2,
                forall|i: int| 0 <= i < padlen ==> #[trigger] numf[i]@ == qzero(),
                forall|i: int| 0 <= i < t2 ==> #[trigger] numf[padlen + i] == num[i],
            decreases num.len() - t2,
        {
            numf.push(num[t2]);
            t2 = t2 + 1;
        }
        proof {
            let ghost_num = padded_num(old(self).num_spec(), old(self).den_spec().len() as int);
            assert(seq_rats(numf) =~= ghost_num) by {
                assert forall|i: int| 0 <= i < numf.len() implies seq_rats(numf)[i]
                    == ghost_num[i] by {
                    assert(seq_rats(numf)[i] == numf[i]@);
                    if i >= padlen {
                        assert(numf[padlen + (i - padlen)] == num[i - padlen]);
                        assert(seq_rats(num)[i - padlen] == num[i - padlen]@);
                        assert(seq_rats(num) =~= old(self).num_spec());
                    }
                }
            }
            assert(seq_rats(den) =~= old(self).den_spec());
            assert(seq_rats(x0) =~= old(self).x0_spec());
        }
        let model = match StateSpace::from_tf(&numf, &den, &x0) {
            Some(m) => m,
            None => {
                return Err(StreamingError::InvalidStatics);
            },
        };
        self.model = model;
        self.core.set_state(StreamingState::Initial);
        Ok(())
    }

    /// Exact `process`: receives a column vector `u`, advances the engine
    /// one step, and emits `y = C x' + D u`.  A dimension mismatch stops
    /// the block and reports `InvalidInput`.
    pub fn process_block(&mut self, inputs: &PortMap) -> (r: Result<PortMap, StreamingError>)
        requires
            old(self).wf(),
            inputs.wf(),
        ensures
            final(self).wf(),
            r == Err::<PortMap, StreamingError>(StreamingError::ChannelClosed)
                <==> !inputs.contains_spec(Tag::Input),
            !inputs.contains_spec(Tag::Input) ==> *final(self) == *old(self),
            r == Err::<PortMap, StreamingError>(StreamingError::InvalidInput) ==> final(self).lifecycle() == StreamingState::Stopped,
            inputs.contains_spec(Tag::Input) && model_kind(inputs.val_spec(Tag::Input))
                != ValueKind::RealVec ==> r == Err::<PortMap, StreamingError>(
                StreamingError::InvalidInput,
            ),
            inputs.contains_spec(Tag::Input) && model_kind(inputs.val_spec(Tag::Input))
                == ValueKind::RealVec && inputs.val_spec(Tag::Input)->RealVec_0.len() != old(self).model.b.cdim() ==> r == Err::<PortMap, StreamingError>(
                StreamingError::InvalidInput,
            ),
            r == Err::<PortMap, StreamingError>(StreamingError::InvalidInput) ==> final(self).model
                == old(self).model && final(self).core.statics_spec() == old(self).core.statics_spec(),
            r != Err::<PortMap, StreamingError>(StreamingError::InvalidStatics),
            r != Err::<PortMap, StreamingError>(StreamingError::InvalidStateTransition),
            inputs.contains_spec(Tag::Input) && model_kind(inputs.val_spec(Tag::Input))
                == ValueKind::RealVec && inputs.val_spec(Tag::Input)->RealVec_0.len() == old(self).model.b.cdim() ==> (r is Ok || r == Err::<PortMap, StreamingError>(
                StreamingError::InvalidInput,
            )),
            r matches Ok(out) ==> {
                let u = inputs.val_spec(Tag::Input)->RealVec_0;
                &&& inputs.contains_spec(Tag::Input)
                &&& model_kind(inputs.val_spec(Tag::Input)) == ValueKind::RealVec
                &&& u.len() == old(self).model.b.cdim()
                &&& out.wf()
                &&& out.contains_spec(Tag::Output)
                &&& model_kind(out.val_spec(Tag::Output)) == ValueKind::RealVec
                &&& out.val_spec(Tag::Output)->RealVec_0.len() == old(self).model.c.rdim()
                &&& final(self).model.a == old(self).model.a && final(self).model.b == old(self).model.b && final(self).model.c == old(self).model.c && final(self).model.d == old(self).model.d
                &&& forall|i: int|
                    0 <= i < final(self).model.x.rdim() ==> qeq(
                        #[trigger] final(self).model.x@[i][0],
                        ss_next_entry(
                            old(self).model.a@,
                            old(self).model.b@,
                            old(self).model.x@,
                            crate::matrix::mat_col(u),
                            i,
                        ),
                    )
                &&& forall|i: int|
                    0 <= i < out.val_spec(Tag::Output)->RealVec_0.len() ==> qeq(
                        #[trigger] out.val_spec(Tag::Output)->RealVec_0[i],
                        ss_out_entry(
                            old(self).model.c@,
                            old(self).model.d@,
                            final(self).model.x@,
                            crate::matrix::mat_col(u),
                            i,
                        ),
                    )
                &&& final(self).core == old(self).core
            },
    {
        let got = match inputs.get(Tag::Input) {
            Some(v) => v,
            None => {
                return Err(StreamingError::ChannelClosed);
            },
        };
        let u: Vec<Rat> = match got {
            Value::RealVec(v) => v,
            _ => {
                self.core.set_state(StreamingState::Stopped);
                return Err(StreamingError::InvalidInput);
            },
        };
        if u.len() != self.model.get_input_size() {
            self.core.set_state(StreamingState::Stopped);
            return Err(StreamingError::InvalidInput);
        }
        let um = Mat::from_col(&u);
        proof {
            um.lemma_shape();
            assert(seq_rats(u) =~= inputs.val_spec(Tag::Input)->RealVec_0);
            let vm = inputs.val_spec(Tag::Input)->RealVec_0;
            assert forall|i: int| 0 <= i < um@.len() implies #[trigger] um@[i] =~= crate::matrix::mat_col(
                vm,
            )[i] by {
                assert(um@[i][0] == u[i]@);
                assert(crate::matrix::mat_col(vm)[i] == seq![vm[i]]);
                assert(vm[i] == seq_rats(u)[i]);
            }
            assert(um@ =~~= crate::matrix::mat_col(vm));
        }
        let y = match self.model.update(&um) {
            Some(y) => y,
            None => {
                self.core.set_state(StreamingState::Stopped);
                return Err(StreamingError::InvalidInput);
            },
        };
        let yv = y.col0();
        let mut out = PortMap::new();
        out.insert(Tag::Output, Value::RealVec(yv));
        proof {
            assert forall|i: int| 0 <= i < out.val_spec(Tag::Output)->RealVec_0.len() implies
                #[trigger] out.val_spec(Tag::Output)->RealVec_0[i] == y@[i][0] by {
                assert(out.val_spec(Tag::Output)->RealVec_0[i] == seq_rats(yv)[i]);
            }
        }
        Ok(out)
    }
}

impl StreamProcessor for Tf {
    open spec fn lifecycle(&self) -> StreamingState {
        self.core.lifecycle_spec()
    }

    open spec fn initialized(&self) -> bool {
        self.core.initialized_spec()
    }

    open spec fn wf(&self) -> bool {
        self.shape_wf()
    }

    fn init(&mut self) -> (r: Result<(), StreamingError>) {
        self.init_block()
    }

    fn run(&mut self) -> (r: Result<(), StreamingError>) {
        match self.core.run_guard() {
            Err(e) => Err(e),
            Ok(()) => {
                self.core.set_state(StreamingState::Running);
                Ok(())
            },
        }
    }

    fn process(&mut self, inputs: &PortMap) -> (r: Result<PortMap, StreamingError>) {
        self.process_block(inputs)
    }

    fn stop(&mut self) -> (r: Result<(), StreamingError>) {
        self.core.set_state(StreamingState::Stopped);
        Ok(())
    }
}

} // verus!
