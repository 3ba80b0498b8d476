//! The state-space block.
//!
//! Statics: the matrices `A`, `B`, `C`, `D` and the initial state `x0`.
//! `init` validates the dimensions and installs the engine; each process
//! step receives a column vector, advances the engine, and emits the
//! output.

use crate::connectors::PortMap;
use crate::matrix::{grid_cols, mat_col, Mat};
use crate::rat::{qeq, seq_rats, Rat};
use crate::state_space::{ss_next_entry, ss_out_entry, StateSpace};
use crate::stream_processor::{BlockCore, StreamProcessor};
use crate::streaming_data::{StreamingError, StreamingState};
use crate::tags::Tag;
use crate::value::{model_kind, Validator, Value, ValueKind};
use vstd::prelude::*;

verus! {

/// The dimensions `init` demands of the configured matrices: `A` square
/// `n` by `n` with `n` at least one, `B` with `n` rows, `C` with at least
/// one row and `n` columns, `D` shaped `C.rows` by `B.cols`, and `x0` an
/// `n` by one column.  The zero-dimensional model (no state, or no output
/// row) is counted among the rejected shapes: the stored value of a matrix
/// with no rows does not determine its column count, so the dimension
/// agreements are not even expressible of it, and such an engine computes
/// nothing.
pub open spec fn ss_shapes_ok(st: crate::memory_manager::SlotStore) -> bool {
    let a = st.val_spec(Tag::MatA)->Matrix_0;
    let b = st.val_spec(Tag::MatB)->Matrix_0;
    let c = st.val_spec(Tag::MatC)->Matrix_0;
    let d = st.val_spec(Tag::MatD)->Matrix_0;
    let x0 = st.val_spec(Tag::X0)->Matrix_0;
    &&& a.len() >= 1
    &&& grid_cols(a) == a.len()
    &&& b.len() == a.len()
    &&& c.len() >= 1
    &&& grid_cols(c) == a.len()
    &&& d.len() == c.len()
    &&& grid_cols(d) == grid_cols(b)
    &&& x0.len() == a.len()
    &&& grid_cols(x0) == 1
}

/// The state-space block.
pub struct Ss {
    pub core: BlockCore,
    pub model: StateSpace,
}

impl Ss {
    /// The block's fixed shape: its ports and slots, with their kinds, and
    /// a dimensionally consistent engine.
    pub open spec fn shape_wf(&self) -> bool {
        &&& self.core.wf()
        &&& self.model.wf()
        &&& self.core.inputs_spec().contains_spec(Tag::Input)
        &&& self.core.inputs_spec().kind_spec(Tag::Input) == ValueKind::RealVec
        &&& self.core.outputs_spec().contains_spec(Tag::Output)
        &&& self.core.outputs_spec().kind_spec(Tag::Output) == ValueKind::RealVec
        &&& self.core.statics_spec().contains_spec(Tag::MatA)
        &&& self.core.statics_spec().kind_spec(Tag::MatA) == ValueKind::Matrix
        &&& self.core.statics_spec().contains_spec(Tag::MatB)
        &&& self.core.statics_spec().kind_spec(Tag::MatB) == ValueKind::Matrix
        &&& self.core.statics_spec().contains_spec(Tag::MatC)
        &&& self.core.statics_spec().kind_spec(Tag::MatC) == ValueKind::Matrix
        &&& self.core.statics_spec().contains_spec(Tag::MatD)
        &&& self.core.statics_spec().kind_spec(Tag::MatD) == ValueKind::Matrix
        &&& self.core.statics_spec().contains_spec(Tag::X0)
        &&& self.core.statics_spec().kind_spec(Tag::X0) == ValueKind::Matrix
    }

    /// A fresh state-space block named `name`, in state `Null`: exactly
    /// the ports `input` and `output` and the five matrix statics `A`,
    /// `B`, `C`, `D` and `x0` (placeholder one-by-one defaults), all
    /// unconstrained and unassigned.
    pub fn new(name: String) -> (b: Ss)
        ensures
            b.wf(),
            b.lifecycle() == StreamingState::Null,
            !b.initialized(),
            b.core.name_spec() == name@,
            b.core.statics_spec().validator_spec(Tag::MatA) == Validator::Any,
            b.core.statics_spec().validator_spec(Tag::MatB) == Validator::Any,
            b.core.statics_spec().validator_spec(Tag::MatC) == Validator::Any,
            b.core.statics_spec().validator_spec(Tag::MatD) == Validator::Any,
            b.core.statics_spec().validator_spec(Tag::X0) == Validator::Any,
            !b.core.statics_spec().assigned_spec(Tag::MatA),
            !b.core.statics_spec().assigned_spec(Tag::MatB),
            !b.core.statics_spec().assigned_spec(Tag::MatC),
            !b.core.statics_spec().assigned_spec(Tag::MatD),
            !b.core.statics_spec().assigned_spec(Tag::X0),
            forall|t: Tag|
                #[trigger] b.core.statics_spec().contains_spec(t) ==> t == Tag::MatA || t
                    == Tag::MatB || t == Tag::MatC || t == Tag::MatD || t == Tag::X0,
            forall|t: Tag| !b.core.state_spec().contains_spec(t),
            forall|t: Tag| #[trigger] b.core.inputs_spec().contains_spec(t) ==> t == Tag::Input,
            forall|t: Tag| #[trigger] b.core.outputs_spec().contains_spec(t) ==> t == Tag::Output,
            forall|t: Tag| !b.core.parameters_spec().contains_spec(t),
    {
        let mut core = BlockCore::new(name);
        let ghost in0 = core.inputs_spec();
        let _ = core.new_input(Tag::Input, ValueKind::RealVec);
        let ghost out0 = core.outputs_spec();
        let _ = core.new_output(Tag::Output, ValueKind::RealVec);
        let ghost st0 = core.statics_spec();
        let _ = core.new_statics(Tag::MatA, Value::Matrix(Mat::new(1, 1)), Validator::Any);
        let ghost st1 = core.statics_spec();
        let _ = core.new_statics(Tag::MatB, Value::Matrix(Mat::new(1, 1)), Validator::Any);
        let ghost st2 = core.statics_spec();
        proof {
            assert(core.statics_spec().contains_spec(Tag::MatA));
            assert(!core.statics_spec().assigned_spec(Tag::MatA));
        }
        let _ = core.new_statics(Tag::MatC, Value::Matrix(Mat::new(1, 1)), Validator::Any);
        let ghost st3 = core.statics_spec();
        proof {
            assert(core.statics_spec().contains_spec(Tag::MatA));
            assert(core.statics_spec().contains_spec(Tag::MatB));
            assert(!core.statics_spec().assigned_spec(Tag::MatA));
            assert(!core.statics_spec().assigned_spec(Tag::MatB));
        }
        let _ = core.new_statics(Tag::MatD, Value::Matrix(Mat::new(1, 1)), Validator::Any);
        let ghost st4 = core.statics_spec();
        proof {
            assert(core.statics_spec().contains_spec(Tag::MatA));
            assert(core.statics_spec().contains_spec(Tag::MatB));
            assert(core.statics_spec().contains_spec(Tag::MatC));
            assert(!core.statics_spec().assigned_spec(Tag::MatA));
            assert(!core.statics_spec().assigned_spec(Tag::MatB));
            assert(!core.statics_spec().assigned_spec(Tag::MatC));
        }
        let _ = core.new_statics(Tag::X0, Value::Matrix(Mat::new(1, 1)), Validator::Any);
        let ghost st5 = core.statics_spec();
        proof {
            assert(core.statics_spec().contains_spec(Tag::MatA));
            assert(core.statics_spec().contains_spec(Tag::MatB));
            assert(core.statics_spec().contains_spec(Tag::MatC));
            assert(core.statics_spec().contains_spec(Tag::MatD));
            assert(core.statics_spec().contains_spec(Tag::X0));
            assert(core.inputs_spec().contains_spec(Tag::Input));
            assert(core.outputs_spec().contains_spec(Tag::Output));
            assert(!core.statics_spec().assigned_spec(Tag::MatA));
            assert(!core.statics_spec().assigned_spec(Tag::MatB));
            assert(!core.statics_spec().assigned_spec(Tag::MatC));
            assert(!core.statics_spec().assigned_spec(Tag::MatD));
            assert(!core.statics_spec().assigned_spec(Tag::X0));
        }
        let one = Mat::new(1, 1);
        let one2 = Mat::new(1, 1);
        let one3 = Mat::new(1, 1);
        let one4 = Mat::new(1, 1);
        let one5 = Mat::new(1, 1);
        let model = StateSpace::new(one, one2, one3, one4, one5);
        let b = Ss { core, model };
        proof {
            assert forall|t: Tag| #[trigger] b.core.statics_spec().contains_spec(t) implies t
                == Tag::MatA || t == Tag::MatB || t == Tag::MatC || t == Tag::MatD || t
                == Tag::X0 by {
                if t != Tag::MatA && t != Tag::MatB && t != Tag::MatC && t != Tag::MatD && t
                    != Tag::X0 {
                    assert(st5.contains_spec(t) == st4.contains_spec(t));
                    assert(st4.contains_spec(t) == st3.contains_spec(t));
                    assert(st3.contains_spec(t) == st2.contains_spec(t));
                    assert(st2.contains_spec(t) == st1.contains_spec(t));
                    assert(st1.contains_spec(t) == st0.contains_spec(t));
                    assert(!st0.contains_spec(t));
                }
            }
            assert forall|t: Tag| #[trigger] b.core.inputs_spec().contains_spec(t) implies t
                == Tag::Input by {
                if t != Tag::Input {
                    assert(!in0.contains_spec(t));
                }
            }
            assert forall|t: Tag| #[trigger] b.core.outputs_spec().contains_spec(t) implies t
                == Tag::Output by {
                if t != Tag::Output {
                    assert(!out0.contains_spec(t));
                }
            }
        }
        b
    }

    /// Exact `init`: rejected from `Running`; rejected, without side
    /// effects, while a static is unassigned or the matrix dimensions
    /// disagree (`A` square, `B.rows == A.rows`, `C.cols == A.cols`,
    /// `D.cols == B.cols`, `D.rows == C.rows`, `x0` an `A.rows` by one
    /// column); otherwise installs the engine and enters `Initial`.
    pub fn init_block(&mut self) -> (r: Result<(), StreamingError>)
        requires
            old(self).wf(),
        ensures
            final(self).wf(),
            r is Err ==> *final(self) == *old(self),
            old(self).lifecycle() == StreamingState::Running ==> r == Err::<(), StreamingError>(
                StreamingError::InvalidStateTransition,
            ),
            old(self).lifecycle() != StreamingState::Running && !old(self).initialized() ==> r
                == Err::<(), StreamingError>(StreamingError::InvalidStatics),
            old(self).lifecycle() != StreamingState::Running && old(self).initialized() ==> (r
                is Ok <==> ss_shapes_ok(old(self).core.statics_spec())),
            old(self).lifecycle() != StreamingState::Running && old(self).initialized()
                && !ss_shapes_ok(old(self).core.statics_spec()) ==> r == Err::<(), StreamingError>(
                StreamingError::InvalidStatics,
            ),
            r is Ok ==> {
                &&& old(self).lifecycle() != StreamingState::Running
                &&& old(self).initialized()
                &&& final(self).lifecycle() == StreamingState::Initial
                &&& final(self).core.statics_spec() == old(self).core.statics_spec()
                &&& final(self).model.wf()
                &&& final(self).model.a@ == old(self).core.statics_spec().val_spec(
                    Tag::MatA,
                )->Matrix_0
                &&& final(self).model.b@ == old(self).core.statics_spec().val_spec(
                    Tag::MatB,
                )->Matrix_0
                &&& final(self).model.c@ == old(self).core.statics_spec().val_spec(
                    Tag::MatC,
                )->Matrix_0
                &&& final(self).model.d@ == old(self).core.statics_spec().val_spec(
                    Tag::MatD,
                )->Matrix_0
                &&& final(self).model.x@ == old(self).core.statics_spec().val_spec(
                    Tag::X0,
                )->Matrix_0
            },
    {
        match self.core.init_guard() {
            Err(e) => {
                return Err(e);
            },
            Ok(()) => {},
        }
        let a: Mat = match self.core.get_statics(Tag::MatA, ValueKind::Matrix) {
            Ok(Value::Matrix(m)) => m,
            _ => {
                proof {
                    assert(false);
                }
                return Err(StreamingError::InvalidStatics);
            },
        };
        let bmat: Mat = match self.core.get_statics(Tag::MatB, ValueKind::Matrix) {
            Ok(Value::Matrix(m)) => m,
            _ => {
                proof {
                    assert(false);
                }
                return Err(StreamingError::InvalidStatics);
            },
        };
        let c: Mat = match self.core.get_statics(Tag::MatC, ValueKind::Matrix) {
            Ok(Value::Matrix(m)) => m,
            _ => {
                proof {
                    assert(false);
                }
                return Err(StreamingError::InvalidStatics);
            },
        };
        let d: Mat = match self.core.get_statics(Tag::MatD, ValueKind::Matrix) {
            Ok(Value::Matrix(m)) => m,
            _ => {
                proof {
                    assert(false);
                }
                return Err(StreamingError::InvalidStatics);
            },
        };
        let x0: Mat = match self.core.get_statics(Tag::X0, ValueKind::Matrix) {
            Ok(Value::Matrix(m)) => m,
            _ => {
                proof {
                    assert(false);
                }
                return Err(StreamingError::InvalidStatics);
            },
        };
        proof {
            a.lemma_shape();
            bmat.lemma_shape();
            c.lemma_shape();
            d.lemma_shape();
            x0.lemma_shape();
        }
        if a.rows() == 0 || !a.is_square() {
            return Err(StreamingError::InvalidStatics);
        }
        if a.rows() != bmat.rows() {
            return Err(StreamingError::InvalidStatics);
        }
        if c.rows() == 0 || a.cols() != c.cols() {
            return Err(StreamingError::InvalidStatics);
        }
        if bmat.cols() != d.cols() {
            return Err(StreamingError::InvalidStatics);
        }
        if c.rows() != d.rows() {
            return Err(StreamingError::InvalidStatics);
        }
        if x0.rows() != a.rows() || x0.cols() != 1 {
            return Err(StreamingError::InvalidStatics);
        }
        proof {
            assert(ss_shapes_ok(old(self).core.statics_spec()));
        }
        self.model = StateSpace::new(a, bmat, c, d, x0);
        self.core.set_state(StreamingState::Initial);
        Ok(())
    }

    /// Exact `process`: receives a column vector `u`, advances the engine
    /// one step, and emits `y = C x' + D u`.  A dimension mismatch stops
    /// the block and reports `InvalidInput`.
    pub fn process_block(&mut self, inputs: &PortMap) -> (r: Result<PortMap, StreamingError>)
        requires
            old(self).wf(),
            inputs.wf(),
        ensures
            final(self).wf(),
            r == Err::<PortMap, StreamingError>(StreamingError::ChannelClosed)
                <==> !inputs.contains_spec(Tag::Input),
            !inputs.contains_spec(Tag::Input) ==> *final(self) == *old(self),
            r == Err::<PortMap, StreamingError>(StreamingError::InvalidInput) ==> final(self).lifecycle() == StreamingState::Stopped,
            inputs.contains_spec(Tag::Input) && model_kind(inputs.val_spec(Tag::Input))
                != ValueKind::RealVec ==> r == Err::<PortMap, StreamingError>(
                StreamingError::InvalidInput,
            ),
            inputs.contains_spec(Tag::Input) && model_kind(inputs.val_spec(Tag::Input))
                == ValueKind::RealVec && inputs.val_spec(Tag::Input)->RealVec_0.len() != old(self).model.b.cdim() ==> r == Err::<PortMap, StreamingError>(
                StreamingError::InvalidInput,
            ),
            r == Err::<PortMap, StreamingError>(StreamingError::InvalidInput) ==> final(self).model
                == old(self).model && final(self).core.statics_spec() == old(self).core.statics_spec(),
            r != Err::<PortMap, StreamingError>(StreamingError::InvalidStatics),
            r != Err::<PortMap, StreamingError>(StreamingError::InvalidStateTransition),
            inputs.contains_spec(Tag::Input) && model_kind(inputs.val_spec(Tag::Input))
                == ValueKind::RealVec && inputs.val_spec(Tag::Input)->RealVec_0.len() == old(self).model.b.cdim() ==> (r is Ok || r == Err::<PortMap, StreamingError>(
                StreamingError::InvalidInput,
            )),
            r matches Ok(out) ==> {
                let u = inputs.val_spec(Tag::Input)->RealVec_0;
                &&& inputs.contains_spec(Tag::Input)
                &&& model_kind(inputs.val_spec(Tag::Input)) == ValueKind::RealVec
                &&& u.len() == old(self).model.b.cdim()
                &&& out.wf()
                &&& out.contains_spec(Tag::Output)
                &&& model_kind(out.val_spec(Tag::Output)) == ValueKind::RealVec
                &&& out.val_spec(Tag::Output)->RealVec_0.len() == old(self).model.c.rdim()
                &&& final(self).model.a == old(self).model.a && final(self).model.b == old(self).model.b && final(self).model.c == old(self).model.c && final(self).model.d == old(self).model.d
                &&& forall|i: int|
                    0 <= i < final(self).model.x.rdim() ==> qeq(
                        #[trigger] final(self).model.x@[i][0],
                        ss_next_entry(
                            old(self).model.a@,
                            old(self).model.b@,
                            old(self).model.x@,
                            mat_col(u),
                            i,
                        ),
                    )
                &&& forall|i: int|
                    0 <= i < out.val_spec(Tag::Output)->RealVec_0.len() ==> qeq(
                        #[trigger] out.val_spec(Tag::Output)->RealVec_0[i],
                        ss_out_entry(
                            old(self).model.c@,
                            old(self).model.d@,
                            final(self).model.x@,
                            mat_col(u),
                            i,
                        ),
                    )
                &&& final(self).core == old(self).core
            },
    {
        let got = match inputs.get(Tag::Input) {
            Some(v) => v,
            None => {
                return Err(StreamingError::ChannelClosed);
            },
        };
        let u: Vec<Rat> = match got {
            Value::RealVec(v) => v,
            _ => {
                self.core.set_state(StreamingState::Stopped);
                return Err(StreamingError::InvalidInput);
            },
        };
        if u.len() != self.model.get_input_size() {
            self.core.set_state(StreamingState::Stopped);
            return Err(StreamingError::InvalidInput);
        }
        let um = Mat::from_col(&u);
        proof {
            um.lemma_shape();
            assert(seq_rats(u) =~= inputs.val_spec(Tag::Input)->RealVec_0);
            let vm = inputs.val_spec(Tag::Input)->RealVec_0;
            assert forall|i: int| 0 <= i < um@.len() implies #[trigger] um@[i] =~= mat_col(
                vm,
            )[i] by {
                assert(um@[i][0] == u[i]@);
                assert(mat_col(vm)[i] == seq![vm[i]]);
                assert(vm[i] == seq_rats(u)[i]);
            }
            assert(um@ =~~= mat_col(vm));
        }
        let y = match self.model.update(&um) {
            Some(y) => y,
            None => {
                self.core.set_state(StreamingState::Stopped);
                return Err(StreamingError::InvalidInput);
            },
        };
        let yv = y.col0();
        let mut out = PortMap::new();
        out.insert(Tag::Output, Value::RealVec(yv));
        proof {
            assert forall|i: int| 0 <= i < out.val_spec(Tag::Output)->RealVec_0.len() implies
                #[trigger] out.val_spec(Tag::Output)->RealVec_0[i] == y@[i][0] by {
                assert(out.val_spec(Tag::Output)->RealVec_0[i] == seq_rats(yv)[i]);
            }
        }
        Ok(out)
    }
}

impl StreamProcessor for Ss {
    open spec fn lifecycle(&self) -> StreamingState {
        self.core.lifecycle_spec()
    }

    open spec fn initialized(&self) -> bool {
        self.core.initialized_spec()
    }

    open spec fn wf(&self) -> bool {
        self.shape_wf()
    }

    fn init(&mut self) -> (r: Result<(), StreamingError>) {
        self.init_block()
    }

    fn run(&mut self) -> (r: Result<(), StreamingError>) {
        match self.core.run_guard() {
            Err(e) => Err(e),
            Ok(()) => {
                self.core.set_state(StreamingState::Running);
                Ok(())
            },
        }
    }

    fn process(&mut self, inputs: &PortMap) -> (r: Result<PortMap, StreamingError>) {
        self.process_block(inputs)
    }

    fn stop(&mut self) -> (r: Result<(), StreamingError>) {
        self.core.set_state(StreamingState::Stopped);
        Ok(())
    }
}

} // verus!
