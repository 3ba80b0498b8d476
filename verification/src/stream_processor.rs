//! The block base and the uniform block contract.
//!
//! `BlockCore` composes the typed port declarations, the three slot stores
//! (statics, state, parameters) and the lifecycle cell that every stream
//! block shares.  `StreamProcessor` is the capability a host programs
//! against; its contracts are the universal lifecycle laws: `init` is
//! rejected from `Running` without side effects and otherwise establishes
//! `Initial` with all statics assigned; `run` moves `Initial` to `Running`
//! and is rejected elsewhere; `stop` always succeeds and leaves the block
//! `Stopped`; an `InvalidInput` from `process` stops the block.
//!
//! Mutual exclusion around the compute region is the host's business: a
//! block is driven through `&mut`, so one step owns the block exclusively,
//! and a host that shares a block across threads wraps it in a lock.

use crate::connectors::{PortMap, PortSet};
use crate::memory_manager::SlotStore;
use crate::streaming_data::{StreamingError, StreamingState};
use crate::tags::Tag;
use crate::value::{Validator, Value, ValueKind};
use vstd::prelude::*;

verus! {

/// The shared structure of every stream block.
pub struct BlockCore {
    name: String,
    inputs: PortSet,
    outputs: PortSet,
    statics: SlotStore,
    state: SlotStore,
    parameters: SlotStore,
    lifecycle: StreamingState,
}

impl BlockCore {
    pub closed spec fn name_spec(&self) -> Seq<char> {
        self.name@
    }

    pub closed spec fn lifecycle_spec(&self) -> StreamingState {
        self.lifecycle
    }

    pub closed spec fn inputs_spec(&self) -> PortSet {
        self.inputs
    }

    pub closed spec fn outputs_spec(&self) -> PortSet {
        self.outputs
    }

    pub closed spec fn statics_spec(&self) -> SlotStore {
        self.statics
    }

    pub closed spec fn state_spec(&self) -> SlotStore {
        self.state
    }

    pub closed spec fn parameters_spec(&self) -> SlotStore {
        self.parameters
    }

    pub open spec fn wf(&self) -> bool {
        &&& self.inputs_spec().wf()
        &&& self.outputs_spec().wf()
        &&& self.statics_spec().wf()
        &&& self.state_spec().wf()
        &&& self.parameters_spec().wf()
    }

    /// A block is initialized exactly when every declared static has been
    /// assigned a (type-consistent) value.
    pub open spec fn initialized_spec(&self) -> bool {
        self.statics_spec().all_assigned_spec()
    }

    /// A fresh block, in lifecycle state `Null`, with no ports or slots.
    pub fn new(name: String) -> (c: BlockCore)
        ensures
            c.wf(),
            c.lifecycle_spec() == StreamingState::Null,
            c.name_spec() == name@,
            forall|t: Tag| !c.inputs_spec().contains_spec(t),
            forall|t: Tag| !c.outputs_spec().contains_spec(t),
            forall|t: Tag| !c.statics_spec().contains_spec(t),
            forall|t: Tag| !c.state_spec().contains_spec(t),
            forall|t: Tag| !c.parameters_spec().contains_spec(t),
    {
        BlockCore {
            name,
            inputs: PortSet::new(),
            outputs: PortSet::new(),
            statics: SlotStore::new(),
            state: SlotStore::new(),
            parameters: SlotStore::new(),
            lifecycle: StreamingState::Null,
        }
    }

    pub fn name(&self) -> (r: &String)
        ensures
            r@ == self.name_spec(),
    {
        &self.name
    }

    /// Declares a typed input port.
    pub fn new_input(&mut self, t: Tag, kind: ValueKind) -> (r: Result<(), StreamingError>)
        requires
            old(self).wf(),
        ensures
            final(self).wf(),
            final(self).outputs_spec() == old(self).outputs_spec(),
            final(self).statics_spec() == old(self).statics_spec(),
            final(self).state_spec() == old(self).state_spec(),
            final(self).parameters_spec() == old(self).parameters_spec(),
            final(self).lifecycle_spec() == old(self).lifecycle_spec(),
            final(self).name_spec() == old(self).name_spec(),
            old(self).inputs_spec().contains_spec(t) ==> final(self).inputs_spec() == old(self).inputs_spec() && r == (
            if old(self).inputs_spec().kind_spec(t) == kind {
                Ok::<(), StreamingError>(())
            } else {
                Err::<(), StreamingError>(StreamingError::InvalidStatics)
            }),
            !old(self).inputs_spec().contains_spec(t) ==> {
                &&& r == Ok::<(), StreamingError>(())
                &&& final(self).inputs_spec().contains_spec(t)
                &&& final(self).inputs_spec().kind_spec(t) == kind
                &&& final(self).inputs_spec().same_but(&old(self).inputs_spec(), t)
            },
    {
        self.inputs.declare(t, kind)
    }

    /// Declares a typed output port.
    pub fn new_output(&mut self, t: Tag, kind: ValueKind) -> (r: Result<(), StreamingError>)
        requires
            old(self).wf(),
        ensures
            final(self).wf(),
            final(self).inputs_spec() == old(self).inputs_spec(),
            final(self).statics_spec() == old(self).statics_spec(),
            final(self).state_spec() == old(self).state_spec(),
            final(self).parameters_spec() == old(self).parameters_spec(),
            final(self).lifecycle_spec() == old(self).lifecycle_spec(),
            final(self).name_spec() == old(self).name_spec(),
            old(self).outputs_spec().contains_spec(t) ==> final(self).outputs_spec() == old(self).outputs_spec() && r == (
            if old(self).outputs_spec().kind_spec(t) == kind {
                Ok::<(), StreamingError>(())
            } else {
                Err::<(), StreamingError>(StreamingError::InvalidStatics)
            }),
            !old(self).outputs_spec().contains_spec(t) ==> {
                &&& r == Ok::<(), StreamingError>(())
                &&& final(self).outputs_spec().contains_spec(t)
                &&& final(self).outputs_spec().kind_spec(t) == kind
                &&& final(self).outputs_spec().same_but(&old(self).outputs_spec(), t)
            },
    {
        self.outputs.declare(t, kind)
    }

    /// Declares a configuration slot with its default and validator.
    pub fn new_statics(&mut self, t: Tag, default: Value, validator: Validator) -> (r: Result<
        (),
        StreamingError,
    >)
        requires
            old(self).wf(),
        ensures
            final(self).wf(),
            final(self).inputs_spec() == old(self).inputs_spec(),
            final(self).outputs_spec() == old(self).outputs_spec(),
            final(self).state_spec() == old(self).state_spec(),
            final(self).parameters_spec() == old(self).parameters_spec(),
            final(self).lifecycle_spec() == old(self).lifecycle_spec(),
            final(self).name_spec() == old(self).name_spec(),
            old(self).statics_spec().contains_spec(t) ==> final(self).statics_spec() == old(self).statics_spec() && r == (
            if old(self).statics_spec().kind_spec(t) == default.kind_spec() {
                Ok::<(), StreamingError>(())
            } else {
                Err::<(), StreamingError>(StreamingError::InvalidStatics)
            }),
            !old(self).statics_spec().contains_spec(t) ==> {
                &&& r == Ok::<(), StreamingError>(())
                &&& final(self).statics_spec().contains_spec(t)
                &&& final(self).statics_spec().kind_spec(t) == default.kind_spec()
                &&& final(self).statics_spec().val_spec(t) == default@
                &&& !final(self).statics_spec().assigned_spec(t)
                &&& final(self).statics_spec().validator_spec(t) == validator
                &&& final(self).statics_spec().same_but(&old(self).statics_spec(), t)
            },
    {
        self.statics.declare(t, default, validator)
    }

    /// Declares a state slot with its default.
    pub fn new_state(&mut self, t: Tag, default: Value) -> (r: Result<(), StreamingError>)
        requires
            old(self).wf(),
        ensures
            final(self).wf(),
            final(self).inputs_spec() == old(self).inputs_spec(),
            final(self).outputs_spec() == old(self).outputs_spec(),
            final(self).statics_spec() == old(self).statics_spec(),
            final(self).parameters_spec() == old(self).parameters_spec(),
            final(self).lifecycle_spec() == old(self).lifecycle_spec(),
            final(self).name_spec() == old(self).name_spec(),
            old(self).state_spec().contains_spec(t) ==> final(self).state_spec() == old(self).state_spec() && r == (
            if old(self).state_spec().kind_spec(t) == default.kind_spec() {
                Ok::<(), StreamingError>(())
            } else {
                Err::<(), StreamingError>(StreamingError::InvalidStatics)
            }),
            !old(self).state_spec().contains_spec(t) ==> {
                &&& r == Ok::<(), StreamingError>(())
                &&& final(self).state_spec().contains_spec(t)
                &&& final(self).state_spec().kind_spec(t) == default.kind_spec()
                &&& final(self).state_spec().val_spec(t) == default@
                &&& final(self).state_spec().same_but(&old(self).state_spec(), t)
            },
    {
        self.state.declare(t, default, Validator::Any)
    }

    /// Declares a runtime-tunable parameter slot with its default.
    pub fn new_parameter(&mut self, t: Tag, default: Value) -> (r: Result<(), StreamingError>)
        requires
            old(self).wf(),
        ensures
            final(self).wf(),
            final(self).inputs_spec() == old(self).inputs_spec(),
            final(self).outputs_spec() == old(self).outputs_spec(),
            final(self).statics_spec() == old(self).statics_spec(),
            final(self).state_spec() == old(self).state_spec(),
            final(self).lifecycle_spec() == old(self).lifecycle_spec(),
            final(self).name_spec() == old(self).name_spec(),
            !old(self).parameters_spec().contains_spec(t) ==> r == Ok::<(), StreamingError>(())
                && final(self).parameters_spec().contains_spec(t),
    {
        self.parameters.declare(t, default, Validator::Any)
    }

    /// The value of the static with tag `t`, read at kind `k`; a missing tag
    /// or a kind mismatch reports `InvalidStatics`.
    pub fn get_statics(&self, t: Tag, k: ValueKind) -> (r: Result<Value, StreamingError>)
        requires
            self.wf(),
        ensures
            r is Ok <==> (self.statics_spec().contains_spec(t) && self.statics_spec().kind_spec(t)
                == k),
            r matches Ok(v) ==> v@ == self.statics_spec().val_spec(t) && v.kind_spec() == k
                && crate::value::value_wf(v),
            r is Err ==> r == Err::<Value, StreamingError>(StreamingError::InvalidStatics),
    {
        self.statics.get(t, k)
    }

    /// Assigns the static with tag `t`.
    pub fn set_static(&mut self, t: Tag, v: Value) -> (r: Result<(), StreamingError>)
        requires
            old(self).wf(),
        ensures
            final(self).wf(),
            final(self).inputs_spec() == old(self).inputs_spec(),
            final(self).outputs_spec() == old(self).outputs_spec(),
            final(self).state_spec() == old(self).state_spec(),
            final(self).parameters_spec() == old(self).parameters_spec(),
            final(self).lifecycle_spec() == old(self).lifecycle_spec(),
            final(self).name_spec() == old(self).name_spec(),
            r is Ok <==> (old(self).statics_spec().contains_spec(t) && old(self).statics_spec().kind_spec(t) == v.kind_spec() && old(self).statics_spec().validator_spec(t).accepts_spec(v@)),
            r is Err ==> r == Err::<(), StreamingError>(StreamingError::InvalidStatics) && *final(self) == *old(self),
            r is Ok ==> {
                &&& final(self).statics_spec().contains_spec(t)
                &&& final(self).statics_spec().kind_spec(t) == old(self).statics_spec().kind_spec(
                    t,
                )
                &&& final(self).statics_spec().val_spec(t) == v@
                &&& final(self).statics_spec().assigned_spec(t)
                &&& final(self).statics_spec().same_but(&old(self).statics_spec(), t)
            },
    {
        let r = self.statics.set(t, v);
        r
    }

    /// Assigns a runtime-tunable parameter.
    pub fn set_parameter(&mut self, t: Tag, v: Value) -> (r: Result<(), StreamingError>)
        requires
            old(self).wf(),
        ensures
            final(self).wf(),
            final(self).inputs_spec() == old(self).inputs_spec(),
            final(self).outputs_spec() == old(self).outputs_spec(),
            final(self).statics_spec() == old(self).statics_spec(),
            final(self).state_spec() == old(self).state_spec(),
            final(self).lifecycle_spec() == old(self).lifecycle_spec(),
            final(self).name_spec() == old(self).name_spec(),
            r is Ok <==> (old(self).parameters_spec().contains_spec(t) && old(self).parameters_spec().kind_spec(t) == v.kind_spec() && old(self).parameters_spec().validator_spec(t).accepts_spec(v@)),
            r is Err ==> r == Err::<(), StreamingError>(StreamingError::InvalidStatics) && *final(self) == *old(self),
            r is Ok ==> final(self).parameters_spec().val_spec(t) == v@ && final(self).parameters_spec().same_but(&old(self).parameters_spec(), t),
    {
        let r = self.parameters.set(t, v);
        r
    }

    /// The value of the state slot with tag `t`, read at kind `k`.
    pub fn get_state_value(&self, t: Tag, k: ValueKind) -> (r: Result<Value, StreamingError>)
        requires
            self.wf(),
        ensures
            r is Ok <==> (self.state_spec().contains_spec(t) && self.state_spec().kind_spec(t)
                == k),
            r matches Ok(v) ==> v@ == self.state_spec().val_spec(t) && v.kind_spec() == k
                && crate::value::value_wf(v),
            r is Err ==> r == Err::<Value, StreamingError>(StreamingError::InvalidStatics),
    {
        self.state.get(t, k)
    }

    /// Stores into the state slot with tag `t`.
    pub fn set_state_value(&mut self, t: Tag, v: Value) -> (r: Result<(), StreamingError>)
        requires
            old(self).wf(),
        ensures
            final(self).wf(),
            final(self).inputs_spec() == old(self).inputs_spec(),
            final(self).outputs_spec() == old(self).outputs_spec(),
            final(self).statics_spec() == old(self).statics_spec(),
            final(self).parameters_spec() == old(self).parameters_spec(),
            final(self).lifecycle_spec() == old(self).lifecycle_spec(),
            final(self).name_spec() == old(self).name_spec(),
            r is Ok <==> (old(self).state_spec().contains_spec(t) && old(self).state_spec().kind_spec(t) == v.kind_spec() && old(self).state_spec().validator_spec(t).accepts_spec(v@)),
            r is Err ==> r == Err::<(), StreamingError>(StreamingError::InvalidStatics) && *final(self) == *old(self),
            r is Ok ==> {
                &&& final(self).state_spec().contains_spec(t)
                &&& final(self).state_spec().kind_spec(t) == old(self).state_spec().kind_spec(t)
                &&& final(self).state_spec().val_spec(t) == v@
                &&& final(self).state_spec().same_but(&old(self).state_spec(), t)
            },
    {
        let r = self.state.set(t, v);
        r
    }

    /// Moves the lifecycle cell to `s`.
    pub fn set_state(&mut self, s: StreamingState)
        requires
            old(self).wf(),
        ensures
            final(self).wf(),
            final(self).inputs_spec() == old(self).inputs_spec(),
            final(self).outputs_spec() == old(self).outputs_spec(),
            final(self).statics_spec() == old(self).statics_spec(),
            final(self).state_spec() == old(self).state_spec(),
            final(self).parameters_spec() == old(self).parameters_spec(),
            final(self).name_spec() == old(self).name_spec(),
            final(self).lifecycle_spec() == s,
    {
        self.lifecycle = s;
    }

    /// Whether the lifecycle cell currently reads `s`.
    pub fn check_state(&self, s: StreamingState) -> (r: bool)
        ensures
            r == (self.lifecycle_spec() == s),
    {
        self.lifecycle == s
    }

    /// The shared entry check of `init`: rejected from `Running`, and
    /// rejected while a static is unassigned.
    pub fn init_guard(&self) -> (r: Result<(), StreamingError>)
        requires
            self.wf(),
        ensures
            r is Ok <==> (self.lifecycle_spec() != StreamingState::Running
                && self.initialized_spec()),
            self.lifecycle_spec() == StreamingState::Running ==> r == Err::<(), StreamingError>(
                StreamingError::InvalidStateTransition,
            ),
            self.lifecycle_spec() != StreamingState::Running && !self.initialized_spec() ==> r
                == Err::<(), StreamingError>(StreamingError::InvalidStatics),
    {
        if self.check_state(StreamingState::Running) {
            Err(StreamingError::InvalidStateTransition)
        } else if !self.is_initialized() {
            Err(StreamingError::InvalidStatics)
        } else {
            Ok(())
        }
    }

    /// The shared entry check of `run`: legal exactly from `Initial`.
    pub fn run_guard(&self) -> (r: Result<(), StreamingError>)
        requires
            self.wf(),
        ensures
            r is Ok <==> self.lifecycle_spec() == StreamingState::Initial,
            r is Err ==> r == Err::<(), StreamingError>(StreamingError::InvalidStateTransition),
    {
        if self.check_state(StreamingState::Initial) {
            Ok(())
        } else {
            Err(StreamingError::InvalidStateTransition)
        }
    }

    /// Whether every declared static has been assigned a value.
    pub fn is_initialized(&self) -> (r: bool)
        requires
            self.wf(),
        ensures
            r == self.initialized_spec(),
    {
        self.statics.all_assigned()
    }
}

/// The uniform capability of a stream block: the four lifecycle operations,
/// under the universal lifecycle laws.  A host may hold a heterogeneous
/// collection of blocks behind this trait alone.
pub trait StreamProcessor: Sized {
    spec fn lifecycle(&self) -> StreamingState;

    spec fn initialized(&self) -> bool;

    spec fn wf(&self) -> bool;

    /// Validates the statics and builds the block's run-time structures.
    /// From `Running` it is rejected outright; any failure leaves the block
    /// exactly as it was.
    fn init(&mut self) -> (r: Result<(), StreamingError>)
        requires
            old(self).wf(),
        ensures
            final(self).wf(),
            old(self).lifecycle() == StreamingState::Running ==> r == Err::<(), StreamingError>(
                StreamingError::InvalidStateTransition,
            ),
            r is Err ==> *final(self) == *old(self),
            r is Ok ==> final(self).lifecycle() == StreamingState::Initial && final(self).initialized(),
            old(self).lifecycle() != StreamingState::Running && !old(self).initialized() ==> r
                == Err::<(), StreamingError>(StreamingError::InvalidStatics),
    ;

    /// Enters the processing loop state: legal exactly from `Initial`.  The
    /// host then drives `process` and performs the port transport around it.
    fn run(&mut self) -> (r: Result<(), StreamingError>)
        requires
            old(self).wf(),
        ensures
            final(self).wf(),
            r is Ok <==> old(self).lifecycle() == StreamingState::Initial,
            r is Err ==> r == Err::<(), StreamingError>(StreamingError::InvalidStateTransition)
                && *final(self) == *old(self),
            r is Ok ==> final(self).lifecycle() == StreamingState::Running,
    ;

    /// One unit of work: consumes one value from each consumed input port
    /// and produces one value on each driven output port.  `InvalidInput`
    /// is fatal for the run: the block stops.
    fn process(&mut self, inputs: &PortMap) -> (r: Result<PortMap, StreamingError>)
        requires
            old(self).wf(),
            inputs.wf(),
        ensures
            final(self).wf(),
            r matches Ok(out) ==> out.wf(),
            r == Err::<PortMap, StreamingError>(StreamingError::InvalidInput) ==> final(self).lifecycle() == StreamingState::Stopped,
    ;

    /// Stops the block: always succeeds, from any state, idempotently.
    fn stop(&mut self) -> (r: Result<(), StreamingError>)
        requires
            old(self).wf(),
        ensures
            final(self).wf(),
            r == Ok::<(), StreamingError>(()),
            final(self).lifecycle() == StreamingState::Stopped,
            final(self).initialized() == old(self).initialized(),
    ;
}

} // verus!
