//! Lifecycle states and the unified error kind set of the runtime.

use vstd::prelude::*;

verus! {

/// Lifecycle of a stream block.
///
/// A block is created in `Null`; `init` moves it to `Initial` (legal from
/// `Null`, `Initial` or `Stopped`); `run` moves it from `Initial` to
/// `Running`; `stop` moves it to `Stopped` from anywhere.
#[derive(Clone, Copy, Debug, PartialEq, Eq, Structural)]
pub enum StreamingState {
    Null,
    Initial,
    Running,
    Stopped,
}

/// The unified error kind set reported by every block operation.
#[derive(Clone, Copy, Debug, PartialEq, Eq, Structural)]
pub enum StreamingError {
    /// The operation is not allowed from the current lifecycle state.
    InvalidStateTransition,
    /// A missing static, a slot type mismatch, a validator rejection, or a
    /// cross-static shape constraint violated during `init`.
    InvalidStatics,
    /// An input value whose shape or kind disagrees with the configured
    /// shape, or a sample that exceeds the machine range of the exact
    /// arithmetic; fatal for the current run.
    InvalidInput,
    /// An input or output endpoint whose peer is gone; `run` terminates.
    ChannelClosed,
}

} // verus!
