//! The alpha-beta-gamma tracker block.
//!
//! Statics: the gains `alpha`, `beta` and `gamma`.  State: the tracked
//! `[position, velocity, acceleration]`, the timestamp of the last update,
//! and an initialization flag.  The first sample seeds the position; every
//! later sample predicts the position over the elapsed time and corrects
//! position, velocity and acceleration by the gained error.

use crate::connectors::PortMap;
use crate::rat::{qadd, qeq, qmul, qsub, qwf, Rat};
use crate::stream_processor::{BlockCore, StreamProcessor};
use crate::streaming_data::{StreamingError, StreamingState};
use crate::tags::Tag;
use crate::value::{model_kind, Validator, Value, ValueKind, ValueModel};
use vstd::prelude::*;

verus! {

/// The elapsed time as an exact fraction of a second.
pub open spec fn dt_of(micros: int) -> (int, int) {
    (micros, 1000000)
}

/// A clock reading as a stored timestamp payload.
pub open spec fn stamp_of(t0: u64) -> ValueModel {
    ValueModel::Timestamp(t0 as int)
}

/// Elapsed microseconds between two clock readings, clamped below at zero.
pub open spec fn elapsed(now: u64, last: int) -> int {
    if now >= last {
        now - last
    } else {
        0
    }
}

/// The intermediate scalars of one corrected tracker step.
pub struct AbgTrace {
    pub vdt: (int, int),
    pub pv: (int, int),
    pub half_a: (int, int),
    pub dtsq: (int, int),
    pub adt2: (int, int),
    pub pred: (int, int),
    pub err: (int, int),
    pub ae: (int, int),
    pub be: (int, int),
    pub ge: (int, int),
}

/// One corrected tracker step, link by link: the prediction
/// `pred = p + v dt + (a/2) dt²`, the error `err = input - pred`, and the
/// corrections `p' = pred + alpha err`, `v' = v + beta err`,
/// `a' = a + gamma err`.  Every scalar in the chain is anchored well
/// formed (positive denominator): without the anchors each link would be
/// satisfied by a zero-denominator pair, since `qeq` against such a pair
/// holds trivially, and the predicate would pin nothing.
pub open spec fn abg_wit(
    alpha: (int, int),
    beta: (int, int),
    gamma: (int, int),
    p: (int, int),
    v: (int, int),
    acc: (int, int),
    input: (int, int),
    micros: int,
    w: AbgTrace,
    p2: (int, int),
    v2: (int, int),
    a2: (int, int),
) -> bool {
    &&& qwf(alpha) && qwf(beta) && qwf(gamma)
    &&& qwf(p) && qwf(v) && qwf(acc) && qwf(input)
    &&& qwf(w.vdt) && qwf(w.pv) && qwf(w.half_a) && qwf(w.dtsq) && qwf(w.adt2) && qwf(w.pred)
    &&& qwf(w.err) && qwf(w.ae) && qwf(w.be) && qwf(w.ge)
    &&& qwf(p2) && qwf(v2) && qwf(a2)
    &&& qeq(w.vdt, qmul(v, dt_of(micros)))
    &&& qeq(w.pv, qadd(p, w.vdt))
    &&& qeq(w.half_a, qmul((1, 2), acc))
    &&& qeq(w.dtsq, qmul(dt_of(micros), dt_of(micros)))
    &&& qeq(w.adt2, qmul(w.half_a, w.dtsq))
    &&& qeq(w.pred, qadd(w.pv, w.adt2))
    &&& qeq(w.err, qsub(input, w.pred))
    &&& qeq(w.ae, qmul(alpha, w.err))
    &&& qeq(w.be, qmul(beta, w.err))
    &&& qeq(w.ge, qmul(gamma, w.err))
    &&& qeq(p2, qadd(w.pred, w.ae))
    &&& qeq(v2, qadd(v, w.be))
    &&& qeq(a2, qadd(acc, w.ge))
}

/// One tracker step over plain values: the gains, the current state, the
/// received sample, the initialization flag, and the elapsed microseconds.
/// Returns the new `[position, velocity, acceleration]` and the emitted
/// position; `None` only when a value leaves the machine range.
pub fn abg_step(
    alpha: &Rat,
    beta: &Rat,
    gamma: &Rat,
    p: &Rat,
    v: &Rat,
    acc: &Rat,
    input: &Rat,
    initialized: bool,
    micros: u64,
) -> (r: Option<(Rat, Rat, Rat, Rat, Ghost<AbgTrace>)>)
    ensures
        !initialized ==> r is Some,
        r matches Some(t) ==> {
            &&& !initialized ==> t.0 == input && t.1 == v && t.2 == acc && t.3 == input
            &&& initialized ==> abg_wit(
                alpha@,
                beta@,
                gamma@,
                p@,
                v@,
                acc@,
                input@,
                micros as int,
                t.4@,
                t.0@,
                t.1@,
                t.2@,
            ) && t.3 == t.0
        },
{
    if !initialized {
        return Some(
            (*input, *v, *acc, *input, Ghost(arbitrary())),
        );
    }
    let dt = match Rat::new(1, 1000000) {
        Some(q) => q,
        None => {
            return None;
        },
    };
    let dtm = Rat::from_int(micros as i64);
    if micros > 0x7fff_ffff_ffff_ffffu64 {
        return None;
    }
    let dtr = match dtm.try_mul(&dt) {
        Some(q) => q,
        None => {
            return None;
        },
    };
    proof {
        assert(qeq(dtr@, dt_of(micros as int))) by {
            assert(qeq(dt@, (1int, 1000000int)));
            assert(dtm@ == (micros as int, 1int));
            crate::rat::lemma_qmul_congr(dtm@, dt@, (micros as int, 1int), (1int, 1000000int));
            crate::rat::lemma_qeq_trans(
                dtr@,
                qmul(dtm@, dt@),
                qmul((micros as int, 1int), (1int, 1000000int)),
            );
            assert(qmul((micros as int, 1int), (1int, 1000000int)) == (
                micros as int * 1,
                1int * 1000000,
            ));
        }
    }
    let vdt = match v.try_mul(&dtr) {
        Some(q) => q,
        None => {
            return None;
        },
    };
    let pv = match p.try_add(&vdt) {
        Some(q) => q,
        None => {
            return None;
        },
    };
    let half = match Rat::new(1, 2) {
        Some(q) => q,
        None => {
            return None;
        },
    };
    let half_a = match half.try_mul(acc) {
        Some(q) => q,
        None => {
            return None;
        },
    };
    let dtsq = match dtr.try_mul(&dtr) {
        Some(q) => q,
        None => {
            return None;
        },
    };
    let adt2 = match half_a.try_mul(&dtsq) {
        Some(q) => q,
        None => {
            return None;
        },
    };
    let pred = match pv.try_add(&adt2) {
        Some(q) => q,
        None => {
            return None;
        },
    };
    let err = match input.try_sub(&pred) {
        Some(q) => q,
        None => {
            return None;
        },
    };
    let ae = match alpha.try_mul(&err) {
        Some(q) => q,
        None => {
            return None;
        },
    };
    let be = match beta.try_mul(&err) {
        Some(q) => q,
        None => {
            return None;
        },
    };
    let ge = match gamma.try_mul(&err) {
        Some(q) => q,
        None => {
            return None;
        },
    };
    let p2 = match pred.try_add(&ae) {
        Some(q) => q,
        None => {
            return None;
        },
    };
    let v2 = match v.try_add(&be) {
        Some(q) => q,
        None => {
            return None;
        },
    };
    let a2 = match acc.try_add(&ge) {
        Some(q) => q,
        None => {
            return None;
        },
    };
    proof {
        use_type_invariant(v);
        use_type_invariant(p);
        use_type_invariant(acc);
        use_type_invariant(input);
        use_type_invariant(alpha);
        use_type_invariant(beta);
        use_type_invariant(gamma);
        crate::rat::lemma_qmul_congr(v@, dtr@, v@, dt_of(micros as int));
        crate::rat::lemma_qadd_wf(v@, dtr@);
        crate::rat::lemma_qadd_wf(v@, dt_of(micros as int));
        crate::rat::lemma_qeq_trans(vdt@, qmul(v@, dtr@), qmul(v@, dt_of(micros as int)));
        assert(qeq(half@, (1int, 2int)));
        crate::rat::lemma_qmul_congr(half@, acc@, (1int, 2int), acc@);
        crate::rat::lemma_qadd_wf(half@, acc@);
        crate::rat::lemma_qadd_wf((1int, 2int), acc@);
        crate::rat::lemma_qeq_trans(half_a@, qmul(half@, acc@), qmul((1int, 2int), acc@));
        crate::rat::lemma_qmul_congr(dtr@, dtr@, dt_of(micros as int), dt_of(micros as int));
        crate::rat::lemma_qadd_wf(dtr@, dtr@);
        crate::rat::lemma_qadd_wf(dt_of(micros as int), dt_of(micros as int));
        crate::rat::lemma_qeq_trans(
            dtsq@,
            qmul(dtr@, dtr@),
            qmul(dt_of(micros as int), dt_of(micros as int)),
        );
    }
    let ghost wit = AbgTrace {
        vdt: vdt@,
        pv: pv@,
        half_a: half_a@,
        dtsq: dtsq@,
        adt2: adt2@,
        pred: pred@,
        err: err@,
        ae: ae@,
        be: be@,
        ge: ge@,
    };
    Some((p2, v2, a2, p2, Ghost(wit)))
}

/// Relies on `std::time::SystemTime::now` and
/// `SystemTime::duration_since(UNIX_EPOCH)`: the wall clock, in
/// microseconds since the Unix epoch, truncated to 64 bits; zero for a
/// clock reading before the epoch.  Nothing is promised of the value: two
/// calls may return anything.
#[verifier::external_body]
fn clock_now_micros() -> (r: u64) {
    match std::time::SystemTime::now().duration_since(std::time::UNIX_EPOCH) {
        Ok(d) => d.as_micros() as u64,
        Err(_) => 0,
    }
}

/// The alpha-beta-gamma tracker block.
pub struct AlphaBetaGamma {
    pub core: BlockCore,
}

impl AlphaBetaGamma {
    /// The block's fixed shape: its ports and slots, with their kinds.
    pub open spec fn shape_wf(&self) -> bool {
        &&& self.core.wf()
        &&& self.core.inputs_spec().contains_spec(Tag::Input)
        &&& self.core.inputs_spec().kind_spec(Tag::Input) == ValueKind::Real
        &&& self.core.outputs_spec().contains_spec(Tag::Output)
        &&& self.core.outputs_spec().kind_spec(Tag::Output) == ValueKind::Real
        &&& self.core.statics_spec().contains_spec(Tag::Alpha)
        &&& self.core.statics_spec().kind_spec(Tag::Alpha) == ValueKind::Real
        &&& self.core.statics_spec().contains_spec(Tag::Beta)
        &&& self.core.statics_spec().kind_spec(Tag::Beta) == ValueKind::Real
        &&& self.core.statics_spec().contains_spec(Tag::Gamma)
        &&& self.core.statics_spec().kind_spec(Tag::Gamma) == ValueKind::Real
        &&& self.core.state_spec().contains_spec(Tag::State)
        &&& self.core.state_spec().kind_spec(Tag::State) == ValueKind::RealVec
        &&& self.core.state_spec().contains_spec(Tag::LastUpdate)
        &&& self.core.state_spec().kind_spec(Tag::LastUpdate) == ValueKind::Timestamp
        &&& self.core.state_spec().contains_spec(Tag::Init)
        &&& self.core.state_spec().kind_spec(Tag::Init) == ValueKind::Bool
    }

    /// A fresh tracker named `name`, in state `Null`: exactly the ports
    /// `input` and `output`, the gain statics `alpha`, `beta` and `gamma`
    /// (default zero), unconstrained and unassigned, and the state slots
    /// for the track, the last update and the flag.
    pub fn new(name: String) -> (b: AlphaBetaGamma)
        ensures
            b.wf(),
            b.lifecycle() == StreamingState::Null,
            !b.initialized(),
            b.core.name_spec() == name@,
            b.core.statics_spec().val_spec(Tag::Alpha) == ValueModel::Real((0int, 1int)),
            b.core.statics_spec().validator_spec(Tag::Alpha) == Validator::Any,
            !b.core.statics_spec().assigned_spec(Tag::Alpha),
            b.core.statics_spec().val_spec(Tag::Beta) == ValueModel::Real((0int, 1int)),
            b.core.statics_spec().validator_spec(Tag::Beta) == Validator::Any,
            !b.core.statics_spec().assigned_spec(Tag::Beta),
            b.core.statics_spec().val_spec(Tag::Gamma) == ValueModel::Real((0int, 1int)),
            b.core.statics_spec().validator_spec(Tag::Gamma) == Validator::Any,
            !b.core.statics_spec().assigned_spec(Tag::Gamma),
            b.core.state_spec().val_spec(Tag::State)->RealVec_0.len() == 3,
            b.core.state_spec().val_spec(Tag::Init) == ValueModel::Bool(false),
            b.core.state_spec().val_spec(Tag::LastUpdate) == ValueModel::Timestamp(0),
            forall|t: Tag|
                #[trigger] b.core.statics_spec().contains_spec(t) ==> t == Tag::Alpha || t
                    == Tag::Beta || t == Tag::Gamma,
            forall|t: Tag|
                #[trigger] b.core.state_spec().contains_spec(t) ==> t == Tag::State || t
                    == Tag::LastUpdate || t == Tag::Init,
            forall|t: Tag| #[trigger] b.core.inputs_spec().contains_spec(t) ==> t == Tag::Input,
            forall|t: Tag| #[trigger] b.core.outputs_spec().contains_spec(t) ==> t == Tag::Output,
            forall|t: Tag| !b.core.parameters_spec().contains_spec(t),
    {
        let mut core = BlockCore::new(name);
        let ghost in0 = core.inputs_spec();
        let _ = core.new_input(Tag::Input, ValueKind::Real);
        let ghost out0 = core.outputs_spec();
        let _ = core.new_output(Tag::Output, ValueKind::Real);
        let ghost st0 = core.statics_spec();
        let _ = core.new_statics(Tag::Alpha, Value::Real(Rat::zero()), Validator::Any);
        let ghost st1 = core.statics_spec();
        let _ = core.new_statics(Tag::Beta, Value::Real(Rat::zero()), Validator::Any);
        let ghost st2 = core.statics_spec();
        proof {
            assert(core.statics_spec().contains_spec(Tag::Alpha));
            assert(!core.statics_spec().assigned_spec(Tag::Alpha));
        }
        let _ = core.new_statics(Tag::Gamma, Value::Real(Rat::zero()), Validator::Any);
        let ghost st3 = core.statics_spec();
        proof {
            assert(core.statics_spec().contains_spec(Tag::Alpha));
            assert(core.statics_spec().contains_spec(Tag::Beta));
            assert(!core.statics_spec().assigned_spec(Tag::Alpha));
            assert(!core.statics_spec().assigned_spec(Tag::Beta));
        }
        let mut st: Vec<Rat> = Vec::new();
        st.push(Rat::zero());
        st.push(Rat::zero());
        st.push(Rat::zero());
        let ghost sv0 = core.state_spec();
        let _ = core.new_state(Tag::State, Value::RealVec(st));
        let ghost sv1 = core.state_spec();
        let _ = core.new_state(Tag::LastUpdate, Value::Timestamp(0));
        let ghost sv2 = core.state_spec();
        proof {
            assert(core.state_spec().contains_spec(Tag::State));
        }
        let _ = core.new_state(Tag::Init, Value::Bool(false));
        let ghost sv3 = core.state_spec();
        proof {
            assert(core.statics_spec().contains_spec(Tag::Alpha));
            assert(core.statics_spec().contains_spec(Tag::Beta));
            assert(core.statics_spec().contains_spec(Tag::Gamma));
            assert(core.state_spec().contains_spec(Tag::State));
            assert(core.state_spec().contains_spec(Tag::LastUpdate));
            assert(core.state_spec().contains_spec(Tag::Init));
            assert(core.inputs_spec().contains_spec(Tag::Input));
            assert(core.outputs_spec().contains_spec(Tag::Output));
            assert(!core.statics_spec().assigned_spec(Tag::Alpha));
            assert(!core.statics_spec().assigned_spec(Tag::Beta));
            assert(!core.statics_spec().assigned_spec(Tag::Gamma));
        }
        let b = AlphaBetaGamma { core };
        proof {
            assert forall|t: Tag| #[trigger] b.core.statics_spec().contains_spec(t) implies t
                == Tag::Alpha || t == Tag::Beta || t == Tag::Gamma by {
                if t != Tag::Alpha && t != Tag::Beta && t != Tag::Gamma {
                    assert(st3.contains_spec(t) == st2.contains_spec(t));
                    assert(st2.contains_spec(t) == st1.contains_spec(t));
                    assert(st1.contains_spec(t) == st0.contains_spec(t));
                    assert(!st0.contains_spec(t));
                }
            }
            assert forall|t: Tag| #[trigger] b.core.state_spec().contains_spec(t) implies t
                == Tag::State || t == Tag::LastUpdate || t == Tag::Init by {
                if t != Tag::State && t != Tag::LastUpdate && t != Tag::Init {
                    assert(sv3.contains_spec(t) == sv2.contains_spec(t));
                    assert(sv2.contains_spec(t) == sv1.contains_spec(t));
                    assert(sv1.contains_spec(t) == sv0.contains_spec(t));
                    assert(!sv0.contains_spec(t));
                }
            }
            assert forall|t: Tag| #[trigger] b.core.inputs_spec().contains_spec(t) implies t
                == Tag::Input by {
                if t != Tag::Input {
                    assert(!in0.contains_spec(t));
                }
            }
            assert forall|t: Tag| #[trigger] b.core.outputs_spec().contains_spec(t) implies t
                == Tag::Output by {
                if t != Tag::Output {
                    assert(!out0.contains_spec(t));
                }
            }
        }
        b
    }

    /// Exact `init`: rejected from `Running`; rejected while a gain is
    /// unassigned; otherwise enters `Initial`.
    pub fn init_block(&mut self) -> (r: Result<(), StreamingError>)
        requires
            old(self).wf(),
        ensures
            final(self).wf(),
            r is Err ==> *final(self) == *old(self),
            old(self).lifecycle() == StreamingState::Running ==> r == Err::<(), StreamingError>(
                StreamingError::InvalidStateTransition,
            ),
            old(self).lifecycle() != StreamingState::Running && !old(self).initialized() ==> r
                == Err::<(), StreamingError>(StreamingError::InvalidStatics),
            old(self).lifecycle() != StreamingState::Running && old(self).initialized() ==> {
                &&& r == Ok::<(), StreamingError>(())
                &&& final(self).lifecycle() == StreamingState::Initial
                &&& final(self).core.statics_spec() == old(self).core.statics_spec()
            },
    {
        match self.core.init_guard() {
            Err(e) => {
                return Err(e);
            },
            Ok(()) => {},
        }
        self.core.set_state(StreamingState::Initial);
        Ok(())
    }

    /// Exact `process` at a given clock reading: consumes one sample,
    /// performs the tracker step against the elapsed time since the last
    /// update (clamped below at zero), stores the new state, the given
    /// timestamp and the set flag, and emits the position.
    pub fn process_at(&mut self, inputs: &PortMap, now: u64) -> (r: Result<
        PortMap,
        StreamingError,
    >)
        requires
            old(self).wf(),
            inputs.wf(),
        ensures
            final(self).wf(),
            r == Err::<PortMap, StreamingError>(StreamingError::ChannelClosed)
                <==> !inputs.contains_spec(Tag::Input),
            !inputs.contains_spec(Tag::Input) ==> *final(self) == *old(self),
            r == Err::<PortMap, StreamingError>(StreamingError::InvalidInput) ==> final(self).lifecycle() == StreamingState::Stopped,
            inputs.contains_spec(Tag::Input) && model_kind(inputs.val_spec(Tag::Input))
                != ValueKind::Real ==> r == Err::<PortMap, StreamingError>(
                StreamingError::InvalidInput,
            ),
            r == Err::<PortMap, StreamingError>(StreamingError::InvalidStatics) <==> (
            inputs.contains_spec(Tag::Input) && model_kind(inputs.val_spec(Tag::Input))
                == ValueKind::Real && old(self).core.state_spec().val_spec(
                Tag::State,
            )->RealVec_0.len() != 3),
            r == Err::<PortMap, StreamingError>(StreamingError::InvalidStatics) ==> *final(self)
                == *old(self),
            r != Err::<PortMap, StreamingError>(StreamingError::InvalidStateTransition),
            inputs.contains_spec(Tag::Input) && model_kind(inputs.val_spec(Tag::Input))
                == ValueKind::Real && old(self).core.state_spec().val_spec(
                Tag::State,
            )->RealVec_0.len() == 3 ==> (r is Ok || r == Err::<PortMap, StreamingError>(
                StreamingError::InvalidInput,
            )),
            inputs.contains_spec(Tag::Input) && model_kind(inputs.val_spec(Tag::Input))
                == ValueKind::Real && old(self).core.state_spec().val_spec(
                Tag::State,
            )->RealVec_0.len() == 3 && old(self).core.state_spec().val_spec(Tag::Init)
                == ValueModel::Bool(false) ==> r is Ok,
            r matches Ok(out) ==> inputs.contains_spec(Tag::Input) && model_kind(
                inputs.val_spec(Tag::Input),
            ) == ValueKind::Real,
            r matches Ok(out) ==> out.wf() && out.contains_spec(Tag::Output),
            r matches Ok(out) ==> final(self).core.statics_spec() == old(self).core.statics_spec()
                && final(self).core.parameters_spec() == old(self).core.parameters_spec()
                && final(self).core.inputs_spec() == old(self).core.inputs_spec() && final(self).core.outputs_spec() == old(self).core.outputs_spec() && final(self).core.name_spec()
                == old(self).core.name_spec() && final(self).lifecycle() == old(self).lifecycle(),
            r matches Ok(out) ==> forall|t: Tag|
                t != Tag::State && t != Tag::LastUpdate && t != Tag::Init
                    ==> #[trigger] final(self).core.state_spec().contains_spec(t) == old(self).core.state_spec().contains_spec(t) && (final(self).core.state_spec().contains_spec(t)
                    ==> final(self).core.state_spec().val_spec(t) == old(self).core.state_spec().val_spec(t)),
            r matches Ok(out) ==> final(self).core.state_spec().val_spec(Tag::LastUpdate)
                == ValueModel::Timestamp(now as int) && final(self).core.state_spec().val_spec(
                Tag::Init,
            ) == ValueModel::Bool(true),
            r matches Ok(out) ==> {
                let news = final(self).core.state_spec().val_spec(Tag::State)->RealVec_0;
                let olds = old(self).core.state_spec().val_spec(Tag::State)->RealVec_0;
                olds.len() == 3 && news.len() == 3 && out.val_spec(Tag::Output)
                    == ValueModel::Real(news[0])
            },
            r matches Ok(out) ==> (old(self).core.state_spec().val_spec(Tag::Init)
                == ValueModel::Bool(false) ==> {
                let news = final(self).core.state_spec().val_spec(Tag::State)->RealVec_0;
                let olds = old(self).core.state_spec().val_spec(Tag::State)->RealVec_0;
                news[0] == inputs.val_spec(Tag::Input)->Real_0 && news[1] == olds[1] && news[2]
                    == olds[2]
            }),
            r matches Ok(out) ==> (old(self).core.state_spec().val_spec(Tag::Init)
                == ValueModel::Bool(true) ==> {
                let news = final(self).core.state_spec().val_spec(Tag::State)->RealVec_0;
                let olds = old(self).core.state_spec().val_spec(Tag::State)->RealVec_0;
                let last = old(self).core.state_spec().val_spec(Tag::LastUpdate)->Timestamp_0;
                exists|w: AbgTrace|
                    #[trigger] abg_wit(
                        old(self).core.statics_spec().val_spec(Tag::Alpha)->Real_0,
                        old(self).core.statics_spec().val_spec(Tag::Beta)->Real_0,
                        old(self).core.statics_spec().val_spec(Tag::Gamma)->Real_0,
                        olds[0],
                        olds[1],
                        olds[2],
                        inputs.val_spec(Tag::Input)->Real_0,
                        elapsed(now, last),
                        w,
                        news[0],
                        news[1],
                        news[2],
                    )
            }),
    {
        let got = match inputs.get(Tag::Input) {
            Some(v) => v,
            None => {
                return Err(StreamingError::ChannelClosed);
            },
        };
        let input: Rat = match got {
            Value::Real(q) => q,
            _ => {
                self.core.set_state(StreamingState::Stopped);
                return Err(StreamingError::InvalidInput);
            },
        };
        let alpha: Rat = match self.core.get_statics(Tag::Alpha, ValueKind::Real) {
            Ok(Value::Real(q)) => q,
            _ => {
                proof {
                    assert(false);
                }
                return Err(StreamingError::InvalidStatics);
            },
        };
        let beta: Rat = match self.core.get_statics(Tag::Beta, ValueKind::Real) {
            Ok(Value::Real(q)) => q,
            _ => {
                proof {
                    assert(false);
                }
                return Err(StreamingError::InvalidStatics);
            },
        };
        let gamma: Rat = match self.core.get_statics(Tag::Gamma, ValueKind::Real) {
            Ok(Value::Real(q)) => q,
            _ => {
                proof {
                    assert(false);
                }
                return Err(StreamingError::InvalidStatics);
            },
        };
        let st: Vec<Rat> = match self.core.get_state_value(Tag::State, ValueKind::RealVec) {
            Ok(Value::RealVec(v)) => v,
            _ => {
                proof {
                    assert(false);
                }
                return Err(StreamingError::InvalidStatics);
            },
        };
        if st.len() != 3 {
            return Err(StreamingError::InvalidStatics);
        }
        let initialized: bool = match self.core.get_state_value(Tag::Init, ValueKind::Bool) {
            Ok(Value::Bool(b)) => b,
            _ => {
                proof {
                    assert(false);
                }
                return Err(StreamingError::InvalidStatics);
            },
        };
        let last: u64 = match self.core.get_state_value(Tag::LastUpdate, ValueKind::Timestamp) {
            Ok(Value::Timestamp(t)) => t,
            _ => {
                proof {
                    assert(false);
                }
                return Err(StreamingError::InvalidStatics);
            },
        };
        let micros: u64 = if now >= last {
            now - last
        } else {
            0
        };
        let stepped = abg_step(
            &alpha,
            &beta,
            &gamma,
            &st[0],
            &st[1],
            &st[2],
            &input,
            initialized,
            micros,
        );
        let (p2, v2, a2, outp, wit) = match stepped {
            Some(t) => t,
            None => {
                self.core.set_state(StreamingState::Stopped);
                return Err(StreamingError::InvalidInput);
            },
        };
        let mut st2: Vec<Rat> = Vec::new();
        st2.push(p2);
        st2.push(v2);
        st2.push(a2);
        match self.core.set_state_value(Tag::State, Value::RealVec(st2)) {
            Ok(()) => {},
            Err(e) => {
                proof {
                    assert(false);
                }
                return Err(e);
            },
        }
        proof {
            assert(self.core.state_spec().contains_spec(Tag::State));
            assert(self.core.state_spec().contains_spec(Tag::LastUpdate));
            assert(self.core.state_spec().kind_spec(Tag::LastUpdate) == ValueKind::Timestamp);
        }
        match self.core.set_state_value(Tag::LastUpdate, Value::Timestamp(now)) {
            Ok(()) => {},
            Err(e) => {
                proof {
                    assert(false);
                }
                return Err(e);
            },
        }
        proof {
            assert(self.core.state_spec().contains_spec(Tag::State));
            assert(self.core.state_spec().contains_spec(Tag::Init));
            assert(self.core.state_spec().kind_spec(Tag::Init) == ValueKind::Bool);
        }
        match self.core.set_state_value(Tag::Init, Value::Bool(true)) {
            Ok(()) => {},
            Err(e) => {
                proof {
                    assert(false);
                }
                return Err(e);
            },
        }
        proof {
            assert(self.core.state_spec().contains_spec(Tag::State));
            assert(self.core.state_spec().kind_spec(Tag::State) == ValueKind::RealVec);
            assert(self.core.state_spec().contains_spec(Tag::LastUpdate));
            assert(self.core.state_spec().kind_spec(Tag::LastUpdate) == ValueKind::Timestamp);
        }
        let mut out = PortMap::new();
        out.insert(Tag::Output, Value::Real(outp));
        proof {
            let olds = old(self).core.state_spec().val_spec(Tag::State)->RealVec_0;
            let news = final(self).core.state_spec().val_spec(Tag::State)->RealVec_0;
            assert(st[0int]@ == olds[0] && st[1int]@ == olds[1] && st[2int]@ == olds[2]);
            assert(news =~= crate::rat::seq_rats(st2));
            assert(news[0] == p2@ && news[1] == v2@ && news[2] == a2@);
            assert(olds.len() == 3 && news.len() == 3);
            assert(out.val_spec(Tag::Output) == ValueModel::Real(news[0]));
            assert(final(self).core.state_spec().val_spec(Tag::LastUpdate)
                == ValueModel::Timestamp(now as int));
            assert(final(self).core.state_spec().val_spec(Tag::Init) == ValueModel::Bool(true));
            assert(final(self).core.statics_spec() == old(self).core.statics_spec());
            assert(final(self).lifecycle() == old(self).lifecycle());
            assert(inputs.contains_spec(Tag::Input));
            assert(model_kind(inputs.val_spec(Tag::Input)) == ValueKind::Real);
            assert(out.wf() && out.contains_spec(Tag::Output));
            let last2 = old(self).core.state_spec().val_spec(Tag::LastUpdate)->Timestamp_0;
            assert(micros as int == (if now >= last2 {
                now - last2
            } else {
                0
            }));
            if !initialized {
                assert(old(self).core.state_spec().val_spec(Tag::Init) == ValueModel::Bool(false)
                    || old(self).core.state_spec().val_spec(Tag::Init) == ValueModel::Bool(true));
                assert(news[0] == inputs.val_spec(Tag::Input)->Real_0);
                assert(news[1] == olds[1] && news[2] == olds[2]);
            }
            if initialized {
                assert(abg_wit(
                    old(self).core.statics_spec().val_spec(Tag::Alpha)->Real_0,
                    old(self).core.statics_spec().val_spec(Tag::Beta)->Real_0,
                    old(self).core.statics_spec().val_spec(Tag::Gamma)->Real_0,
                    olds[0],
                    olds[1],
                    olds[2],
                    inputs.val_spec(Tag::Input)->Real_0,
                    micros as int,
                    wit@,
                    news[0],
                    news[1],
                    news[2],
                ));
                assert(micros as int == elapsed(now, last2));
                assert(abg_wit(
                    old(self).core.statics_spec().val_spec(Tag::Alpha)->Real_0,
                    old(self).core.statics_spec().val_spec(Tag::Beta)->Real_0,
                    old(self).core.statics_spec().val_spec(Tag::Gamma)->Real_0,
                    olds[0],
                    olds[1],
                    olds[2],
                    inputs.val_spec(Tag::Input)->Real_0,
                    elapsed(now, last2),
                    wit@,
                    news[0],
                    news[1],
                    news[2],
                ));
                assert(exists|w: AbgTrace|
                    #[trigger] abg_wit(
                        old(self).core.statics_spec().val_spec(Tag::Alpha)->Real_0,
                        old(self).core.statics_spec().val_spec(Tag::Beta)->Real_0,
                        old(self).core.statics_spec().val_spec(Tag::Gamma)->Real_0,
                        olds[0],
                        olds[1],
                        olds[2],
                        inputs.val_spec(Tag::Input)->Real_0,
                        elapsed(now, last2),
                        w,
                        news[0],
                        news[1],
                        news[2],
                    ));
            }
        }
        Ok(out)
    }

    /// Exact `process` against the wall clock: reads the system time once
    /// and performs the step at that reading.  Everything but the reading
    /// itself is pinned: which error comes when, the first-sample seeding,
    /// and that the corrected state satisfies the tracker step at the
    /// elapsed time of some reading, the one stored as `last_update`.
    pub fn process_block(&mut self, inputs: &PortMap) -> (r: Result<PortMap, StreamingError>)
        requires
            old(self).wf(),
            inputs.wf(),
        ensures
            final(self).wf(),
            r == Err::<PortMap, StreamingError>(StreamingError::ChannelClosed)
                <==> !inputs.contains_spec(Tag::Input),
            !inputs.contains_spec(Tag::Input) ==> *final(self) == *old(self),
            r == Err::<PortMap, StreamingError>(StreamingError::InvalidInput) ==> final(self).lifecycle() == StreamingState::Stopped,
            inputs.contains_spec(Tag::Input) && model_kind(inputs.val_spec(Tag::Input))
                != ValueKind::Real ==> r == Err::<PortMap, StreamingError>(
                StreamingError::InvalidInput,
            ),
            r == Err::<PortMap, StreamingError>(StreamingError::InvalidStatics) <==> (
            inputs.contains_spec(Tag::Input) && model_kind(inputs.val_spec(Tag::Input))
                == ValueKind::Real && old(self).core.state_spec().val_spec(
                Tag::State,
            )->RealVec_0.len() != 3),
            r == Err::<PortMap, StreamingError>(StreamingError::InvalidStatics) ==> *final(self)
                == *old(self),
            r != Err::<PortMap, StreamingError>(StreamingError::InvalidStateTransition),
            inputs.contains_spec(Tag::Input) && model_kind(inputs.val_spec(Tag::Input))
                == ValueKind::Real && old(self).core.state_spec().val_spec(
                Tag::State,
            )->RealVec_0.len() == 3 && old(self).core.state_spec().val_spec(Tag::Init)
                == ValueModel::Bool(false) ==> r is Ok,
            r matches Ok(out) ==> exists|t0: u64|
                final(self).core.state_spec().val_spec(Tag::LastUpdate) == #[trigger] stamp_of(t0),
            r matches Ok(out) ==> {
                let news = final(self).core.state_spec().val_spec(Tag::State)->RealVec_0;
                let olds = old(self).core.state_spec().val_spec(Tag::State)->RealVec_0;
                &&& out.wf()
                &&& out.contains_spec(Tag::Output)
                &&& final(self).core.statics_spec() == old(self).core.statics_spec()
                &&& final(self).lifecycle() == old(self).lifecycle()
                &&& final(self).core.state_spec().val_spec(Tag::Init) == ValueModel::Bool(true)
                &&& olds.len() == 3 && news.len() == 3
                &&& out.val_spec(Tag::Output) == ValueModel::Real(news[0])
                &&& (old(self).core.state_spec().val_spec(Tag::Init) == ValueModel::Bool(false)
                    ==> news[0] == inputs.val_spec(Tag::Input)->Real_0 && news[1] == olds[1]
                        && news[2] == olds[2])
                &&& (old(self).core.state_spec().val_spec(Tag::Init) == ValueModel::Bool(true)
                    ==> exists|t0: u64, w: AbgTrace|
                        final(self).core.state_spec().val_spec(Tag::LastUpdate)
                            == ValueModel::Timestamp(t0 as int) && #[trigger] abg_wit(
                            old(self).core.statics_spec().val_spec(Tag::Alpha)->Real_0,
                            old(self).core.statics_spec().val_spec(Tag::Beta)->Real_0,
                            old(self).core.statics_spec().val_spec(Tag::Gamma)->Real_0,
                            olds[0],
                            olds[1],
                            olds[2],
                            inputs.val_spec(Tag::Input)->Real_0,
                            elapsed(
                                t0,
                                old(self).core.state_spec().val_spec(Tag::LastUpdate)->Timestamp_0,
                            ),
                            w,
                            news[0],
                            news[1],
                            news[2],
                        ))
            },
    {
        let now = clock_now_micros();
        let r = self.process_at(inputs, now);
        proof {
            if r is Ok {
                assert(final(self).core.state_spec().val_spec(Tag::LastUpdate) == stamp_of(now));
            }
            if r is Ok && old(self).core.state_spec().val_spec(Tag::Init) == ValueModel::Bool(
                true,
            ) {
                let news = final(self).core.state_spec().val_spec(Tag::State)->RealVec_0;
                let olds = old(self).core.state_spec().val_spec(Tag::State)->RealVec_0;
                let last = old(self).core.state_spec().val_spec(Tag::LastUpdate)->Timestamp_0;
                let w0 = choose|w: AbgTrace|
                    abg_wit(
                        old(self).core.statics_spec().val_spec(Tag::Alpha)->Real_0,
                        old(self).core.statics_spec().val_spec(Tag::Beta)->Real_0,
                        old(self).core.statics_spec().val_spec(Tag::Gamma)->Real_0,
                        olds[0],
                        olds[1],
                        olds[2],
                        inputs.val_spec(Tag::Input)->Real_0,
                        elapsed(now, last),
                        w,
                        news[0],
                        news[1],
                        news[2],
                    );
                assert(final(self).core.state_spec().val_spec(Tag::LastUpdate)
                    == ValueModel::Timestamp(now as int) && abg_wit(
                    old(self).core.statics_spec().val_spec(Tag::Alpha)->Real_0,
                    old(self).core.statics_spec().val_spec(Tag::Beta)->Real_0,
                    old(self).core.statics_spec().val_spec(Tag::Gamma)->Real_0,
                    olds[0],
                    olds[1],
                    olds[2],
                    inputs.val_spec(Tag::Input)->Real_0,
                    elapsed(now, last),
                    w0,
                    news[0],
                    news[1],
                    news[2],
                ));
            }
        }
        r
    }
}

impl StreamProcessor for AlphaBetaGamma {
    open spec fn lifecycle(&self) -> StreamingState {
        self.core.lifecycle_spec()
    }

    open spec fn initialized(&self) -> bool {
        self.core.initialized_spec()
    }

    open spec fn wf(&self) -> bool {
        self.shape_wf()
    }

    fn init(&mut self) -> (r: Result<(), StreamingError>) {
        self.init_block()
    }

    fn run(&mut self) -> (r: Result<(), StreamingError>) {
        match self.core.run_guard() {
            Err(e) => Err(e),
            Ok(()) => {
                self.core.set_state(StreamingState::Running);
                Ok(())
            },
        }
    }

    fn process(&mut self, inputs: &PortMap) -> (r: Result<PortMap, StreamingError>) {
        self.process_block(inputs)
    }

    fn stop(&mut self) -> (r: Result<(), StreamingError>) {
        self.core.set_state(StreamingState::Stopped);
        Ok(())
    }
}

} // verus!
