//! Slot and port payloads.
//!
//! Element types are heterogeneous across ports and slots, so a payload is a
//! tagged variant: an integer, a flag, an exact rational scalar, a vector of
//! reals or of complex values, a matrix, or a timestamp in microseconds.

use crate::cplx::Cplx;
use crate::matrix::{mat_qwf, Mat};
use crate::rat::{qseq_wf, qwf, Rat};
use vstd::prelude::*;

verus! {

/// The element type of a slot or port.
#[derive(Clone, Copy, Debug, PartialEq, Eq, Structural)]
pub enum ValueKind {
    Int,
    Bool,
    Real,
    RealVec,
    ComplexVec,
    Matrix,
    Timestamp,
}

/// A payload carried by a slot or a port.
#[derive(Debug, PartialEq, Eq)]
pub enum Value {
    Int(usize),
    Bool(bool),
    Real(Rat),
    RealVec(Vec<Rat>),
    ComplexVec(Vec<Cplx>),
    Matrix(Mat),
    Timestamp(u64),
}

/// The mathematical shadow of a payload.
pub enum ValueModel {
    Int(int),
    Bool(bool),
    Real((int, int)),
    RealVec(Seq<(int, int)>),
    ComplexVec(Seq<((int, int), (int, int))>),
    Matrix(Seq<Seq<(int, int)>>),
    Timestamp(int),
}

impl View for Value {
    type V = ValueModel;

    open spec fn view(&self) -> ValueModel {
        match self {
            Value::Int(n) => ValueModel::Int(*n as int),
            Value::Bool(b) => ValueModel::Bool(*b),
            Value::Real(r) => ValueModel::Real(r@),
            Value::RealVec(v) => ValueModel::RealVec(Seq::new(v.len() as nat, |i: int| v[i]@)),
            Value::ComplexVec(v) => ValueModel::ComplexVec(
                Seq::new(v.len() as nat, |i: int| v[i]@),
            ),
            Value::Matrix(m) => ValueModel::Matrix(m@),
            Value::Timestamp(t) => ValueModel::Timestamp(*t as int),
        }
    }
}

/// Every rational inside the payload has a positive denominator.
pub open spec fn value_wf(v: Value) -> bool {
    match v {
        Value::Real(r) => qwf(r@),
        Value::RealVec(vec) => forall|i: int| 0 <= i < vec.len() ==> qwf(#[trigger] vec[i]@),
        Value::ComplexVec(vec) => forall|i: int|
            0 <= i < vec.len() ==> qwf((#[trigger] vec[i]).re@) && qwf(vec[i].im@),
        Value::Matrix(m) => mat_qwf(m@),
        _ => true,
    }
}

impl Value {
    pub open spec fn kind_spec(&self) -> ValueKind {
        match self {
            Value::Int(_) => ValueKind::Int,
            Value::Bool(_) => ValueKind::Bool,
            Value::Real(_) => ValueKind::Real,
            Value::RealVec(_) => ValueKind::RealVec,
            Value::ComplexVec(_) => ValueKind::ComplexVec,
            Value::Matrix(_) => ValueKind::Matrix,
            Value::Timestamp(_) => ValueKind::Timestamp,
        }
    }

    pub fn kind(&self) -> (k: ValueKind)
        ensures
            k == self.kind_spec(),
    {
        match self {
            Value::Int(_) => ValueKind::Int,
            Value::Bool(_) => ValueKind::Bool,
            Value::Real(_) => ValueKind::Real,
            Value::RealVec(_) => ValueKind::RealVec,
            Value::ComplexVec(_) => ValueKind::ComplexVec,
            Value::Matrix(_) => ValueKind::Matrix,
            Value::Timestamp(_) => ValueKind::Timestamp,
        }
    }

    /// Establishes, by inspection, that the payload's rationals are well
    /// formed; true of every reachable payload.
    pub fn check_wf(&self) -> (r: bool)
        ensures
            r,
            value_wf(*self),
    {
        match self {
            Value::Real(q) => {
                let qq: Rat = *q;
                proof {
                    use_type_invariant(&qq);
                }
                true
            },
            Value::RealVec(v) => {
                let n: usize = v.len();
                let mut i: usize = 0;
                while i < n
                    invariant
                        i <= n,
                        n == v.len(),
                        forall|t: int| 0 <= t < i ==> qwf(#[trigger] v[t]@),
                    decreases n - i,
                {
                    let e: Rat = v[i];
                    proof {
                        use_type_invariant(&e);
                    }
                    i = i + 1;
                }
                true
            },
            Value::ComplexVec(v) => {
                let n: usize = v.len();
                let mut i: usize = 0;
                while i < n
                    invariant
                        i <= n,
                        n == v.len(),
                        forall|t: int| 0 <= t < i ==> qwf((#[trigger] v[t]).re@) && qwf(v[t].im@),
                    decreases n - i,
                {
                    let e: Cplx = v[i];
                    let er: Rat = e.re;
                    let ei: Rat = e.im;
                    proof {
                        use_type_invariant(&er);
                        use_type_invariant(&ei);
                        assert(v[i as int].re == er && v[i as int].im == ei);
                    }
                    i = i + 1;
                }
                true
            },
            Value::Matrix(m) => m.entries_wf(),
            _ => true,
        }
    }
}

impl Clone for Value {
    fn clone(&self) -> (r: Value)
        ensures
            r@ == self@,
            r.kind_spec() == self.kind_spec(),
            value_wf(*self) ==> value_wf(r),
    {
        match self {
            Value::Int(n) => Value::Int(*n),
            Value::Bool(b) => Value::Bool(*b),
            Value::Real(q) => Value::Real(*q),
            Value::RealVec(v) => {
                let v2 = v.clone();
                proof {
                    assert(v2@ =~= v@);
                    assert(Seq::new(v2.len() as nat, |i: int| v2[i]@) =~= Seq::new(
                        v.len() as nat,
                        |i: int| v[i]@,
                    ));
                }
                Value::RealVec(v2)
            },
            Value::ComplexVec(v) => {
                let v2 = v.clone();
                proof {
                    assert(v2@ =~= v@);
                    assert(Seq::new(v2.len() as nat, |i: int| v2[i]@) =~= Seq::new(
                        v.len() as nat,
                        |i: int| v[i]@,
                    ));
                }
                Value::ComplexVec(v2)
            },
            Value::Matrix(m) => Value::Matrix(m.clone()),
            Value::Timestamp(t) => Value::Timestamp(*t),
        }
    }
}

/// The element kind that a payload model denotes.
pub open spec fn model_kind(m: ValueModel) -> ValueKind {
    match m {
        ValueModel::Int(_) => ValueKind::Int,
        ValueModel::Bool(_) => ValueKind::Bool,
        ValueModel::Real(_) => ValueKind::Real,
        ValueModel::RealVec(_) => ValueKind::RealVec,
        ValueModel::ComplexVec(_) => ValueKind::ComplexVec,
        ValueModel::Matrix(_) => ValueKind::Matrix,
        ValueModel::Timestamp(_) => ValueKind::Timestamp,
    }
}

/// Every rational in the payload model has a positive denominator.
pub open spec fn model_wf(m: ValueModel) -> bool {
    match m {
        ValueModel::Real(q) => qwf(q),
        ValueModel::RealVec(s) => qseq_wf(s),
        ValueModel::ComplexVec(s) => forall|i: int|
            0 <= i < s.len() ==> qwf((#[trigger] s[i]).0) && qwf(s[i].1),
        ValueModel::Matrix(g) => crate::matrix::mat_qwf(g),
        _ => true,
    }
}

/// A well-formed payload has a well-formed model of the same kind.
pub proof fn lemma_value_model(v: Value)
    requires
        value_wf(v),
    ensures
        model_kind(v@) == v.kind_spec(),
        model_wf(v@),
{
    match v {
        Value::RealVec(vec) => {
            let s = Seq::new(vec.len() as nat, |i: int| vec[i]@);
            assert forall|i: int| 0 <= i < s.len() implies qwf(#[trigger] s[i]) by {
                assert(s[i] == vec[i]@);
            }
        },
        Value::ComplexVec(vec) => {
            let s = Seq::new(vec.len() as nat, |i: int| vec[i]@);
            assert forall|i: int| 0 <= i < s.len() implies qwf((#[trigger] s[i]).0) && qwf(
                s[i].1,
            ) by {
                assert(s[i] == vec[i]@);
            }
        },
        _ => {},
    }
}

/// The validation constraint a block may impose on values assigned to a slot.
#[derive(Clone, Copy, Debug, PartialEq, Eq, Structural)]
pub enum Validator {
    /// Accepts every value of the declared kind.
    Any,
    /// Rejects negative scalars.
    NonNegative,
    /// Rejects non-positive scalars.
    Positive,
}

impl Validator {
    pub open spec fn accepts_spec(self, v: ValueModel) -> bool {
        match self {
            Validator::Any => true,
            Validator::NonNegative => match v {
                ValueModel::Real(q) => q.0 >= 0,
                _ => true,
            },
            Validator::Positive => match v {
                ValueModel::Real(q) => q.0 > 0,
                ValueModel::Int(n) => n > 0,
                _ => true,
            },
        }
    }

    pub fn accepts(&self, v: &Value) -> (r: bool)
        ensures
            r == self.accepts_spec(v@),
    {
        match self {
            Validator::Any => true,
            Validator::NonNegative => match v {
                Value::Real(q) => q.num() >= 0,
                _ => true,
            },
            Validator::Positive => match v {
                Value::Real(q) => q.num() > 0,
                Value::Int(n) => *n > 0,
                _ => true,
            },
        }
    }
}

} // verus!
