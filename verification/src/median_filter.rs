//! The median filter block.
//!
//! Static: `order`, the window width (at least one).  Each process step
//! starts a fresh sliding window: every input sample is pushed into the
//! window, the oldest sample leaves once the window is full, and the median
//! of the window is emitted — the exact middle when the window is odd, the
//! mean of the two middle samples when it is even.

use crate::connectors::PortMap;
use crate::rat::{
    lemma_qadd_wf, lemma_qdiv_congr, lemma_qeq_trans, qadd, qdiv, qeq, qle, qlt, qseq_wf, qwf,
    rats_wf, seq_rats, Rat,
};
use crate::stream_processor::{BlockCore, StreamProcessor};
use crate::streaming_data::{StreamingError, StreamingState};
use crate::tags::Tag;
use crate::value::{model_kind, Validator, Value, ValueKind, ValueModel};
use vstd::prelude::*;

verus! {

/// Inserts `v` into `s` just after the last entry not above it.
pub open spec fn qsort_insert(s: Seq<(int, int)>, v: (int, int)) -> Seq<(int, int)>
    decreases s.len(),
{
    if s.len() == 0 {
        seq![v]
    } else if qle(s.last(), v) {
        s.push(v)
    } else {
        qsort_insert(s.drop_last(), v).push(s.last())
    }
}

/// The sequence rebuilt in non-decreasing value order by repeated insertion.
pub open spec fn qsorted_of(s: Seq<(int, int)>) -> Seq<(int, int)>
    decreases s.len(),
{
    if s.len() == 0 {
        s
    } else {
        qsort_insert(qsorted_of(s.drop_last()), s.last())
    }
}

/// The median of a window: the middle of the sorted window when its length
/// is odd, the mean of the two middle entries when it is even.
pub open spec fn median_of(s: Seq<(int, int)>) -> (int, int) {
    let t = qsorted_of(s);
    if s.len() % 2 == 1 {
        t[s.len() as int / 2]
    } else {
        qdiv(qadd(t[s.len() as int / 2 - 1], t[s.len() as int / 2]), (2, 1))
    }
}

/// The window feeding output sample `k`: the last `order` samples up to and
/// including `x[k]`, fewer while the window is still filling.
pub open spec fn med_window(x: Seq<(int, int)>, order: int, k: int) -> Seq<(int, int)> {
    x.subrange(
        if k + 1 - order >= 0 {
            k + 1 - order
        } else {
            0
        },
        k + 1,
    )
}

/// Insertion lands exactly where the descending scan from the end stops.
proof fn lemma_insert_shape(s: Seq<(int, int)>, v: (int, int), j: int)
    requires
        0 <= j <= s.len(),
        forall|t: int| j <= t < s.len() ==> qlt(v, #[trigger] s[t]),
        j > 0 ==> qle(s[j - 1], v),
    ensures
        qsort_insert(s, v) == s.subrange(0, j) + seq![v] + s.subrange(j, s.len() as int),
    decreases s.len(),
{
    if s.len() == 0 {
        assert(qsort_insert(s, v) =~= s.subrange(0, 0) + seq![v] + s.subrange(0, 0));
    } else if qle(s.last(), v) {
        assert(j == s.len());
        assert(qsort_insert(s, v) =~= s.subrange(0, j) + seq![v] + s.subrange(j, s.len() as int));
    } else {
        assert(qlt(v, s.last()));
        assert(j < s.len());
        let dl = s.drop_last();
        assert(forall|t: int| j <= t < dl.len() ==> qlt(v, #[trigger] dl[t]));
        lemma_insert_shape(dl, v, j);
        assert(qsort_insert(dl, v).push(s.last()) =~= s.subrange(0, j) + seq![v] + s.subrange(
            j,
            s.len() as int,
        ));
    }
}

/// Inserting grows the sequence by one.
proof fn lemma_insert_len(s: Seq<(int, int)>, v: (int, int))
    ensures
        qsort_insert(s, v).len() == s.len() + 1,
    decreases s.len(),
{
    if s.len() > 0 && !qle(s.last(), v) {
        lemma_insert_len(s.drop_last(), v);
    }
}

/// Sorting keeps the length.
pub proof fn lemma_sorted_len(s: Seq<(int, int)>)
    ensures
        qsorted_of(s).len() == s.len(),
    decreases s.len(),
{
    if s.len() > 0 {
        lemma_sorted_len(s.drop_last());
        lemma_insert_len(qsorted_of(s.drop_last()), s.last());
    }
}

/// A window of width one is its own median.
pub proof fn lemma_median_order_one(x: Seq<(int, int)>, k: int)
    requires
        0 <= k < x.len(),
    ensures
        median_of(med_window(x, 1, k)) == x[k],
{
    let w = med_window(x, 1, k);
    assert(w =~= seq![x[k]]);
    assert(w.drop_last() =~= Seq::<(int, int)>::empty());
    assert(qsorted_of(w) == qsort_insert(qsorted_of(w.drop_last()), x[k]));
    assert(qsorted_of(w.drop_last()) == w.drop_last());
    assert(qsort_insert(w.drop_last(), x[k]) =~= seq![x[k]]);
}

/// Inserts `v` into a vector at its sorted position from the end.
fn insert_sorted(s: &Vec<Rat>, v: Rat) -> (r: Vec<Rat>)
    ensures
        seq_rats(r) == qsort_insert(seq_rats(*s), v@),
        r.len() == s.len() + 1,
{
    let n: usize = s.len();
    let mut j: usize = n;
    while j > 0 && v.lt(&s[j - 1])
        invariant
            j <= n,
            n == s.len(),
            forall|t: int| j <= t < n ==> qlt(v@, #[trigger] s[t]@),
        decreases j,
    {
        j = j - 1;
    }
    let mut r: Vec<Rat> = Vec::new();
    let mut t: usize = 0;
    while t < j
        invariant
            t <= j,
            j <= n,
            n == s.len(),
            r.len() == t,
            forall|u: int| 0 <= u < t ==> #[trigger] r[u] == s[u],
        decreases j - t,
    {
        r.push(s[t]);
        t = t + 1;
    }
    r.push(v);
    let mut t2: usize = j;
    while t2 < n
        invariant
            j <= t2 <= n,
            n == s.len(),
            r.len() == t2 + 1,
            forall|u: int| 0 <= u < j ==> #[trigger] r[u] == s[u],
            r[j as int] == v,
            forall|u: int| j < u < t2 + 1 ==> #[trigger] r[u] == s[u - 1],
        decreases n - t2,
    {
        r.push(s[t2]);
        t2 = t2 + 1;
    }
    proof {
        let sm = seq_rats(*s);
        assert forall|t3: int| j <= t3 < n implies qlt(v@, #[trigger] sm[t3]) by {
            assert(sm[t3] == s[t3]@);
        }
        if j > 0 {
            assert(sm[j - 1] == s[j - 1]@);
        }
        lemma_insert_shape(sm, v@, j as int);
        assert(seq_rats(r) =~= sm.subrange(0, j as int) + seq![v@] + sm.subrange(
            j as int,
            n as int,
        ));
    }
    r
}

/// Rebuilds the window in sorted order.
fn sort_rats(w: &Vec<Rat>) -> (r: Vec<Rat>)
    ensures
        seq_rats(r) == qsorted_of(seq_rats(*w)),
        r.len() == w.len(),
{
    let n: usize = w.len();
    let mut out: Vec<Rat> = Vec::new();
    let mut t: usize = 0;
    while t < n
        invariant
            t <= n,
            n == w.len(),
            out.len() == t,
            seq_rats(out) == qsorted_of(seq_rats(*w).take(t as int)),
        decreases n - t,
    {
        let out2 = insert_sorted(&out, w[t]);
        proof {
            let pre = seq_rats(*w).take(t as int);
            let post = seq_rats(*w).take(t as int + 1);
            assert(post.drop_last() =~= pre);
            assert(post.last() == seq_rats(*w)[t as int]);
            assert(seq_rats(*w)[t as int] == w[t as int]@);
            assert(qsorted_of(post) == qsort_insert(qsorted_of(pre), w[t as int]@));
        }
        out = out2;
        t = t + 1;
    }
    proof {
        assert(seq_rats(*w).take(n as int) =~= seq_rats(*w));
        lemma_sorted_len(seq_rats(*w));
    }
    out
}

/// The median of a non-empty window; `None` only when the mean of the two
/// middle samples leaves the machine range.
fn median_rat(w: &Vec<Rat>) -> (r: Option<Rat>)
    requires
        w.len() >= 1,
    ensures
        r matches Some(m) ==> qwf(m@) && qeq(m@, median_of(seq_rats(*w))),
        w.len() % 2 == 1 ==> r is Some,
{
    let sorted = sort_rats(w);
    let _sw = rats_wf(&sorted);
    let n: usize = w.len();
    proof {
        lemma_sorted_len(seq_rats(*w));
    }
    if n % 2 == 1 {
        let m = sorted[n / 2];
        proof {
            use_type_invariant(&m);
            assert(m@ == seq_rats(sorted)[n as int / 2]);
        }
        Some(m)
    } else {
        let lo = sorted[n / 2 - 1];
        let hi = sorted[n / 2];
        let sum = match lo.try_add(&hi) {
            Some(v) => v,
            None => {
                return None;
            },
        };
        let two = Rat::from_int(2);
        let m = match sum.try_div(&two) {
            Some(v) => v,
            None => {
                return None;
            },
        };
        proof {
            assert(lo@ == seq_rats(sorted)[n as int / 2 - 1]);
            assert(hi@ == seq_rats(sorted)[n as int / 2]);
            use_type_invariant(&lo);
            use_type_invariant(&hi);
            lemma_qadd_wf(lo@, hi@);
            lemma_qdiv_congr(sum@, (2int, 1int), qadd(lo@, hi@), (2int, 1int));
            lemma_qeq_trans(m@, qdiv(sum@, (2int, 1int)), qdiv(qadd(lo@, hi@), (2int, 1int)));
        }
        Some(m)
    }
}

/// The median filter kernel: one output sample per input sample, each the
/// median of the sliding window ending at it.
pub fn median_filter(order: usize, input: &Vec<Rat>) -> (r: Option<Vec<Rat>>)
    requires
        order >= 1,
    ensures
        r matches Some(y) ==> {
            &&& y.len() == input.len()
            &&& qseq_wf(seq_rats(y))
            &&& forall|k: int|
                0 <= k < input.len() ==> qeq(
                    #[trigger] seq_rats(y)[k],
                    median_of(med_window(seq_rats(*input), order as int, k)),
                )
        },
        order == 1 ==> r is Some,
{
    let n: usize = input.len();
    let mut window: Vec<Rat> = Vec::new();
    let mut out: Vec<Rat> = Vec::new();
    let mut k: usize = 0;
    proof {
        assert(seq_rats(window) =~= med_window(seq_rats(*input), order as int, -1));
    }
    while k < n
        invariant
            k <= n,
            n == input.len(),
            order >= 1,
            seq_rats(window) == med_window(seq_rats(*input), order as int, k - 1),
            window.len() <= order,
            k >= order ==> window.len() == order,
            k < order ==> window.len() == k,
            out.len() == k,
            forall|j: int|
                0 <= j < k ==> qeq(
                    #[trigger] seq_rats(out)[j],
                    median_of(med_window(seq_rats(*input), order as int, j)),
                ),
            forall|j: int| 0 <= j < k ==> qwf(#[trigger] out[j]@),
        decreases n - k,
    {
        let ghost oldwin = seq_rats(window);
        let ghost oldvecw = window@;
        window.push(input[k]);
        let ghost midvec = window@;
        if window.len() > order {
            let _ = window.remove(0);
        }
        proof {
            let xm = seq_rats(*input);
            let lo: int = if k + 1 - order >= 0 {
                k + 1 - order
            } else {
                0
            };
            let tgt = med_window(xm, order as int, k as int);
            assert(xm[k as int] == input[k as int]@);
            assert forall|j: int| 0 <= j < window@.len() implies seq_rats(window)[j]
                == tgt[j] by {
                assert(seq_rats(window)[j] == window@[j]@);
                if k >= order {
                    assert(window@ == midvec.remove(0));
                    assert(window@[j] == midvec[j + 1]);
                    if j + 1 < oldvecw.len() {
                        assert(midvec[j + 1] == oldvecw[j + 1]);
                        assert(oldvecw[j + 1]@ == oldwin[j + 1]);
                        assert(oldwin[j + 1] == xm[k - order + j + 1]);
                    } else {
                        assert(midvec[j + 1] == input[k as int]);
                    }
                } else {
                    assert(window@ == midvec);
                    if j < oldvecw.len() {
                        assert(midvec[j] == oldvecw[j]);
                        assert(oldvecw[j]@ == oldwin[j]);
                        assert(oldwin[j] == xm[j]);
                    } else {
                        assert(midvec[j] == input[k as int]);
                    }
                }
            }
            assert(seq_rats(window) =~= tgt);
        }
        let med = match median_rat(&window) {
            Some(m) => m,
            None => {
                proof {
                    assert(order != 1);
                }
                return None;
            },
        };
        let ghost oldout = seq_rats(out);
        let ghost oldoutv = out@;
        out.push(med);
        k = k + 1;
        proof {
            assert forall|j: int| 0 <= j < k implies qeq(
                #[trigger] seq_rats(out)[j],
                median_of(med_window(seq_rats(*input), order as int, j)),
            ) by {
                assert(seq_rats(out)[j] == out@[j]@);
                if j < k - 1 {
                    assert(out@[j] == oldoutv[j]);
                    assert(oldout[j] == oldoutv[j]@);
                } else {
                    assert(out@[j] == med);
                }
            }
        }
    }
    proof {
        assert forall|j: int| 0 <= j < seq_rats(out).len() implies qwf(
            #[trigger] seq_rats(out)[j],
        ) by {
            assert(seq_rats(out)[j] == out[j]@);
        }
    }
    Some(out)
}

/// The median filter block.
pub struct MedianFilter {
    pub core: BlockCore,
}

impl MedianFilter {
    /// The block's fixed shape: its ports and slots, with their kinds.
    pub open spec fn shape_wf(&self) -> bool {
        &&& self.core.wf()
        &&& self.core.inputs_spec().contains_spec(Tag::Input)
        &&& self.core.inputs_spec().kind_spec(Tag::Input) == ValueKind::RealVec
        &&& self.core.outputs_spec().contains_spec(Tag::Output)
        &&& self.core.outputs_spec().kind_spec(Tag::Output) == ValueKind::RealVec
        &&& self.core.statics_spec().contains_spec(Tag::Order)
        &&& self.core.statics_spec().kind_spec(Tag::Order) == ValueKind::Int
    }

    pub open spec fn order_spec(&self) -> int {
        self.core.statics_spec().val_spec(Tag::Order)->Int_0
    }

    /// The shape `process` needs: a window width of at least one.
    pub open spec fn shapes_ok(&self) -> bool {
        self.order_spec() >= 1
    }

    /// A fresh median filter named `name`, in state `Null`: exactly the
    /// ports `input` and `output` and the static `order` (default zero),
    /// unconstrained and unassigned.
    pub fn new(name: String) -> (b: MedianFilter)
        ensures
            b.wf(),
            b.lifecycle() == StreamingState::Null,
            !b.initialized(),
            b.core.name_spec() == name@,
            b.core.statics_spec().val_spec(Tag::Order) == ValueModel::Int(0),
            b.core.statics_spec().validator_spec(Tag::Order) == Validator::Any,
            !b.core.statics_spec().assigned_spec(Tag::Order),
            forall|t: Tag| #[trigger] b.core.statics_spec().contains_spec(t) ==> t == Tag::Order,
            forall|t: Tag| !b.core.state_spec().contains_spec(t),
            forall|t: Tag| #[trigger] b.core.inputs_spec().contains_spec(t) ==> t == Tag::Input,
            forall|t: Tag| #[trigger] b.core.outputs_spec().contains_spec(t) ==> t == Tag::Output,
            forall|t: Tag| !b.core.parameters_spec().contains_spec(t),
    {
        let mut core = BlockCore::new(name);
        let ghost in0 = core.inputs_spec();
        let _ = core.new_input(Tag::Input, ValueKind::RealVec);
        let ghost out0 = core.outputs_spec();
        let _ = core.new_output(Tag::Output, ValueKind::RealVec);
        let ghost st0 = core.statics_spec();
        let _ = core.new_statics(Tag::Order, Value::Int(0), Validator::Any);
        let b = MedianFilter { core };
        proof {
            assert(!b.core.statics_spec().assigned_spec(Tag::Order));
            assert forall|t: Tag| #[trigger] b.core.statics_spec().contains_spec(t) implies t
                == Tag::Order by {
                if t != Tag::Order {
                    assert(!st0.contains_spec(t));
                }
            }
            assert forall|t: Tag| #[trigger] b.core.inputs_spec().contains_spec(t) implies t
                == Tag::Input by {
                if t != Tag::Input {
                    assert(!in0.contains_spec(t));
                }
            }
            assert forall|t: Tag| #[trigger] b.core.outputs_spec().contains_spec(t) implies t
                == Tag::Output by {
                if t != Tag::Output {
                    assert(!out0.contains_spec(t));
                }
            }
        }
        b
    }

    /// Exact `init`: rejected from `Running`; rejected while `order` is
    /// unassigned or zero; otherwise enters `Initial`.
    pub fn init_block(&mut self) -> (r: Result<(), StreamingError>)
        requires
            old(self).wf(),
        ensures
            final(self).wf(),
            r is Err ==> *final(self) == *old(self),
            old(self).lifecycle() == StreamingState::Running ==> r == Err::<(), StreamingError>(
                StreamingError::InvalidStateTransition,
            ),
            old(self).lifecycle() != StreamingState::Running && !old(self).initialized() ==> r
                == Err::<(), StreamingError>(StreamingError::InvalidStatics),
            old(self).lifecycle() != StreamingState::Running && old(self).initialized() ==> {
                if old(self).order_spec() >= 1 {
                    &&& r == Ok::<(), StreamingError>(())
                    &&& final(self).lifecycle() == StreamingState::Initial
                    &&& final(self).core.statics_spec() == old(self).core.statics_spec()
                } else {
                    r == Err::<(), StreamingError>(StreamingError::InvalidStatics)
                }
            },
    {
        match self.core.init_guard() {
            Err(e) => {
                return Err(e);
            },
            Ok(()) => {},
        }
        let o: usize = match self.core.get_statics(Tag::Order, ValueKind::Int) {
            Ok(Value::Int(o)) => o,
            _ => {
                proof {
                    assert(false);
                }
                return Err(StreamingError::InvalidStatics);
            },
        };
        if o == 0 {
            return Err(StreamingError::InvalidStatics);
        }
        self.core.set_state(StreamingState::Initial);
        Ok(())
    }

    /// Exact `process`: emits, for each input sample, the median of the
    /// sliding window that ends at it.
    pub fn process_block(&mut self, inputs: &PortMap) -> (r: Result<PortMap, StreamingError>)
        requires
            old(self).wf(),
            inputs.wf(),
        ensures
            final(self).wf(),
            r == Err::<PortMap, StreamingError>(StreamingError::ChannelClosed)
                <==> !inputs.contains_spec(Tag::Input),
            !inputs.contains_spec(Tag::Input) ==> *final(self) == *old(self),
            r == Err::<PortMap, StreamingError>(StreamingError::InvalidInput) ==> final(self).lifecycle() == StreamingState::Stopped,
            inputs.contains_spec(Tag::Input) && model_kind(inputs.val_spec(Tag::Input))
                != ValueKind::RealVec ==> r == Err::<PortMap, StreamingError>(
                StreamingError::InvalidInput,
            ),
            r == Err::<PortMap, StreamingError>(StreamingError::InvalidStatics) <==> (
            inputs.contains_spec(Tag::Input) && model_kind(inputs.val_spec(Tag::Input))
                == ValueKind::RealVec && !old(self).shapes_ok()),
            r == Err::<PortMap, StreamingError>(StreamingError::InvalidStatics) ==> *final(self)
                == *old(self),
            r != Err::<PortMap, StreamingError>(StreamingError::InvalidStateTransition),
            inputs.contains_spec(Tag::Input) && model_kind(inputs.val_spec(Tag::Input))
                == ValueKind::RealVec && old(self).shapes_ok() ==> (r is Ok || r == Err::<
                PortMap,
                StreamingError,
            >(StreamingError::InvalidInput)),
            inputs.contains_spec(Tag::Input) && model_kind(inputs.val_spec(Tag::Input))
                == ValueKind::RealVec && old(self).order_spec() == 1 ==> r is Ok,
            r matches Ok(out) ==> {
                let x = inputs.val_spec(Tag::Input)->RealVec_0;
                &&& inputs.contains_spec(Tag::Input)
                &&& model_kind(inputs.val_spec(Tag::Input)) == ValueKind::RealVec
                &&& old(self).order_spec() >= 1
                &&& out.wf()
                &&& out.contains_spec(Tag::Output)
                &&& model_kind(out.val_spec(Tag::Output)) == ValueKind::RealVec
                &&& out.val_spec(Tag::Output)->RealVec_0.len() == x.len()
                &&& forall|k: int|
                    0 <= k < x.len() ==> qeq(
                        #[trigger] out.val_spec(Tag::Output)->RealVec_0[k],
                        median_of(med_window(x, old(self).order_spec(), k)),
                    )
                &&& *final(self) == *old(self)
            },
    {
        let got = match inputs.get(Tag::Input) {
            Some(v) => v,
            None => {
                return Err(StreamingError::ChannelClosed);
            },
        };
        let x: Vec<Rat> = match got {
            Value::RealVec(x) => x,
            _ => {
                self.core.set_state(StreamingState::Stopped);
                return Err(StreamingError::InvalidInput);
            },
        };
        let o: usize = match self.core.get_statics(Tag::Order, ValueKind::Int) {
            Ok(Value::Int(o)) => o,
            _ => {
                proof {
                    assert(false);
                }
                return Err(StreamingError::InvalidStatics);
            },
        };
        if o == 0 {
            return Err(StreamingError::InvalidStatics);
        }
        let kr = median_filter(o, &x);
        match kr {
            None => {
                self.core.set_state(StreamingState::Stopped);
                Err(StreamingError::InvalidInput)
            },
            Some(y) => {
                proof {
                    assert(seq_rats(x) =~= inputs.val_spec(Tag::Input)->RealVec_0);
                }
                let mut out = PortMap::new();
                out.insert(Tag::Output, Value::RealVec(y));
                proof {
                    assert(out.val_spec(Tag::Output)->RealVec_0 =~= seq_rats(y));
                }
                Ok(out)
            },
        }
    }
}

impl StreamProcessor for MedianFilter {
    open spec fn lifecycle(&self) -> StreamingState {
        self.core.lifecycle_spec()
    }

    open spec fn initialized(&self) -> bool {
        self.core.initialized_spec()
    }

    open spec fn wf(&self) -> bool {
        self.shape_wf()
    }

    fn init(&mut self) -> (r: Result<(), StreamingError>) {
        self.init_block()
    }

    fn run(&mut self) -> (r: Result<(), StreamingError>) {
        match self.core.run_guard() {
            Err(e) => Err(e),
            Ok(()) => {
                self.core.set_state(StreamingState::Running);
                Ok(())
            },
        }
    }

    fn process(&mut self, inputs: &PortMap) -> (r: Result<PortMap, StreamingError>) {
        self.process_block(inputs)
    }

    fn stop(&mut self) -> (r: Result<(), StreamingError>) {
        self.core.set_state(StreamingState::Stopped);
        Ok(())
    }
}

} // verus!
