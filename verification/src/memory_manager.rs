//! The typed, tag-keyed store behind statics, state and parameters.
//!
//! A slot is declared once with an element kind, a default value and a
//! validation constraint.  Reading or writing with a mismatched kind, or
//! writing a value the validator rejects, fails with `InvalidStatics`; a
//! missing tag fails the same way.

use crate::streaming_data::StreamingError;
use crate::tags::Tag;
use crate::value::{lemma_value_model, model_kind, model_wf, value_wf, Validator, Value, ValueKind, ValueModel};
use vstd::prelude::*;

verus! {

/// One declared slot.
struct Slot {
    tag: Tag,
    kind: ValueKind,
    value: Value,
    assigned: bool,
    validator: Validator,
}

/// A typed, tag-keyed store of slots.
pub struct SlotStore {
    slots: Vec<Slot>,
}

/// Index of the first slot with the given tag, from position `i`; `-1` when
/// there is none.
spec fn find_idx(s: Seq<Slot>, t: Tag, i: int) -> int
    decreases s.len() - i,
{
    if i < 0 || i >= s.len() {
        -1
    } else if s[i].tag == t {
        i
    } else {
        find_idx(s, t, i + 1)
    }
}

/// Skipping a prefix without the tag does not change the search result.
proof fn lemma_find_none_before(s: Seq<Slot>, t: Tag, i: int)
    requires
        0 <= i <= s.len(),
        forall|j: int| 0 <= j < i ==> (#[trigger] s[j]).tag != t,
    ensures
        find_idx(s, t, 0) == find_idx(s, t, i),
    decreases i,
{
    if i > 0 {
        lemma_find_skip(s, t, 0, i);
    }
}

/// The search from `a` equals the search from `b` when `[a, b)` has no match.
proof fn lemma_find_skip(s: Seq<Slot>, t: Tag, a: int, b: int)
    requires
        0 <= a <= b <= s.len(),
        forall|j: int| a <= j < b ==> (#[trigger] s[j]).tag != t,
    ensures
        find_idx(s, t, a) == find_idx(s, t, b),
    decreases b - a,
{
    if a < b {
        lemma_find_skip(s, t, a + 1, b);
    }
}

/// A successful search lands on the tag, and no earlier slot has it.
proof fn lemma_find_props(s: Seq<Slot>, t: Tag, i: int)
    requires
        0 <= i <= s.len(),
    ensures
        find_idx(s, t, i) == -1 ==> forall|j: int| i <= j < s.len() ==> (#[trigger] s[j]).tag != t,
        find_idx(s, t, i) != -1 ==> i <= find_idx(s, t, i) < s.len() && s[find_idx(s, t, i)].tag
            == t,
    decreases s.len() - i,
{
    if i < s.len() && s[i].tag != t {
        lemma_find_props(s, t, i + 1);
    }
}

impl SlotStore {
    /// Tags are unique, every slot holds a value of its declared kind, and
    /// every stored rational is well formed.
    pub closed spec fn wf(&self) -> bool {
        &&& forall|i: int, j: int|
            0 <= i < j < self.slots.len() ==> (#[trigger] self.slots[i].tag) != (
            #[trigger] self.slots[j].tag)
        &&& forall|i: int|
            0 <= i < self.slots.len() ==> (#[trigger] self.slots[i].value).kind_spec()
                == self.slots[i].kind
        &&& forall|i: int| 0 <= i < self.slots.len() ==> value_wf((#[trigger] self.slots[i]).value)
    }

    pub closed spec fn contains_spec(&self, t: Tag) -> bool {
        find_idx(self.slots@, t, 0) >= 0
    }

    pub closed spec fn kind_spec(&self, t: Tag) -> ValueKind {
        self.slots@[find_idx(self.slots@, t, 0)].kind
    }

    pub closed spec fn val_spec(&self, t: Tag) -> ValueModel {
        self.slots@[find_idx(self.slots@, t, 0)].value@
    }

    pub closed spec fn assigned_spec(&self, t: Tag) -> bool {
        self.slots@[find_idx(self.slots@, t, 0)].assigned
    }

    pub closed spec fn validator_spec(&self, t: Tag) -> Validator {
        self.slots@[find_idx(self.slots@, t, 0)].validator
    }

    /// Every declared slot has been assigned a value.
    pub open spec fn all_assigned_spec(&self) -> bool {
        forall|t: Tag| self.contains_spec(t) ==> self.assigned_spec(t)
    }

    /// The two stores agree on every tag.
    pub open spec fn same_as(&self, other: &SlotStore) -> bool {
        forall|t: Tag|
            {
                &&& #[trigger] self.contains_spec(t) == other.contains_spec(t)
                &&& (self.contains_spec(t) ==> self.kind_spec(t) == other.kind_spec(t)
                    && self.val_spec(t) == other.val_spec(t) && self.assigned_spec(t)
                    == other.assigned_spec(t) && self.validator_spec(t) == other.validator_spec(
                    t,
                ))
            }
    }

    /// The two stores agree on every tag but `t`.
    pub open spec fn same_but(&self, other: &SlotStore, t: Tag) -> bool {
        forall|t2: Tag|
            t2 != t ==> {
                &&& #[trigger] self.contains_spec(t2) == other.contains_spec(t2)
                &&& (self.contains_spec(t2) ==> self.kind_spec(t2) == other.kind_spec(t2)
                    && self.val_spec(t2) == other.val_spec(t2) && self.assigned_spec(t2)
                    == other.assigned_spec(t2) && self.validator_spec(t2)
                    == other.validator_spec(t2))
            }
    }

    /// The empty store.
    pub fn new() -> (s: SlotStore)
        ensures
            s.wf(),
            forall|t: Tag| !s.contains_spec(t),
    {
        let s = SlotStore { slots: Vec::new() };
        proof {
            assert forall|t: Tag| !s.contains_spec(t) by {
                lemma_find_props(s.slots@, t, 0);
            }
        }
        s
    }

    /// Position of the slot with tag `t`, scanning from the front.
    fn find(&self, t: Tag) -> (r: Option<usize>)
        ensures
            r matches Some(i) ==> self.contains_spec(t) && i == find_idx(self.slots@, t, 0),
            r is None ==> !self.contains_spec(t),
    {
        let n: usize = self.slots.len();
        let mut i: usize = 0;
        while i < n
            invariant
                i <= n,
                n == self.slots.len(),
                forall|j: int| 0 <= j < i ==> (#[trigger] self.slots@[j]).tag != t,
            decreases n - i,
        {
            if self.slots[i].tag == t {
                proof {
                    lemma_find_none_before(self.slots@, t, i as int);
                }
                return Some(i);
            }
            i = i + 1;
        }
        proof {
            lemma_find_none_before(self.slots@, t, n as int);
        }
        None
    }

    /// Declares a slot.  Redeclaration with the same kind is idempotent;
    /// with a different kind it is rejected and nothing changes.
    pub fn declare(&mut self, t: Tag, default: Value, validator: Validator) -> (r: Result<
        (),
        StreamingError,
    >)
        requires
            old(self).wf(),
        ensures
            final(self).wf(),
            old(self).contains_spec(t) ==> *final(self) == *old(self) && r == (
            if old(self).kind_spec(t) == default.kind_spec() {
                Ok::<(), StreamingError>(())
            } else {
                Err::<(), StreamingError>(StreamingError::InvalidStatics)
            }),
            !old(self).contains_spec(t) ==> {
                &&& r == Ok::<(), StreamingError>(())
                &&& final(self).contains_spec(t)
                &&& final(self).kind_spec(t) == default.kind_spec()
                &&& final(self).val_spec(t) == default@
                &&& !final(self).assigned_spec(t)
                &&& final(self).validator_spec(t) == validator
                &&& final(self).same_but(old(self), t)
            },
    {
        let found = self.find(t);
        match found {
            Some(i) => {
                proof {
                    lemma_find_props(self.slots@, t, 0);
                }
                if self.slots[i].kind == default.kind() {
                    Ok(())
                } else {
                    Err(StreamingError::InvalidStatics)
                }
            },
            None => {
                let _wf = default.check_wf();
                let kind = default.kind();
                proof {
                    lemma_find_props(self.slots@, t, 0);
                }
                let ghost oldslots = self.slots@;
                self.slots.push(
                    Slot { tag: t, kind, value: default, assigned: false, validator },
                );
                proof {
                    let x = self.slots@[oldslots.len() as int];
                    lemma_push_find_one(oldslots, x, t, 0);
                    assert forall|t2: Tag| t2 != t implies {
                        &&& #[trigger] final(self).contains_spec(t2) == old(self).contains_spec(t2)
                        &&& (final(self).contains_spec(t2) ==> final(self).kind_spec(t2) == old(
                            self,
                        ).kind_spec(t2) && final(self).val_spec(t2) == old(self).val_spec(t2)
                            && final(self).assigned_spec(t2) == old(self).assigned_spec(t2)
                            && final(self).validator_spec(t2) == old(self).validator_spec(t2))
                    } by {
                        lemma_find_props(oldslots, t2, 0);
                        lemma_push_find_one(oldslots, x, t2, 0);
                    }
                }
                Ok(())
            },
        }
    }

    /// The stored value of the slot with tag `t`, when the declared kind is
    /// `k`; `InvalidStatics` on a missing tag or a kind mismatch.
    pub fn get(&self, t: Tag, k: ValueKind) -> (r: Result<Value, StreamingError>)
        requires
            self.wf(),
        ensures
            r is Ok <==> (self.contains_spec(t) && self.kind_spec(t) == k),
            r matches Ok(v) ==> v@ == self.val_spec(t) && v.kind_spec() == k && value_wf(v),
            r is Err ==> r == Err::<Value, StreamingError>(StreamingError::InvalidStatics),
    {
        let found = self.find(t);
        match found {
            Some(i) => {
                proof {
                    lemma_find_props(self.slots@, t, 0);
                }
                if self.slots[i].kind == k {
                    Ok(self.slots[i].value.clone())
                } else {
                    Err(StreamingError::InvalidStatics)
                }
            },
            None => Err(StreamingError::InvalidStatics),
        }
    }

    /// Stores a value into the slot with tag `t`.  Fails with
    /// `InvalidStatics`, leaving the store unchanged, on a missing tag, a
    /// kind mismatch, or a validator rejection.
    pub fn set(&mut self, t: Tag, value: Value) -> (r: Result<(), StreamingError>)
        requires
            old(self).wf(),
        ensures
            final(self).wf(),
            r is Ok <==> (old(self).contains_spec(t) && old(self).kind_spec(t)
                == value.kind_spec() && old(self).validator_spec(t).accepts_spec(value@)),
            r is Err ==> r == Err::<(), StreamingError>(StreamingError::InvalidStatics)
                && *final(self) == *old(self),
            r is Ok ==> {
                &&& final(self).contains_spec(t)
                &&& final(self).kind_spec(t) == old(self).kind_spec(t)
                &&& final(self).val_spec(t) == value@
                &&& final(self).assigned_spec(t)
                &&& final(self).validator_spec(t) == old(self).validator_spec(t)
                &&& final(self).same_but(old(self), t)
            },
    {
        let found = self.find(t);
        match found {
            Some(i) => {
                proof {
                    lemma_find_props(self.slots@, t, 0);
                }
                let kind_ok = self.slots[i].kind == value.kind();
                let accept = self.slots[i].validator.accepts(&value);
                if kind_ok && accept {
                    let _wf = value.check_wf();
                    let kind = self.slots[i].kind;
                    let validator = self.slots[i].validator;
                    let ghost oldslots = self.slots@;
                    self.slots[i] = Slot { tag: t, kind, value, assigned: true, validator };
                    proof {
                        lemma_update_find(oldslots, self.slots@, i as int, t);
                        assert forall|t2: Tag| t2 != t implies {
                            &&& #[trigger] final(self).contains_spec(t2) == old(
                                self,
                            ).contains_spec(t2)
                            &&& (final(self).contains_spec(t2) ==> final(self).kind_spec(t2)
                                == old(self).kind_spec(t2) && final(self).val_spec(t2) == old(
                                self,
                            ).val_spec(t2) && final(self).assigned_spec(t2) == old(
                                self,
                            ).assigned_spec(t2) && final(self).validator_spec(t2) == old(
                                self,
                            ).validator_spec(t2))
                        } by {
                            lemma_find_props(oldslots, t2, 0);
                            lemma_update_find_one(oldslots, self.slots@, i as int, t2, 0);
                        }
                    }
                    Ok(())
                } else {
                    Err(StreamingError::InvalidStatics)
                }
            },
            None => Err(StreamingError::InvalidStatics),
        }
    }

    /// Whether every declared slot has been assigned.
    pub fn all_assigned(&self) -> (r: bool)
        requires
            self.wf(),
        ensures
            r == self.all_assigned_spec(),
    {
        let n: usize = self.slots.len();
        let mut i: usize = 0;
        while i < n
            invariant
                i <= n,
                n == self.slots.len(),
                self.wf(),
                forall|j: int| 0 <= j < i ==> (#[trigger] self.slots@[j]).assigned,
            decreases n - i,
        {
            if !self.slots[i].assigned {
                proof {
                    let t = self.slots@[i as int].tag;
                    lemma_self_find(self.slots@, i as int);
                    assert(self.contains_spec(t) && !self.assigned_spec(t));
                }
                return false;
            }
            i = i + 1;
        }
        proof {
            assert forall|t: Tag| self.contains_spec(t) implies self.assigned_spec(t) by {
                lemma_find_props(self.slots@, t, 0);
            }
        }
        true
    }
}

/// The stored model of a declared slot matches the declared kind and is
/// well formed.
pub proof fn lemma_store_val(s: &SlotStore, t: Tag)
    requires
        s.wf(),
        s.contains_spec(t),
    ensures
        model_kind(s.val_spec(t)) == s.kind_spec(t),
        model_wf(s.val_spec(t)),
{
    lemma_find_props(s.slots@, t, 0);
    let i = find_idx(s.slots@, t, 0);
    lemma_value_model(s.slots@[i].value);
}

/// Appending a new slot leaves every other tag's search unchanged and makes
/// the new tag found at the end.
proof fn lemma_push_find(s: Seq<Slot>, x: Slot, t2: Tag)
    ensures
        forall|u: Tag|
            find_idx(s, u, 0) >= 0 ==> find_idx(s.push(x), u, 0) == find_idx(s, u, 0),
        forall|u: Tag|
            find_idx(s, u, 0) == -1 && u == x.tag ==> find_idx(s.push(x), u, 0) == s.len(),
        forall|u: Tag|
            find_idx(s, u, 0) == -1 && u != x.tag ==> find_idx(s.push(x), u, 0) == -1,
{
    assert forall|u: Tag| true implies {
        &&& (find_idx(s, u, 0) >= 0 ==> find_idx(s.push(x), u, 0) == find_idx(s, u, 0))
        &&& (find_idx(s, u, 0) == -1 && u == x.tag ==> find_idx(s.push(x), u, 0) == s.len())
        &&& (find_idx(s, u, 0) == -1 && u != x.tag ==> find_idx(s.push(x), u, 0) == -1)
    } by {
        lemma_push_find_one(s, x, u, 0);
    }
}

proof fn lemma_push_find_one(s: Seq<Slot>, x: Slot, u: Tag, i: int)
    requires
        0 <= i <= s.len(),
    ensures
        find_idx(s, u, i) >= 0 ==> find_idx(s.push(x), u, i) == find_idx(s, u, i),
        find_idx(s, u, i) == -1 && u == x.tag ==> find_idx(s.push(x), u, i) == s.len(),
        find_idx(s, u, i) == -1 && u != x.tag ==> find_idx(s.push(x), u, i) == -1,
    decreases s.len() - i,
{
    if i < s.len() {
        lemma_push_find_one(s, x, u, i + 1);
    } else {
        assert(find_idx(s.push(x), u, i + 1) == -1);
    }
}

/// Replacing the slot at `i` with one of the same tag leaves every search
/// unchanged.
proof fn lemma_update_find(s: Seq<Slot>, s2: Seq<Slot>, i: int, t: Tag)
    requires
        0 <= i < s.len(),
        s2 == s.update(i, s2[i]),
        s2.len() == s.len(),
        s2[i].tag == s[i].tag,
    ensures
        forall|u: Tag| find_idx(s2, u, 0) == find_idx(s, u, 0),
{
    assert forall|u: Tag| find_idx(s2, u, 0) == find_idx(s, u, 0) by {
        lemma_update_find_one(s, s2, i, u, 0);
    }
}

proof fn lemma_update_find_one(s: Seq<Slot>, s2: Seq<Slot>, i: int, u: Tag, j: int)
    requires
        0 <= i < s.len(),
        s2 == s.update(i, s2[i]),
        s2.len() == s.len(),
        s2[i].tag == s[i].tag,
        0 <= j <= s.len(),
    ensures
        find_idx(s2, u, j) == find_idx(s, u, j),
    decreases s.len() - j,
{
    if j < s.len() {
        lemma_update_find_one(s, s2, i, u, j + 1);
    }
}

/// A slot is found by its own tag at or before its own position.
proof fn lemma_self_find(s: Seq<Slot>, i: int)
    requires
        0 <= i < s.len(),
        forall|a: int, b: int|
            0 <= a < b < s.len() ==> (#[trigger] s[a].tag) != (#[trigger] s[b].tag),
    ensures
        find_idx(s, s[i].tag, 0) == i,
{
    lemma_find_none_before(s, s[i].tag, i);
}

} // verus!
