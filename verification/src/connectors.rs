//! Port connectors.
//!
//! A block declares typed input and output endpoints by tag (`PortSet`).
//! The transport that wires declared ports to bounded queues is the host's
//! business; one `process` step receives its consumed values and hands back
//! its produced values as a `PortMap`, a small tag-keyed bundle.

use crate::streaming_data::StreamingError;
use crate::tags::Tag;
use crate::value::{lemma_value_model, model_kind, model_wf, value_wf, Value, ValueKind, ValueModel};
use vstd::prelude::*;

verus! {

/// The declared ports of one side of a block (inputs, or outputs).
pub struct PortSet {
    ports: Vec<(Tag, ValueKind)>,
}

spec fn pfind(s: Seq<(Tag, ValueKind)>, t: Tag, i: int) -> int
    decreases s.len() - i,
{
    if i < 0 || i >= s.len() {
        -1
    } else if s[i].0 == t {
        i
    } else {
        pfind(s, t, i + 1)
    }
}

proof fn lemma_pfind_skip(s: Seq<(Tag, ValueKind)>, t: Tag, a: int, b: int)
    requires
        0 <= a <= b <= s.len(),
        forall|j: int| a <= j < b ==> (#[trigger] s[j]).0 != t,
    ensures
        pfind(s, t, a) == pfind(s, t, b),
    decreases b - a,
{
    if a < b {
        lemma_pfind_skip(s, t, a + 1, b);
    }
}

proof fn lemma_pfind_props(s: Seq<(Tag, ValueKind)>, t: Tag, i: int)
    requires
        0 <= i <= s.len(),
    ensures
        pfind(s, t, i) == -1 ==> forall|j: int| i <= j < s.len() ==> (#[trigger] s[j]).0 != t,
        pfind(s, t, i) != -1 ==> i <= pfind(s, t, i) < s.len() && s[pfind(s, t, i)].0 == t,
    decreases s.len() - i,
{
    if i < s.len() && s[i].0 != t {
        lemma_pfind_props(s, t, i + 1);
    }
}

proof fn lemma_pfind_push(s: Seq<(Tag, ValueKind)>, x: (Tag, ValueKind), u: Tag, i: int)
    requires
        0 <= i <= s.len(),
    ensures
        pfind(s, u, i) >= 0 ==> pfind(s.push(x), u, i) == pfind(s, u, i),
        pfind(s, u, i) == -1 && u == x.0 ==> pfind(s.push(x), u, i) == s.len(),
        pfind(s, u, i) == -1 && u != x.0 ==> pfind(s.push(x), u, i) == -1,
    decreases s.len() - i,
{
    if i < s.len() {
        lemma_pfind_push(s, x, u, i + 1);
    } else {
        assert(pfind(s.push(x), u, i + 1) == -1);
    }
}

impl PortSet {
    /// Port tags are unique within the set.
    pub closed spec fn wf(&self) -> bool {
        forall|i: int, j: int|
            0 <= i < j < self.ports.len() ==> (#[trigger] self.ports[i].0) != (
            #[trigger] self.ports[j].0)
    }

    pub closed spec fn contains_spec(&self, t: Tag) -> bool {
        pfind(self.ports@, t, 0) >= 0
    }

    pub closed spec fn kind_spec(&self, t: Tag) -> ValueKind {
        self.ports@[pfind(self.ports@, t, 0)].1
    }

    pub open spec fn same_as(&self, other: &PortSet) -> bool {
        forall|t: Tag|
            {
                &&& #[trigger] self.contains_spec(t) == other.contains_spec(t)
                &&& (self.contains_spec(t) ==> self.kind_spec(t) == other.kind_spec(t))
            }
    }

    pub open spec fn same_but(&self, other: &PortSet, t: Tag) -> bool {
        forall|t2: Tag|
            t2 != t ==> {
                &&& #[trigger] self.contains_spec(t2) == other.contains_spec(t2)
                &&& (self.contains_spec(t2) ==> self.kind_spec(t2) == other.kind_spec(t2))
            }
    }

    pub fn new() -> (s: PortSet)
        ensures
            s.wf(),
            forall|t: Tag| !s.contains_spec(t),
    {
        let s = PortSet { ports: Vec::new() };
        proof {
            assert forall|t: Tag| !s.contains_spec(t) by {
                lemma_pfind_props(s.ports@, t, 0);
            }
        }
        s
    }

    fn find(&self, t: Tag) -> (r: Option<usize>)
        ensures
            r matches Some(i) ==> self.contains_spec(t) && i == pfind(self.ports@, t, 0),
            r is None ==> !self.contains_spec(t),
    {
        let n: usize = self.ports.len();
        let mut i: usize = 0;
        while i < n
            invariant
                i <= n,
                n == self.ports.len(),
                forall|j: int| 0 <= j < i ==> (#[trigger] self.ports@[j]).0 != t,
            decreases n - i,
        {
            if self.ports[i].0 == t {
                proof {
                    lemma_pfind_skip(self.ports@, t, 0, i as int);
                }
                return Some(i);
            }
            i = i + 1;
        }
        proof {
            lemma_pfind_skip(self.ports@, t, 0, n as int);
        }
        None
    }

    /// Declares a port.  Declaration is idempotent on an identical
    /// declaration; redeclaration with a different element kind is rejected
    /// and changes nothing.
    pub fn declare(&mut self, t: Tag, kind: ValueKind) -> (r: Result<(), StreamingError>)
        requires
            old(self).wf(),
        ensures
            final(self).wf(),
            old(self).contains_spec(t) ==> *final(self) == *old(self) && r == (
            if old(self).kind_spec(t) == kind {
                Ok::<(), StreamingError>(())
            } else {
                Err::<(), StreamingError>(StreamingError::InvalidStatics)
            }),
            !old(self).contains_spec(t) ==> {
                &&& r == Ok::<(), StreamingError>(())
                &&& final(self).contains_spec(t)
                &&& final(self).kind_spec(t) == kind
                &&& final(self).same_but(old(self), t)
            },
    {
        let found = self.find(t);
        match found {
            Some(i) => {
                proof {
                    lemma_pfind_props(self.ports@, t, 0);
                }
                if self.ports[i].1 == kind {
                    Ok(())
                } else {
                    Err(StreamingError::InvalidStatics)
                }
            },
            None => {
                proof {
                    lemma_pfind_props(self.ports@, t, 0);
                }
                let ghost oldports = self.ports@;
                self.ports.push((t, kind));
                proof {
                    let x = self.ports@[oldports.len() as int];
                    lemma_pfind_push(oldports, x, t, 0);
                    assert forall|t2: Tag| t2 != t implies {
                        &&& #[trigger] final(self).contains_spec(t2) == old(self).contains_spec(t2)
                        &&& (final(self).contains_spec(t2) ==> final(self).kind_spec(t2) == old(
                            self,
                        ).kind_spec(t2))
                    } by {
                        lemma_pfind_props(oldports, t2, 0);
                        lemma_pfind_push(oldports, x, t2, 0);
                    }
                }
                Ok(())
            },
        }
    }

    /// The declared kind of the port with tag `t`, when present.
    pub fn kind_of(&self, t: Tag) -> (r: Option<ValueKind>)
        ensures
            r matches Some(k) ==> self.contains_spec(t) && k == self.kind_spec(t),
            r is None ==> !self.contains_spec(t),
    {
        let found = self.find(t);
        match found {
            Some(i) => {
                proof {
                    lemma_pfind_props(self.ports@, t, 0);
                }
                Some(self.ports[i].1)
            },
            None => None,
        }
    }
}

/// The values carried into or out of one `process` step, keyed by port tag.
pub struct PortMap {
    entries: Vec<(Tag, Value)>,
}

spec fn vfind(s: Seq<(Tag, Value)>, t: Tag, i: int) -> int
    decreases s.len() - i,
{
    if i < 0 || i >= s.len() {
        -1
    } else if s[i].0 == t {
        i
    } else {
        vfind(s, t, i + 1)
    }
}

proof fn lemma_vfind_skip(s: Seq<(Tag, Value)>, t: Tag, a: int, b: int)
    requires
        0 <= a <= b <= s.len(),
        forall|j: int| a <= j < b ==> (#[trigger] s[j]).0 != t,
    ensures
        vfind(s, t, a) == vfind(s, t, b),
    decreases b - a,
{
    if a < b {
        lemma_vfind_skip(s, t, a + 1, b);
    }
}

proof fn lemma_vfind_props(s: Seq<(Tag, Value)>, t: Tag, i: int)
    requires
        0 <= i <= s.len(),
    ensures
        vfind(s, t, i) == -1 ==> forall|j: int| i <= j < s.len() ==> (#[trigger] s[j]).0 != t,
        vfind(s, t, i) != -1 ==> i <= vfind(s, t, i) < s.len() && s[vfind(s, t, i)].0 == t,
    decreases s.len() - i,
{
    if i < s.len() && s[i].0 != t {
        lemma_vfind_props(s, t, i + 1);
    }
}

proof fn lemma_vfind_push(s: Seq<(Tag, Value)>, x: (Tag, Value), u: Tag, i: int)
    requires
        0 <= i <= s.len(),
    ensures
        vfind(s, u, i) >= 0 ==> vfind(s.push(x), u, i) == vfind(s, u, i),
        vfind(s, u, i) == -1 && u == x.0 ==> vfind(s.push(x), u, i) == s.len(),
        vfind(s, u, i) == -1 && u != x.0 ==> vfind(s.push(x), u, i) == -1,
    decreases s.len() - i,
{
    if i < s.len() {
        lemma_vfind_push(s, x, u, i + 1);
    } else {
        assert(vfind(s.push(x), u, i + 1) == -1);
    }
}

/// The carried model on a present port matches its kind and is well formed.
pub proof fn lemma_portmap_val(pm: &PortMap, t: Tag)
    requires
        pm.wf(),
        pm.contains_spec(t),
    ensures
        model_kind(pm.val_spec(t)) == pm.kind_at(t),
        model_wf(pm.val_spec(t)),
{
    lemma_vfind_props(pm.entries@, t, 0);
    let i = vfind(pm.entries@, t, 0);
    lemma_value_model(pm.entries@[i].1);
}

impl PortMap {
    /// Every carried rational is well formed.
    pub closed spec fn wf(&self) -> bool {
        forall|i: int| 0 <= i < self.entries.len() ==> value_wf((#[trigger] self.entries[i]).1)
    }

    pub closed spec fn contains_spec(&self, t: Tag) -> bool {
        vfind(self.entries@, t, 0) >= 0
    }

    pub closed spec fn val_spec(&self, t: Tag) -> ValueModel {
        self.entries@[vfind(self.entries@, t, 0)].1@
    }

    pub closed spec fn kind_at(&self, t: Tag) -> ValueKind {
        self.entries@[vfind(self.entries@, t, 0)].1.kind_spec()
    }

    pub fn new() -> (s: PortMap)
        ensures
            s.wf(),
            forall|t: Tag| !s.contains_spec(t),
    {
        let s = PortMap { entries: Vec::new() };
        proof {
            assert forall|t: Tag| !s.contains_spec(t) by {
                lemma_vfind_props(s.entries@, t, 0);
            }
        }
        s
    }

    /// Adds the value produced on port `t`.
    pub fn insert(&mut self, t: Tag, v: Value) -> (r: ())
        requires
            old(self).wf(),
            !old(self).contains_spec(t),
        ensures
            final(self).wf(),
            final(self).contains_spec(t),
            final(self).val_spec(t) == v@,
            final(self).kind_at(t) == v.kind_spec(),
            forall|t2: Tag|
                t2 != t ==> #[trigger] final(self).contains_spec(t2) == old(self).contains_spec(t2)
                    && (final(self).contains_spec(t2) ==> final(self).val_spec(t2) == old(
                    self,
                ).val_spec(t2) && final(self).kind_at(t2) == old(self).kind_at(t2)),
    {
        let _wf = v.check_wf();
        proof {
            lemma_vfind_props(self.entries@, t, 0);
        }
        let ghost oldentries = self.entries@;
        self.entries.push((t, v));
        proof {
            let x = self.entries@[oldentries.len() as int];
            lemma_vfind_push(oldentries, x, t, 0);
            assert forall|t2: Tag| t2 != t implies #[trigger] final(self).contains_spec(t2) == old(
                self,
            ).contains_spec(t2) && (final(self).contains_spec(t2) ==> final(self).val_spec(t2)
                == old(self).val_spec(t2) && final(self).kind_at(t2) == old(self).kind_at(t2)) by {
                lemma_vfind_props(oldentries, t2, 0);
                lemma_vfind_push(oldentries, x, t2, 0);
            }
        }
    }

    /// The value carried on port `t`; `None` when the peer supplied nothing.
    pub fn get(&self, t: Tag) -> (r: Option<Value>)
        requires
            self.wf(),
        ensures
            r matches Some(v) ==> self.contains_spec(t) && v@ == self.val_spec(t) && v.kind_spec()
                == self.kind_at(t) && value_wf(v),
            r is None ==> !self.contains_spec(t),
    {
        let n: usize = self.entries.len();
        let mut i: usize = 0;
        while i < n
            invariant
                i <= n,
                self.wf(),
                n == self.entries.len(),
                forall|j: int| 0 <= j < i ==> (#[trigger] self.entries@[j]).0 != t,
            decreases n - i,
        {
            if self.entries[i].0 == t {
                proof {
                    lemma_vfind_skip(self.entries@, t, 0, i as int);
                }
                return Some(self.entries[i].1.clone());
            }
            i = i + 1;
        }
        proof {
            lemma_vfind_skip(self.entries@, t, 0, n as int);
        }
        None
    }
}

} // verus!
