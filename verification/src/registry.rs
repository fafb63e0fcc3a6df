//! The descriptor table.
//!
//! One descriptor exists per distinct type.  The producer populates a
//! read-only table before any value is inspected: each type's
//! descriptor is registered exactly once, keyed by its identity, and
//! is only read from then on.  Building a view over a value whose type
//! was never registered fails with a kind-resolution error.

use crate::error::Error;
use crate::peek::Peek;
use crate::shape::Identity;
use crate::shape::TypeDesc;
use crate::value::Value;
use vstd::prelude::*;

verus! {

/// The table of registered descriptors, keyed by identity.
pub struct Registry {
    /// The registered descriptors; at most one per identity.
    pub entries: Vec<TypeDesc>,
}

impl Registry {
    /// One descriptor per type: no identity appears twice.
    pub open spec fn wf(self) -> bool {
        forall|i: int, j: int|
            0 <= i < j < self.entries@.len() ==> (#[trigger] self.entries@[i].identity) != (
            #[trigger] self.entries@[j].identity)
    }

    /// True when a descriptor is registered under the identity.
    pub open spec fn contains_id(self, id: Identity) -> bool {
        exists|i: int| 0 <= i < self.entries@.len() && (#[trigger] self.entries@[i].identity) == id
    }

    /// True when exactly this descriptor stands in the table.
    pub open spec fn has_entry(self, d: TypeDesc) -> bool {
        exists|i: int| 0 <= i < self.entries@.len() && self.entries@[i] == d
    }

    /// An empty table.
    pub fn new() -> (r: Registry)
        ensures
            r.entries@.len() == 0,
            r.wf(),
    {
        Registry { entries: Vec::new() }
    }

    /// Registers one type's descriptor.  The producer registers each
    /// type exactly once, before any use, and never afterwards.
    pub fn register(&mut self, d: TypeDesc)
        requires
            old(self).wf(),
            !old(self).contains_id(d.identity),
        ensures
            final(self).wf(),
            final(self).entries@ == old(self).entries@.push(d),
            final(self).contains_id(d.identity),
            forall|id: Identity|
                #[trigger] final(self).contains_id(id) <==> (old(self).contains_id(id) || id
                    == d.identity),
    {
        let ghost prev = self.entries@;
        self.entries.push(d);
        proof {
            assert(self.entries@[prev.len() as int].identity == d.identity);
            assert forall|id: Identity| #[trigger]
                self.contains_id(id) <==> (old(self).contains_id(id) || id == d.identity) by {
                if self.contains_id(id) {
                    let i = choose|i: int|
                        0 <= i < self.entries@.len() && (#[trigger] self.entries@[i].identity)
                            == id;
                    if i < prev.len() {
                        assert(prev[i].identity == id);
                    }
                }
                if old(self).contains_id(id) {
                    let i = choose|i: int|
                        0 <= i < prev.len() && (#[trigger] prev[i].identity) == id;
                    assert(self.entries@[i].identity == id);
                }
            }
        }
    }

    /// The descriptor registered under the identity, or a
    /// kind-resolution error when the type was never registered.
    pub fn lookup(&self, id: Identity) -> (r: Result<&TypeDesc, Error>)
        ensures
            r is Ok <==> self.contains_id(id),
            r matches Ok(d) ==> self.has_entry(*d) && d.identity == id,
            r matches Err(e) ==> e == Error::KindResolution,
    {
        let n = self.entries.len();
        let mut i: usize = 0;
        while i < n
            invariant
                n == self.entries@.len(),
                0 <= i <= n,
                forall|j: int| 0 <= j < i ==> (#[trigger] self.entries@[j].identity) != id,
            decreases n - i,
        {
            if self.entries[i].identity == id {
                return Ok(&self.entries[i]);
            }
            i = i + 1;
        }
        Err(Error::KindResolution)
    }

    /// Builds a view over a value whose type is registered under the
    /// identity; fails with a kind-resolution error when it is not.
    pub fn view_of<'a>(&'a self, value: &'a Value, id: Identity) -> (r: Result<Peek<'a>, Error>)
        ensures
            r is Ok <==> self.contains_id(id),
            r matches Ok(pv) ==> pv.value == value && self.has_entry(*pv.desc) && pv.desc.identity
                == id,
            r matches Err(e) ==> e == Error::KindResolution,
    {
        match self.lookup(id) {
            Ok(d) => Ok(Peek::new(value, d)),
            Err(e) => Err(e),
        }
    }
}

} // verus!
