//! The exclusive handle produced by allocation.

use vstd::prelude::*;
use vstd::string::StringExecFns;

use crate::collect::Collect;
use crate::context::Mutation;
use crate::gc::Gc;
use crate::gc_box::{Colour, GcBox};

verus! {

/// A handle to a freshly made allocation that no other handle names yet.
///
/// Exclusivity is what licenses writing the payload without a write barrier:
/// the allocation cannot have been traced, since no shared handle to it
/// exists until [`UniqueGc::into_gc`] converts this one, consuming it.
#[derive(PartialEq, Eq, Structural, Debug)]
pub struct UniqueGc {
    /// Index of the allocation record this handle owns.
    pub id: usize,
}

impl UniqueGc {
    /// Allocates `value` on the collected heap, returning the only handle
    /// to the new allocation.
    pub fn new<T: Collect>(value: T, mt: &mut Mutation<T>) -> (this: UniqueGc)
        requires
            old(mt).context.wf(),
        ensures
            final(mt).context.wf(),
            this.id == old(mt).context.slots@.len(),
            final(mt).context.slots@ == old(mt).context.slots@.push(
                GcBox { colour: Colour::Black, present: true, payload: Some(value) },
            ),
            final(mt).context.gray == old(mt).context.gray,
            final(mt).context.trace_root == old(mt).context.trace_root,
            final(mt).context.phase == old(mt).context.phase,
            final(mt).context.pacing == old(mt).context.pacing,
    {
        let id = mt.context.allocate(value);
        UniqueGc { id }
    }

    /// Allocates a record whose payload is not yet written.  Until
    /// [`UniqueGc::write`] fills it, the record is not live: it cannot be
    /// read, and a weak handle to it fails to upgrade.
    pub fn new_uninit<T: Collect>(mt: &mut Mutation<T>) -> (this: UniqueGc)
        requires
            old(mt).context.wf(),
        ensures
            final(mt).context.wf(),
            this.id == old(mt).context.slots@.len(),
            final(mt).context.slots@ == old(mt).context.slots@.push(
                GcBox { colour: Colour::Black, present: true, payload: None },
            ),
            final(mt).context.gray == old(mt).context.gray,
            final(mt).context.trace_root == old(mt).context.trace_root,
            final(mt).context.phase == old(mt).context.phase,
            final(mt).context.pacing == old(mt).context.pacing,
    {
        let id = mt.context.allocate_uninit();
        UniqueGc { id }
    }

    /// Allocates a garbage collected string, copied from the passed value,
    /// on a heap whose payload type is `String`.
    pub fn from_str(s: &str, mt: &mut Mutation<String>) -> (this: UniqueGc)
        requires
            old(mt).context.wf(),
        ensures
            final(mt).context.wf(),
            this.id == old(mt).context.slots@.len(),
            final(mt).context.slots@.len() == old(mt).context.slots@.len() + 1,
            forall|j: int|
                0 <= j < old(mt).context.slots@.len() ==> #[trigger] final(mt).context.slots@[j]
                    == old(mt).context.slots@[j],
            final(mt).context.slots@.last().colour == Colour::Black,
            final(mt).context.slots@.last().present,
            final(mt).context.slots@.last().payload is Some,
            final(mt).context.slots@.last().payload->Some_0@ == s@,
            final(mt).context.gray == old(mt).context.gray,
            final(mt).context.trace_root == old(mt).context.trace_root,
            final(mt).context.phase == old(mt).context.phase,
            final(mt).context.pacing == old(mt).context.pacing,
    {
        let owned = String::from_str(s);
        let id = mt.context.allocate(owned);
        UniqueGc { id }
    }

    /// Writes the payload of an allocation made by [`UniqueGc::new_uninit`],
    /// making it live.  Exclusivity of the handle is what makes this safe
    /// without a write barrier: the allocation has not been traced yet.
    pub fn write<T: Collect>(self, value: T, mt: &mut Mutation<T>) -> (this: UniqueGc)
        requires
            old(mt).context.wf(),
            self.id < old(mt).context.slots@.len(),
            old(mt).context.slots@[self.id as int].present,
            old(mt).context.slots@[self.id as int].payload is None,
        ensures
            final(mt).context.wf(),
            this.id == self.id,
            final(mt).context.slots@ == old(mt).context.slots@.update(
                self.id as int,
                GcBox { payload: Some(value), ..old(mt).context.slots@[self.id as int] },
            ),
            final(mt).context.gray == old(mt).context.gray,
            final(mt).context.trace_root == old(mt).context.trace_root,
            final(mt).context.phase == old(mt).context.phase,
            final(mt).context.pacing == old(mt).context.pacing,
    {
        let slot = &mut mt.context.slots[self.id];
        slot.payload = Some(value);
        proof {
            let post = mt.context;
            assert forall|j: int|
                0 <= j < post.slots@.len() && (#[trigger] post.slots@[j]).colour == Colour::Gray
                    implies crate::reach::ids_of(post.gray@).contains(j) by {
                assert(old(mt).context.slots@[j].colour == Colour::Gray);
            }
        }
        self
    }

    /// Converts the exclusive handle into a shared, copyable one.
    pub fn into_gc(this: UniqueGc) -> (gc: Gc)
        ensures
            gc.id == this.id,
    {
        Gc { id: this.id }
    }
}

} // verus!
