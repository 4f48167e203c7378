//! What the library needs of Objective-C objects: their identity.

use vstd::prelude::*;

verus! {

/// An Objective-C object, by its address in guest memory.
pub type Id = u32;

/// The null object.
pub const NIL: Id = 0;

/// The shared instance a class method hands out, and the slot that keeps
/// it, after one request: the kept instance where there is one, else the one
/// just created.
pub open spec fn after_request(slot: Option<Id>, created: Id) -> (Id, Option<Id>) {
    match slot {
        Some(existing) => (existing, slot),
        None => (created, Some(created)),
    }
}

/// The shared instance kept in `slot`, created by `create` the first time it
/// is asked for.
pub fn shared_instance<F: FnOnce() -> Id>(slot: &mut Option<Id>, create: F) -> (r: Id)
    requires
        *old(slot) is None ==> call_requires(create, ()),
    ensures
        (r, *final(slot)) == after_request(*old(slot), r),
        *old(slot) is None ==> call_ensures(create, (), r),
{
    match *slot {
        Some(existing) => existing,
        None => {
            let created = create();
            *slot = Some(created);
            created
        },
    }
}

/// Once a shared instance has been handed out, every later request gets the
/// same one, whatever a later creation would have made.
pub proof fn lemma_shared_instance_is_stable(slot: Option<Id>, first: Id, later: Id)
    ensures
        after_request(after_request(slot, first).1, later).0 == after_request(slot, first).0,
        after_request(after_request(slot, first).1, later).1 == after_request(slot, first).1,
{
}

} // verus!
