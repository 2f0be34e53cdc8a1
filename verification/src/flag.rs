//! The flag that ends the program, as one worker holds it.
use std::sync::atomic::{AtomicBool, Ordering};
use std::sync::Arc;
use vstd::prelude::*;

verus! {

/// A worker's handle on the flag. It keeps a ghost record of what was stored through it: the
/// flag is reached in no other way than by `store`.
pub struct FlagHandle {
    flag: Arc<AtomicBool>,
    stored: Ghost<Seq<bool>>,
}

impl FlagHandle {
    /// The flag.
    pub closed spec fn flag(&self) -> Arc<AtomicBool> {
        self.flag
    }

    /// All values that have been stored in the flag through this handle, in their order.
    pub closed spec fn stores(&self) -> Seq<bool> {
        self.stored@
    }

    /// A handle through which nothing has been stored.
    pub fn new(flag: Arc<AtomicBool>) -> (handle: Self)
        ensures
            handle.flag() == flag,
            handle.stores() == Seq::<bool>::empty(),
    {
        FlagHandle { flag, stored: Ghost(Seq::empty()) }
    }

    /// Stores a value in the flag.
    pub fn store(&mut self, value: bool)
        ensures
            final(self).flag() == old(self).flag(),
            final(self).stores() == old(self).stores().push(value),
            call_ensures(AtomicBool::store, (&*old(self).flag(), value, Ordering::Relaxed), ()),
    {
        self.flag.store(value, Ordering::Relaxed);
        self.stored = Ghost(self.stored@.push(value));
    }
}

/// A new handle has stored nothing.
pub proof fn law_new_handle_has_stored_nothing(flag: Arc<AtomicBool>, handle: FlagHandle)
    requires
        call_ensures(FlagHandle::new, (flag,), handle),
    ensures
        handle.flag() == flag,
        handle.stores().len() == 0,
{
}

/// Every value that is stored through a handle goes into its flag and is recorded behind the
/// others.
pub proof fn law_stores_are_recorded_in_order(handle: &mut FlagHandle, value: bool)
    requires
        call_ensures(FlagHandle::store, (handle, value), ()),
    ensures
        call_ensures(AtomicBool::store, (&*old(handle).flag(), value, Ordering::Relaxed), ()),
        final(handle).flag() == old(handle).flag(),
        final(handle).stores().last() == value,
        final(handle).stores().drop_last() == old(handle).stores(),
{
    assert(final(handle).stores().drop_last() =~= old(handle).stores());
}

} // verus!
