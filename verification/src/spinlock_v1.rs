use crate::atomics::Flag;
use vstd::prelude::*;

verus! {

/// A lock that is taken by setting a flag, around the value it protects.
/// Whoever takes it must release it by hand.
pub struct SpinLock<T> {
    locked: Flag,
    cell: T,
}

impl<T> SpinLock<T> {
    /// Whether the lock is held.
    pub closed spec fn is_locked(&self) -> bool {
        self.locked@
    }

    /// The protected value.
    pub closed spec fn data(&self) -> T {
        self.cell
    }

    /// An unlocked lock around `data`.
    pub fn new(data: T) -> (lock: SpinLock<T>)
        ensures
            !lock.is_locked(),
            lock.data() == data,
    {
        SpinLock { locked: Flag::new(false), cell: data }
    }

    /// One round of taking the lock: sets the flag and, if it was not set
    /// before, gives access to the value.
    pub fn try_lock(&mut self) -> (r: Option<&mut T>)
        ensures
            final(self).is_locked(),
            r is Some <==> !old(self).is_locked(),
            r is None ==> final(self).data() == old(self).data(),
            r matches Some(t) ==> *t == old(self).data() && final(self).data() == *final(t),
    {
        if self.locked.swap(true) {
            None
        } else {
            Some(&mut self.cell)
        }
    }

    /// Takes the lock and gives access to the value. A lock that is held
    /// stays held until `unlock`, so the call is for a lock that is free.
    pub fn lock(&mut self) -> (t: &mut T)
        requires
            !old(self).is_locked(),
        ensures
            final(self).is_locked(),
            *t == old(self).data(),
            final(self).data() == *final(t),
    {
        let was_locked: bool = self.locked.swap(true);
        assert(!was_locked);
        &mut self.cell
    }

    /// Releases the lock.
    pub fn unlock(&mut self)
        ensures
            !final(self).is_locked(),
            final(self).data() == old(self).data(),
    {
        self.locked.store(false);
    }
}

} // verus!
