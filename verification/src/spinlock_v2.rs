use crate::atomics::Flag;
use vstd::prelude::*;

verus! {

/// A lock that is taken by setting a flag, around the value it protects.
pub struct SpinLock<T> {
    locked: Flag,
    cell: T,
}

impl<T> SpinLock<T> {
    /// Whether the lock is held.
    pub closed spec fn is_locked(&self) -> bool {
        self.locked@
    }

    /// The protected value.
    pub closed spec fn data(&self) -> T {
        self.cell
    }

    /// An unlocked lock around `data`.
    pub fn new(data: T) -> (lock: SpinLock<T>)
        ensures
            !lock.is_locked(),
            lock.data() == data,
    {
        SpinLock { locked: Flag::new(false), cell: data }
    }

    /// One round of taking the lock: sets the flag and, if it was not set
    /// before, returns the guard. The lock itself is as the guard leaves it.
    pub fn try_lock(&mut self) -> (r: Option<SpinLockGuard<'_, T>>)
        ensures
            r is Some <==> !old(self).is_locked(),
            r is None ==> final(self).is_locked() && final(self).data() == old(self).data(),
            r matches Some(guard) ==> {
                &&& guard.holds()
                &&& guard@ == old(self).data()
                &&& *final(self) == *final(guard.borrowed())
            },
    {
        if self.locked.swap(true) {
            None
        } else {
            Some(SpinLockGuard { lock: self })
        }
    }

    /// Takes the lock. The guard gives access to the value and releases the
    /// lock when it is dropped. A lock that is held stays held until its
    /// guard is dropped, so the call is for a lock that is free.
    pub fn lock(&mut self) -> (guard: SpinLockGuard<'_, T>)
        requires
            !old(self).is_locked(),
        ensures
            guard.holds(),
            guard@ == old(self).data(),
            *final(self) == *final(guard.borrowed()),
    {
        let was_locked: bool = self.locked.swap(true);
        assert(!was_locked);
        SpinLockGuard { lock: self }
    }
}

/// The right to use the value of a lock that is held.
pub struct SpinLockGuard<'a, T> {
    lock: &'a mut SpinLock<T>,
}

impl<'a, T> View for SpinLockGuard<'a, T> {
    type V = T;

    /// The protected value.
    closed spec fn view(&self) -> T {
        self.lock.cell
    }
}

impl<'a, T> SpinLockGuard<'a, T> {
    /// The lock of this guard is held.
    pub closed spec fn holds(&self) -> bool {
        self.lock.locked@
    }

    /// The borrow of the lock that the guard holds.
    pub closed spec fn borrowed(&self) -> &'a mut SpinLock<T> {
        self.lock
    }

    /// A guard that is used no more without having been dropped leaves the
    /// lock as it is now: held, with the value that the guard holds.
    pub proof fn lemma_resolved(self)
        requires
            has_resolved(self),
        ensures
            final(self.borrowed()).is_locked() == self.holds(),
            final(self.borrowed()).data() == self@,
    {
        assert(has_resolved(self.lock));
    }

    /// The protected value, to read.
    pub fn deref(&self) -> (t: &T)
        ensures
            *t == self@,
    {
        &self.lock.cell
    }

    /// The protected value, to change.
    pub fn deref_mut(&mut self) -> (t: &mut T)
        ensures
            *t == old(self)@,
            final(self)@ == *final(t),
            final(self).holds() == old(self).holds(),
            *final(final(self).borrowed()) == *final(old(self).borrowed()),
    {
        &mut self.lock.cell
    }

    /// Releases the lock.
    pub fn drop(self)
        requires
            self.holds(),
        ensures
            !final(self.borrowed()).is_locked(),
            final(self.borrowed()).data() == self@,
    {
        self.lock.locked.store(false);
    }
}

} // verus!
