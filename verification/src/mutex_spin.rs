use crate::atomics::Word;
use vstd::prelude::*;

verus! {

/// State of a mutex that nobody holds.
pub const UNLOCKED: u32 = 0;

/// State of a mutex that is held, with no thread asleep on it.
pub const LOCKED: u32 = 1;

/// State of a mutex that is held, with threads that may be asleep on it.
pub const CONTENDED: u32 = 2;

/// How often a thread looks at a held mutex before it goes to sleep.
pub const SPIN_LIMIT: u32 = 100;

/// Whether a thread that read `observed` in the state, with `count` looks
/// left, looks once more before it goes on.
pub fn spin_again(observed: u32, count: u32) -> (b: bool)
    ensures
        b == (observed == LOCKED && count > 0),
{
    observed == LOCKED && count > 0
}

/// Whether a thread that put `CONTENDED` into the state and found `prev`
/// there must sleep until the state changes, and then try again.
pub fn must_wait(prev: u32) -> (b: bool)
    ensures
        b == (prev != UNLOCKED),
{
    prev != UNLOCKED
}

/// Whether the thread that released the mutex and found `prev` in the state
/// must wake a sleeping thread.
pub fn must_wake(prev: u32) -> (b: bool)
    ensures
        b == (prev == CONTENDED),
{
    prev == CONTENDED
}

/// A lock around the value it protects. A thread that finds it held looks
/// again a few times and then sleeps until it is woken.
pub struct Mutex<T> {
    state: Word,
    data: T,
}

impl<T> Mutex<T> {
    /// The state word: `UNLOCKED`, `LOCKED` or `CONTENDED`.
    pub closed spec fn state(&self) -> u32 {
        self.state@
    }

    /// The protected value.
    pub closed spec fn data(&self) -> T {
        self.data
    }

    /// An unlocked mutex around `t`.
    pub fn new(t: T) -> (m: Mutex<T>)
        ensures
            m.state() == UNLOCKED,
            m.data() == t,
    {
        Mutex { state: Word::new(UNLOCKED), data: t }
    }

    /// The first round of taking the mutex: replaces `UNLOCKED` by `LOCKED`
    /// and returns the guard, or leaves a mutex that is held as it is.
    pub fn try_lock(&mut self) -> (r: Option<MutexGuard<'_, T>>)
        ensures
            r is Some <==> old(self).state() == UNLOCKED,
            r is None ==> final(self).state() == old(self).state() && final(self).data() == old(
                self,
            ).data(),
            r matches Some(guard) ==> {
                &&& guard.state() == LOCKED
                &&& guard@ == old(self).data()
                &&& *final(self) == *final(guard.borrowed())
            },
    {
        if self.state.compare_exchange(UNLOCKED, LOCKED).is_err() {
            None
        } else {
            Some(MutexGuard { mutex: self })
        }
    }

    /// A later round, of a thread that has given up looking: puts
    /// `CONTENDED` into the state and returns the guard if the mutex was
    /// free. After `None` the caller sleeps on the state word and tries this
    /// round again.
    pub fn try_lock_contended(&mut self) -> (r: Option<MutexGuard<'_, T>>)
        ensures
            r is Some <==> old(self).state() == UNLOCKED,
            r is None ==> final(self).state() == CONTENDED && final(self).data() == old(
                self,
            ).data(),
            r matches Some(guard) ==> {
                &&& guard.state() == CONTENDED
                &&& guard@ == old(self).data()
                &&& *final(self) == *final(guard.borrowed())
            },
    {
        if must_wait(self.state.swap(CONTENDED)) {
            None
        } else {
            Some(MutexGuard { mutex: self })
        }
    }

    /// Takes the mutex. The guard gives access to the value and releases
    /// the mutex when it is dropped. A mutex that is held stays held until
    /// its guard is dropped, so the call is for a mutex that is not.
    pub fn lock(&mut self) -> (guard: MutexGuard<'_, T>)
        requires
            old(self).state() == UNLOCKED,
        ensures
            guard.state() == LOCKED,
            guard@ == old(self).data(),
            *final(self) == *final(guard.borrowed()),
    {
        let first = self.state.compare_exchange(UNLOCKED, LOCKED);
        assert(first is Ok);
        MutexGuard { mutex: self }
    }

    /// The protected value, out of a mutex that is no longer needed.
    pub fn into_inner(self) -> (t: T)
        ensures
            t == self.data(),
    {
        self.data
    }
}

/// The right to use the value of a mutex that is held.
pub struct MutexGuard<'a, T> {
    mutex: &'a mut Mutex<T>,
}

impl<'a, T> View for MutexGuard<'a, T> {
    type V = T;

    /// The protected value.
    closed spec fn view(&self) -> T {
        self.mutex.data
    }
}

impl<'a, T> MutexGuard<'a, T> {
    /// The state word of the guard's mutex.
    pub closed spec fn state(&self) -> u32 {
        self.mutex.state@
    }

    /// The borrow of the mutex that the guard holds.
    pub closed spec fn borrowed(&self) -> &'a mut Mutex<T> {
        self.mutex
    }

    /// A guard that is used no more without having been dropped leaves the
    /// mutex as it is now: held, with the value that the guard holds.
    pub proof fn lemma_resolved(self)
        requires
            has_resolved(self),
        ensures
            final(self.borrowed()).state() == self.state(),
            final(self.borrowed()).data() == self@,
    {
        assert(has_resolved(self.mutex));
    }

    /// The protected value, to read.
    pub fn deref(&self) -> (t: &T)
        ensures
            *t == self@,
    {
        &self.mutex.data
    }

    /// The protected value, to change.
    pub fn deref_mut(&mut self) -> (t: &mut T)
        ensures
            *t == old(self)@,
            final(self)@ == *final(t),
            final(self).state() == old(self).state(),
            *final(final(self).borrowed()) == *final(old(self).borrowed()),
    {
        &mut self.mutex.data
    }

    /// Releases the mutex, and says whether the caller must wake a thread
    /// that sleeps on the state word.
    pub fn drop(self) -> (wake: bool)
        ensures
            wake == (self.state() == CONTENDED),
            final(self.borrowed()).state() == UNLOCKED,
            final(self.borrowed()).data() == self@,
    {
        must_wake(self.mutex.state.swap(UNLOCKED))
    }
}

} // verus!
