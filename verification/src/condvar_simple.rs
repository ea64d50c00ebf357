use crate::atomics::Word;
use crate::mutex_simple::{MutexGuard, LOCKED, UNLOCKED};
use vstd::prelude::*;

verus! {

/// A place to sleep until another thread says that something has changed.
/// Every notification changes the counter, so that a thread which read the
/// counter before a notification does not go to sleep after it.
pub struct Condvar {
    counter: Word,
}

impl View for Condvar {
    type V = u32;

    /// The number of notifications so far, wrapped at the word size.
    closed spec fn view(&self) -> u32 {
        self.counter@
    }
}

impl Condvar {
    /// A condition variable that has not been notified yet.
    pub fn new() -> (cv: Condvar)
        ensures
            cv@ == 0,
    {
        Condvar { counter: Word::new(0) }
    }

    /// The counter value with which a thread goes to sleep: it sleeps only
    /// while the counter still holds this value.
    pub fn ticket(&self) -> (t: u32)
        ensures
            t == self@,
    {
        self.counter.load()
    }

    /// Gives the mutex up and takes it again. In between the caller sleeps
    /// on the counter; nothing is lost if it does not, since a waiter has
    /// to expect that it wakes for no reason.
    pub fn wait<'a, T>(&self, guard: MutexGuard<'a, T>) -> (again: MutexGuard<'a, T>)
        ensures
            again.state() == LOCKED,
            again@ == guard@,
            *final(again.borrowed()) == *final(guard.borrowed()),
    {
        let _ = self.ticket();
        let mutex = guard.unlock();
        assert(mutex.state() == UNLOCKED);
        mutex.lock()
    }

    /// Counts one notification. The caller then wakes one thread that
    /// sleeps on the counter.
    pub fn notify_one(&mut self)
        ensures
            final(self)@ == if old(self)@ == u32::MAX {
                0u32
            } else {
                (old(self)@ + 1) as u32
            },
    {
        let _ = self.counter.fetch_add(1);
    }
}

} // verus!
