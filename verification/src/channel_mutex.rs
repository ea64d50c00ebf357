use std::collections::VecDeque;
use vstd::prelude::*;

verus! {

/// A queue of messages between threads: what is sent first is received
/// first.
pub struct Channel<T> {
    queue: VecDeque<T>,
}

impl<T> View for Channel<T> {
    type V = Seq<T>;

    /// The messages that were sent and not yet received, oldest first.
    closed spec fn view(&self) -> Seq<T> {
        self.queue@
    }
}

impl<T> Channel<T> {
    /// A channel without messages.
    pub fn new() -> (channel: Channel<T>)
        ensures
            channel@ == Seq::<T>::empty(),
    {
        Channel { queue: VecDeque::new() }
    }

    /// Puts `t` behind the messages that wait. The caller then wakes one
    /// thread that waits for a message.
    pub fn send(&mut self, t: T)
        ensures
            final(self)@ == old(self)@.push(t),
    {
        self.queue.push_back(t);
    }

    /// One round of receiving: takes the oldest message, if there is one.
    /// After `None` the caller waits until a message is sent and tries again.
    pub fn try_receive(&mut self) -> (r: Option<T>)
        ensures
            old(self)@.len() == 0 ==> r is None && final(self)@ == old(self)@,
            old(self)@.len() > 0 ==> r == Some(old(self)@[0]) && final(self)@ == old(
                self,
            )@.drop_first(),
    {
        let r = self.queue.pop_front();
        proof {
            if old(self)@.len() > 0 {
                assert(self@ =~= old(self)@.drop_first());
            }
        }
        r
    }

    /// Takes the oldest message. A channel without messages gets none until
    /// another thread sends one, so the call is for a channel that has one.
    pub fn receive(&mut self) -> (t: T)
        requires
            old(self)@.len() > 0,
        ensures
            t == old(self)@[0],
            final(self)@ == old(self)@.drop_first(),
    {
        let r = self.try_receive();
        r.unwrap()
    }
}

} // verus!
