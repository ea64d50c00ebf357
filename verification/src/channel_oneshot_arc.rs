use crate::atomics::Byte;
use vstd::prelude::*;

verus! {

/// State of a channel on which nothing has happened yet, or from which the
/// message was taken.
pub const EMPTY: u8 = 0;

/// State of a channel that holds the message.
pub const DATA_READY: u8 = 1;

/// State of a channel whose receiver has said where it sleeps and found no
/// message.
pub const RX_READY: u8 = 2;

/// The place through which one message goes from the sender to the
/// receiver.
pub struct Channel<T> {
    data: Option<T>,
    state: Byte,
}

impl<T> Channel<T> {
    /// The state byte: `EMPTY`, `DATA_READY` or `RX_READY`.
    pub closed spec fn state(&self) -> u8 {
        self.state@
    }

    /// The message, while the channel holds it.
    pub closed spec fn data(&self) -> Option<T> {
        self.data
    }

    /// The state is one of the three, and the channel holds the message
    /// exactly while it is `DATA_READY`.
    pub open spec fn wf(&self) -> bool {
        &&& self.state() == EMPTY || self.state() == DATA_READY || self.state() == RX_READY
        &&& self.state() == DATA_READY <==> self.data() is Some
    }

    /// Whether the state is `DATA_READY`.
    pub fn has_data(&self) -> (b: bool)
        ensures
            b == (self.state() == DATA_READY),
    {
        self.state.load() == DATA_READY
    }
}

/// A new channel with its two ends. Each end is used once.
pub fn channel<T>() -> (r: (Channel<T>, Sender<T>, Receiver<T>))
    ensures
        r.0.wf(),
        r.0.state() == EMPTY,
        !r.2.announced(),
{
    (
        Channel { data: None, state: Byte::new(EMPTY) },
        Sender { marker: core::marker::PhantomData },
        Receiver { announced: false, marker: core::marker::PhantomData },
    )
}

/// The end that sends.
pub struct Sender<T> {
    marker: core::marker::PhantomData<T>,
}

impl<T> Sender<T> {
    /// Puts the message into the channel, and says whether the caller must
    /// wake the receiver, which is so if the receiver was there first.
    pub fn send(self, channel: &mut Channel<T>, t: T) -> (unpark: bool)
        requires
            old(channel).wf(),
            old(channel).state() != DATA_READY,
        ensures
            final(channel).wf(),
            final(channel).state() == DATA_READY,
            final(channel).data() == Some(t),
            unpark == (old(channel).state() != EMPTY),
    {
        channel.data = Some(t);
        if channel.state.compare_exchange(EMPTY, DATA_READY).is_err() {
            channel.state.store(DATA_READY);
            true
        } else {
            false
        }
    }
}

/// The end that receives.
pub struct Receiver<T> {
    announced: bool,
    marker: core::marker::PhantomData<T>,
}

impl<T> Receiver<T> {
    /// Whether the receiver has said where it sleeps.
    pub closed spec fn announced(&self) -> bool {
        self.announced
    }

    /// One round of receiving. In the first round the receiver says where it
    /// sleeps, unless the message is there already; in a later round it
    /// looks for the message again. The message is taken if it is there.
    /// After `None` the caller sleeps until it is woken and tries again.
    pub fn try_receive(&mut self, channel: &mut Channel<T>) -> (r: Option<T>)
        requires
            old(channel).wf(),
            !old(self).announced() ==> old(channel).state() != RX_READY,
        ensures
            final(channel).wf(),
            r is Some <==> old(channel).state() == DATA_READY,
            r is Some ==> r == old(channel).data() && final(channel).state() == EMPTY
                && final(self).announced() == old(self).announced(),
            r is None ==> final(self).announced() && final(channel).state() == if old(
                self,
            ).announced() {
                old(channel).state()
            } else {
                RX_READY
            },
    {
        if !self.announced {
            if channel.state.compare_exchange(EMPTY, RX_READY).is_err() {
                channel.state.store(EMPTY);
                channel.data.take()
            } else {
                self.announced = true;
                None
            }
        } else if channel.state.compare_exchange(DATA_READY, EMPTY).is_err() {
            None
        } else {
            channel.data.take()
        }
    }

    /// Takes the message. A channel without the message gets it only when
    /// the sender sends, so the call is for a channel that holds it.
    pub fn receive(self, channel: &mut Channel<T>) -> (t: T)
        requires
            old(channel).wf(),
            old(channel).state() == DATA_READY,
        ensures
            final(channel).wf(),
            Some(t) == old(channel).data(),
            final(channel).state() == EMPTY,
    {
        let mut receiver = self;
        let r = receiver.try_receive(channel);
        r.unwrap()
    }
}

} // verus!
