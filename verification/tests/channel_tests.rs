use primitives::channel_mutex;
use primitives::channel_oneshot_arc::{channel, Channel};
use std::cell::Cell;
use std::rc::Rc;

#[test]
fn channel_mutex_it_works() {
    let mut channel = channel_mutex::Channel::new();
    channel.send("foo".to_owned());
    channel.send("bar".to_owned());
    channel.send("baz".to_owned());
    let mut set = std::collections::HashSet::new();
    set.insert(channel.receive());
    set.insert(channel.receive());
    set.insert(channel.receive());
    assert_eq!(set.len(), 3);
    assert!(set.contains("foo"));
    assert!(set.contains("bar"));
    assert!(set.contains("baz"));
}

#[test]
fn channel_mutex_first_sent_first_received() {
    let mut channel = channel_mutex::Channel::new();
    assert_eq!(channel.try_receive(), None);
    channel.send(1);
    channel.send(2);
    assert_eq!(channel.try_receive(), Some(1));
    channel.send(3);
    assert_eq!(channel.receive(), 2);
    assert_eq!(channel.try_receive(), Some(3));
    assert_eq!(channel.try_receive(), None);
}

#[test]
fn channel_oneshot_arc_it_works() {
    let (mut chan, tx, rx) = channel();
    assert!(!tx.send(&mut chan, 7));
    assert_eq!(rx.receive(&mut chan), 7);
}

#[test]
fn send_then_receive() {
    let (mut chan, tx, rx) = channel();
    tx.send(&mut chan, 7);
    assert!(chan.has_data());
    assert_eq!(rx.receive(&mut chan), 7);
    assert!(!chan.has_data());
}

#[test]
fn receive_then_send() {
    let (mut chan, tx, mut rx) = channel();
    // the receiver comes first, finds nothing and goes to sleep
    assert_eq!(rx.try_receive(&mut chan), None);
    assert_eq!(rx.try_receive(&mut chan), None);
    // the sender finds the receiver waiting and has to wake it
    assert!(tx.send(&mut chan, 7));
    assert_eq!(rx.try_receive(&mut chan), Some(7));
    assert!(!chan.has_data());
}

struct Foo {
    p: Rc<Cell<i32>>,
}

impl Drop for Foo {
    fn drop(&mut self) {
        self.p.set(7);
    }
}

#[test]
fn drop_data() {
    let x = Rc::new(Cell::new(1));
    let (mut chan, tx, rx): (Channel<Foo>, _, _) = channel();
    tx.send(&mut chan, Foo { p: x.clone() });
    drop(rx);
    assert_eq!(x.get(), 1);
    drop(chan);
    assert_eq!(x.get(), 7);
}
