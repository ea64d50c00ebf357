use primitives::vec::Vec;
use std::cell::Cell;
use std::rc::Rc;

struct Counted(Rc<Cell<u32>>);

impl Drop for Counted {
    fn drop(&mut self) {
        self.0.set(self.0.get() + 1);
    }
}

fn contents(v: &Vec<i32>) -> std::vec::Vec<i32> {
    let mut out = std::vec::Vec::new();
    let mut i = 0;
    while i < v.len() {
        out.push(*v.get(i));
        i += 1;
    }
    out
}

fn sample() -> Vec<i32> {
    let mut v = Vec::new();
    v.push(6);
    v.push(7);
    v.push(8);
    v.push(9);
    v
}

#[test]
fn vec_it_works() {
    let mut v = Vec::new();
    assert_eq!(v.len(), 0);
    v.push(7);
    v.push(8);
    v.push(9);
    assert_eq!(v.len(), 3);

    assert_eq!(v.pop(), Some(9));
    assert_eq!(v.len(), 2);
    v.pop();
    v.pop();
    assert_eq!(v.len(), 0);
    assert_eq!(v.pop(), None);

    v.insert(0, 6);
    v.insert(0, 4);
    v.insert(2, 7);
    v.insert(1, 5);
    assert_eq!(v.len(), 4);

    assert_eq!(contents(&v), [4, 5, 6, 7]);

    assert_eq!(v.remove(0), 4);
    assert_eq!(v.remove(1), 6);
    assert_eq!(v.remove(1), 7);
    assert_eq!(v.remove(0), 5);
    assert_eq!(v.len(), 0);

    v.push(7);
    let prev = v.set(0, 8);
    assert_eq!(prev, 7);
    assert_eq!(*v.get(0), 8);
}

#[test]
fn drops_elements() {
    let count = Rc::new(Cell::new(0));
    let mut v = Vec::new();
    v.push(Counted(count.clone()));
    v.push(Counted(count.clone()));
    v.push(Counted(count.clone()));
    drop(v);
    assert_eq!(count.get(), 3);
}

#[test]
fn iterator() {
    let mut v = Vec::new();
    v.push(7);
    v.push(8);
    v.push(9);
    let mut i = v.into_iter();
    assert_eq!(i.size_hint(), (3, Some(3)));
    assert_eq!(i.next(), Some(7));
    assert_eq!(i.next_back(), Some(9));
    assert_eq!(i.next(), Some(8));
    assert_eq!(i.next(), None);
}

#[test]
fn iterator_drops_elements() {
    let count = Rc::new(Cell::new(0));
    let mut v = Vec::new();
    v.push(Counted(count.clone()));
    v.push(Counted(count.clone()));
    v.push(Counted(count.clone()));
    drop(v.into_iter());
    assert_eq!(count.get(), 3);
}

#[test]
fn drain() {
    let mut v: Vec<i32> = Vec::new();
    let mut d = v.drain(0, 0);
    assert_eq!(d.next(), None);
    d.drop();
    assert_eq!(v.len(), 0);

    let mut v = sample();
    let n = v.len();
    v.drain(0, n).drop();
    assert_eq!(v.len(), 0);

    let mut v = sample();
    let mut d = v.drain(1, 3);
    assert_eq!(d.next(), Some(7));
    assert_eq!(d.next(), Some(8));
    assert_eq!(d.next(), None);
    d.drop();
    assert_eq!(contents(&v), [6, 9]);

    let mut v = sample();
    let mut d = v.drain(0, 2);
    assert_eq!(d.next(), Some(6));
    assert_eq!(d.next(), Some(7));
    assert_eq!(d.next(), None);
    d.drop();
    assert_eq!(contents(&v), [8, 9]);

    let mut v = sample();
    let n = v.len();
    let mut d = v.drain(2, n);
    assert_eq!(d.next(), Some(8));
    assert_eq!(d.next(), Some(9));
    assert_eq!(d.next(), None);
    d.drop();
    assert_eq!(contents(&v), [6, 7]);

    // empty drain
    let mut v = sample();
    let mut d = v.drain(2, 2);
    assert_eq!(d.next(), None);
    d.drop();
    assert_eq!(v.len(), 4);

    // a drain that is never ended leaves the elements in front of it
    let mut v = sample();
    let n = v.len();
    std::mem::forget(v.drain(2, n));
    assert_eq!(contents(&v), [6, 7]);
}

#[test]
fn drain_drops_elements() {
    let count = Rc::new(Cell::new(0));
    let mut v = Vec::new();
    v.push(Counted(count.clone()));
    v.push(Counted(count.clone()));
    v.push(Counted(count.clone()));
    let n = v.len();
    v.drain(0, n).drop();
    assert_eq!(count.get(), 3);
}

#[test]
fn capacity_doubles() {
    let mut v: Vec<u8> = Vec::new();
    assert_eq!(v.capacity(), 0);
    let mut seen = std::vec::Vec::new();
    for i in 0..9 {
        v.push(i);
        seen.push(v.capacity());
    }
    assert_eq!(seen, [1, 2, 4, 4, 8, 8, 8, 8, 16]);
    while v.pop().is_some() {}
    assert_eq!(v.capacity(), 16);
}

#[test]
fn drain_hands_out_from_both_ends_and_closes_the_gap() {
    let mut v = Vec::new();
    for i in 0..10 {
        v.push(i);
    }
    let mut d = v.drain(2, 7);
    assert_eq!(d.size_hint(), (5, Some(5)));
    assert_eq!(d.next(), Some(2));
    assert_eq!(d.next_back(), Some(6));
    assert_eq!(d.size_hint(), (3, Some(3)));
    d.drop();
    assert_eq!(contents(&v), [0, 1, 7, 8, 9]);
    v.insert(5, 10);
    v.insert(0, -1);
    assert_eq!(contents(&v), [-1, 0, 1, 7, 8, 9, 10]);
    assert_eq!(v.remove(3), 7);
    assert_eq!(contents(&v), [-1, 0, 1, 8, 9, 10]);
}
