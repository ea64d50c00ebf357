use primitives::arc_weak::{downgrade_step, upgrade_step, Arc, Heap, Step, Weak, LOCKED};
use primitives::atomics::{overflows, Counter, MAX_REFCOUNT};
use std::cell::Cell;
use std::rc::Rc;

struct DropTest(u32, Rc<Cell<usize>>);

impl Drop for DropTest {
    fn drop(&mut self) {
        self.1.set(self.1.get() + 1);
    }
}

#[test]
fn arc_weak_it_works() {
    let drop_count = Rc::new(Cell::new(0));
    let mut heap = Heap::new();
    let mut x = Arc::new(&mut heap, DropTest(7, drop_count.clone()));
    let y = x.clone(&mut heap);
    let z = Arc::downgrade(&x, &mut heap);
    let w = Arc::downgrade(&x, &mut heap);
    {
        assert_eq!(y.deref(&heap).0, 7);
        let u = w.upgrade(&mut heap).unwrap();
        assert_eq!(u.deref(&heap).0, 7);
        u.drop(&mut heap);
        w.drop(&mut heap);
        y.drop(&mut heap);
    }
    assert_eq!(x.deref(&heap).0, 7);

    assert_eq!(drop_count.get(), 0);
    let u = z.upgrade(&mut heap).unwrap();
    assert_eq!(u.deref(&heap).0, 7);
    u.drop(&mut heap);

    z.drop(&mut heap);
    x.get_mut(&mut heap).unwrap().0 = 9;
    assert_eq!(x.deref(&heap).0, 9);

    let z = Arc::downgrade(&x, &mut heap);
    x.drop(&mut heap);
    assert_eq!(drop_count.get(), 1);
    assert!(z.upgrade(&mut heap).is_none());
}

#[test]
fn clone_read_drop_then_exclusive_access() {
    let mut heap = Heap::new();
    let mut x = Arc::new(&mut heap, 7);
    let y = x.clone(&mut heap);
    assert_eq!(heap.counts(x.ptr()), Some((2, 1)));
    assert_eq!(*x.deref(&heap), 7);
    assert_eq!(*y.deref(&heap), 7);
    assert!(x.get_mut(&mut heap).is_none());
    y.drop(&mut heap);
    *x.get_mut(&mut heap).unwrap() = 9;
    assert_eq!(*x.deref(&heap), 9);
    assert_eq!(heap.counts(x.ptr()), Some((1, 1)));
}

#[test]
fn weak_handles_block_exclusive_access() {
    let mut heap = Heap::new();
    let mut x = Arc::new(&mut heap, 7);
    let y = x.clone(&mut heap);
    let z = Arc::downgrade(&x, &mut heap);
    let w = Arc::downgrade(&x, &mut heap);
    assert_eq!(heap.counts(x.ptr()), Some((2, 3)));
    y.drop(&mut heap);
    let u = w.upgrade(&mut heap).unwrap();
    assert_eq!(*u.deref(&heap), 7);
    assert_eq!(*x.deref(&heap), 7);
    u.drop(&mut heap);
    assert_eq!(heap.counts(x.ptr()), Some((1, 3)));
    assert!(x.get_mut(&mut heap).is_none());
    w.drop(&mut heap);
    assert!(x.get_mut(&mut heap).is_none());
    z.drop(&mut heap);
    assert_eq!(x.get_mut(&mut heap), Some(&mut 7));
}

#[test]
fn upgrade_fails_after_the_last_strong_drop() {
    let drop_count = Rc::new(Cell::new(0));
    let mut heap = Heap::new();
    let x = Arc::new(&mut heap, DropTest(7, drop_count.clone()));
    let z = Arc::downgrade(&x, &mut heap);
    let p = x.ptr();
    x.drop(&mut heap);
    assert_eq!(drop_count.get(), 1);
    assert!(heap.is_allocated(p));
    assert_eq!(heap.counts(p), Some((0, 1)));
    assert!(z.upgrade(&mut heap).is_none());
    assert_eq!(heap.counts(p), Some((0, 1)));
    z.drop(&mut heap);
    assert!(!heap.is_allocated(p));
    assert_eq!(heap.counts(p), None);
    assert_eq!(drop_count.get(), 1);
}

enum Handle {
    Strong(Arc<DropTest>),
    Weak(Weak<DropTest>),
}

#[test]
fn stress_every_interleaving_destroys_once() {
    // a fixed pseudo-random walk over the operations, from several seeds
    for seed in 1..40u64 {
        let drop_count = Rc::new(Cell::new(0));
        let mut heap = Heap::new();
        let first = Arc::new(&mut heap, DropTest(7, drop_count.clone()));
        let p = first.ptr();
        let mut handles = vec![Handle::Strong(first)];
        let mut state = seed.wrapping_mul(0x9E37_79B9_7F4A_7C15);
        for _ in 0..400 {
            if handles.is_empty() {
                break;
            }
            state = state.wrapping_mul(6364136223846793005).wrapping_add(1442695040888963407);
            let pick = (state >> 33) as usize % handles.len();
            let op = (state >> 20) % 5;
            let strong_before = handles.iter().filter(|h| matches!(h, Handle::Strong(_))).count();
            let weak_before = handles.len() - strong_before;
            let mut made = None;
            let mut dropped = false;
            match &mut handles[pick] {
                Handle::Strong(a) => match op {
                    0 => made = Some(Handle::Strong(a.clone(&mut heap))),
                    1 => made = Some(Handle::Weak(Arc::downgrade(a, &mut heap))),
                    2 => {
                        let sole = strong_before == 1 && weak_before == 0;
                        assert_eq!(a.get_mut(&mut heap).is_some(), sole);
                    }
                    3 => assert_eq!(a.deref(&heap).0, 7),
                    _ => dropped = true,
                },
                Handle::Weak(w) => match op {
                    0 => made = Some(Handle::Weak(w.clone(&mut heap))),
                    1 | 2 => {
                        let up = w.upgrade(&mut heap);
                        assert_eq!(up.is_some(), strong_before > 0);
                        made = up.map(Handle::Strong);
                    }
                    3 => {}
                    _ => dropped = true,
                },
            }
            if dropped {
                match handles.swap_remove(pick) {
                    Handle::Strong(a) => a.drop(&mut heap),
                    Handle::Weak(w) => w.drop(&mut heap),
                }
            }
            if let Some(h) = made {
                handles.push(h);
            }
            let strong = handles.iter().filter(|h| matches!(h, Handle::Strong(_))).count();
            let weak = handles.len() - strong;
            assert_eq!(drop_count.get(), if strong == 0 { 1 } else { 0 });
            assert_eq!(heap.is_allocated(p), strong + weak > 0);
            if strong + weak > 0 {
                let unit = if strong > 0 { 1 } else { 0 };
                assert_eq!(heap.counts(p), Some((strong, weak + unit)));
            }
        }
        for h in handles {
            match h {
                Handle::Strong(a) => a.drop(&mut heap),
                Handle::Weak(w) => w.drop(&mut heap),
            }
        }
        assert_eq!(drop_count.get(), 1);
        assert!(!heap.is_allocated(p));
    }
}

#[test]
fn steps_of_downgrade_and_upgrade() {
    assert_eq!(downgrade_step(LOCKED), Step::Spin);
    assert_eq!(downgrade_step(1), Step::Exchange(2));
    assert_eq!(downgrade_step(MAX_REFCOUNT), Step::Exchange(MAX_REFCOUNT + 1));
    assert_eq!(downgrade_step(MAX_REFCOUNT + 1), Step::Abort);
    assert_eq!(upgrade_step(0), Step::Gone);
    assert_eq!(upgrade_step(1), Step::Exchange(2));
    assert_eq!(upgrade_step(MAX_REFCOUNT), Step::Exchange(MAX_REFCOUNT + 1));
    assert_eq!(upgrade_step(MAX_REFCOUNT + 1), Step::Abort);
    assert_eq!(upgrade_step(usize::MAX), Step::Abort);
    assert_eq!(MAX_REFCOUNT, usize::MAX / 2);
    assert!(!overflows(MAX_REFCOUNT));
    assert!(overflows(MAX_REFCOUNT + 1));
}

#[test]
fn counter_steps() {
    let mut c = Counter::new(1);
    assert_eq!(c.fetch_add(1), 1);
    assert_eq!(c.load(), 2);
    assert_eq!(c.compare_exchange(1, 5), Err(2));
    assert_eq!(c.load(), 2);
    assert_eq!(c.compare_exchange(2, 5), Ok(2));
    assert_eq!(c.fetch_sub(5), 5);
    assert_eq!(c.fetch_sub(1), 0);
    assert_eq!(c.load(), usize::MAX);
    assert_eq!(c.fetch_add(2), usize::MAX);
    assert_eq!(c.load(), 1);
    c.store(9);
    assert_eq!(c.load(), 9);
}
