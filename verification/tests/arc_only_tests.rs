use primitives::arc_only::{Arc, Heap};
use std::cell::Cell;
use std::rc::Rc;

struct DropTest(u32, Rc<Cell<usize>>);

impl Drop for DropTest {
    fn drop(&mut self) {
        self.1.set(self.1.get() + 1);
    }
}

#[test]
fn arc_only_it_works() {
    let drop_count = Rc::new(Cell::new(0));
    let mut heap = Heap::new();
    let mut x = Arc::new(&mut heap, DropTest(7, drop_count.clone()));
    let y = x.clone(&mut heap);
    assert_eq!(y.deref(&heap).0, 7);
    y.drop(&mut heap);
    assert_eq!(x.deref(&heap).0, 7);
    assert_eq!(drop_count.get(), 0);

    x.get_mut(&mut heap).unwrap().0 = 9;
    assert_eq!(x.deref(&heap).0, 9);

    let p = x.ptr();
    x.drop(&mut heap);
    assert_eq!(drop_count.get(), 1);
    assert!(!heap.is_allocated(p));
}

#[test]
fn arc_only_get_mut_needs_a_single_handle() {
    let mut heap = Heap::new();
    let mut x = Arc::new(&mut heap, 1u8);
    let y = x.clone(&mut heap);
    assert!(x.get_mut(&mut heap).is_none());
    assert_eq!(y.ptr(), x.ptr());
    y.drop(&mut heap);
    assert_eq!(x.get_mut(&mut heap), Some(&mut 1u8));
}

#[test]
fn arc_only_records_do_not_share_places() {
    let mut heap = Heap::new();
    let a = Arc::new(&mut heap, 'a');
    let b = Arc::new(&mut heap, 'b');
    assert_eq!(heap.len(), 2);
    assert_ne!(a.ptr(), b.ptr());
    let pa = a.ptr();
    a.drop(&mut heap);
    assert!(!heap.is_allocated(pa));
    assert!(heap.is_allocated(b.ptr()));
    assert_eq!(*b.deref(&heap), 'b');
    let c = Arc::new(&mut heap, 'c');
    assert_ne!(c.ptr(), pa);
    assert_eq!(heap.len(), 3);
}
