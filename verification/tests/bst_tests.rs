use primitives::bst::Tree;

fn elements(t: &mut Tree<i32>) -> Vec<i32> {
    let mut out = Vec::new();
    let mut it = t.iter_mut();
    while let Some(elem) = it.next() {
        out.push(*elem);
    }
    out
}

#[test]
fn it_works() {
    let mut t = Tree::new();
    assert!(elements(&mut t).is_empty());
    t.insert(20);
    t.insert(10);
    t.insert(15);
    t.insert(15);
    t.insert(30);
    assert_eq!(elements(&mut t), vec![10, 15, 20, 30]);
    let mut it = t.iter_mut();
    while let Some(elem) = it.next() {
        *elem *= 2;
    }
    assert_eq!(elements(&mut t), vec![20, 30, 40, 60]);
}

#[test]
fn insert_keeps_the_order_and_ignores_what_is_there() {
    let mut t = Tree::new();
    for x in [5, 3, 8, 1, 4, 7, 9, 2, 6, 5, 1, 9] {
        t.insert(x);
    }
    assert_eq!(elements(&mut t), vec![1, 2, 3, 4, 5, 6, 7, 8, 9]);
    t.insert(0);
    t.insert(10);
    assert_eq!(elements(&mut t), vec![0, 1, 2, 3, 4, 5, 6, 7, 8, 9, 10]);
}

#[test]
fn iter_mut_hands_out_each_element_once() {
    let mut t = Tree::new();
    for x in [2, 1, 3] {
        t.insert(x);
    }
    let mut it = t.iter_mut();
    let a = it.next().unwrap();
    let b = it.next().unwrap();
    let c = it.next().unwrap();
    assert!(it.next().is_none());
    *a += 10;
    *c += 30;
    *b += 20;
    assert_eq!(elements(&mut t), vec![11, 22, 33]);
}
