use primitives::linked_list::LinkedList;

#[test]
fn linked_list_it_works() {
    let mut x = LinkedList::new();
    assert_eq!(x.len(), 0);
    assert!(x.front().is_none());
    assert!(x.front_mut().is_none());
    assert!(x.back().is_none());
    assert!(x.back_mut().is_none());
    assert!(x.pop_front().is_none());
    assert!(x.pop_back().is_none());

    x.push_front(8);
    assert_eq!(x.front().unwrap(), &8);
    assert_eq!(x.back().unwrap(), &8);
    x.push_front(7);
    x.push_back(9);
    assert_eq!(x.len(), 3);
    assert_eq!(x.front().unwrap(), &7);
    assert_eq!(x.back().unwrap(), &9);

    *x.front_mut().unwrap() -= 1;
    assert_eq!(x.front().unwrap(), &6);
    *x.back_mut().unwrap() += 1;
    assert_eq!(x.back().unwrap(), &10);

    assert_eq!(x.pop_front().unwrap(), 6);
    assert_eq!(x.len(), 2);
    assert_eq!(x.pop_back().unwrap(), 10);
    assert_eq!(x.len(), 1);
    assert_eq!(x.pop_front().unwrap(), 8);
    assert_eq!(x.len(), 0);
    assert!(x.pop_front().is_none());
}

#[test]
fn test_into_iter() {
    assert!(LinkedList::<i32>::new().into_iter().next().is_none());
    let mut x = LinkedList::new();
    x.push_back(1);
    x.push_back(2);
    let mut it = x.into_iter();
    assert_eq!(it.next(), Some(1));
    assert_eq!(it.next(), Some(2));
    assert_eq!(it.next(), None);
}

#[test]
fn test_iter() {
    let mut x = LinkedList::new();
    assert!(x.iter().next().is_none());
    x.push_back(1);
    x.push_back(2);
    let mut it = x.iter();
    assert_eq!(it.next(), Some(&1));
    assert_eq!(it.next(), Some(&2));
    assert_eq!(it.next(), None);

    let mut it = x.iter();
    assert_eq!(it.next_back(), Some(&2));
    assert_eq!(it.next_back(), Some(&1));
    assert_eq!(it.next_back(), None);
}

#[test]
fn test_iter_mut() {
    let mut x = LinkedList::new();
    assert!(x.iter_mut().next().is_none());
    x.push_back(1);
    x.push_back(2);
    let mut it = x.iter_mut();
    assert_eq!(it.next(), Some(&mut 1));
    assert_eq!(it.next(), Some(&mut 2));
    assert_eq!(it.next(), None);

    let mut it = x.iter_mut();
    while let Some(t) = it.next() {
        *t *= 10;
    }

    let mut it = x.iter_mut();
    assert_eq!(it.next_back(), Some(&mut 20));
    assert_eq!(it.next_back(), Some(&mut 10));
    assert_eq!(it.next_back(), None);
}

#[test]
fn iterators_meet_in_the_middle() {
    let mut x = LinkedList::new();
    for i in 1..=5 {
        x.push_back(i);
    }
    let mut it = x.iter();
    assert_eq!(it.size_hint(), (5, Some(5)));
    assert_eq!(it.next(), Some(&1));
    assert_eq!(it.next_back(), Some(&5));
    assert_eq!(it.next(), Some(&2));
    assert_eq!(it.next_back(), Some(&4));
    assert_eq!(it.size_hint(), (1, Some(1)));
    assert_eq!(it.next(), Some(&3));
    assert_eq!(it.next_back(), None);
    assert_eq!(it.next(), None);

    let mut it = x.iter_mut();
    *it.next().unwrap() += 10;
    *it.next_back().unwrap() += 50;
    assert_eq!(it.size_hint(), (3, Some(3)));
    let mut seen = Vec::new();
    let mut it = x.iter();
    while let Some(t) = it.next() {
        seen.push(*t);
    }
    assert_eq!(seen, [11, 2, 3, 4, 55]);
}

#[test]
fn places_are_used_again() {
    let mut x = LinkedList::new();
    for round in 0..100 {
        x.push_back(round);
        x.push_front(round + 1000);
        assert_eq!(x.pop_back(), Some(round));
        assert_eq!(x.len(), round as usize + 1);
    }
    for round in (0..100).rev() {
        assert_eq!(x.pop_front(), Some(round + 1000));
    }
    assert_eq!(x.len(), 0);
    assert_eq!(x.pop_back(), None);
    x.push_back(1);
    x.push_back(2);
    x.push_front(0);
    assert_eq!(x.pop_back(), Some(2));
    assert_eq!(x.pop_back(), Some(1));
    assert_eq!(x.pop_back(), Some(0));
    assert_eq!(x.pop_back(), None);
}
