use primitives::atomics::{Flag, Word};
use primitives::condvar_simple::Condvar;
use primitives::futex;
use primitives::mutex_simple;
use primitives::mutex_spin;
use primitives::spinlock_v1;
use primitives::spinlock_v2;

#[test]
fn spinlock_v1_it_works() {
    let mut lock = spinlock_v1::SpinLock::new(0u32);
    {
        let x = lock.lock();
        *x += 1;
        lock.unlock();
    }
    {
        let x = lock.lock();
        *x += 1;
        lock.unlock();
    }
    assert_eq!(*lock.lock(), 2);
}

#[test]
fn spinlock_v1_held_lock_refuses() {
    let mut lock = spinlock_v1::SpinLock::new(5u32);
    assert_eq!(lock.try_lock(), Some(&mut 5));
    assert_eq!(lock.try_lock(), None);
    assert_eq!(lock.try_lock(), None);
    lock.unlock();
    *lock.try_lock().unwrap() = 6;
    lock.unlock();
    assert_eq!(*lock.lock(), 6);
}

#[test]
fn spinlock_v2_it_works() {
    let mut lock = spinlock_v2::SpinLock::new(0u32);
    {
        let mut x = lock.lock();
        *x.deref_mut() += 1;
        x.drop();
    }
    {
        let mut x = lock.lock();
        *x.deref_mut() += 1;
        x.drop();
    }
    let x = lock.lock();
    assert_eq!(*x.deref(), 2);
}

#[test]
fn share_guard() {
    let mut lock = spinlock_v2::SpinLock::new("foo".to_owned());
    let x = lock.lock();
    let shared = &x;
    assert_eq!(*shared.deref(), "foo");
    assert_eq!(*x.deref(), "foo");
}

#[test]
fn send_guard() {
    let mut lock = spinlock_v2::SpinLock::new("foo".to_owned());
    let x = lock.lock();
    let moved = x;
    assert_eq!(*moved.deref(), "foo");
}

#[test]
fn share_and_mutate_guard() {
    let mut lock = spinlock_v2::SpinLock::new("foo".to_owned());
    let mut x = lock.lock();
    {
        let shared = &mut x;
        shared.deref_mut().push_str("bar");
    }
    assert_eq!(*x.deref(), "foobar");
}

#[test]
fn spinlock_v2_guard_that_is_not_dropped_keeps_the_lock() {
    let mut lock = spinlock_v2::SpinLock::new(1u8);
    let g = lock.try_lock();
    assert!(g.is_some());
    std::mem::forget(g);
    assert!(lock.try_lock().is_none());
    let mut lock = spinlock_v2::SpinLock::new(1u8);
    let g = lock.try_lock().unwrap();
    g.drop();
    assert!(lock.try_lock().is_some());
}

#[test]
fn mutex_simple_it_works() {
    let mut m = mutex_simple::Mutex::new(0);
    for _ in 0..4 {
        for _ in 0..100_000 {
            let mut g = m.lock();
            *g.deref_mut() += 1;
            g.drop();
        }
    }
    assert_eq!(m.into_inner(), 400_000);
}

#[test]
fn mutex_simple_held_mutex_makes_the_caller_wait() {
    assert!(mutex_simple::must_wait(mutex_simple::LOCKED));
    assert!(!mutex_simple::must_wait(mutex_simple::UNLOCKED));
    let mut m = mutex_simple::Mutex::new(3);
    let g = m.try_lock().unwrap();
    std::mem::forget(g);
    assert!(m.try_lock().is_none());
    let mut m = mutex_simple::Mutex::new(3);
    let g = m.try_lock().unwrap();
    let back = g.unlock();
    assert!(back.try_lock().is_some());
}

#[test]
fn mutex_spin_it_works() {
    let mut m = mutex_spin::Mutex::new(0);
    for _ in 0..4 {
        for _ in 0..100_000 {
            let mut g = m.lock();
            *g.deref_mut() += 1;
            assert!(!g.drop());
        }
    }
    assert_eq!(m.into_inner(), 400_000);
}

#[test]
fn mutex_spin_rounds() {
    assert!(mutex_spin::spin_again(mutex_spin::LOCKED, mutex_spin::SPIN_LIMIT));
    assert!(mutex_spin::spin_again(mutex_spin::LOCKED, 1));
    assert!(!mutex_spin::spin_again(mutex_spin::LOCKED, 0));
    assert!(!mutex_spin::spin_again(mutex_spin::UNLOCKED, 100));
    assert!(!mutex_spin::spin_again(mutex_spin::CONTENDED, 100));
    assert_eq!(mutex_spin::SPIN_LIMIT, 100);
    assert!(mutex_spin::must_wait(mutex_spin::LOCKED));
    assert!(mutex_spin::must_wait(mutex_spin::CONTENDED));
    assert!(!mutex_spin::must_wait(mutex_spin::UNLOCKED));
    assert!(mutex_spin::must_wake(mutex_spin::CONTENDED));
    assert!(!mutex_spin::must_wake(mutex_spin::LOCKED));

    // a free mutex taken in a later round is left contended, and its
    // release asks for a wake-up
    let mut m = mutex_spin::Mutex::new('x');
    let g = m.try_lock_contended().unwrap();
    assert!(g.drop());
    let g = m.try_lock().unwrap();
    assert_eq!(*g.deref(), 'x');
    assert!(!g.drop());

    // a held mutex refuses both rounds, and the later round marks it
    let mut m = mutex_spin::Mutex::new('x');
    std::mem::forget(m.try_lock());
    assert!(m.try_lock().is_none());
    assert!(m.try_lock_contended().is_none());
    assert!(m.try_lock().is_none());
}

#[test]
fn condvar_simple_it_works() {
    struct Resource {
        count: u32,
    }
    let mut m = mutex_simple::Mutex::new(Resource { count: 0 });
    let mut cv = Condvar::new();
    let before = cv.ticket();
    {
        let mut g = m.lock();
        g.deref_mut().count += 1; // produce resource
        g.drop();
        cv.notify_one(); // notify consumer
    }
    assert_ne!(cv.ticket(), before);
    let mut wakeup_count = 0;
    let mut resource = m.lock();
    resource.deref_mut().count -= 1;
    while resource.deref().count == 0 && wakeup_count < 3 {
        resource = cv.wait(resource);
        wakeup_count += 1;
    }
    assert!(wakeup_count > 0);
    assert!(wakeup_count < 10);
    assert_eq!(resource.deref().count, 0);
}

#[test]
fn condvar_counts_notifications() {
    let mut cv = Condvar::new();
    assert_eq!(cv.ticket(), 0);
    cv.notify_one();
    cv.notify_one();
    assert_eq!(cv.ticket(), 2);
}

#[test]
fn word_and_flag_steps() {
    let mut w = Word::new(u32::MAX);
    assert_eq!(w.fetch_add(1), u32::MAX);
    assert_eq!(w.load(), 0);
    assert_eq!(w.swap(2), 0);
    assert_eq!(w.compare_exchange(0, 1), Err(2));
    assert_eq!(w.compare_exchange(2, 1), Ok(2));
    w.store(7);
    assert_eq!(w.load(), 7);
    let mut f = Flag::new(false);
    assert!(!f.swap(true));
    assert!(f.swap(true));
    f.store(false);
    assert!(!f.load());
}

#[test]
fn futex_outcomes() {
    assert_eq!(futex::wait_outcome(0, 0, 11), Ok(()));
    assert_eq!(futex::wait_outcome(-1, 11, 11), Ok(()));
    assert_eq!(futex::wait_outcome(-1, 4, 11), Err(4));
    assert_eq!(futex::wait_result(0, 4), Ok(()));
    assert_eq!(futex::wait_result(-1, libc::EAGAIN), Ok(()));
    assert_eq!(futex::wait_result(-1, libc::EAGAIN + 1), Err(libc::EAGAIN + 1));
    assert_eq!(futex::wake_result(3, 0), Ok(3));
    assert_eq!(futex::wake_result(0, 9), Ok(0));
    assert_eq!(futex::wake_result(-1, 9), Err(9));
    assert!(futex::wake_count_fits(5, 5));
    assert!(!futex::wake_count_fits(6, 5));
    assert!(!futex::wake_count_fits(0, -1));
    assert!(futex::wake_count_allowed(1));
    assert!(futex::wake_count_allowed(libc::INT_MAX as u32));
    assert!(!futex::wake_count_allowed(libc::INT_MAX as u32 + 1));
}
