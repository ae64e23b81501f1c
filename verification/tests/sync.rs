use greenthread::sync::{
    compare_and_swap, compare_and_swap2, mutex01, mutex02, reentlock_acquire, reentlock_release,
    semaphore_acquire, semaphore_release, some_func, some_func2, some_func4, spinlock_acquire,
    spinlock_acquire2, spinlock_release, spinlock_release2, tas_release, test_and_set, Lock,
    ReentLock, Semaphore, Word, NUM,
};

#[test]
fn func_158p() {
    let mut lock = ReentLock::new();
    // thread 1 takes the lock, and takes it again while holding it
    assert!(reentlock_acquire(&mut lock, 1));
    assert!(reentlock_acquire(&mut lock, 1));
    // thread 2 has to wait
    assert!(!reentlock_acquire(&mut lock, 2));
    // one release is not enough
    reentlock_release(&mut lock);
    assert!(!reentlock_acquire(&mut lock, 2));
    // the second one frees the lock
    reentlock_release(&mut lock);
    assert!(reentlock_acquire(&mut lock, 2));
    assert!(!reentlock_acquire(&mut lock, 1));
    reentlock_release(&mut lock);
    assert!(reentlock_acquire(&mut lock, 1));
}

#[test]
fn func_161p() {
    // One lock, taken twice without a release in between: the second
    // attempt does not get it, and a caller that waits for it waits forever.
    let mut lock0 = Lock::new();
    let a = lock0.try_acquire();
    let b = lock0.try_acquire();
    assert!(a);
    assert!(!b);
}

#[test]
fn a_released_lock_can_be_taken_again() {
    let mut lock = Lock::new();
    assert!(lock.try_acquire());
    lock.release();
    assert!(lock.try_acquire());
    assert!(!lock.try_acquire());
}

#[test]
fn compare_and_swap_tells_whether_it_would_swap() {
    assert!(compare_and_swap(5, 5, 10));
    assert!(!compare_and_swap(5, 6, 10));
}

#[test]
fn a_word_is_swapped_only_on_a_match() {
    let mut some_var = Word::new(5);
    assert_eq!(some_var.compare_and_swap(5, 10), 5);
    assert_eq!(some_var.load(), 10);
    assert_eq!(some_var.compare_and_swap(6, 12), 10);
    assert_eq!(some_var.load(), 10);
    assert_eq!(some_var.compare_and_swap(99, 100), 10);
    assert_eq!(some_var.load(), 10);
    compare_and_swap2();
}

#[test]
fn test_and_set_reports_the_old_flag() {
    assert!(test_and_set(true));
    assert!(!test_and_set(false));
    tas_release(true);
    tas_release(false);
}

#[test]
fn the_lock_walkthroughs_come_to_an_end() {
    mutex01();
    mutex02();
    some_func(false);
    some_func2(false);
    spinlock_acquire(false);
    spinlock_release(false);
    spinlock_acquire2(false);
    spinlock_release2(true);
    some_func4();
}

#[test]
fn counting_holders_in_and_out() {
    assert_eq!(NUM, 4);
    assert_eq!(semaphore_acquire(0), 1);
    assert_eq!(semaphore_acquire(3), 4);
    assert_eq!(semaphore_release(4), 3);
    assert_eq!(semaphore_release(1), 0);
    assert_eq!(semaphore_release(0), usize::MAX);
}

#[test]
fn a_semaphore_admits_up_to_its_limit() {
    let mut sem = Semaphore::new(2);
    assert!(sem.wait());
    assert!(sem.wait());
    assert!(!sem.wait());
    assert!(!sem.wait());
    // one holder leaves: there is room, so a waiter is to be woken
    assert!(sem.post());
    assert!(sem.wait());
    assert!(!sem.wait());
    assert!(sem.post());
    assert!(sem.post());
    assert!(sem.wait());
}

#[test]
fn a_semaphore_without_room_admits_nobody() {
    let mut sem = Semaphore::new(0);
    assert!(!sem.wait());
    let mut sem = Semaphore::new(-1);
    assert!(!sem.wait());
    // leaving without having entered lowers the count all the same
    assert!(sem.post());
    let mut sem = Semaphore::new(-3);
    assert!(!sem.post());
}
