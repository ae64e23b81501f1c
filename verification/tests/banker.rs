use greenthread::banker::Resource;

#[test]
fn two_philosophers_two_forks() {
    // one fork of each kind; each philosopher needs both to eat
    let mut banker = Resource::<2, 2>::new([1, 1], [[1, 1], [1, 1]]);
    assert!(banker.is_safe());

    // philosopher 0 picks up fork 0
    assert!(banker.take(0, 0));
    assert_eq!(banker.available(0), 0);
    assert_eq!(banker.allocated(0, 0), 1);
    // philosopher 1 reaching for fork 1 now would leave both stuck
    assert!(!banker.take(1, 1));
    assert_eq!(banker.available(1), 1);
    assert_eq!(banker.allocated(1, 1), 0);
    // fork 0 is not in hand at all
    assert!(!banker.take(1, 0));
    // philosopher 0 gets the second fork, eats, and puts both down
    assert!(banker.take(0, 1));
    banker.release(0, 0);
    banker.release(0, 1);
    assert_eq!(banker.available(0), 1);
    assert_eq!(banker.available(1), 1);
    // now philosopher 1 can have both, in its own order
    assert!(banker.take(1, 1));
    assert!(banker.take(1, 0));
    banker.release(1, 1);
    banker.release(1, 0);
    assert!(banker.is_safe());
}

#[test]
fn many_rounds_never_get_stuck() {
    let mut banker = Resource::<2, 2>::new([1, 1], [[1, 1], [1, 1]]);
    for round in 0..1000 {
        let (first, second) = if round % 2 == 0 { (0, 1) } else { (1, 0) };
        // both reach for their first fork; the banker lets only one through
        let got_first = banker.take(first, first);
        let got_second = banker.take(second, second);
        assert!(got_first);
        assert!(!got_second);
        assert!(banker.take(first, second));
        banker.release(first, first);
        banker.release(first, second);
        assert!(banker.take(second, second));
        assert!(banker.take(second, first));
        banker.release(second, second);
        banker.release(second, first);
    }
}

#[test]
fn requests_that_cannot_be_looked_at_are_refused() {
    let mut banker = Resource::<2, 2>::new([1, 1], [[1, 1], [1, 0]]);
    // no such thread, no such kind
    assert!(!banker.take(2, 0));
    assert!(!banker.take(0, 2));
    // thread 1 declared that it never holds the second resource
    assert!(!banker.take(1, 1));
    assert!(banker.take(0, 0));
    // nothing of the first resource in hand
    assert!(!banker.take(1, 0));
    // thread 1 holds nothing: a release by it changes nothing
    banker.release(1, 0);
    assert_eq!(banker.available(0), 0);
    assert_eq!(banker.allocated(0, 0), 1);
}

#[test]
fn release_of_what_is_not_held_changes_nothing() {
    let mut banker = Resource::<1, 2>::new([3], [[2], [2]]);
    banker.release(0, 0);
    banker.release(5, 0);
    banker.release(0, 5);
    assert_eq!(banker.available(0), 3);
    assert!(banker.take(0, 0));
    banker.release(1, 0);
    assert_eq!(banker.available(0), 2);
    banker.release(0, 0);
    assert_eq!(banker.available(0), 3);
    assert_eq!(banker.allocated(0, 0), 0);
}

#[test]
fn a_state_nobody_can_finish_from_is_unsafe() {
    // two units in all, each thread may want both: one each is a trap
    let mut banker = Resource::<1, 2>::new([2], [[2], [2]]);
    assert!(banker.take(0, 0));
    assert!(!banker.take(1, 0));
    assert!(banker.take(0, 0));
    assert_eq!(banker.available(0), 0);
    assert!(banker.is_safe());
}

#[test]
fn a_thread_that_wants_more_than_there_is_makes_every_state_unsafe() {
    let mut banker = Resource::<1, 2>::new([1], [[2], [1]]);
    assert!(!banker.is_safe());
    assert!(!banker.take(1, 0));
    assert_eq!(banker.available(0), 1);
}

#[test]
fn without_threads_every_state_is_safe() {
    let banker = Resource::<2, 0>::new([1, 1], []);
    assert!(banker.is_safe());
}

#[test]
fn three_threads_need_the_right_order() {
    // three units are enough for needs of 3, 2 and 1, one after the other
    let banker = Resource::<1, 3>::new([3], [[3], [2], [1]]);
    assert!(banker.is_safe());
    // but not for needs of 9, 4 and 7
    let banker = Resource::<1, 3>::new([3], [[9], [4], [7]]);
    assert!(!banker.is_safe());

    let mut banker = Resource::<1, 3>::new([12], [[10], [4], [9]]);
    // lend 5 to thread 0, 2 to thread 1, 2 to thread 2: three units are left
    for _ in 0..5 {
        assert!(banker.take(0, 0));
    }
    assert!(banker.take(1, 0));
    assert!(banker.take(1, 0));
    assert!(banker.take(2, 0));
    assert!(banker.take(2, 0));
    assert_eq!(banker.available(0), 3);
    // a third unit for thread 2 would leave two: thread 1 could still
    // finish, but the four units in hand after it are too few for the rest
    assert!(!banker.take(2, 0));
    assert_eq!(banker.available(0), 3);
    assert_eq!(banker.allocated(2, 0), 2);
    // thread 1 can have one: 1, then 0, then 2 is still an order that works
    assert!(banker.take(1, 0));
    assert_eq!(banker.available(0), 2);
    assert!(banker.is_safe());
}
