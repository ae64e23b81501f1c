//! Locks and semaphores, as the rules by which their state changes.
//!
//! Nothing here waits. Where a caller of a real lock would spin or sleep,
//! the functions of this module say so in their result and leave the state
//! as it was; the waiting itself is the caller's business.

use vstd::prelude::*;

verus! {

/// Whether a word that holds `p` would be swapped for `newval` by a
/// compare-and-swap that expects `val`. The word is passed by value, so the
/// swap itself is lost; see [`Word::compare_and_swap`] for the real thing.
pub fn compare_and_swap(mut p: u64, val: u64, newval: u64) -> (swapped: bool)
    ensures
        swapped == (p == val),
{
    if p != val {
        return false;
    }
    p = newval;
    true
}

/// One word of memory that several parties read and update.
pub struct Word {
    value: usize,
}

impl View for Word {
    type V = usize;

    closed spec fn view(&self) -> usize {
        self.value
    }
}

impl Word {
    /// A word that holds `value`.
    pub fn new(value: usize) -> (w: Word)
        ensures
            w@ == value,
    {
        Word { value }
    }

    /// The value held.
    pub fn load(&self) -> (value: usize)
        ensures
            value == self@,
    {
        self.value
    }

    /// Stores `new` if the word holds `current`, and returns what the word
    /// held before, whether or not it was replaced.
    pub fn compare_and_swap(&mut self, current: usize, new: usize) -> (previous: usize)
        ensures
            previous == old(self)@,
            final(self)@ == (if old(self)@ == current {
                new
            } else {
                old(self)@
            }),
    {
        let previous = self.value;
        if previous == current {
            self.value = new;
        }
        previous
    }
}

/// Walks a word through three compare-and-swaps: one that hits, and two
/// that miss and leave the word alone.
pub fn compare_and_swap2() {
    let mut some_var = Word::new(5);

    let previous = some_var.compare_and_swap(5, 10);
    assert(previous == 5);
    let held = some_var.load();
    assert(held == 10);

    let previous = some_var.compare_and_swap(6, 12);
    assert(previous == 10);
    let held = some_var.load();
    assert(held == 10);

    let previous = some_var.compare_and_swap(99, 100);
    assert(previous == 10);
    let held = some_var.load();
    assert(held == 10);
}

/// Whether a flag that holds `p` was already set when a test-and-set
/// reached it. The flag is passed by value, so the setting itself is lost;
/// see [`Lock::try_acquire`] for the real thing.
pub fn test_and_set(mut p: bool) -> (was_set: bool)
    ensures
        was_set == p,
{
    if p {
        return true;
    } else {
        p = true;
        return false;
    }
}

/// Clears a flag that was passed by value; the caller's flag is its own.
pub fn tas_release(mut p: bool) {
    p = false
}

/// A mutual-exclusion flag: set while somebody is in the critical section.
pub struct Lock {
    inner: bool,
}

impl Lock {
    /// Whether the lock is held.
    pub closed spec fn held(&self) -> bool {
        self.inner
    }

    /// A lock that nobody holds.
    pub fn new() -> (lock: Lock)
        ensures
            !lock.held(),
    {
        Self { inner: false }
    }

    /// Takes the lock if it is free: test and set in one step. Returns
    /// whether the caller now holds it. A lock that is held stays held, by
    /// whoever held it; taking it again does not succeed, also not for its
    /// holder.
    pub fn try_acquire(&mut self) -> (acquired: bool)
        ensures
            acquired == !old(self).held(),
            final(self).held(),
    {
        if self.inner {
            false
        } else {
            self.inner = true;
            true
        }
    }

    /// Gives the lock back.
    pub fn release(&mut self)
        ensures
            !final(self).held(),
    {
        self.inner = false;
    }
}

/// Enters a critical section under a fresh lock, by test, then set.
pub fn mutex01() {
    let lock = Lock::new();

    some_func(lock.inner);
}

/// Enters the critical section if `lock` is clear: first the test, then,
/// as a step of its own, the set. Between the two another party can pass
/// the same test: this is how not to do it.
pub fn some_func(mut lock: bool)
    requires
        !lock,
    decreases 0int,
{
    if !lock {
        lock = true;
    } else {
        some_func(lock)
    }
    lock = false;
}

/// Enters a critical section under a fresh lock, by test-and-set.
pub fn mutex02() {
    let lock = Lock::new();

    some_func2(lock.inner);
}

/// Enters the critical section if `lock` is clear, testing and setting in
/// one step.
pub fn some_func2(lock: bool)
    requires
        !lock,
    decreases 0int,
{
    if !test_and_set(lock) {
    } else {
        some_func2(lock)
    }
    tas_release(lock);
}

/// Spins until test-and-set finds `lock` clear.
pub fn spinlock_acquire(lock: bool)
    requires
        !lock,
{
    while test_and_set(lock)
        invariant
            !lock,
        decreases 0int,
    {
    }
}

/// Clears `lock`.
pub fn spinlock_release(lock: bool) {
    tas_release(lock);
}

/// Spins like [`spinlock_acquire`], but looks before it leaps: the costly
/// test-and-set is tried only once a plain read has found `lock` clear.
pub fn spinlock_acquire2(lock: bool)
    requires
        !lock,
{
    loop
        invariant
            !lock,
        decreases 0int,
    {
        while lock
            invariant
                !lock,
            decreases 0int,
        {
        }
        if !test_and_set(lock) {
            break ;
        }
    }
}

/// Clears `lock`.
pub fn spinlock_release2(lock: bool) {
    tas_release(lock);
}

/// How many holders the counting functions below admit at once.
pub const NUM: usize = 4;

/// Enters: counts one holder more. Returns the new count.
pub fn semaphore_acquire(cnt: usize) -> (entered: usize)
    requires
        cnt < NUM,
    ensures
        entered == cnt + 1,
{
    let mut now = cnt;
    loop
        invariant
            now == cnt,
            cnt < NUM,
        decreases 0int,
    {
        while now >= NUM
            invariant
                now < NUM,
            decreases 0int,
        {
        }
        now += 1;
        if now <= NUM {
            return now;
        }
        now -= 1;
        return now;
    }
}

/// Leaves: counts one holder less, wrapping around below zero as the
/// machine's subtraction does. Returns the new count.
pub fn semaphore_release(cnt: usize) -> (left: usize)
    ensures
        left == (if cnt == 0 {
            usize::MAX
        } else {
            (cnt - 1) as usize
        }),
{
    cnt.wrapping_sub(1)
}

/// Enters and leaves once, starting from nobody inside.
pub fn some_func4() {
    let mut cnt: usize = 0;
    cnt = semaphore_acquire(cnt);
    let _ = semaphore_release(cnt);
}

/// A counting semaphore: admits up to a fixed number of holders.
pub struct Semaphore {
    cnt: isize,
    max: isize,
}

impl Semaphore {
    /// How many holders are inside.
    pub closed spec fn count(&self) -> int {
        self.cnt as int
    }

    /// How many holders may be inside at once.
    pub closed spec fn limit(&self) -> int {
        self.max as int
    }

    /// A semaphore with nobody inside that admits `max` holders.
    pub fn new(max: isize) -> (s: Semaphore)
        ensures
            s.count() == 0,
            s.limit() == max,
    {
        Semaphore { cnt: 0, max }
    }

    /// How many holders are inside.
    pub fn holders(&self) -> (n: isize)
        ensures
            n == self.count(),
    {
        self.cnt
    }

    /// Tries to enter. Succeeds, and counts the caller, exactly when fewer
    /// holders than the limit are inside; otherwise nothing changes and the
    /// caller has to wait for a [`Semaphore::post`].
    pub fn wait(&mut self) -> (entered: bool)
        ensures
            entered == (old(self).count() < old(self).limit()),
            final(self).count() == old(self).count() + (if entered {
                1int
            } else {
                0int
            }),
            final(self).limit() == old(self).limit(),
    {
        if self.cnt >= self.max {
            return false;
        }
        self.cnt += 1;
        true
    }

    /// Leaves. Returns whether a waiting party should be woken: the count,
    /// once lowered, does not exceed the limit.
    pub fn post(&mut self) -> (notify: bool)
        requires
            old(self).count() > isize::MIN,
        ensures
            final(self).count() == old(self).count() - 1,
            final(self).limit() == old(self).limit(),
            notify == (final(self).count() <= final(self).limit()),
    {
        self.cnt -= 1;
        self.cnt <= self.max
    }
}

/// A lock that its holder may take again: it counts how often it was taken
/// and is free once it has been released as often.
pub struct ReentLock {
    lock: Lock,
    id: i32,
    cnt: i32,
}

impl ReentLock {
    /// Whether some thread holds the lock.
    pub closed spec fn held(&self) -> bool {
        self.lock.held()
    }

    /// The thread that holds the lock; `0` while nobody does.
    pub closed spec fn owner(&self) -> int {
        self.id as int
    }

    /// How often the holder has taken the lock without releasing it.
    pub closed spec fn depth(&self) -> int {
        self.cnt as int
    }

    /// Held, owned and counted go together.
    pub open spec fn wf(&self) -> bool {
        &&& self.depth() >= 0
        &&& self.held() <==> self.depth() > 0
        &&& self.held() <==> self.owner() != 0
    }

    /// A lock that nobody holds.
    pub fn new() -> (l: ReentLock)
        ensures
            l.wf(),
            !l.held(),
    {
        ReentLock { lock: Lock::new(), id: 0, cnt: 0 }
    }
}

/// Thread `id` takes the lock. It gets it when the lock is free or already
/// its own, and then holds it once more often; when another thread holds
/// the lock nothing changes, and the caller has to try again.
pub fn reentlock_acquire(reent_lock: &mut ReentLock, id: i32) -> (acquired: bool)
    requires
        old(reent_lock).wf(),
        id != 0,
        old(reent_lock).depth() < i32::MAX,
    ensures
        final(reent_lock).wf(),
        acquired == (!old(reent_lock).held() || old(reent_lock).owner() == id),
        acquired ==> final(reent_lock).held() && final(reent_lock).owner() == id,
        acquired ==> final(reent_lock).depth() == old(reent_lock).depth() + 1,
        !acquired ==> *final(reent_lock) == *old(reent_lock),
{
    if reent_lock.lock.inner && reent_lock.id == id {
        reent_lock.cnt += 1;
        true
    } else if reent_lock.lock.try_acquire() {
        reent_lock.id = id;
        reent_lock.cnt += 1;
        true
    } else {
        false
    }
}

/// The holder releases the lock once. The lock is free again when it has
/// been released as often as it was taken.
pub fn reentlock_release(reent_lock: &mut ReentLock)
    requires
        old(reent_lock).wf(),
        old(reent_lock).held(),
    ensures
        final(reent_lock).wf(),
        final(reent_lock).depth() == old(reent_lock).depth() - 1,
        final(reent_lock).held() <==> old(reent_lock).depth() > 1,
        final(reent_lock).held() ==> final(reent_lock).owner() == old(reent_lock).owner(),
{
    reent_lock.cnt -= 1;
    if reent_lock.cnt == 0 {
        reent_lock.id = 0;
        reent_lock.lock.release();
    }
}

} // verus!
