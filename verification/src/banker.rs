//! Deadlock avoidance by the banker's algorithm.
//!
//! A [`Resource`] keeps the books of a banker who lends `NRES` kinds of
//! resources to `NTH` threads. Every thread has declared the most it will
//! ever hold of each kind. The banker grants a request only if, afterwards,
//! there is still an order in which every thread can be given all it may
//! yet ask for, run to its end and hand everything back: only if the state
//! stays safe.

use vstd::prelude::*;
use vstd::set_lib::{lemma_int_range, set_int_range};

verus! {

/// The books of the banker as mathematical values: one row per thread, one
/// column per kind of resource.
#[verifier::ext_equal]
pub struct Ledger {
    /// What the banker has in hand, per kind.
    pub available: Seq<usize>,
    /// What each thread holds, per kind.
    pub allocation: Seq<Seq<usize>>,
    /// The most each thread will ever hold, per kind.
    pub max: Seq<Seq<usize>>,
}

impl Ledger {
    /// Number of threads.
    pub open spec fn threads(self) -> int {
        self.allocation.len() as int
    }

    /// Number of kinds of resources.
    pub open spec fn kinds(self) -> int {
        self.available.len() as int
    }

    /// All threads, in the order of their numbers.
    pub open spec fn everyone(self) -> Seq<int> {
        Seq::new(self.allocation.len(), |i: int| i)
    }

    /// What thread `i` may still ask for of kind `j`.
    pub open spec fn need(self, i: int, j: int) -> int {
        self.max[i][j] - self.allocation[i][j]
    }

    /// What the threads in `order` hold of kind `j`, taken together.
    pub open spec fn total(self, order: Seq<int>, j: int) -> int
        decreases order.len(),
    {
        if order.len() == 0 {
            0
        } else {
            self.total(order.drop_last(), j) + self.allocation[order.last()][j]
        }
    }

    /// What the banker has in hand of kind `j` once the threads in `order`
    /// have handed back all they hold.
    pub open spec fn work_after(self, order: Seq<int>, j: int) -> int {
        self.available[j] + self.total(order, j)
    }

    /// Thread `i` can be given all it may still ask for once the threads in
    /// `before` have handed back what they hold.
    pub open spec fn can_finish(self, i: int, before: Seq<int>) -> bool {
        forall|j: int| 0 <= j < self.kinds() ==> self.need(i, j) <= #[trigger] self.work_after(
            before,
            j,
        )
    }

    /// The threads in `order` can run to their end one after the other, in
    /// that order.
    pub open spec fn runs(self, order: Seq<int>) -> bool
        decreases order.len(),
    {
        order.len() == 0 || (self.runs(order.drop_last()) && self.can_finish(
            order.last(),
            order.drop_last(),
        ))
    }

    /// `order` names threads only, and each at most once.
    pub open spec fn is_order(self, order: Seq<int>) -> bool {
        &&& order.no_duplicates()
        &&& forall|k: int| 0 <= k < order.len() ==> 0 <= #[trigger] order[k] < self.threads()
    }

    /// `order` is an order in which all threads can run to their end.
    pub open spec fn is_schedule(self, order: Seq<int>) -> bool {
        &&& self.is_order(order)
        &&& forall|i: int| 0 <= i < self.threads() ==> order.contains(i)
        &&& self.runs(order)
    }

    /// The state is safe: there is an order in which all threads can run to
    /// their end.
    pub open spec fn safe(self) -> bool {
        exists|order: Seq<int>| self.is_schedule(order)
    }

    /// The books are in order: the tables have one shape, no thread holds
    /// more than it declared, and what exists of each kind, in hand and lent
    /// out, can be counted in a machine word.
    pub open spec fn wf(self) -> bool {
        &&& self.max.len() == self.allocation.len()
        &&& forall|i: int|
            0 <= i < self.threads() ==> (#[trigger] self.allocation[i]).len() == self.kinds()
        &&& forall|i: int| 0 <= i < self.threads() ==> (#[trigger] self.max[i]).len() == self.kinds()
        &&& forall|i: int, j: int|
            0 <= i < self.threads() && 0 <= j < self.kinds() ==> self.allocation[i][j]
                <= #[trigger] self.max[i][j]
        &&& forall|j: int|
            0 <= j < self.kinds() ==> #[trigger] self.work_after(self.everyone(), j) <= usize::MAX
    }

    /// The books after one unit of kind `resource` has passed from the
    /// banker to thread `id`.
    pub open spec fn granted(self, id: int, resource: int) -> Ledger {
        Ledger {
            available: self.available.update(resource, (self.available[resource] - 1) as usize),
            allocation: self.allocation.update(
                id,
                self.allocation[id].update(resource, (self.allocation[id][resource] + 1) as usize),
            ),
            max: self.max,
        }
    }

    /// The books after one unit of kind `resource` has passed from thread
    /// `id` back to the banker.
    pub open spec fn returned(self, id: int, resource: int) -> Ledger {
        Ledger {
            available: self.available.update(resource, (self.available[resource] + 1) as usize),
            allocation: self.allocation.update(
                id,
                self.allocation[id].update(resource, (self.allocation[id][resource] - 1) as usize),
            ),
            max: self.max,
        }
    }

    /// Whether a request of thread `id` for one unit of kind `resource` can
    /// be looked at at all: both exist, the banker has a unit in hand, and
    /// the thread stays within what it declared.
    pub open spec fn grantable(self, id: int, resource: int) -> bool {
        &&& 0 <= id < self.threads()
        &&& 0 <= resource < self.kinds()
        &&& self.available[resource] > 0
        &&& self.allocation[id][resource] < self.max[id][resource]
    }

    /// Whether thread `id` has a unit of kind `resource` to hand back.
    pub open spec fn returnable(self, id: int, resource: int) -> bool {
        &&& 0 <= id < self.threads()
        &&& 0 <= resource < self.kinds()
        &&& self.allocation[id][resource] > 0
    }

    // ---------------------------------------------------------------------
    // Sums
    // ---------------------------------------------------------------------
    /// Taking one thread out of an order lowers the total by what that
    /// thread holds.
    pub proof fn lemma_total_remove(self, order: Seq<int>, idx: int, j: int)
        requires
            0 <= idx < order.len(),
        ensures
            self.total(order, j) == self.total(order.remove(idx), j)
                + self.allocation[order[idx]][j],
        decreases order.len(),
    {
        if idx == order.len() - 1 {
            assert(order.remove(idx) == order.drop_last());
        } else {
            self.lemma_total_remove(order.drop_last(), idx, j);
            assert(order.remove(idx).drop_last() == order.drop_last().remove(idx));
            assert(order.remove(idx).last() == order.last());
        }
    }

    /// Threads that all occur in another order hold, together, no more than
    /// the threads of that order.
    pub proof fn lemma_total_subset(self, a: Seq<int>, b: Seq<int>, j: int)
        requires
            a.no_duplicates(),
            forall|k: int| 0 <= k < a.len() ==> b.contains(#[trigger] a[k]),
        ensures
            self.total(a, j) <= self.total(b, j),
        decreases b.len(),
    {
        if b.len() == 0 {
            if a.len() > 0 {
                assert(b.contains(a[0]));
            }
        } else {
            let x = b.last();
            let rest = b.drop_last();
            if a.contains(x) {
                let idx = choose|idx: int| 0 <= idx < a.len() && a[idx] == x;
                let shorter = a.remove(idx);
                assert forall|k: int| 0 <= k < shorter.len() implies rest.contains(
                    #[trigger] shorter[k],
                ) by {
                    let y = shorter[k];
                    let at = if k < idx {
                        k
                    } else {
                        k + 1
                    };
                    assert(a[at] == y);
                    assert(b.contains(a[at]));
                    let m = choose|m: int| 0 <= m < b.len() && b[m] == y;
                    assert(y != x);
                    assert(rest[m] == y);
                }
                assert(shorter.no_duplicates()) by {
                    assert forall|p: int, q: int|
                        0 <= p < shorter.len() && 0 <= q < shorter.len() && p != q implies shorter[p]
                        != shorter[q] by {
                        let pp = if p < idx {
                            p
                        } else {
                            p + 1
                        };
                        let qq = if q < idx {
                            q
                        } else {
                            q + 1
                        };
                        assert(shorter[p] == a[pp]);
                        assert(shorter[q] == a[qq]);
                    }
                }
                self.lemma_total_subset(shorter, rest, j);
                self.lemma_total_remove(a, idx, j);
            } else {
                assert forall|k: int| 0 <= k < a.len() implies rest.contains(#[trigger] a[k]) by {
                    assert(b.contains(a[k]));
                    let m = choose|m: int| 0 <= m < b.len() && b[m] == a[k];
                    assert(rest[m] == a[k]);
                }
                self.lemma_total_subset(a, rest, j);
            }
        }
    }

    /// Every order of threads is contained in the order of all threads.
    pub proof fn lemma_within_everyone(self, order: Seq<int>)
        requires
            self.is_order(order),
        ensures
            forall|k: int| 0 <= k < order.len() ==> self.everyone().contains(#[trigger] order[k]),
    {
        assert forall|k: int| 0 <= k < order.len() implies self.everyone().contains(
            #[trigger] order[k],
        ) by {
            assert(self.everyone()[order[k]] == order[k]);
        }
    }

    /// A beginning of a run is a run.
    pub proof fn lemma_runs_prefix(self, order: Seq<int>, n: int)
        requires
            self.runs(order),
            0 <= n <= order.len(),
        ensures
            self.runs(order.subrange(0, n)),
        decreases order.len(),
    {
        if n == order.len() {
            assert(order.subrange(0, n) == order);
        } else {
            self.lemma_runs_prefix(order.drop_last(), n);
            assert(order.drop_last().subrange(0, n) == order.subrange(0, n));
        }
    }

    // ---------------------------------------------------------------------
    // The greedy search is exact
    // ---------------------------------------------------------------------
    /// If the threads that have finished cannot be followed by any other,
    /// then every run consists of finished threads only.
    proof fn lemma_run_stays_inside(self, done: Seq<int>, order: Seq<int>, n: int)
        requires
            self.is_order(done),
            self.is_order(order),
            self.runs(order),
            0 <= n <= order.len(),
            forall|i: int|
                0 <= i < self.threads() && !done.contains(i) ==> !self.can_finish(i, done),
        ensures
            forall|k: int| 0 <= k < n ==> done.contains(#[trigger] order[k]),
        decreases n,
    {
        if n > 0 {
            self.lemma_run_stays_inside(done, order, n - 1);
            let i = order[n - 1];
            if !done.contains(i) {
                let before = order.subrange(0, n - 1);
                let upto = order.subrange(0, n);
                self.lemma_runs_prefix(order, n);
                assert(upto.drop_last() == before);
                assert(upto.last() == i);
                assert(self.can_finish(i, before));
                assert(before.no_duplicates());
                assert forall|k: int| 0 <= k < before.len() implies done.contains(
                    #[trigger] before[k],
                ) by {
                    assert(before[k] == order[k]);
                }
                assert forall|j: int| 0 <= j < self.kinds() implies self.need(i, j)
                    <= #[trigger] self.work_after(done, j) by {
                    self.lemma_total_subset(before, done, j);
                    assert(self.need(i, j) <= self.work_after(before, j));
                }
                assert(self.can_finish(i, done));
                assert(false);
            }
        }
    }

    /// Where the greedy search stops with a thread left over, no order lets
    /// all threads run to their end.
    pub proof fn lemma_stuck_is_unsafe(self, done: Seq<int>, left_over: int)
        requires
            self.is_order(done),
            0 <= left_over < self.threads(),
            !done.contains(left_over),
            forall|i: int|
                0 <= i < self.threads() && !done.contains(i) ==> !self.can_finish(i, done),
        ensures
            !self.safe(),
    {
        if self.safe() {
            let order = choose|order: Seq<int>| self.is_schedule(order);
            self.lemma_run_stays_inside(done, order, order.len() as int);
            assert(order.contains(left_over));
            let k = choose|k: int| 0 <= k < order.len() && order[k] == left_over;
            assert(done.contains(order[k]));
        }
    }

    // ---------------------------------------------------------------------
    // Granting and returning keep the books in order
    // ---------------------------------------------------------------------
    /// How a grant changes what the first `n` threads hold of a kind.
    proof fn lemma_total_granted(self, id: int, resource: int, n: int, j: int)
        requires
            0 <= id < self.threads(),
            0 <= resource < self.kinds(),
            self.allocation[id].len() == self.kinds(),
            self.allocation[id][resource] < usize::MAX,
            0 <= n <= self.threads(),
            0 <= j < self.kinds(),
        ensures
            self.granted(id, resource).total(self.everyone().subrange(0, n), j) == self.total(
                self.everyone().subrange(0, n),
                j,
            ) + (if j == resource && id < n {
                1int
            } else {
                0int
            }),
        decreases n,
    {
        let g = self.granted(id, resource);
        let upto = self.everyone().subrange(0, n);
        if n > 0 {
            self.lemma_total_granted(id, resource, n - 1, j);
            assert(upto.drop_last() == self.everyone().subrange(0, n - 1));
            assert(upto.last() == n - 1);
        }
    }

    /// How a return changes what the first `n` threads hold of a kind.
    proof fn lemma_total_returned(self, id: int, resource: int, n: int, j: int)
        requires
            0 <= id < self.threads(),
            0 <= resource < self.kinds(),
            self.allocation[id].len() == self.kinds(),
            self.allocation[id][resource] > 0,
            0 <= n <= self.threads(),
            0 <= j < self.kinds(),
        ensures
            self.returned(id, resource).total(self.everyone().subrange(0, n), j) == self.total(
                self.everyone().subrange(0, n),
                j,
            ) - (if j == resource && id < n {
                1int
            } else {
                0int
            }),
        decreases n,
    {
        let upto = self.everyone().subrange(0, n);
        if n > 0 {
            self.lemma_total_returned(id, resource, n - 1, j);
            assert(upto.drop_last() == self.everyone().subrange(0, n - 1));
            assert(upto.last() == n - 1);
        }
    }

    /// A grant that can be looked at leaves the books in order, and takes
    /// nothing out of existence.
    pub proof fn lemma_granted_wf(self, id: int, resource: int)
        requires
            self.wf(),
            self.grantable(id, resource),
        ensures
            self.granted(id, resource).wf(),
            self.granted(id, resource).returnable(id, resource),
            self.granted(id, resource).returned(id, resource) == self,
    {
        let g = self.granted(id, resource);
        assert(g.everyone() == self.everyone());
        assert(self.everyone().subrange(0, self.threads()) == self.everyone());
        assert forall|j: int| 0 <= j < g.kinds() implies #[trigger] g.work_after(g.everyone(), j)
            <= usize::MAX by {
            self.lemma_total_granted(id, resource, self.threads(), j);
            assert(self.work_after(self.everyone(), j) <= usize::MAX);
        }
        assert forall|i: int| 0 <= i < g.threads() implies (#[trigger] g.allocation[i]).len()
            == g.kinds() by {
            assert(self.allocation[i].len() == self.kinds());
        }
        assert forall|i: int, j: int| 0 <= i < g.threads() && 0 <= j < g.kinds() implies g.allocation[i][j]
            <= #[trigger] g.max[i][j] by {
            assert(self.allocation[i].len() == self.kinds());
            assert(self.allocation[i][j] <= self.max[i][j]);
        }
        assert(g.returned(id, resource) =~~= self);
    }

    /// A return leaves the books in order.
    pub proof fn lemma_returned_wf(self, id: int, resource: int)
        requires
            self.wf(),
            self.returnable(id, resource),
        ensures
            self.returned(id, resource).wf(),
            self.available[resource] < usize::MAX,
    {
        let r = self.returned(id, resource);
        assert(r.everyone() == self.everyone());
        assert(self.everyone().subrange(0, self.threads()) == self.everyone());
        assert(self.allocation[id].len() == self.kinds());
        // what thread `id` holds is part of what all threads hold
        assert(self.available[resource] < usize::MAX) by {
            assert(self.everyone()[id] == id);
            assert(self.everyone().contains(id));
            assert(seq![id][0] == id);
            self.lemma_total_subset(seq![id], self.everyone(), resource);
            assert(seq![id].drop_last() == Seq::<int>::empty());
            assert(self.total(seq![id], resource) == self.allocation[id][resource]) by {
                reveal_with_fuel(Ledger::total, 2);
            }
            assert(self.everyone()[id] == id);
            assert(self.work_after(self.everyone(), resource) <= usize::MAX);
        }
        assert forall|j: int| 0 <= j < r.kinds() implies #[trigger] r.work_after(r.everyone(), j)
            <= usize::MAX by {
            self.lemma_total_returned(id, resource, self.threads(), j);
            assert(self.work_after(self.everyone(), j) <= usize::MAX);
        }
        assert forall|i: int| 0 <= i < r.threads() implies (#[trigger] r.allocation[i]).len()
            == r.kinds() by {
            assert(self.allocation[i].len() == self.kinds());
        }
        assert forall|i: int, j: int| 0 <= i < r.threads() && 0 <= j < r.kinds() implies r.allocation[i][j]
            <= #[trigger] r.max[i][j] by {
            assert(self.allocation[i].len() == self.kinds());
            assert(self.allocation[i][j] <= self.max[i][j]);
        }
    }

    /// Where nothing is lent out, no threads hold anything together.
    pub proof fn lemma_total_nothing_lent(self, order: Seq<int>, j: int)
        requires
            0 <= j < self.kinds(),
            forall|k: int| 0 <= k < order.len() ==> 0 <= #[trigger] order[k] < self.threads(),
            forall|i: int, j: int|
                0 <= i < self.threads() && 0 <= j < self.kinds() ==> #[trigger] self.allocation[i][j]
                    == 0,
        ensures
            self.total(order, j) == 0,
        decreases order.len(),
    {
        if order.len() > 0 {
            self.lemma_total_nothing_lent(order.drop_last(), j);
            assert(0 <= order[order.len() - 1] < self.threads());
        }
    }
}

/// The banker's books for `NRES` kinds of resources and `NTH` threads.
pub struct Resource<const NRES: usize, const NTH: usize> {
    available: [usize; NRES],
    allocation: [[usize; NRES]; NTH],
    max: [[usize; NRES]; NTH],
}

impl<const NRES: usize, const NTH: usize> View for Resource<NRES, NTH> {
    type V = Ledger;

    closed spec fn view(&self) -> Ledger {
        Ledger {
            available: self.available@,
            allocation: Seq::new(NTH as nat, |i: int| self.allocation@[i]@),
            max: Seq::new(NTH as nat, |i: int| self.max@[i]@),
        }
    }
}

impl<const NRES: usize, const NTH: usize> Resource<NRES, NTH> {
    /// Opens the books: the banker has `available` in hand, nothing is lent
    /// out, and thread `i` has declared that it will hold at most
    /// `max[i][j]` of kind `j`.
    pub fn new(available: [usize; NRES], max: [[usize; NRES]; NTH]) -> (r: Self)
        ensures
            r@.wf(),
            r@.threads() == NTH,
            r@.kinds() == NRES,
            r@.available == available@,
            forall|i: int| 0 <= i < NTH ==> #[trigger] r@.max[i] == max@[i]@,
            forall|i: int, j: int| 0 <= i < NTH && 0 <= j < NRES ==> #[trigger] r@.allocation[i][j] == 0,
    {
        let r = Resource { available, allocation: [[0; NRES]; NTH], max };
        proof {
            assert forall|j: int| 0 <= j < r@.kinds() implies #[trigger] r@.work_after(
                r@.everyone(),
                j,
            ) <= usize::MAX by {
                r@.lemma_total_nothing_lent(r@.everyone(), j);
            }
        }
        r
    }

    /// Whether `work` covers, kind by kind, what thread `i` may still ask
    /// for.
    fn fits(&self, i: usize, work: &[usize; NRES]) -> (yes: bool)
        requires
            self@.wf(),
            i < NTH,
        ensures
            yes == (forall|j: int| 0 <= j < NRES ==> self@.need(i as int, j) <= #[trigger] work@[j]),
    {
        let mut j: usize = 0;
        while j < NRES
            invariant
                self@.wf(),
                i < NTH,
                j <= NRES,
                forall|k: int| 0 <= k < j ==> self@.need(i as int, k) <= #[trigger] work@[k],
            decreases NRES - j,
        {
            assert(self@.allocation[i as int][j as int] <= self@.max[i as int][j as int]);
            if work[j] < self.max[i][j] - self.allocation[i][j] {
                return false;
            }
            j += 1;
        }
        true
    }

    /// Whether the state is safe: whether there is an order in which every
    /// thread can be given all it may still ask for and run to its end.
    ///
    /// The search is greedy. It lets the first thread that can finish with
    /// what is in hand finish and hand back what it holds, and starts over,
    /// until all threads have finished or none of the rest can.
    pub fn is_safe(&self) -> (safe: bool)
        requires
            self@.wf(),
        ensures
            safe == self@.safe(),
    {
        let mut finish: [bool; NTH] = [false; NTH];
        let mut work: [usize; NRES] = self.available;
        let ghost mut done: Seq<int> = Seq::empty();
        let ghost mut todo: Set<int> = set_int_range(0, NTH as int);
        proof {
            lemma_int_range(0, NTH as int);
        }
        loop
            invariant
                self@.wf(),
                self@.threads() == NTH,
                self@.kinds() == NRES,
                self@.is_order(done),
                self@.runs(done),
                todo.finite(),
                forall|i: int| todo.contains(i) <==> (0 <= i < NTH && !done.contains(i)),
                forall|i: int| 0 <= i < NTH ==> #[trigger] finish@[i] == done.contains(i),
                forall|j: int| 0 <= j < NRES ==> #[trigger] work@[j] == self@.work_after(done, j),
            decreases todo.len(),
        {
            let mut found = false;
            let mut num_true: usize = 0;
            let mut i: usize = 0;
            while i < NTH
                invariant_except_break
                    !found,
                invariant
                    self@.wf(),
                    self@.threads() == NTH,
                    self@.kinds() == NRES,
                    i <= NTH,
                    num_true <= i,
                    forall|k: int| 0 <= k < NTH ==> #[trigger] finish@[k] == done.contains(k),
                    forall|j: int|
                        0 <= j < NRES ==> #[trigger] work@[j] == self@.work_after(done, j),
                    (num_true == i) <==> (forall|k: int| 0 <= k < i ==> #[trigger] finish@[k]),
                    forall|k: int|
                        0 <= k < i && !done.contains(k) ==> !self@.can_finish(k, done),
                ensures
                    found ==> i < NTH && !finish@[i as int] && self@.can_finish(i as int, done),
                    !found ==> i == NTH,
                decreases NTH - i,
            {
                if finish[i] {
                    num_true += 1;
                } else if self.fits(i, &work) {
                    proof {
                        assert forall|j: int| 0 <= j < self@.kinds() implies self@.need(i as int, j)
                            <= #[trigger] self@.work_after(done, j) by {
                            assert(work@[j] == self@.work_after(done, j));
                        }
                    }
                    found = true;
                    break ;
                } else {
                    proof {
                        let j = choose|j: int|
                            0 <= j < NRES && !(self@.need(i as int, j) <= #[trigger] work@[j]);
                        assert(!(self@.need(i as int, j) <= self@.work_after(done, j)));
                    }
                }
                i += 1;
            }
            if found {
                // thread `i` runs to its end and hands back what it holds
                let ghost longer = done.push(i as int);
                proof {
                    assert(!done.contains(i as int));
                    assert(longer.drop_last() == done);
                    assert(longer.last() == i as int);
                    assert forall|p: int, q: int|
                        0 <= p < longer.len() && 0 <= q < longer.len() && p != q implies longer[p]
                        != longer[q] by {
                        if p < done.len() {
                            assert(done.contains(done[p]));
                        }
                        if q < done.len() {
                            assert(done.contains(done[q]));
                        }
                    }
                    assert(self@.is_order(longer));
                    self@.lemma_within_everyone(longer);
                }
                finish[i] = true;
                let mut j: usize = 0;
                while j < NRES
                    invariant
                        self@.wf(),
                        self@.kinds() == NRES,
                        i < NTH,
                        j <= NRES,
                        longer == done.push(i as int),
                        longer.no_duplicates(),
                        forall|k: int|
                            0 <= k < longer.len() ==> self@.everyone().contains(
                                #[trigger] longer[k],
                            ),
                        forall|k: int|
                            0 <= k < j ==> #[trigger] work@[k] == self@.work_after(longer, k),
                        forall|k: int|
                            j <= k < NRES ==> #[trigger] work@[k] == self@.work_after(done, k),
                    decreases NRES - j,
                {
                    proof {
                        assert(longer.drop_last() == done);
                        assert(longer.last() == i as int);
                        self@.lemma_total_subset(longer, self@.everyone(), j as int);
                        assert(self@.work_after(self@.everyone(), j as int) <= usize::MAX);
                    }
                    work[j] = work[j] + self.allocation[i][j];
                    j += 1;
                }
                proof {
                    assert forall|k: int| longer.contains(k) <==> (k == i || done.contains(k)) by {
                        if longer.contains(k) {
                            let p = choose|p: int| 0 <= p < longer.len() && longer[p] == k;
                            if p < done.len() {
                                assert(done[p] == k);
                            }
                        }
                        if done.contains(k) {
                            let p = choose|p: int| 0 <= p < done.len() && done[p] == k;
                            assert(longer[p] == k);
                        }
                        if k == i {
                            assert(longer[done.len() as int] == k);
                        }
                    }
                    assert(todo.contains(i as int));
                    todo = todo.remove(i as int);
                    done = longer;
                }
            } else if num_true == NTH {
                proof {
                    assert forall|k: int| 0 <= k < self@.threads() implies done.contains(k) by {
                        assert(finish@[k]);
                    }
                    assert(self@.is_schedule(done));
                }
                return true;
            } else {
                proof {
                    let left_over = choose|k: int| 0 <= k < NTH && !#[trigger] finish@[k];
                    self@.lemma_stuck_is_unsafe(done, left_over);
                }
                return false;
            }
        }
    }

    /// Thread `id` asks for one unit of kind `resource`. The banker hands it
    /// over, and says so, exactly when the thread and the kind exist, a unit
    /// is in hand, the thread stays within what it declared, and the state
    /// after the grant is safe. Otherwise the books stay as they were.
    pub fn take(&mut self, id: usize, resource: usize) -> (granted: bool)
        requires
            old(self)@.wf(),
        ensures
            granted == (old(self)@.grantable(id as int, resource as int) && old(self)@.granted(
                id as int,
                resource as int,
            ).safe()),
            granted ==> final(self)@ == old(self)@.granted(id as int, resource as int),
            !granted ==> final(self)@ == old(self)@,
            final(self)@.wf(),
    {
        if id >= NTH || resource >= NRES || self.available[resource] == 0 {
            return false;
        }
        if self.allocation[id][resource] >= self.max[id][resource] {
            return false;
        }
        proof {
            old(self)@.lemma_granted_wf(id as int, resource as int);
        }
        // grant on trial
        self.allocation[id][resource] += 1;
        self.available[resource] -= 1;
        assert(self@ =~~= old(self)@.granted(id as int, resource as int));

        if self.is_safe() {
            true
        } else {
            // take the grant back
            self.allocation[id][resource] -= 1;
            self.available[resource] += 1;
            assert(self@ =~~= old(self)@.granted(id as int, resource as int).returned(
                id as int,
                resource as int,
            ));
            false
        }
    }

    /// Thread `id` hands back one unit of kind `resource`. Nothing happens
    /// if the thread or the kind does not exist or the thread holds no such
    /// unit.
    pub fn release(&mut self, id: usize, resource: usize)
        requires
            old(self)@.wf(),
        ensures
            old(self)@.returnable(id as int, resource as int) ==> final(self)@ == old(self)@.returned(
                id as int,
                resource as int,
            ),
            !old(self)@.returnable(id as int, resource as int) ==> final(self)@ == old(self)@,
            final(self)@.wf(),
    {
        if id >= NTH || resource >= NRES || self.allocation[id][resource] == 0 {
            return ;
        }
        proof {
            old(self)@.lemma_returned_wf(id as int, resource as int);
        }
        self.allocation[id][resource] -= 1;
        self.available[resource] += 1;
        assert(self@ =~~= old(self)@.returned(id as int, resource as int));
    }

    /// How many units of kind `resource` the banker has in hand.
    pub fn available(&self, resource: usize) -> (n: usize)
        requires
            resource < NRES,
        ensures
            n == self@.available[resource as int],
    {
        self.available[resource]
    }

    /// How many units of kind `resource` thread `id` holds.
    pub fn allocated(&self, id: usize, resource: usize) -> (n: usize)
        requires
            id < NTH,
            resource < NRES,
        ensures
            n == self@.allocation[id as int][resource as int],
    {
        self.allocation[id][resource]
    }
}

} // verus!
