//! What holds of every run of the runtime.
//!
//! Each law is a proof about the functions in [`crate::model`] and
//! [`crate::trace`], the same functions that the contracts of the
//! executable scheduler are written in.

use crate::model::{Dispatch, State, ThreadId, ThreadState};
use crate::stack::{access_fault, is_live, StackFault, GUARD_SIZE};
use crate::trace::Op;
use vstd::prelude::*;

verus! {

impl<M> State<M> {
    // ---------------------------------------------------------------------
    // Identifiers
    // ---------------------------------------------------------------------
    /// Identifiers are handed out in increasing order and never reused: no
    /// call lowers the next identifier, and a thread that has terminated
    /// stays terminated.
    pub proof fn lemma_ids_never_reused(self, op: Op<M>, t: ThreadId)
        requires
            self.wf(),
        ensures
            self.step(op).next_id >= self.next_id,
            self.state_of(t) == Some(ThreadState::Terminated) ==> self.step(op).state_of(t)
                == Some(ThreadState::Terminated),
            !self.is_thread(t) && self.step(op).is_thread(t) ==> op is Spawn && t == self.next_id,
    {
        self.lemma_step_wf(op);
    }

    /// A thread that is live at the end of a run and was live, or already
    /// retired, at some point of it has been live from that point on.
    pub proof fn lemma_live_throughout(self, ops: Seq<Op<M>>, k: int, t: ThreadId)
        requires
            self.wf(),
            0 <= k <= ops.len(),
            self.run(ops).is_thread(t),
            t < self.run(ops.subrange(0, k)).next_id,
        ensures
            self.run(ops.subrange(0, k)).is_thread(t),
        decreases ops.len() - k,
    {
        if k == ops.len() {
            assert(ops.subrange(0, k) == ops);
        } else {
            let before = self.run(ops.subrange(0, k));
            let prefix = ops.subrange(0, k + 1);
            assert(prefix.drop_last() == ops.subrange(0, k));
            self.lemma_run_wf(ops.subrange(0, k));
            before.lemma_ids_never_reused(ops[k], t);
            self.lemma_live_throughout(ops, k + 1, t);
        }
    }

    // ---------------------------------------------------------------------
    // Blocking
    // ---------------------------------------------------------------------
    /// A blocked thread stays blocked under every call but a send to it: it
    /// does not enter the run queue and does not get the CPU.
    pub proof fn lemma_stays_blocked(self, op: Op<M>, t: ThreadId)
        requires
            self.wf(),
            self.waiting.contains(t),
            !op.sends_to(t),
        ensures
            self.step(op).waiting.contains(t),
            self.step(op).state_of(t) == Some(ThreadState::Blocked),
            !self.step(op).run_queue.contains(t),
            self.step(op).current != Some(t),
    {
        self.lemma_step_wf(op);
    }

    /// A thread that blocked in `recv` does not run again until a message is
    /// sent to it: over a run without a send to it, it stays in the waiting
    /// set, out of the run queue and off the CPU.
    pub proof fn lemma_blocked_until_send(self, ops: Seq<Op<M>>, t: ThreadId)
        requires
            self.wf(),
            self.waiting.contains(t),
            forall|i: int| 0 <= i < ops.len() ==> !(#[trigger] ops[i]).sends_to(t),
        ensures
            self.run(ops).waiting.contains(t),
            self.run(ops).state_of(t) == Some(ThreadState::Blocked),
            !self.run(ops).run_queue.contains(t),
            self.run(ops).current != Some(t),
        decreases ops.len(),
    {
        if ops.len() > 0 {
            let prefix = ops.drop_last();
            self.lemma_blocked_until_send(prefix, t);
            self.lemma_run_wf(prefix);
            self.run(prefix).lemma_stays_blocked(ops.last(), t);
        }
    }

    /// A send to a blocked thread is what wakes it: the message is in its
    /// mailbox, and the thread is at the tail of the run queue, marked as
    /// woken.
    pub proof fn lemma_send_wakes(self, target: ThreadId, message: M)
        requires
            self.wf(),
            self.waiting.contains(target),
        ensures
            self.send(target, message).state_of(target) == Some(ThreadState::Ready),
            self.send(target, message).run_queue == self.run_queue.push(target),
            self.send(target, message).woken.contains(target),
            self.send(target, message).pending(target) == seq![message],
    {
    }

    /// A thread that a delivery has woken finds a message when it runs and
    /// receives: `recv` does not block a second time.
    pub proof fn lemma_woken_receives(self)
        requires
            self.wf(),
            self.in_thread(),
            self.woken.contains(self.current->0),
        ensures
            self.pending(self.current->0).len() > 0,
            self.recv() == self.received(),
            self.recv().current == self.current,
    {
    }

    /// A woken thread stays marked as woken, with its message pending, until
    /// it receives or ends.
    pub proof fn lemma_woken_until_recv(self, op: Op<M>, t: ThreadId)
        requires
            self.wf(),
            self.woken.contains(t),
            !(self.current == Some(t) && (op is Recv || op is Exit)),
        ensures
            self.step(op).woken.contains(t),
            self.step(op).pending(t).len() > 0,
    {
        self.lemma_step_wf(op);
    }

    // ---------------------------------------------------------------------
    // Returning to the host
    // ---------------------------------------------------------------------
    /// A scheduling decision hands the CPU to the host exactly when the run
    /// queue is empty. Every thread that is left at that moment is blocked;
    /// the decision is reported as drained when none is left and as
    /// deadlocked otherwise.
    pub proof fn lemma_host_resumes_when_drained(self)
        requires
            self.parked(),
        ensures
            self.schedule().current is None <==> self.run_queue.len() == 0,
            self.dispatch() is Run <==> self.run_queue.len() > 0,
            self.run_queue.len() > 0 ==> self.dispatch() == Dispatch::Run(self.run_queue[0])
                && self.schedule().current == Some(self.run_queue[0]),
            self.run_queue.len() == 0 ==> forall|t: ThreadId|
                self.schedule().is_thread(t) ==> self.schedule().state_of(t) == Some(
                    ThreadState::Blocked,
                ),
            self.dispatch() == Dispatch::Drained <==> self.run_queue.len() == 0 && forall|
                t: ThreadId,
            |
                !self.schedule().is_thread(t),
            self.dispatch() == Dispatch::Deadlocked <==> self.run_queue.len() == 0 && exists|
                t: ThreadId,
            |
                self.schedule().is_thread(t),
    {
        self.lemma_schedule_wf();
        if self.run_queue.len() == 0 && !self.contexts.dom().is_empty() {
            let t = choose|t: ThreadId| self.contexts.dom().contains(t);
            assert(self.schedule().is_thread(t));
        }
    }

    /// While a logical thread holds the CPU, the host gets it back only
    /// through a yield, a `recv` or an exit that finds the run queue empty;
    /// every thread that is left at that moment is blocked.
    pub proof fn lemma_host_waits_for_drain(self, op: Op<M>)
        requires
            self.wf(),
            self.in_thread(),
            !self.step(op).in_thread(),
        ensures
            (op is Recv && self.pending(self.current->0).len() == 0) || op is Exit,
            self.run_queue.len() == 0,
            self.step(op).run_queue.len() == 0,
            forall|t: ThreadId|
                self.step(op).is_thread(t) ==> self.step(op).state_of(t) == Some(
                    ThreadState::Blocked,
                ),
    {
        self.lemma_step_wf(op);
        match op {
            Op::Recv => {
                if self.pending(self.current->0).len() == 0 {
                    self.blocked().lemma_host_resumes_when_drained();
                }
            },
            Op::Exit => {
                self.retired().lemma_host_resumes_when_drained();
            },
            _ => {},
        }
    }

    // ---------------------------------------------------------------------
    // Stacks and registers
    // ---------------------------------------------------------------------
    /// No call but a store by the thread itself changes a thread's stack:
    /// the thread keeps its stack, and the stack keeps its bytes, whoever
    /// spawns, runs, sends, receives, ends or overflows meanwhile.
    pub proof fn lemma_stack_isolation(self, op: Op<M>, t: ThreadId)
        requires
            self.wf(),
            self.is_thread(t),
            self.step(op).is_thread(t),
            !(op is Store && self.current == Some(t)),
        ensures
            self.step(op).contexts[t].stack == self.contexts[t].stack,
            self.step(op).stack_bytes(t) == self.stack_bytes(t),
    {
        self.lemma_step_wf(op);
    }

    /// What a thread wrote to its stack is still there when it next looks,
    /// however long the run in between, as long as the thread itself did not
    /// write while it held the CPU.
    pub proof fn lemma_stack_survives(self, ops: Seq<Op<M>>, t: ThreadId)
        requires
            self.wf(),
            self.is_thread(t),
            self.run(ops).is_thread(t),
            forall|i: int|
                0 <= i < ops.len() ==> !(#[trigger] ops[i] is Store && self.run(
                    ops.subrange(0, i),
                ).current == Some(t)),
        ensures
            self.run(ops).contexts[t].stack == self.contexts[t].stack,
            self.run(ops).stack_bytes(t) == self.stack_bytes(t),
        decreases ops.len(),
    {
        if ops.len() > 0 {
            let prefix = ops.drop_last();
            self.lemma_run_wf(prefix);
            self.lemma_next_id_grows(prefix);
            self.lemma_live_throughout(ops, ops.len() - 1, t);
            assert forall|i: int| 0 <= i < prefix.len() implies !(#[trigger] prefix[i] is Store
                && self.run(prefix.subrange(0, i)).current == Some(t)) by {
                assert(prefix.subrange(0, i) == ops.subrange(0, i));
            }
            self.lemma_stack_survives(prefix, t);
            self.run(prefix).lemma_stack_isolation(ops.last(), t);
        }
    }

    /// No run lowers the next identifier.
    pub proof fn lemma_next_id_grows(self, ops: Seq<Op<M>>)
        requires
            self.wf(),
        ensures
            self.run(ops).next_id >= self.next_id,
        decreases ops.len(),
    {
        if ops.len() > 0 {
            self.lemma_next_id_grows(ops.drop_last());
            self.lemma_run_wf(ops.drop_last());
            self.run(ops.drop_last()).lemma_ids_never_reused(ops.last(), 0);
        }
    }

    /// A store that succeeds is seen by the next load, and changes no other
    /// byte of the stack.
    pub proof fn lemma_store_then_load(self, offset: usize, value: u8)
        requires
            self.wf(),
            self.in_thread(),
            access_fault(self.arena, self.contexts[self.current->0].stack, offset) is None,
        ensures
            self.store(offset, value).stack_bytes(self.current->0) == self.stack_bytes(
                self.current->0,
            ).update(offset as int, value),
            access_fault(
                self.store(offset, value).arena,
                self.store(offset, value).contexts[self.current->0].stack,
                offset,
            ) is None,
    {
    }

    /// Which bytes of its stack a thread may touch: those from the end of
    /// the guard region up to the size that every stack of this runtime
    /// has.
    pub proof fn lemma_stack_access(self, offset: usize)
        requires
            self.wf(),
            self.in_thread(),
        ensures
            access_fault(self.arena, self.contexts[self.current->0].stack, offset) == (if offset
                >= self.stack_size {
                Some(StackFault::OutOfBounds)
            } else if offset < GUARD_SIZE {
                Some(StackFault::GuardPage)
            } else {
                None::<StackFault>
            }),
    {
    }

    /// A stack that overflows faults and corrupts nothing: a store into the
    /// guard region is refused as such and leaves every stack, the
    /// neighbours' and the thread's own, as it was.
    pub proof fn lemma_guard_page_faults(self, offset: usize, value: u8)
        requires
            self.wf(),
            self.in_thread(),
            offset < GUARD_SIZE,
            offset < self.stack_size,
        ensures
            access_fault(self.arena, self.contexts[self.current->0].stack, offset) == Some(
                StackFault::GuardPage,
            ),
            self.store(offset, value) == self,
    {
        self.lemma_stack_access(offset);
    }

    /// A switch keeps what it saves: while a thread is off the CPU no call
    /// touches its register record, the call that switches it in loads
    /// exactly that record, and the call that switches it out saves exactly
    /// the live registers.
    pub proof fn lemma_registers_restored(self, op: Op<M>, t: ThreadId)
        requires
            self.wf(),
            self.is_thread(t),
            self.step(op).is_thread(t),
        ensures
            self.current != Some(t) && self.step(op).current != Some(t) ==> self.step(
                op,
            ).contexts[t].regs == self.contexts[t].regs,
            self.current != Some(t) && self.step(op).current == Some(t) ==> self.step(op).cpu
                == self.contexts[t].regs,
            self.current == Some(t) && self.step(op).current != Some(t) ==> self.step(
                op,
            ).contexts[t].regs == self.cpu,
    {
        self.lemma_step_wf(op);
    }

    // ---------------------------------------------------------------------
    // Mailboxes
    // ---------------------------------------------------------------------
    /// The message that the call `op` puts into the mailbox of `t`, as a
    /// sequence of at most one.
    pub open spec fn posted_by(self, op: Op<M>, t: ThreadId) -> Seq<M> {
        match op {
            Op::Send { target, message } => if target == t && self.is_thread(t) {
                seq![message]
            } else {
                Seq::empty()
            },
            _ => Seq::empty(),
        }
    }

    /// The message that the call `op` hands to `t`, as a sequence of at most
    /// one.
    pub open spec fn delivered_by(self, op: Op<M>, t: ThreadId) -> Seq<M> {
        match op {
            Op::Recv => if self.current == Some(t) && self.pending(t).len() > 0 {
                seq![self.pending(t)[0]]
            } else {
                Seq::empty()
            },
            _ => Seq::empty(),
        }
    }

    /// All messages that the run `ops` puts into the mailbox of `t`, in the
    /// order of the sends.
    pub open spec fn posted(self, ops: Seq<Op<M>>, t: ThreadId) -> Seq<M>
        decreases ops.len(),
    {
        if ops.len() == 0 {
            Seq::empty()
        } else {
            self.posted(ops.drop_last(), t) + self.run(ops.drop_last()).posted_by(ops.last(), t)
        }
    }

    /// All messages that `recv` hands to `t` during the run `ops`, in the
    /// order of the calls.
    pub open spec fn delivered(self, ops: Seq<Op<M>>, t: ThreadId) -> Seq<M>
        decreases ops.len(),
    {
        if ops.len() == 0 {
            Seq::empty()
        } else {
            self.delivered(ops.drop_last(), t) + self.run(ops.drop_last()).delivered_by(
                ops.last(),
                t,
            )
        }
    }

    /// One call changes a mailbox at the tail, by the message it posts, or
    /// at the head, by the message it delivers, and in no other way.
    pub proof fn lemma_mailbox_step(self, op: Op<M>, t: ThreadId)
        requires
            self.wf(),
            self.is_thread(t),
            self.step(op).is_thread(t),
        ensures
            self.pending(t) + self.posted_by(op, t) == self.delivered_by(op, t) + self.step(
                op,
            ).pending(t),
    {
        if self.enabled(op) && op is Recv && self.current == Some(t) && self.pending(t).len() > 0 {
            assert(seq![self.pending(t)[0]] + self.pending(t).drop_first() == self.pending(t));
        }
    }

    /// Nothing is posted to, delivered to or pending for a thread that has
    /// not been spawned by the end of a run.
    pub proof fn lemma_unborn_has_no_mail(self, ops: Seq<Op<M>>, t: ThreadId)
        requires
            self.wf(),
            t >= self.run(ops).next_id,
        ensures
            self.posted(ops, t) == Seq::<M>::empty(),
            self.delivered(ops, t) == Seq::<M>::empty(),
            self.run(ops).pending(t) == Seq::<M>::empty(),
            self.pending(t) == Seq::<M>::empty(),
        decreases ops.len(),
    {
        self.lemma_run_wf(ops);
        if ops.len() > 0 {
            let prefix = ops.drop_last();
            self.lemma_run_wf(prefix);
            self.run(prefix).lemma_ids_never_reused(ops.last(), t);
            self.lemma_unborn_has_no_mail(prefix, t);
        }
    }

    /// Mailboxes are first in, first out. Over every run, and for every
    /// thread that is live at its end, what was pending at the start
    /// followed by what was sent to the thread, in the order of the sends,
    /// is what the thread has received, in the order of its receives,
    /// followed by what is still pending.
    pub proof fn lemma_mailbox_fifo(self, ops: Seq<Op<M>>, t: ThreadId)
        requires
            self.wf(),
            self.run(ops).is_thread(t),
        ensures
            self.pending(t) + self.posted(ops, t) == self.delivered(ops, t) + self.run(
                ops,
            ).pending(t),
        decreases ops.len(),
    {
        if ops.len() > 0 {
            let prefix = ops.drop_last();
            let before = self.run(prefix);
            self.lemma_run_wf(prefix);
            if before.is_thread(t) {
                // the thread was there before the last call: one more step
                self.lemma_mailbox_fifo(prefix, t);
                before.lemma_mailbox_step(ops.last(), t);
                assert((self.delivered(prefix, t) + before.pending(t)) + before.posted_by(
                    ops.last(),
                    t,
                ) == self.delivered(prefix, t) + (before.pending(t) + before.posted_by(
                    ops.last(),
                    t,
                )));
            } else {
                // the last call has spawned it: nothing was sent to it before
                before.lemma_ids_never_reused(ops.last(), t);
                self.lemma_unborn_has_no_mail(prefix, t);
            }
        }
    }

    // ---------------------------------------------------------------------
    // The run queue
    // ---------------------------------------------------------------------
    /// Whether the call `op` ends in a scheduling decision: the host
    /// scheduling, or a thread yielding, ending, or receiving from an empty
    /// mailbox.
    pub open spec fn dispatches(self, op: Op<M>) -> bool {
        self.enabled(op) && (op is Schedule || op is Yield || op is Exit || (op is Recv
            && self.pending(self.current->0).len() == 0))
    }

    /// The thread, if any, that the call `op` appends to the run queue: the
    /// one it spawns, the one that yields, or the one that its message
    /// wakes.
    pub open spec fn appended(self, op: Op<M>) -> Seq<ThreadId> {
        if !self.enabled(op) {
            Seq::empty()
        } else {
            match op {
                Op::Spawn { .. } => seq![self.next_id],
                Op::Yield => seq![self.current->0],
                Op::Send { target, .. } => if self.waiting.contains(target) {
                    seq![target]
                } else {
                    Seq::empty()
                },
                _ => Seq::empty(),
            }
        }
    }

    /// The run queue is first in, first out. A call appends at most one
    /// thread, at the tail; a scheduling decision removes the head, which
    /// gets the CPU; and nothing else ever changes the queue or hands the
    /// CPU on.
    pub proof fn lemma_run_queue_fifo(self, op: Op<M>)
        requires
            self.wf(),
        ensures
            ({
                let queued = self.run_queue + self.appended(op);
                if !self.dispatches(op) {
                    &&& self.step(op).run_queue == queued
                    &&& self.step(op).current == self.current
                } else if queued.len() == 0 {
                    &&& self.step(op).run_queue == queued
                    &&& self.step(op).current is None
                } else {
                    &&& self.step(op).run_queue == queued.drop_first()
                    &&& self.step(op).current == Some(queued[0])
                }
            }),
    {
    }

    /// Weak fairness: a thread in the run queue never falls back. Each
    /// scheduling decision moves it one place towards the head, and gives
    /// it the CPU if it is the head; every other call leaves it where it
    /// is. So it runs once each thread ahead of it has yielded, blocked or
    /// ended.
    pub proof fn lemma_weak_fairness(self, op: Op<M>, i: int)
        requires
            self.wf(),
            0 <= i < self.run_queue.len(),
        ensures
            !self.dispatches(op) ==> i < self.step(op).run_queue.len() && self.step(
                op,
            ).run_queue[i] == self.run_queue[i],
            self.dispatches(op) && i == 0 ==> self.step(op).current == Some(self.run_queue[0]),
            self.dispatches(op) && i > 0 ==> i - 1 < self.step(op).run_queue.len() && self.step(
                op,
            ).run_queue[i - 1] == self.run_queue[i],
    {
        self.lemma_run_queue_fifo(op);
    }

    // ---------------------------------------------------------------------
    // Round robin
    // ---------------------------------------------------------------------
    /// The state after `k` scheduler cycles in each of which the running
    /// thread yields.
    pub open spec fn yields(self, k: nat) -> State<M>
        decreases k,
    {
        if k == 0 {
            self
        } else {
            self.yields((k - 1) as nat).yield_now()
        }
    }

    /// The running thread followed by the run queue: the order in which
    /// threads that only yield take turns.
    pub open spec fn ring(self) -> Seq<ThreadId> {
        seq![self.current->0] + self.run_queue
    }

    /// Threads that only yield run in the order of the ring, over and over:
    /// after `k` cycles the thread at position `k` modulo the length of the
    /// ring holds the CPU, and the run queue is the rest of the ring from
    /// there on.
    pub proof fn lemma_round_robin(self, k: nat)
        requires
            self.wf(),
            self.in_thread(),
        ensures
            self.yields(k).wf(),
            self.yields(k).current == Some(self.ring()[(k % self.ring().len()) as int]),
            self.yields(k).run_queue == self.ring().subrange(
                (k % self.ring().len()) as int + 1,
                self.ring().len() as int,
            ) + self.ring().subrange(0, (k % self.ring().len()) as int),
        decreases k,
    {
        let n = self.ring().len();
        if k == 0 {
            vstd::arithmetic::div_mod::lemma_small_mod(0, n);
        } else {
            let j = (k - 1) as nat;
            self.lemma_round_robin(j);
            vstd::arithmetic::div_mod::lemma_mod_pos_bound(j as int, n as int);
            lemma_mod_succ(j, n);
            self.yields(j).lemma_yield_wf();
        }
    }

    /// Round-robin fairness: among threads that only yield, every thread of
    /// the ring gets the CPU within any stretch of as many consecutive
    /// cycles as the ring has threads.
    pub proof fn lemma_fairness(self, k: nat, t: ThreadId)
        requires
            self.wf(),
            self.in_thread(),
            self.current == Some(t) || self.run_queue.contains(t),
        ensures
            exists|j: nat|
                k <= j < k + self.ring().len() && #[trigger] self.yields(j).current == Some(t),
    {
        let n = self.ring().len();
        // the place of `t` in the ring
        let i: int = if self.current == Some(t) {
            0
        } else {
            (choose|i: int| 0 <= i < self.run_queue.len() && self.run_queue[i] == t) + 1
        };
        // the cycle among `k .. k + n` whose number is `i` modulo `n`
        let r = k % n;
        vstd::arithmetic::div_mod::lemma_mod_pos_bound(k as int, n as int);
        vstd::arithmetic::div_mod::lemma_fundamental_div_mod(k as int, n as int);
        let base = n * (k / n);
        let j: nat = if i >= r {
            (base + i) as nat
        } else {
            (base + n + i) as nat
        };
        assert(j % n == i) by {
            vstd::arithmetic::div_mod::lemma_small_mod(i as nat, n);
            if i >= r {
                vstd::arithmetic::div_mod::lemma_mod_multiples_vanish((k / n) as int, i, n as int);
            } else {
                assert(base + n + i == n * ((k / n) + 1) + i) by (nonlinear_arith)
                    requires
                        base == n * (k / n),
                ;
                vstd::arithmetic::div_mod::lemma_mod_multiples_vanish(
                    (k / n) as int + 1,
                    i,
                    n as int,
                );
            }
        }
        self.lemma_round_robin(j);
    }

    // ---------------------------------------------------------------------
    // Lifecycle
    // ---------------------------------------------------------------------
    /// Whether a thread may pass from one lifecycle state to another in one
    /// call: a ready thread can only be switched in, a running one can
    /// yield, block or end, a blocked one can only become ready, and a
    /// terminated one stays so.
    pub open spec fn may_become(from: Option<ThreadState>, to: Option<ThreadState>) -> bool {
        match from {
            None => to is None || to == Some(ThreadState::Ready),
            Some(ThreadState::Ready) => to == Some(ThreadState::Ready) || to == Some(
                ThreadState::Running,
            ),
            Some(ThreadState::Running) => to is Some,
            Some(ThreadState::Blocked) => to == Some(ThreadState::Blocked) || to == Some(
                ThreadState::Ready,
            ),
            Some(ThreadState::Terminated) => to == Some(ThreadState::Terminated),
        }
    }

    /// Every call moves every thread along the lifecycle, and a blocked
    /// thread becomes ready by a send to it and by nothing else.
    pub proof fn lemma_lifecycle(self, op: Op<M>, t: ThreadId)
        requires
            self.wf(),
        ensures
            Self::may_become(self.state_of(t), self.step(op).state_of(t)),
            self.state_of(t) == Some(ThreadState::Blocked) && self.step(op).state_of(t) != Some(
                ThreadState::Blocked,
            ) ==> op.sends_to(t),
            self.state_of(t) is None && self.step(op).state_of(t) is Some ==> op is Spawn && t
                == self.next_id,
    {
        self.lemma_step_wf(op);
        self.lemma_ids_never_reused(op, t);
        if self.waiting.contains(t) && !op.sends_to(t) {
            self.lemma_stays_blocked(op, t);
        }
    }

    /// A stack is freed after its thread has left the CPU for the last time
    /// and not before: while a thread is live its stack is live, when it
    /// ends its stack is still there as long as the host runs next, and it
    /// is gone as soon as another thread has been switched in.
    pub proof fn lemma_stack_freed_after_switch(self)
        requires
            self.wf(),
            self.in_thread(),
        ensures
            is_live(self.arena, self.contexts[self.current->0].stack),
            self.terminate().in_thread() ==> !is_live(
                self.terminate().arena,
                self.contexts[self.current->0].stack,
            ) && self.terminate().deferred.len() == 0,
            !self.terminate().in_thread() ==> is_live(
                self.terminate().arena,
                self.contexts[self.current->0].stack,
            ) && self.terminate().deferred == self.deferred.push(
                self.contexts[self.current->0].stack,
            ),
            forall|t: ThreadId|
                self.terminate().is_thread(t) ==> is_live(
                    self.terminate().arena,
                    #[trigger] self.terminate().contexts[t].stack,
                ),
    {
        let r = self.retired();
        self.lemma_terminate_wf();
        assert(r.deferred[r.deferred.len() - 1] == self.contexts[self.current->0].stack);
    }
}

/// The remainder of a successor: one more, or back to zero at the end.
pub proof fn lemma_mod_succ(j: nat, n: nat)
    requires
        n > 0,
    ensures
        (j + 1) % n == (if j % n + 1 < n {
            j % n + 1
        } else {
            0
        }),
{
    vstd::arithmetic::div_mod::lemma_fundamental_div_mod(j as int, n as int);
    vstd::arithmetic::div_mod::lemma_mod_pos_bound(j as int, n as int);
    let q = (j / n) as int;
    let r = (j % n) as int;
    if r + 1 < n {
        vstd::arithmetic::div_mod::lemma_mod_multiples_vanish(q, r + 1, n as int);
        vstd::arithmetic::div_mod::lemma_small_mod((r + 1) as nat, n);
    } else {
        assert(j + 1 == n * (q + 1) + 0) by (nonlinear_arith)
            requires
                j == n * q + r,
                r + 1 == n,
        ;
        vstd::arithmetic::div_mod::lemma_mod_multiples_vanish(q + 1, 0, n as int);
        vstd::arithmetic::div_mod::lemma_small_mod(0, n);
    }
}

} // verus!
