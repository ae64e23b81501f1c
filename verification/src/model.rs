//! The runtime as a state machine over mathematical values.
//!
//! [`State`] is what a scheduler is, stripped of its data structures: the run
//! queue as a sequence, the context table and the mailboxes as maps, the
//! waiting set as a set. Every operation of the runtime is a function from
//! state to state here, and the executable scheduler promises, operation by
//! operation, to follow these functions.

use crate::registers::Registers;
use crate::stack::{
    fresh_stack, is_live, names, with_byte, with_stack, without_stacks, ArenaView, StackHandle,
};
use vstd::prelude::*;

verus! {

/// Identifies one logical thread. Identifiers are handed out in increasing
/// order and never reused.
pub type ThreadId = u64;

/// Where a logical thread stands in its life.
#[derive(Clone, Copy, Debug, PartialEq, Eq, Structural)]
pub enum ThreadState {
    /// Eligible to run: it sits in the run queue.
    Ready,
    /// Its registers are the live ones.
    Running,
    /// Inside `recv`, with no message for it yet.
    Blocked,
    /// It has run to its end; its identifier stays retired.
    Terminated,
}

/// The record of one logical thread in the context table.
#[derive(Clone, Copy, Debug, PartialEq, Eq, Structural)]
pub struct Context {
    pub id: ThreadId,
    /// Register snapshot, meaningful while the thread is not running.
    pub regs: Registers,
    /// The stack this thread, and no other, runs on.
    pub stack: StackHandle,
}

/// Who holds the CPU after a scheduling decision.
#[derive(Clone, Copy, Debug, PartialEq, Eq, Structural)]
pub enum Dispatch {
    /// The named logical thread has been switched in.
    Run(ThreadId),
    /// The host resumes and no logical thread is left.
    Drained,
    /// The host resumes although logical threads remain: each of them is
    /// blocked in `recv`, and none can wake another.
    Deadlocked,
}

/// Why a message was not accepted.
#[derive(Clone, Copy, Debug, PartialEq, Eq, Structural)]
pub enum SendError {
    /// The target was never spawned or has terminated. The message is
    /// dropped and nothing else happens.
    NoSuchThread,
}

/// How a call of [`Scheduler::recv`] ended.
#[derive(Debug, PartialEq, Eq)]
pub enum Received<M> {
    /// The oldest pending message; the caller keeps running.
    Message(M),
    /// Nothing was pending: the caller is blocked and the CPU went where the
    /// dispatch says. Once the caller runs again a message is there for it.
    Blocked(Dispatch),
}

/// The whole runtime at one instant.
#[verifier::ext_equal]
pub struct State<M> {
    /// Size of every stack this runtime allocates.
    pub stack_size: usize,
    /// Threads eligible to run, next one first.
    pub run_queue: Seq<ThreadId>,
    /// The running logical thread; `None` while the host runs.
    pub current: Option<ThreadId>,
    /// Context table: every logical thread that has not terminated.
    pub contexts: Map<ThreadId, Context>,
    /// Pending messages per destination, oldest first.
    pub mailboxes: Map<ThreadId, Seq<M>>,
    /// Threads blocked in `recv`.
    pub waiting: Set<ThreadId>,
    /// Threads that a delivery has unblocked and that have not received
    /// since.
    pub woken: Set<ThreadId>,
    /// The identifier the next spawn hands out.
    pub next_id: ThreadId,
    /// Stack memory.
    pub arena: ArenaView,
    /// Stacks of terminated threads that are still to be freed.
    pub deferred: Seq<StackHandle>,
    /// The live register file.
    pub cpu: Registers,
    /// Register record of the host's own execution stream.
    pub main: Registers,
}

impl<M> State<M> {
    /// The runtime before anything has been spawned: the host runs on the
    /// register file `cpu`.
    pub open spec fn initial(stack_size: usize, cpu: Registers) -> State<M> {
        State {
            stack_size,
            run_queue: Seq::empty(),
            current: None,
            contexts: Map::empty(),
            mailboxes: Map::empty(),
            waiting: Set::empty(),
            woken: Set::empty(),
            next_id: 0,
            arena: Seq::empty(),
            deferred: Seq::empty(),
            cpu,
            main: cpu,
        }
    }

    /// `t` is a logical thread that has been spawned and has not terminated.
    pub open spec fn is_thread(self, t: ThreadId) -> bool {
        self.contexts.dom().contains(t)
    }

    /// A logical thread, not the host, is running.
    pub open spec fn in_thread(self) -> bool {
        self.current is Some
    }

    /// The messages waiting for `t`, oldest first; none where `t` has no
    /// mailbox yet.
    pub open spec fn pending(self, t: ThreadId) -> Seq<M> {
        if self.mailboxes.dom().contains(t) {
            self.mailboxes[t]
        } else {
            Seq::empty()
        }
    }

    /// The lifecycle state of `t`; `None` for an identifier that was never
    /// handed out.
    pub open spec fn state_of(self, t: ThreadId) -> Option<ThreadState> {
        if self.current == Some(t) {
            Some(ThreadState::Running)
        } else if self.waiting.contains(t) {
            Some(ThreadState::Blocked)
        } else if self.contexts.dom().contains(t) {
            Some(ThreadState::Ready)
        } else if t < self.next_id {
            Some(ThreadState::Terminated)
        } else {
            None
        }
    }

    /// The bytes of the stack of thread `t`.
    pub open spec fn stack_bytes(self, t: ThreadId) -> Seq<u8> {
        self.arena[self.contexts[t].stack as int]->0.bytes
    }

    /// There is an identifier and a stack handle left for one more thread.
    pub open spec fn can_spawn(self) -> bool {
        self.next_id < u64::MAX && self.arena.len() < usize::MAX
    }

    // ---------------------------------------------------------------------
    // Invariant
    // ---------------------------------------------------------------------
    /// The run queue holds each thread at most once, and only live threads
    /// that are not blocked.
    pub open spec fn queue_ok(self) -> bool {
        &&& self.run_queue.no_duplicates()
        &&& forall|i: int|
            0 <= i < self.run_queue.len() ==> self.contexts.dom().contains(
                #[trigger] self.run_queue[i],
            ) && !self.waiting.contains(self.run_queue[i])
    }

    /// A blocked thread is live and has nothing pending; a woken one is
    /// live, not blocked, and has something pending. Only live threads have
    /// a mailbox.
    pub open spec fn mail_ok(self) -> bool {
        &&& forall|t: ThreadId| #[trigger]
            self.waiting.contains(t) ==> self.contexts.dom().contains(t) && self.pending(t).len()
                == 0
        &&& forall|t: ThreadId| #[trigger]
            self.woken.contains(t) ==> self.contexts.dom().contains(t) && !self.waiting.contains(
                t,
            ) && self.pending(t).len() > 0
        &&& forall|t: ThreadId| #[trigger]
            self.mailboxes.dom().contains(t) ==> self.contexts.dom().contains(t)
    }

    /// Every live thread carries its own identifier, which was handed out
    /// before, and is running, queued or blocked.
    pub open spec fn table_ok(self) -> bool {
        forall|t: ThreadId| #[trigger]
            self.contexts.dom().contains(t) ==> {
                &&& t < self.next_id
                &&& self.contexts[t].id == t
                &&& (self.current == Some(t) || self.run_queue.contains(t)
                    || self.waiting.contains(t))
            }
    }

    /// A stack of the size that this runtime gives to every stack can be
    /// allocated. Every live thread has a live stack of its own, of that
    /// size and with the guard region that goes with it, and the stacks
    /// that wait to be freed are live and belong to no thread.
    pub open spec fn stacks_ok(self) -> bool {
        &&& self.stack_size <= isize::MAX
        &&& self.arena.len() <= usize::MAX
        &&& forall|t: ThreadId| #[trigger]
            self.contexts.dom().contains(t) ==> is_live(self.arena, self.contexts[t].stack)
        &&& forall|t: ThreadId| #[trigger]
            self.contexts.dom().contains(t) ==> {
                &&& self.stack_bytes(t).len() == self.stack_size
                &&& self.arena[self.contexts[t].stack as int]->0.guard == fresh_stack(
                    self.stack_size as nat,
                ).guard
            }
        &&& forall|t: ThreadId, u: ThreadId|
            self.contexts.dom().contains(t) && self.contexts.dom().contains(u) && t != u ==> (
            #[trigger] self.contexts[t]).stack != (#[trigger] self.contexts[u]).stack
        &&& forall|i: int|
            0 <= i < self.deferred.len() ==> is_live(self.arena, #[trigger] self.deferred[i])
        &&& forall|i: int, t: ThreadId|
            0 <= i < self.deferred.len() && self.contexts.dom().contains(t) ==> (
            #[trigger] self.contexts[t]).stack != #[trigger] self.deferred[i]
    }

    /// What holds of the runtime at every instant, also in the middle of an
    /// operation.
    pub open spec fn inv(self) -> bool {
        &&& self.queue_ok()
        &&& self.mail_ok()
        &&& self.table_ok()
        &&& self.stacks_ok()
    }

    /// The thread that is about to leave the CPU, if it is still live, has
    /// put itself in the run queue or in the waiting set.
    pub open spec fn parked(self) -> bool {
        &&& self.inv()
        &&& self.current matches Some(c) ==> (self.contexts.dom().contains(c)
            ==> self.run_queue.contains(c) || self.waiting.contains(c))
    }

    /// What holds of the runtime between operations: the invariant, and the
    /// running thread is live, not queued and not blocked.
    pub open spec fn wf(self) -> bool {
        &&& self.inv()
        &&& self.current matches Some(c) ==> self.contexts.dom().contains(c)
            && !self.run_queue.contains(c) && !self.waiting.contains(c)
    }

    // ---------------------------------------------------------------------
    // Transitions
    // ---------------------------------------------------------------------
    /// A new thread that will start at `entry`: fresh identifier, fresh
    /// stack, appended to the run queue. Nothing is switched.
    pub open spec fn spawn(self, entry: u64) -> State<M> {
        let id = self.next_id;
        State {
            run_queue: self.run_queue.push(id),
            contexts: self.contexts.insert(
                id,
                Context {
                    id,
                    regs: Registers::initial(self.stack_size as u64, entry),
                    stack: self.arena.len() as StackHandle,
                },
            ),
            next_id: (id + 1) as ThreadId,
            arena: with_stack(self.arena, self.stack_size as nat),
            ..self
        }
    }

    /// The context table once the live registers have been saved into the
    /// record of the thread that leaves the CPU.
    pub open spec fn saved_contexts(self) -> Map<ThreadId, Context> {
        if self.current is Some && self.contexts.dom().contains(self.current->0) {
            let c = self.current->0;
            self.contexts.insert(
                c,
                Context { id: self.contexts[c].id, regs: self.cpu, stack: self.contexts[c].stack },
            )
        } else {
            self.contexts
        }
    }

    /// The host's register record once the live registers have been saved
    /// into it, if it is the host that leaves the CPU.
    pub open spec fn saved_main(self) -> Registers {
        if self.current is None {
            self.cpu
        } else {
            self.main
        }
    }

    /// Switches to the head of the run queue and frees the stacks that were
    /// waiting for it; with an empty queue, switches to the host.
    pub open spec fn schedule(self) -> State<M> {
        let contexts = self.saved_contexts();
        let main = self.saved_main();
        if self.run_queue.len() == 0 {
            State { current: None, contexts, main, cpu: main, ..self }
        } else {
            let next = self.run_queue[0];
            State {
                current: Some(next),
                run_queue: self.run_queue.drop_first(),
                contexts,
                main,
                cpu: contexts[next].regs,
                arena: without_stacks(self.arena, self.deferred),
                deferred: Seq::empty(),
                ..self
            }
        }
    }

    /// What [`State::schedule`] reports of its decision.
    pub open spec fn dispatch(self) -> Dispatch {
        if self.run_queue.len() > 0 {
            Dispatch::Run(self.run_queue[0])
        } else if self.contexts.dom().is_empty() {
            Dispatch::Drained
        } else {
            Dispatch::Deadlocked
        }
    }

    /// The running thread appended to the run queue, still on the CPU.
    pub open spec fn requeued(self) -> State<M> {
        State { run_queue: self.run_queue.push(self.current->0), ..self }
    }

    /// The running thread gives up the CPU and stays eligible.
    pub open spec fn yield_now(self) -> State<M> {
        self.requeued().schedule()
    }

    /// `message` appended to the mailbox of `target`, which is unblocked if
    /// it was waiting. Nothing changes if `target` is not a live thread.
    pub open spec fn send(self, target: ThreadId, message: M) -> State<M> {
        if !self.contexts.dom().contains(target) {
            self
        } else if self.waiting.contains(target) {
            State {
                mailboxes: self.mailboxes.insert(target, self.pending(target).push(message)),
                waiting: self.waiting.remove(target),
                woken: self.woken.insert(target),
                run_queue: self.run_queue.push(target),
                ..self
            }
        } else {
            State {
                mailboxes: self.mailboxes.insert(target, self.pending(target).push(message)),
                ..self
            }
        }
    }

    /// The running thread has taken the oldest message out of its mailbox.
    pub open spec fn received(self) -> State<M> {
        let c = self.current->0;
        State {
            mailboxes: self.mailboxes.insert(c, self.pending(c).drop_first()),
            woken: self.woken.remove(c),
            ..self
        }
    }

    /// The running thread entered in the waiting set, still on the CPU.
    pub open spec fn blocked(self) -> State<M> {
        State { waiting: self.waiting.insert(self.current->0), ..self }
    }

    /// `recv` by the running thread: it takes its oldest message, or blocks
    /// and gives up the CPU if there is none.
    pub open spec fn recv(self) -> State<M> {
        if self.pending(self.current->0).len() > 0 {
            self.received()
        } else {
            self.blocked().schedule()
        }
    }

    /// The running thread struck off the context table, its mailbox gone
    /// and its stack queued to be freed; it is still on the CPU.
    pub open spec fn retired(self) -> State<M> {
        let c = self.current->0;
        State {
            contexts: self.contexts.remove(c),
            mailboxes: self.mailboxes.remove(c),
            woken: self.woken.remove(c),
            deferred: self.deferred.push(self.contexts[c].stack),
            ..self
        }
    }

    /// The running thread ends.
    pub open spec fn terminate(self) -> State<M> {
        self.retired().schedule()
    }

    /// The running thread writes one byte to its own stack; nothing changes
    /// if the access faults.
    pub open spec fn store(self, offset: usize, value: u8) -> State<M> {
        State {
            arena: with_byte(self.arena, self.contexts[self.current->0].stack, offset, value),
            ..self
        }
    }

    /// Whoever is running replaces the live register file.
    pub open spec fn with_registers(self, regs: Registers) -> State<M> {
        State { cpu: regs, ..self }
    }
}

// -------------------------------------------------------------------------
// The invariant is kept
// -------------------------------------------------------------------------
/// Pushing an element that does not occur keeps a sequence free of
/// duplicates, and what the longer sequence contains is what the shorter one
/// did plus that element.
pub proof fn lemma_push_fresh(q: Seq<ThreadId>, t: ThreadId)
    requires
        q.no_duplicates(),
        !q.contains(t),
    ensures
        q.push(t).no_duplicates(),
        forall|u: ThreadId| q.push(t).contains(u) <==> (u == t || q.contains(u)),
{
    let p = q.push(t);
    assert forall|u: ThreadId| p.contains(u) <==> (u == t || q.contains(u)) by {
        if q.contains(u) {
            let i = choose|i: int| 0 <= i < q.len() && q[i] == u;
            assert(p[i] == u);
        }
        if u == t {
            assert(p[q.len() as int] == t);
        }
    }
}

/// Dropping the head of a sequence without duplicates removes the head, and
/// nothing else, from what it contains.
pub proof fn lemma_drop_head(q: Seq<ThreadId>)
    requires
        q.no_duplicates(),
        q.len() > 0,
    ensures
        q.drop_first().no_duplicates(),
        forall|u: ThreadId| q.drop_first().contains(u) <==> (u != q[0] && q.contains(u)),
{
    let d = q.drop_first();
    assert forall|u: ThreadId| d.contains(u) <==> (u != q[0] && q.contains(u)) by {
        if u != q[0] && q.contains(u) {
            let i = choose|i: int| 0 <= i < q.len() && q[i] == u;
            assert(d[i - 1] == u);
        }
    }
}

impl<M> State<M> {
    /// The runtime starts out well-formed.
    pub proof fn lemma_initial_wf(stack_size: usize, cpu: Registers)
        requires
            stack_size <= isize::MAX,
        ensures
            State::<M>::initial(stack_size, cpu).wf(),
    {
    }

    /// Spawning keeps the runtime well-formed.
    pub proof fn lemma_spawn_wf(self, entry: u64)
        requires
            self.wf(),
            self.can_spawn(),
        ensures
            self.spawn(entry).wf(),
            self.spawn(entry).is_thread(self.next_id),
            !self.is_thread(self.next_id),
    {
        let id = self.next_id;
        // every queued thread is live, and so has an identifier below `id`
        assert(!self.run_queue.contains(id));
        lemma_push_fresh(self.run_queue, id);
    }

    /// Scheduling, by a caller that has parked itself, leaves the runtime
    /// well-formed.
    pub proof fn lemma_schedule_wf(self)
        requires
            self.parked(),
        ensures
            self.schedule().wf(),
    {
        if self.run_queue.len() > 0 {
            lemma_drop_head(self.run_queue);
        }
    }

    /// Yielding keeps the runtime well-formed.
    pub proof fn lemma_yield_wf(self)
        requires
            self.wf(),
            self.in_thread(),
        ensures
            self.requeued().parked(),
            self.yield_now().wf(),
    {
        lemma_push_fresh(self.run_queue, self.current->0);
        self.requeued().lemma_schedule_wf();
    }

    /// Sending keeps the runtime well-formed.
    pub proof fn lemma_send_wf(self, target: ThreadId, message: M)
        requires
            self.wf(),
        ensures
            self.send(target, message).wf(),
    {
        if self.contexts.dom().contains(target) && self.waiting.contains(target) {
            lemma_push_fresh(self.run_queue, target);
        }
    }

    /// Receiving keeps the runtime well-formed, whether a message was there
    /// or the caller had to block.
    pub proof fn lemma_recv_wf(self)
        requires
            self.wf(),
            self.in_thread(),
        ensures
            self.pending(self.current->0).len() == 0 ==> self.blocked().parked(),
            self.recv().wf(),
    {
        if self.pending(self.current->0).len() == 0 {
            self.blocked().lemma_schedule_wf();
        }
    }

    /// Terminating keeps the runtime well-formed.
    pub proof fn lemma_terminate_wf(self)
        requires
            self.wf(),
            self.in_thread(),
        ensures
            self.retired().parked(),
            self.terminate().wf(),
    {
        self.retired().lemma_schedule_wf();
    }

    /// A store to the running thread's stack keeps the runtime well-formed.
    pub proof fn lemma_store_wf(self, offset: usize, value: u8)
        requires
            self.wf(),
            self.in_thread(),
        ensures
            self.store(offset, value).wf(),
    {
    }
}

} // verus!
