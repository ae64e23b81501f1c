//! The scheduler: run queue, context table, mailboxes and waiting set in
//! one value, with the operations of the runtime on it.
//!
//! A [`Scheduler`] decides; it does not jump. Each operation brings the
//! bookkeeping up to date, moves register records between the context table
//! and the live register file, and says who holds the CPU afterwards. The
//! caller is the one who then continues with that thread's code.
//!
//! What every operation does is written down once, as a function on
//! [`State`]; the contracts here say that the scheduler follows it.

use crate::model::{Context, Dispatch, Received, SendError, State, ThreadId, ThreadState};
use crate::registers::{save_and_switch, Registers};
use crate::stack::{access_fault, StackArena, StackFault, StackHandle};
use crate::trace::{Op, Outcome};
use std::collections::HashMap;
use std::collections::HashSet;
use std::collections::VecDeque;
use vstd::prelude::*;

verus! {

/// A cooperative runtime for logical threads with mailboxes.
pub struct Scheduler<M> {
    /// Size of every stack that is allocated.
    stack_size: usize,
    /// Threads eligible to run, next one first.
    run_queue: VecDeque<ThreadId>,
    /// The running logical thread; `None` while the host runs.
    current: Option<ThreadId>,
    /// Context table.
    contexts: HashMap<ThreadId, Context>,
    /// Pending messages per destination, oldest first.
    mailboxes: HashMap<ThreadId, VecDeque<M>>,
    /// Threads blocked in `recv`.
    waiting: HashSet<ThreadId>,
    /// Threads unblocked by a delivery that have not received since.
    woken: HashSet<ThreadId>,
    /// Identifier allocator.
    next_id: ThreadId,
    /// Stack memory.
    arena: StackArena,
    /// Stacks of terminated threads, to be freed after the next switch.
    deferred: VecDeque<StackHandle>,
    /// The live register file.
    cpu: Registers,
    /// Register record of the host's own execution stream.
    main: Registers,
}

impl<M> View for Scheduler<M> {
    type V = State<M>;

    closed spec fn view(&self) -> State<M> {
        State {
            stack_size: self.stack_size,
            run_queue: self.run_queue@,
            current: self.current,
            contexts: self.contexts@,
            mailboxes: Map::new(
                |t: ThreadId| self.mailboxes@.dom().contains(t),
                |t: ThreadId| self.mailboxes@[t]@,
            ),
            waiting: self.waiting@,
            woken: self.woken@,
            next_id: self.next_id,
            arena: self.arena@,
            deferred: self.deferred@,
            cpu: self.cpu,
            main: self.main,
        }
    }
}

impl<M> Scheduler<M> {
    /// The scheduler is in a state that the runtime can be in between two
    /// operations.
    pub open spec fn wf(&self) -> bool {
        self@.wf()
    }

    /// A runtime without logical threads, in which the host runs. Every
    /// thread spawned later gets a stack of `stack_size` bytes, which must
    /// be a size that can be allocated.
    pub fn new(stack_size: usize) -> (s: Scheduler<M>)
        requires
            stack_size <= isize::MAX,
        ensures
            s@ == State::<M>::initial(stack_size, Registers::initial(0, 0)),
            s.wf(),
    {
        let s = Scheduler {
            stack_size,
            run_queue: VecDeque::new(),
            current: None,
            contexts: HashMap::new(),
            mailboxes: HashMap::new(),
            waiting: HashSet::new(),
            woken: HashSet::new(),
            next_id: 0,
            arena: StackArena::new(),
            deferred: VecDeque::new(),
            cpu: Registers::new(0, 0),
            main: Registers::new(0, 0),
        };
        proof {
            assert(s@ =~~= State::<M>::initial(stack_size, Registers::initial(0, 0)));
            State::<M>::lemma_initial_wf(stack_size, Registers::initial(0, 0));
        }
        s
    }

    /// Whether a logical thread, not the host, is running.
    pub fn in_thread(&self) -> (b: bool)
        ensures
            b == self@.in_thread(),
    {
        self.current.is_some()
    }

    /// The identifier of the calling logical thread.
    pub fn get_id(&self) -> (id: ThreadId)
        requires
            self@.in_thread(),
        ensures
            self@.current == Some(id),
    {
        match self.current {
            Some(id) => id,
            None => 0,
        }
    }

    /// Whether an identifier and a stack handle are left for one more
    /// thread.
    pub fn can_spawn(&self) -> (b: bool)
        ensures
            b == self@.can_spawn(),
    {
        self.next_id < u64::MAX && self.arena.len() < usize::MAX
    }

    /// The lifecycle state of `id`; `None` if `id` was never handed out.
    pub fn state_of(&self, id: ThreadId) -> (state: Option<ThreadState>)
        ensures
            state == self@.state_of(id),
    {
        let running = match self.current {
            Some(c) => c == id,
            None => false,
        };
        if running {
            Some(ThreadState::Running)
        } else if self.waiting.contains(&id) {
            Some(ThreadState::Blocked)
        } else if self.contexts.contains_key(&id) {
            Some(ThreadState::Ready)
        } else if id < self.next_id {
            Some(ThreadState::Terminated)
        } else {
            None
        }
    }

    /// The record of thread `id` in the context table; `None` if `id` is
    /// not a live thread. The registers in it are the thread's own while it
    /// is off the CPU.
    pub fn context(&self, id: ThreadId) -> (c: Option<Context>)
        ensures
            c == (if self@.is_thread(id) {
                Some(self@.contexts[id])
            } else {
                None
            }),
    {
        match self.contexts.get(&id) {
            Some(ctx) => Some(*ctx),
            None => None,
        }
    }

    /// Number of messages waiting for `id`.
    pub fn pending(&self, id: ThreadId) -> (n: usize)
        ensures
            n == self@.pending(id).len(),
    {
        match self.mailboxes.get(&id) {
            Some(q) => q.len(),
            None => 0,
        }
    }

    /// The live register file.
    pub fn registers(&self) -> (regs: Registers)
        ensures
            regs == self@.cpu,
    {
        self.cpu
    }

    /// Replaces the live register file: what the running code does to its
    /// registers between two calls into the scheduler.
    pub fn set_registers(&mut self, regs: Registers)
        ensures
            final(self)@ == old(self)@.with_registers(regs),
            old(self).wf() ==> final(self).wf(),
    {
        self.cpu = regs;
        assert(self@ =~~= old(self)@.with_registers(regs));
    }

    /// Creates a logical thread that will start at `entry`, on a fresh
    /// stack and under a fresh identifier, and appends it to the run queue.
    /// The caller keeps running.
    pub fn spawn(&mut self, entry: u64) -> (id: ThreadId)
        requires
            old(self).wf(),
            old(self)@.can_spawn(),
        ensures
            id == old(self)@.next_id,
            final(self)@ == old(self)@.spawn(entry),
            final(self).wf(),
    {
        let id = self.next_id;
        let stack = self.arena.allocate_stack(self.stack_size);
        let regs = Registers::new(self.stack_size as u64, entry);
        self.contexts.insert(id, Context { id, regs, stack });
        self.run_queue.push_back(id);
        self.next_id = id + 1;
        proof {
            assert(self@ =~~= old(self)@.spawn(entry));
            old(self)@.lemma_spawn_wf(entry);
        }
        id
    }

    /// Enters the runtime from the host: spawns a thread that will start at
    /// `entry` and cedes the CPU to the head of the run queue. The host
    /// holds the CPU again only when a later operation finds the run queue
    /// empty.
    pub fn spawn_from_main(&mut self, entry: u64) -> (id: ThreadId)
        requires
            old(self).wf(),
            !old(self)@.in_thread(),
            old(self)@.can_spawn(),
        ensures
            id == old(self)@.next_id,
            final(self)@ == old(self)@.spawn(entry).schedule(),
            final(self)@.in_thread(),
            final(self).wf(),
    {
        let id = self.spawn(entry);
        let _ = self.schedule();
        id
    }

    /// Hands the CPU to the head of the run queue, or to the host if the
    /// queue is empty. The live registers are saved into the record of
    /// whoever leaves. When a thread is switched in, the stacks of threads
    /// that terminated earlier are freed.
    ///
    /// The caller must have parked itself: have put itself in the run
    /// queue or in the waiting set, or have left the context table.
    pub fn schedule(&mut self) -> (d: Dispatch)
        requires
            old(self)@.parked(),
        ensures
            final(self)@ == old(self)@.schedule(),
            d == old(self)@.dispatch(),
            final(self).wf(),
    {
        let leaving = self.current;
        let next = self.run_queue.pop_front();
        // Switching to oneself loads back what has just been saved.
        let same = match (leaving, next) {
            (Some(c), Some(n)) => c == n,
            (None, None) => true,
            _ => false,
        };
        let to = if same {
            self.cpu
        } else {
            match next {
                Some(n) => match self.contexts.get(&n) {
                    Some(ctx) => ctx.regs,
                    None => self.cpu,
                },
                None => self.main,
            }
        };
        let mut from = self.cpu;
        save_and_switch(&mut self.cpu, &mut from, &to);
        match leaving {
            Some(c) => {
                let record = match self.contexts.get(&c) {
                    Some(ctx) => Some(Context { id: ctx.id, regs: from, stack: ctx.stack }),
                    None => None,
                };
                match record {
                    Some(ctx) => {
                        self.contexts.insert(c, ctx);
                    },
                    None => {},
                }
            },
            None => {
                self.main = from;
            },
        }
        self.current = next;
        let d = match next {
            Some(n) => {
                self.arena.free_all(&mut self.deferred);
                Dispatch::Run(n)
            },
            None => {
                if self.contexts.is_empty() {
                    Dispatch::Drained
                } else {
                    Dispatch::Deadlocked
                }
            },
        };
        proof {
            assert(self@ =~~= old(self)@.schedule());
            old(self)@.lemma_schedule_wf();
        }
        d
    }

    /// The calling thread gives up the CPU and goes to the tail of the run
    /// queue.
    pub fn yield_now(&mut self) -> (d: Dispatch)
        requires
            old(self).wf(),
            old(self)@.in_thread(),
        ensures
            final(self)@ == old(self)@.yield_now(),
            d == old(self)@.requeued().dispatch(),
            final(self).wf(),
    {
        let c = self.get_id();
        self.run_queue.push_back(c);
        proof {
            assert(self@ =~~= old(self)@.requeued());
            old(self)@.lemma_yield_wf();
        }
        self.schedule()
    }

    /// Appends `message` to the mailbox of `target`. If `target` was blocked
    /// in `recv` it leaves the waiting set and goes to the tail of the run
    /// queue. The caller keeps running.
    ///
    /// Fails, and changes nothing, exactly when `target` is not a live
    /// logical thread.
    pub fn send(&mut self, target: ThreadId, message: M) -> (r: Result<(), SendError>)
        requires
            old(self).wf(),
        ensures
            final(self)@ == old(self)@.send(target, message),
            old(self)@.is_thread(target) ==> r == Ok::<(), SendError>(()),
            !old(self)@.is_thread(target) ==> r == Err::<(), SendError>(SendError::NoSuchThread),
            final(self).wf(),
    {
        if !self.contexts.contains_key(&target) {
            return Err(SendError::NoSuchThread);
        }
        let mut mailbox = match self.mailboxes.remove(&target) {
            Some(q) => q,
            None => VecDeque::new(),
        };
        mailbox.push_back(message);
        self.mailboxes.insert(target, mailbox);
        if self.waiting.remove(&target) {
            self.woken.insert(target);
            self.run_queue.push_back(target);
        }
        proof {
            assert(self@ =~~= old(self)@.send(target, message));
            old(self)@.lemma_send_wf(target, message);
        }
        Ok(())
    }

    /// Takes the oldest message out of the calling thread's mailbox. If
    /// there is none the caller enters the waiting set and the CPU goes to
    /// the head of the run queue, or to the host if the queue is empty.
    pub fn recv(&mut self) -> (r: Received<M>)
        requires
            old(self).wf(),
            old(self)@.in_thread(),
        ensures
            final(self)@ == old(self)@.recv(),
            match r {
                Received::Message(m) => {
                    &&& old(self)@.pending(old(self)@.current->0).len() > 0
                    &&& m == old(self)@.pending(old(self)@.current->0)[0]
                },
                Received::Blocked(d) => {
                    &&& old(self)@.pending(old(self)@.current->0).len() == 0
                    &&& d == old(self)@.blocked().dispatch()
                },
            },
            final(self).wf(),
    {
        let c = self.get_id();
        proof {
            old(self)@.lemma_recv_wf();
        }
        let taken = match self.mailboxes.remove(&c) {
            Some(mut q) => {
                let m = q.pop_front();
                self.mailboxes.insert(c, q);
                m
            },
            None => None,
        };
        match taken {
            Some(m) => {
                self.woken.remove(&c);
                proof {
                    assert(self@ =~~= old(self)@.received());
                }
                Received::Message(m)
            },
            None => {
                self.waiting.insert(c);
                proof {
                    assert(self@ =~~= old(self)@.blocked());
                }
                Received::Blocked(self.schedule())
            },
        }
    }

    /// The calling thread ends: it leaves the context table, its mailbox is
    /// dropped, its stack is queued to be freed by whoever runs next, and
    /// the CPU goes to the head of the run queue, or to the host if the
    /// queue is empty. Its identifier is never handed out again.
    pub fn terminate(&mut self) -> (d: Dispatch)
        requires
            old(self).wf(),
            old(self)@.in_thread(),
        ensures
            final(self)@ == old(self)@.terminate(),
            d == old(self)@.retired().dispatch(),
            final(self).wf(),
    {
        let c = self.get_id();
        let removed = self.contexts.remove(&c);
        match removed {
            Some(ctx) => {
                self.deferred.push_back(ctx.stack);
            },
            None => {},
        }
        self.mailboxes.remove(&c);
        self.woken.remove(&c);
        proof {
            assert(self@ =~~= old(self)@.retired());
            old(self)@.lemma_terminate_wf();
        }
        self.schedule()
    }

    /// Writes one byte to the calling thread's own stack. Faults, and
    /// changes nothing, if `offset` lies in the guard region or beyond the
    /// stack.
    pub fn stack_store(&mut self, offset: usize, value: u8) -> (r: Result<(), StackFault>)
        requires
            old(self).wf(),
            old(self)@.in_thread(),
        ensures
            final(self)@ == old(self)@.store(offset, value),
            match access_fault(
                old(self)@.arena,
                old(self)@.contexts[old(self)@.current->0].stack,
                offset,
            ) {
                Some(fault) => r == Err::<(), StackFault>(fault),
                None => r == Ok::<(), StackFault>(()),
            },
            final(self).wf(),
    {
        let c = self.get_id();
        let stack = match self.contexts.get(&c) {
            Some(ctx) => ctx.stack,
            None => 0,
        };
        let r = self.arena.store(stack, offset, value);
        proof {
            assert(self@ =~~= old(self)@.store(offset, value));
            old(self)@.lemma_store_wf(offset, value);
        }
        r
    }

    /// Reads one byte of the calling thread's own stack, under the rule of
    /// [`Scheduler::stack_store`].
    pub fn stack_load(&self, offset: usize) -> (r: Result<u8, StackFault>)
        requires
            self.wf(),
            self@.in_thread(),
        ensures
            match access_fault(self@.arena, self@.contexts[self@.current->0].stack, offset) {
                Some(fault) => r == Err::<u8, StackFault>(fault),
                None => r == Ok::<u8, StackFault>(self@.stack_bytes(self@.current->0)[offset as int]),
            },
    {
        let c = self.get_id();
        let stack = match self.contexts.get(&c) {
            Some(ctx) => ctx.stack,
            None => 0,
        };
        self.arena.load(stack, offset)
    }

    /// Makes the call that `op` stands for, if this state allows it, and
    /// reports how it ended. A call that is not allowed changes nothing.
    pub fn step(&mut self, op: Op<M>) -> (r: Outcome<M>)
        requires
            old(self).wf(),
        ensures
            final(self)@ == old(self)@.step(op),
            r == old(self)@.outcome(op),
            final(self).wf(),
    {
        match op {
            Op::Spawn { entry } => {
                if self.can_spawn() {
                    let id = self.spawn(entry);
                    Outcome::Spawned(id)
                } else {
                    Outcome::Rejected
                }
            },
            Op::Schedule => {
                if self.in_thread() {
                    Outcome::Rejected
                } else {
                    Outcome::Dispatched(self.schedule())
                }
            },
            Op::Yield => {
                if self.in_thread() {
                    Outcome::Dispatched(self.yield_now())
                } else {
                    Outcome::Rejected
                }
            },
            Op::Send { target, message } => Outcome::Sent(self.send(target, message)),
            Op::Recv => {
                if self.in_thread() {
                    Outcome::Received(self.recv())
                } else {
                    Outcome::Rejected
                }
            },
            Op::Exit => {
                if self.in_thread() {
                    Outcome::Dispatched(self.terminate())
                } else {
                    Outcome::Rejected
                }
            },
            Op::Store { offset, value } => {
                if self.in_thread() {
                    Outcome::Stored(self.stack_store(offset, value))
                } else {
                    Outcome::Rejected
                }
            },
            Op::SetRegisters { regs } => {
                self.set_registers(regs);
                Outcome::Done
            },
        }
    }
    /// Makes the calls `ops`, in that order, and reports how each of them
    /// ended.
    pub fn run(&mut self, ops: Vec<Op<M>>) -> (outcomes: Vec<Outcome<M>>)
        requires
            old(self).wf(),
        ensures
            final(self)@ == old(self)@.run(ops@),
            outcomes@.len() == ops@.len(),
            forall|i: int|
                0 <= i < ops@.len() ==> #[trigger] outcomes@[i] == old(self)@.run(
                    ops@.subrange(0, i),
                ).outcome(ops@[i]),
            final(self).wf(),
    {
        let mut outcomes: Vec<Outcome<M>> = Vec::new();
        let ghost all = ops@;
        for op in iter: ops
            invariant
                iter.seq() == all,
                self.wf(),
                self@ == old(self)@.run(all.subrange(0, iter.index() as int)),
                outcomes@.len() == iter.index(),
                forall|i: int|
                    0 <= i < iter.index() ==> #[trigger] outcomes@[i] == old(self)@.run(
                        all.subrange(0, i),
                    ).outcome(all[i]),
        {
            let ghost done = all.subrange(0, iter.index() as int);
            let ghost next = all.subrange(0, iter.index() + 1);
            proof {
                assert(next.drop_last() == done);
                assert(next.last() == op);
            }
            let outcome = self.step(op);
            outcomes.push(outcome);
        }
        proof {
            assert(all.subrange(0, all.len() as int) == all);
        }
        outcomes
    }
}

} // verus!
