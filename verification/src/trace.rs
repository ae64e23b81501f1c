//! Runs of the runtime: operations as values, and what a sequence of them
//! does to a state.
//!
//! An [`Op`] is one call into the scheduler, made by whoever holds the CPU
//! at that moment. A run is a sequence of such calls. The laws of the
//! runtime are statements about all runs.

use crate::model::{Dispatch, Received, SendError, State, ThreadId};
use crate::registers::Registers;
use crate::stack::{access_fault, StackFault};
use vstd::prelude::*;

verus! {

/// One call into the scheduler.
pub enum Op<M> {
    /// Create a thread that will start at `entry`.
    Spawn { entry: u64 },
    /// The host cedes the CPU to the head of the run queue.
    Schedule,
    /// The running thread gives up the CPU and stays eligible.
    Yield,
    /// Put `message` into the mailbox of `target`.
    Send { target: ThreadId, message: M },
    /// The running thread asks for its oldest message.
    Recv,
    /// The running thread ends.
    Exit,
    /// The running thread writes a byte to its stack.
    Store { offset: usize, value: u8 },
    /// Whoever runs replaces the live register file.
    SetRegisters { regs: Registers },
}

impl<M> Op<M> {
    /// Whether this call is a send to `t`.
    pub open spec fn sends_to(self, t: ThreadId) -> bool {
        self matches Op::Send { target, .. } && target == t
    }
}

/// How one call into the scheduler ended.
#[derive(Debug, PartialEq, Eq)]
pub enum Outcome<M> {
    /// The call is not allowed in the state it was made in.
    Rejected,
    /// A thread was created under this identifier.
    Spawned(ThreadId),
    /// The CPU was handed on.
    Dispatched(Dispatch),
    /// A message was accepted or refused.
    Sent(Result<(), SendError>),
    /// A message was taken, or the caller blocked.
    Received(Received<M>),
    /// A byte was written, or the access faulted.
    Stored(Result<(), StackFault>),
    /// The call has no result.
    Done,
}

impl<M> State<M> {
    /// Whether `op` may be called in this state. Spawning needs a free
    /// identifier; only the host schedules on its own; yielding, receiving,
    /// ending and stack accesses are for a running thread.
    pub open spec fn enabled(self, op: Op<M>) -> bool {
        match op {
            Op::Spawn { .. } => self.can_spawn(),
            Op::Schedule => !self.in_thread(),
            Op::Yield => self.in_thread(),
            Op::Send { .. } => true,
            Op::Recv => self.in_thread(),
            Op::Exit => self.in_thread(),
            Op::Store { .. } => self.in_thread(),
            Op::SetRegisters { .. } => true,
        }
    }

    /// The state after `op`; a call that is not enabled changes nothing.
    pub open spec fn step(self, op: Op<M>) -> State<M> {
        if !self.enabled(op) {
            self
        } else {
            match op {
                Op::Spawn { entry } => self.spawn(entry),
                Op::Schedule => self.schedule(),
                Op::Yield => self.yield_now(),
                Op::Send { target, message } => self.send(target, message),
                Op::Recv => self.recv(),
                Op::Exit => self.terminate(),
                Op::Store { offset, value } => self.store(offset, value),
                Op::SetRegisters { regs } => self.with_registers(regs),
            }
        }
    }

    /// What the call `op` reports.
    pub open spec fn outcome(self, op: Op<M>) -> Outcome<M> {
        if !self.enabled(op) {
            Outcome::Rejected
        } else {
            match op {
                Op::Spawn { entry } => Outcome::Spawned(self.next_id),
                Op::Schedule => Outcome::Dispatched(self.dispatch()),
                Op::Yield => Outcome::Dispatched(self.requeued().dispatch()),
                Op::Send { target, message } => Outcome::Sent(
                    if self.is_thread(target) {
                        Ok(())
                    } else {
                        Err(SendError::NoSuchThread)
                    },
                ),
                Op::Recv => Outcome::Received(
                    if self.pending(self.current->0).len() > 0 {
                        Received::Message(self.pending(self.current->0)[0])
                    } else {
                        Received::Blocked(self.blocked().dispatch())
                    },
                ),
                Op::Exit => Outcome::Dispatched(self.retired().dispatch()),
                Op::Store { offset, value } => Outcome::Stored(
                    match access_fault(self.arena, self.contexts[self.current->0].stack, offset) {
                        Some(fault) => Err(fault),
                        None => Ok(()),
                    },
                ),
                Op::SetRegisters { regs } => Outcome::Done,
            }
        }
    }

    /// The state after the calls `ops`, made in that order.
    pub open spec fn run(self, ops: Seq<Op<M>>) -> State<M>
        decreases ops.len(),
    {
        if ops.len() == 0 {
            self
        } else {
            self.run(ops.drop_last()).step(ops.last())
        }
    }

    /// Every call leaves a well-formed runtime well-formed.
    pub proof fn lemma_step_wf(self, op: Op<M>)
        requires
            self.wf(),
        ensures
            self.step(op).wf(),
    {
        if self.enabled(op) {
            match op {
                Op::Spawn { entry } => {
                    self.lemma_spawn_wf(entry);
                },
                Op::Schedule => {
                    self.lemma_schedule_wf();
                },
                Op::Yield => {
                    self.lemma_yield_wf();
                },
                Op::Send { target, message } => {
                    self.lemma_send_wf(target, message);
                },
                Op::Recv => {
                    self.lemma_recv_wf();
                },
                Op::Exit => {
                    self.lemma_terminate_wf();
                },
                Op::Store { offset, value } => {
                    self.lemma_store_wf(offset, value);
                },
                Op::SetRegisters { regs } => {
                    assert(forall|t: ThreadId|
                        self.with_registers(regs).pending(t) == self.pending(t));
                },
            }
        }
    }

    /// Every run leaves a well-formed runtime well-formed.
    pub proof fn lemma_run_wf(self, ops: Seq<Op<M>>)
        requires
            self.wf(),
        ensures
            self.run(ops).wf(),
        decreases ops.len(),
    {
        if ops.len() > 0 {
            self.lemma_run_wf(ops.drop_last());
            self.run(ops.drop_last()).lemma_step_wf(ops.last());
        }
    }
}

} // verus!
