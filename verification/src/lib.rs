//! A cooperative runtime for logical threads, with mailboxes, and the
//! synchronisation rules that go with it, with proofs.
//!
//! The runtime multiplexes logical threads onto one CPU. A thread runs
//! until it yields, blocks in `recv` or ends; nothing interrupts it. The
//! modules, leaf first:
//!
//! - [`registers`]: the register record that a context switch saves and
//!   restores, and the switch itself.
//! - [`stack`]: guard-protected stacks in an arena, named by handles.
//! - [`model`]: the runtime as a state machine over sequences, maps and
//!   sets.
//! - [`trace`]: calls into the runtime as values, and runs of such calls.
//! - [`scheduler`]: the executable scheduler, which follows the model.
//! - [`laws`]: what holds of every run: fairness, isolation of stacks,
//!   first-in-first-out mailboxes, blocking, draining.
//!
//! Beside the runtime stand the pieces it is usually explained with:
//! [`basics`], [`sync`], [`banker`] and [`coroutine`].
//!
//! The scheduler decides and keeps the books; it does not jump. A program
//! that drives it asks who holds the CPU and continues with that thread.

use vstd::prelude::*;

pub mod banker;
pub mod basics;
pub mod coroutine;
pub mod laws;
pub mod model;
pub mod registers;
pub mod scheduler;
pub mod stack;
pub mod sync;
pub mod trace;

verus! {

/// The sum of two machine words.
pub fn add(left: usize, right: usize) -> (sum: usize)
    requires
        left + right <= usize::MAX,
    ensures
        sum == left + right,
{
    left + right
}

} // verus!
