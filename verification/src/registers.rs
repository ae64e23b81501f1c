//! The register record of a logical thread and the context-switch primitive.
//!
//! A [`Registers`] value is a pure snapshot: the callee-saved general-purpose
//! registers of the AArch64 procedure-call standard, the stack pointer and the
//! link address. Caller-saved registers are absent on purpose, the compiler
//! has already spilled them at every call site.

use vstd::prelude::*;

verus! {

/// Callee-saved machine state of one logical thread at the moment it was
/// suspended.
#[derive(Clone, Copy, Debug, PartialEq, Eq, Structural)]
pub struct Registers {
    pub x19: u64,
    pub x20: u64,
    pub x21: u64,
    pub x22: u64,
    pub x23: u64,
    pub x24: u64,
    pub x25: u64,
    pub x26: u64,
    pub x27: u64,
    pub x28: u64,
    /// Frame pointer (`x29`).
    pub fp: u64,
    /// Link register (`x30`): where execution continues after a switch.
    pub lr: u64,
    /// Stack pointer, as an offset into the thread's own stack.
    pub sp: u64,
}

impl Registers {
    /// The record a thread starts from: everything cleared but the stack
    /// pointer and the link address.
    pub open spec fn initial(sp: u64, lr: u64) -> Registers {
        Registers {
            x19: 0,
            x20: 0,
            x21: 0,
            x22: 0,
            x23: 0,
            x24: 0,
            x25: 0,
            x26: 0,
            x27: 0,
            x28: 0,
            fp: 0,
            lr,
            sp,
        }
    }

    /// Builds the record for a thread that has not run yet: it will start at
    /// `lr` with its stack pointer at `sp`.
    pub fn new(sp: u64, lr: u64) -> (regs: Registers)
        ensures
            regs == Registers::initial(sp, lr),
    {
        Registers {
            x19: 0,
            x20: 0,
            x21: 0,
            x22: 0,
            x23: 0,
            x24: 0,
            x25: 0,
            x26: 0,
            x27: 0,
            x28: 0,
            fp: 0,
            lr,
            sp,
        }
    }
}

/// Saves the live register file into `from` and loads `to` in its place.
///
/// `cpu` is the one record that is live; every other record is dormant data.
/// After the call `from` holds exactly what was live before it, and the live
/// record is a copy of `to`, which itself is left untouched.
pub fn save_and_switch(cpu: &mut Registers, from: &mut Registers, to: &Registers)
    ensures
        *final(from) == *old(cpu),
        *final(cpu) == *to,
{
    *from = *cpu;
    *cpu = *to;
}

} // verus!
