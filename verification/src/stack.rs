//! Stacks of logical threads, held in an arena and named by handles.
//!
//! A stack is a run of bytes addressed by offsets from its low end. It grows
//! downwards, so the low end is where an overflow arrives: the first
//! [`GUARD_SIZE`] bytes are access-protected and every access to them faults.
//! Handles are indices into the arena and are never given out twice.

use std::collections::VecDeque;
use vstd::prelude::*;

verus! {

/// Number of protected bytes at the low end of every stack.
pub const GUARD_SIZE: usize = 4096;

/// Names one stack of a [`StackArena`].
pub type StackHandle = usize;

/// Why an access to a stack was refused.
#[derive(Clone, Copy, Debug, PartialEq, Eq, Structural)]
pub enum StackFault {
    /// The handle names no stack, or one that has been freed.
    NoSuchStack,
    /// The offset lies beyond the high end of the stack.
    OutOfBounds,
    /// The offset lies in the protected region at the low end.
    GuardPage,
}

/// What a stack is, mathematically: its protected prefix and its bytes.
#[verifier::ext_equal]
pub struct StackView {
    pub guard: nat,
    pub bytes: Seq<u8>,
}

/// What an arena is, mathematically: one slot per handle ever given out,
/// empty once the stack has been freed.
pub type ArenaView = Seq<Option<StackView>>;

/// A stack as it is right after allocation: zeroed, with the guard region
/// covering the low end (all of it, if the stack is that small).
pub open spec fn fresh_stack(size: nat) -> StackView {
    StackView {
        guard: if size < GUARD_SIZE { size } else { GUARD_SIZE as nat },
        bytes: Seq::new(size, |i: int| 0u8),
    }
}

/// `h` names a stack that has been allocated and not freed.
pub open spec fn is_live(arena: ArenaView, h: StackHandle) -> bool {
    h < arena.len() && arena[h as int] is Some
}

/// The fault, if any, that an access to byte `offset` of stack `h` raises.
pub open spec fn access_fault(arena: ArenaView, h: StackHandle, offset: usize) -> Option<
    StackFault,
> {
    if !is_live(arena, h) {
        Some(StackFault::NoSuchStack)
    } else if offset >= arena[h as int]->0.bytes.len() {
        Some(StackFault::OutOfBounds)
    } else if offset < arena[h as int]->0.guard {
        Some(StackFault::GuardPage)
    } else {
        None
    }
}

/// The arena after a stack of `size` bytes has been allocated.
pub open spec fn with_stack(arena: ArenaView, size: nat) -> ArenaView {
    arena.push(Some(fresh_stack(size)))
}

/// The arena after stack `h` has been freed; unchanged if `h` is not live.
pub open spec fn without_stack(arena: ArenaView, h: StackHandle) -> ArenaView {
    if is_live(arena, h) {
        arena.update(h as int, None)
    } else {
        arena
    }
}

/// The arena after `value` has been written to byte `offset` of stack `h`;
/// unchanged if the access faults.
pub open spec fn with_byte(arena: ArenaView, h: StackHandle, offset: usize, value: u8) -> ArenaView {
    if access_fault(arena, h, offset) is None {
        arena.update(
            h as int,
            Some(
                StackView {
                    guard: arena[h as int]->0.guard,
                    bytes: arena[h as int]->0.bytes.update(offset as int, value),
                },
            ),
        )
    } else {
        arena
    }
}

/// Whether `h` occurs in `handles`.
pub open spec fn names(handles: Seq<StackHandle>, h: int) -> bool {
    exists|j: int| 0 <= j < handles.len() && #[trigger] handles[j] == h
}

/// The arena after every stack named in `handles` has been freed.
pub open spec fn without_stacks(arena: ArenaView, handles: Seq<StackHandle>) -> ArenaView {
    Seq::new(
        arena.len(),
        |i: int|
            if names(handles, i) {
                None
            } else {
                arena[i]
            },
    )
}

/// One stack: its bytes and the length of the protected prefix.
pub struct Stack {
    guard: usize,
    bytes: Vec<u8>,
}

impl View for Stack {
    type V = StackView;

    closed spec fn view(&self) -> StackView {
        StackView { guard: self.guard as nat, bytes: self.bytes@ }
    }
}

/// All stacks of a runtime.
pub struct StackArena {
    slots: Vec<Option<Stack>>,
}

impl View for StackArena {
    type V = ArenaView;

    closed spec fn view(&self) -> ArenaView {
        Seq::new(
            self.slots@.len(),
            |i: int|
                match self.slots@[i] {
                    Some(stack) => Some(stack@),
                    None => None,
                },
        )
    }
}

impl StackArena {
    /// An arena without stacks.
    pub fn new() -> (arena: StackArena)
        ensures
            arena@ == Seq::<Option<StackView>>::empty(),
    {
        StackArena { slots: Vec::new() }
    }

    /// Number of handles given out so far.
    pub fn len(&self) -> (n: usize)
        ensures
            n == self@.len(),
    {
        self.slots.len()
    }

    /// Whether `h` names a stack that has been allocated and not freed.
    pub fn is_live(&self, h: StackHandle) -> (live: bool)
        ensures
            live == is_live(self@, h),
    {
        if h >= self.slots.len() {
            return false;
        }
        match &self.slots[h] {
            Some(_) => true,
            None => false,
        }
    }

    /// Reserves a zeroed stack of `size` bytes whose low end is protected,
    /// and returns its handle, which no earlier stack had. No allocation can
    /// be larger than `isize::MAX` bytes.
    pub fn allocate_stack(&mut self, size: usize) -> (h: StackHandle)
        requires
            size <= isize::MAX,
        ensures
            h == old(self)@.len(),
            final(self)@ == with_stack(old(self)@, size as nat),
    {
        let h = self.slots.len();
        let guard = if size < GUARD_SIZE {
            size
        } else {
            GUARD_SIZE
        };
        let bytes = vec![0u8; size];
        self.slots.push(Some(Stack { guard, bytes }));
        assert(self@ =~~= with_stack(old(self)@, size as nat));
        h
    }

    /// Releases stack `h`. Returns whether there was such a stack; if there
    /// was none, nothing changes.
    pub fn free_stack(&mut self, h: StackHandle) -> (freed: bool)
        ensures
            freed == is_live(old(self)@, h),
            final(self)@ == without_stack(old(self)@, h),
    {
        if !self.is_live(h) {
            return false;
        }
        self.slots[h] = None;
        assert(self@ =~~= without_stack(old(self)@, h));
        true
    }

    /// Writes one byte. Faults, and changes nothing, unless `h` is live and
    /// `offset` lies in the unprotected part of the stack.
    pub fn store(&mut self, h: StackHandle, offset: usize, value: u8) -> (r: Result<(), StackFault>)
        ensures
            match access_fault(old(self)@, h, offset) {
                Some(fault) => r == Err::<(), StackFault>(fault),
                None => r == Ok::<(), StackFault>(()),
            },
            final(self)@ == with_byte(old(self)@, h, offset, value),
    {
        if h >= self.slots.len() {
            return Err(StackFault::NoSuchStack);
        }
        let r = match &mut self.slots[h] {
            Some(stack) => {
                if offset >= stack.bytes.len() {
                    Err(StackFault::OutOfBounds)
                } else if offset < stack.guard {
                    Err(StackFault::GuardPage)
                } else {
                    stack.bytes[offset] = value;
                    Ok(())
                }
            },
            None => Err(StackFault::NoSuchStack),
        };
        assert(self@ =~~= with_byte(old(self)@, h, offset, value));
        r
    }

    /// Releases every stack that `handles` names and empties `handles`.
    /// A handle that names no live stack is passed over.
    pub fn free_all(&mut self, handles: &mut VecDeque<StackHandle>)
        ensures
            final(self)@ == without_stacks(old(self)@, old(handles)@),
            final(handles)@ == Seq::<StackHandle>::empty(),
    {
        let ghost before = self@;
        let ghost all = handles@;
        while handles.len() > 0
            invariant
                handles@.len() <= all.len(),
                handles@ == all.subrange(all.len() - handles@.len(), all.len() as int),
                self@ == without_stacks(before, all.subrange(0, all.len() - handles@.len())),
            decreases handles.len(),
        {
            let ghost done = all.subrange(0, all.len() - handles@.len());
            let h = handles.pop_front().unwrap();
            let _ = self.free_stack(h);
            proof {
                let done_next = all.subrange(0, all.len() - handles@.len());
                assert(done_next == done.push(h));
                assert forall|i: int| names(done_next, i) <==> (names(done, i) || i == h) by {
                    if names(done_next, i) {
                        let j = choose|j: int| 0 <= j < done_next.len() && done_next[j] == i;
                        if j < done.len() {
                            assert(done[j] == i);
                        }
                    }
                    if names(done, i) {
                        let j = choose|j: int| 0 <= j < done.len() && done[j] == i;
                        assert(done_next[j] == i);
                    }
                    if i == h {
                        assert(done_next[done.len() as int] == i);
                    }
                }
                assert(self@ =~= without_stacks(before, done_next));
            }
        }
        assert(all.subrange(0, all.len() as int) == all);
    }

    /// Reads one byte, under the rule of [`StackArena::store`].
    pub fn load(&self, h: StackHandle, offset: usize) -> (r: Result<u8, StackFault>)
        ensures
            match access_fault(self@, h, offset) {
                Some(fault) => r == Err::<u8, StackFault>(fault),
                None => r == Ok::<u8, StackFault>(self@[h as int]->0.bytes[offset as int]),
            },
    {
        if h >= self.slots.len() {
            return Err(StackFault::NoSuchStack);
        }
        match &self.slots[h] {
            Some(stack) => {
                if offset >= stack.bytes.len() {
                    Err(StackFault::OutOfBounds)
                } else if offset < stack.guard {
                    Err(StackFault::GuardPage)
                } else {
                    Ok(stack.bytes[offset])
                }
            },
            None => Err(StackFault::NoSuchStack),
        }
    }
}

} // verus!
