//! How much stack is left: a decision that the code running deep recursions
//! can take before it goes deeper.

use vstd::prelude::*;

verus! {

/// Where the stack is: its highest address and its size. The stack grows
/// down, towards lower addresses.
#[derive(Debug, Clone, Copy)]
pub struct StackInfo {
    highest_address: u64,
    size: u64,
}

impl StackInfo {
    /// The highest address of the stack.
    pub closed spec fn highest(&self) -> u64 {
        self.highest_address
    }

    /// The size of the stack.
    pub closed spec fn stack_size(&self) -> u64 {
        self.size
    }

    /// A stack whose highest address and size are given.
    pub fn new(highest_address: u64, size: u64) -> (r: Self)
        ensures
            r.highest() == highest_address,
            r.stack_size() == size,
    {
        StackInfo { highest_address, size }
    }

    /// The highest address of the stack.
    pub fn highest_address(&self) -> (r: u64)
        ensures
            r == self.highest(),
    {
        self.highest_address
    }

    /// The size of the stack.
    pub fn size(&self) -> (r: u64)
        ensures
            r == self.stack_size(),
    {
        self.size
    }

    /// Whether at least `needed` bytes of stack are left below `stack_pointer`.
    pub fn has_room(&self, stack_pointer: u64, needed: u64) -> (r: bool)
        requires
            stack_pointer <= self.highest(),
            self.highest() - stack_pointer <= self.stack_size(),
        ensures
            r == (self.stack_size() - (self.highest() - stack_pointer) >= needed),
    {
        self.left(stack_pointer) >= needed
    }

    /// How much stack space is left below `stack_pointer`, an address on the
    /// stack: the stack must grow down and must not be exhausted.
    pub fn left(&self, stack_pointer: u64) -> (r: u64)
        requires
            stack_pointer <= self.highest(),
            self.highest() - stack_pointer <= self.stack_size(),
        ensures
            r == self.stack_size() - (self.highest() - stack_pointer),
    {
        self.size - (self.highest_address - stack_pointer)
    }
}

} // verus!
