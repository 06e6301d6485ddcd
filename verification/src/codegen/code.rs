//! The basic blocks that a function is made of while it is generated.

use crate::opcodes::Op;
use vstd::prelude::*;

verus! {

/// The test that a two-way jump makes on the word on top of the stack.
#[derive(Debug, Copy, Clone, PartialEq, Eq, Structural)]
pub enum Cond {
    /// The word is a true boolean, that is, not zero.
    Eq,
}

/// How a basic block ends.
#[derive(Debug, Copy, Clone, PartialEq, Eq, Structural)]
pub enum JumpInst {
    /// Not decided yet. A block that can be reached must not end so.
    Undefined,
    /// The end of the block is never reached.
    Unreachable,
    Return,
    Jump(usize),
    /// To the first block where the test holds, else to the second.
    JumpIf(Cond, usize, usize),
}

/// A straight-line sequence of instructions that ends in one terminator.
#[derive(Debug)]
pub struct BasicBlock {
    pub code: Vec<Op>,
    pub jump: JumpInst,
}

/// What a basic block holds.
pub struct BasicBlockView {
    pub code: Seq<Op>,
    pub jump: JumpInst,
}

impl View for BasicBlock {
    type V = BasicBlockView;

    open spec fn view(&self) -> BasicBlockView {
        BasicBlockView { code: self.code@, jump: self.jump }
    }
}

/// What the blocks of a function hold.
pub open spec fn block_views(blocks: Seq<BasicBlock>) -> Seq<BasicBlockView> {
    Seq::new(blocks.len(), |i: int| blocks[i]@)
}

impl BasicBlock {
    /// An empty block whose end is not decided.
    pub fn new() -> (b: BasicBlock)
        ensures
            b@ == (BasicBlockView { code: Seq::empty(), jump: JumpInst::Undefined }),
    {
        BasicBlock { code: Vec::new(), jump: JumpInst::Undefined }
    }
}

} // verus!
