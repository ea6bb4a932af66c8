//! The three-address representation: instructions, terminators, basic
//! blocks, and programs as control-flow graphs.

use vstd::prelude::*;
use crate::ast::BOp;
use crate::ident::Id;
use crate::idset::IdSet;
use crate::blockmap::BlockMap;

verus! {

/// An instruction that does not end a block.
#[derive(Debug, PartialEq, Eq)]
#[allow(inconsistent_fields)]
pub enum Instruction {
    /// `dst := src`
    Copy { dst: Id, src: Id },
    /// Write the value of a variable to the output.
    Print(Id),
    /// Read a value from the input into a variable.
    Read(Id),
    /// `dst := src`, for a literal `src`
    Const { dst: Id, src: i64 },
    /// `dst := lhs op rhs`
    Arith { op: BOp, dst: Id, lhs: Id, rhs: Id },
}

/// The instruction that ends a block.
#[derive(Debug, PartialEq, Eq)]
pub enum Terminator {
    /// Go to the block with this label.
    Jump(Id),
    /// Go to `tt` if `guard` is not zero, and to `ff` otherwise.
    Branch { guard: Id, tt: Id, ff: Id },
    /// Stop the program.
    Exit,
}

/// A basic block: instructions that run in order, then one terminator.
#[derive(Debug, PartialEq, Eq)]
pub struct Block {
    pub insn: Vec<Instruction>,
    pub term: Terminator,
}

/// A lowered program.
#[derive(Debug, PartialEq, Eq)]
pub struct Program {
    /// Every variable that the program may write or read, temporaries
    /// included.
    pub decl: IdSet,
    /// The blocks by label. Execution starts at `entry`.
    pub block: BlockMap,
}

/// The mathematical value of an [`Instruction`].
#[allow(inconsistent_fields)]
pub enum InstructionView {
    Copy { dst: Seq<char>, src: Seq<char> },
    Print(Seq<char>),
    Read(Seq<char>),
    Const { dst: Seq<char>, src: int },
    Arith { op: BOp, dst: Seq<char>, lhs: Seq<char>, rhs: Seq<char> },
}

/// The mathematical value of a [`Terminator`].
pub enum TerminatorView {
    Jump(Seq<char>),
    Branch { guard: Seq<char>, tt: Seq<char>, ff: Seq<char> },
    Exit,
}

/// The mathematical value of a [`Block`].
pub struct BlockView {
    pub insn: Seq<InstructionView>,
    pub term: TerminatorView,
}

/// The mathematical value of a [`Program`].
pub struct ProgramView {
    pub decl: Set<Seq<char>>,
    pub block: Map<Seq<char>, BlockView>,
}

impl View for Instruction {
    type V = InstructionView;

    open spec fn view(&self) -> InstructionView {
        match self {
            Instruction::Copy { dst, src } => InstructionView::Copy { dst: dst@, src: src@ },
            Instruction::Print(x) => InstructionView::Print(x@),
            Instruction::Read(x) => InstructionView::Read(x@),
            Instruction::Const { dst, src } => InstructionView::Const { dst: dst@, src: *src as int },
            Instruction::Arith { op, dst, lhs, rhs } => InstructionView::Arith {
                op: *op,
                dst: dst@,
                lhs: lhs@,
                rhs: rhs@,
            },
        }
    }
}

impl View for Terminator {
    type V = TerminatorView;

    open spec fn view(&self) -> TerminatorView {
        match self {
            Terminator::Jump(l) => TerminatorView::Jump(l@),
            Terminator::Branch { guard, tt, ff } => TerminatorView::Branch {
                guard: guard@,
                tt: tt@,
                ff: ff@,
            },
            Terminator::Exit => TerminatorView::Exit,
        }
    }
}

/// The values of `insn`, in order.
pub open spec fn insn_view(insn: Seq<Instruction>) -> Seq<InstructionView> {
    Seq::new(insn.len(), |i: int| insn[i]@)
}

impl View for Block {
    type V = BlockView;

    open spec fn view(&self) -> BlockView {
        BlockView { insn: insn_view(self.insn@), term: self.term@ }
    }
}

impl View for Program {
    type V = ProgramView;

    open spec fn view(&self) -> ProgramView {
        ProgramView { decl: self.decl@, block: self.block@ }
    }
}

impl Clone for Instruction {
    fn clone(&self) -> (r: Self)
        ensures
            r@ == self@,
    {
        match self {
            Instruction::Copy { dst, src } => Instruction::Copy {
                dst: dst.clone(),
                src: src.clone(),
            },
            Instruction::Print(x) => Instruction::Print(x.clone()),
            Instruction::Read(x) => Instruction::Read(x.clone()),
            Instruction::Const { dst, src } => Instruction::Const { dst: dst.clone(), src: *src },
            Instruction::Arith { op, dst, lhs, rhs } => Instruction::Arith {
                op: *op,
                dst: dst.clone(),
                lhs: lhs.clone(),
                rhs: rhs.clone(),
            },
        }
    }
}

impl Clone for Terminator {
    fn clone(&self) -> (r: Self)
        ensures
            r@ == self@,
    {
        match self {
            Terminator::Jump(l) => Terminator::Jump(l.clone()),
            Terminator::Branch { guard, tt, ff } => Terminator::Branch {
                guard: guard.clone(),
                tt: tt.clone(),
                ff: ff.clone(),
            },
            Terminator::Exit => Terminator::Exit,
        }
    }
}

} // verus!
