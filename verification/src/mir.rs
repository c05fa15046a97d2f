//! The control-flow-graph input language.
//!
//! A frontend hands the evaluator one `Function` per source function: an
//! ordered list of local slots with their types (slot 0 is the return slot,
//! slots 1..=args are the runtime arguments), and a list of basic blocks,
//! each a run of statements closed by exactly one terminator.

use vstd::prelude::*;

use crate::sir::Ty;

verus! {

/// Identifies a basic block by its position in the function's block list.
#[derive(Clone, Copy, Debug, PartialEq, Eq, Structural)]
pub struct BlockID(pub usize);

/// Identifies a statement by its position inside a basic block.
#[derive(Clone, Copy, Debug, PartialEq, Eq, Structural)]
pub struct StatementID(pub usize);

impl StatementID {
    /// Advance to the next statement of the same block.
    pub fn grow(&mut self)
        requires
            old(self).0 < usize::MAX,
        ensures
            final(self).0 == old(self).0 + 1,
    {
        *self = StatementID(self.0 + 1)
    }
}

/// A storage location: a whole local slot, or one tuple field of a slot.
#[derive(Clone, Copy, Debug)]
pub enum Place {
    Local(usize),
    Field(usize, usize),
}

/// A constant operand, fully resolved by the frontend.
#[derive(Debug)]
pub enum Constant {
    /// A primitive literal: raw bits plus the declared type that fixes
    /// the width of the value.
    Literal(u128, Ty),
    /// A reference to another function, by its identity token.
    Function(usize, Ty),
    /// A compile-time symbolic parameter, by index.
    Param(usize, Ty),
}

/// The value read by a statement or terminator.
#[derive(Debug)]
pub enum Operand {
    Move(Place),
    Copy(Place),
    Constant(Constant),
}

/// The right-hand side of an assignment.
#[derive(Debug)]
pub enum Rvalue {
    Use(Operand),
    Ref(Place),
    BinaryOp(BinOp, Operand, Operand),
}

/// The binary operators of the expression language.
#[derive(Clone, Copy, Debug, PartialEq, Eq, Structural)]
pub enum BinOp {
    Add,
    Sub,
    Mul,
    Div,
    Rem,
    Eq,
    Lt,
    Le,
    Ne,
    Ge,
    Gt,
}

impl BinOp {
    /// The comparison operators yield `Bool` whatever their operands are.
    pub open spec fn is_comparison(self) -> bool {
        self == BinOp::Eq || self == BinOp::Lt || self == BinOp::Le || self == BinOp::Ne
            || self == BinOp::Ge || self == BinOp::Gt
    }

    /// Executable test matching [`BinOp::is_comparison`].
    pub fn is_comparison_op(&self) -> (r: bool)
        ensures
            r == self.is_comparison(),
    {
        match self {
            BinOp::Eq | BinOp::Lt | BinOp::Le | BinOp::Ne | BinOp::Ge | BinOp::Gt => true,
            _ => false,
        }
    }
}

/// One statement of a basic block.
#[derive(Debug)]
pub enum Statement {
    Assign(Place, Rvalue),
    StorageLive(usize),
    StorageDead(usize),
}

/// The closing instruction of a basic block.
#[derive(Debug)]
pub enum Terminator {
    Return,
    Goto(BlockID),
    /// Callee, arguments, destination slot, and continuation block.
    Call(Operand, Vec<Operand>, Place, BlockID),
    /// Discriminant, its type, the guarded `(literal, target)` pairs, and
    /// the default target.
    SwitchInt(Operand, Ty, Vec<(u128, BlockID)>, BlockID),
    /// Condition, the polarity on which execution continues, and the
    /// continuation block.
    Assert(Operand, bool, BlockID),
}

/// A basic block: straight-line statements closed by one terminator.
#[derive(Debug)]
pub struct Block {
    pub statements: Vec<Statement>,
    pub terminator: Terminator,
}

impl Block {
    pub fn new(statements: Vec<Statement>, terminator: Terminator) -> (r: Block)
        ensures
            r.statements == statements,
            r.terminator == terminator,
    {
        Block { statements, terminator }
    }

    /// Does `id` still point at a statement, rather than at the terminator?
    pub fn is_statement(&self, id: &StatementID) -> (r: bool)
        ensures
            r == (id.0 < self.statements@.len()),
    {
        let StatementID(i) = id;
        *i < self.statements.len()
    }

    pub fn get_statement(&self, id: &StatementID) -> (r: Option<&Statement>)
        ensures
            id.0 < self.statements@.len() ==> (r matches Some(s) && *s
                == self.statements@[id.0 as int]),
            id.0 >= self.statements@.len() ==> r is None,
    {
        let StatementID(i) = id;
        if *i < self.statements.len() {
            Some(&self.statements[*i])
        } else {
            None
        }
    }

    pub fn get_terminator(&self) -> (r: &Terminator)
        ensures
            *r == self.terminator,
    {
        &self.terminator
    }
}

/// A whole function body, as delivered by the frontend.
///
/// `locals` lists the type of every slot; slot 0 is the return slot and
/// slots `1..=args` hold the runtime arguments, so `args + 1 <= locals.len()`
/// for a well-formed function.
#[derive(Debug)]
pub struct Function {
    pub locals: Vec<Ty>,
    pub args: usize,
    pub blocks: Vec<Block>,
}

impl Function {
    pub fn new(locals: Vec<Ty>, args: usize, blocks: Vec<Block>) -> (r: Function)
        ensures
            r.locals == locals,
            r.args == args,
            r.blocks == blocks,
    {
        Function { locals, args, blocks }
    }

    pub fn get_block(&self, id: &BlockID) -> (r: Option<&Block>)
        ensures
            id.0 < self.blocks@.len() ==> (r matches Some(b) && *b == self.blocks@[id.0 as int]),
            id.0 >= self.blocks@.len() ==> r is None,
    {
        let BlockID(i) = id;
        if *i < self.blocks.len() {
            Some(&self.blocks[*i])
        } else {
            None
        }
    }

    pub fn locals(&self) -> (r: &Vec<Ty>)
        ensures
            *r == self.locals,
    {
        &self.locals
    }

    pub fn args(&self) -> (r: usize)
        ensures
            r == self.args,
    {
        self.args
    }
}

} // verus!
