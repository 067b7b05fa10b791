//! Instruction operands.

use crate::binary::encoding::Encoded;
use vstd::prelude::*;

verus! {

/// The atomic unit of the binary format.
pub type Word = u32;

/// One argument of an instruction. There is one variant for each category of
/// operand kinds; which kind an operand belongs to follows from the opcode
/// and the operand's position.
#[derive(Debug, PartialEq, Eq)]
pub enum Operand {
    /// A set of flags, stored as its bit pattern.
    Bitmask(u32),
    /// An enumerant, stored as its numeric value.
    ValueEnum(u32),
    /// A reference to an id (a result id, a scope id or a memory-semantics id).
    IdRef(Word),
    /// A 32-bit integer literal.
    LiteralInt32(u32),
    /// A 64-bit integer literal.
    LiteralInt64(u64),
    /// A 32-bit floating-point literal, stored as its IEEE-754 bit pattern.
    LiteralFloat32(u32),
    /// A 64-bit floating-point literal, stored as its IEEE-754 bit pattern.
    LiteralFloat64(u64),
    /// A text literal.
    LiteralString(String),
    /// A literal whose meaning depends on the instruction around it, such as
    /// the opcode selected by a specialization-constant operation.
    LiteralContextDependent(u32),
}

/// The mathematical value of an [`Operand`].
#[verifier::ext_equal]
pub enum OperandView {
    Bitmask(u32),
    ValueEnum(u32),
    IdRef(u32),
    LiteralInt32(u32),
    LiteralInt64(u64),
    LiteralFloat32(u32),
    LiteralFloat64(u64),
    LiteralString(Seq<char>),
    LiteralContextDependent(u32),
}

impl View for Operand {
    type V = OperandView;

    open spec fn view(&self) -> OperandView {
        match self {
            Operand::Bitmask(v) => OperandView::Bitmask(*v),
            Operand::ValueEnum(v) => OperandView::ValueEnum(*v),
            Operand::IdRef(v) => OperandView::IdRef(*v),
            Operand::LiteralInt32(v) => OperandView::LiteralInt32(*v),
            Operand::LiteralInt64(v) => OperandView::LiteralInt64(*v),
            Operand::LiteralFloat32(v) => OperandView::LiteralFloat32(*v),
            Operand::LiteralFloat64(v) => OperandView::LiteralFloat64(*v),
            Operand::LiteralString(s) => OperandView::LiteralString(s@),
            Operand::LiteralContextDependent(v) => OperandView::LiteralContextDependent(*v),
        }
    }
}

impl Clone for Operand {
    fn clone(&self) -> (copy: Operand)
        ensures
            copy == *self,
    {
        match self {
            Operand::Bitmask(v) => Operand::Bitmask(*v),
            Operand::ValueEnum(v) => Operand::ValueEnum(*v),
            Operand::IdRef(v) => Operand::IdRef(*v),
            Operand::LiteralInt32(v) => Operand::LiteralInt32(*v),
            Operand::LiteralInt64(v) => Operand::LiteralInt64(*v),
            Operand::LiteralFloat32(v) => Operand::LiteralFloat32(*v),
            Operand::LiteralFloat64(v) => Operand::LiteralFloat64(*v),
            Operand::LiteralString(s) => Operand::LiteralString(s.clone()),
            Operand::LiteralContextDependent(v) => Operand::LiteralContextDependent(*v),
        }
    }
}

impl DeepView for Operand {
    type V = OperandView;

    open spec fn deep_view(&self) -> OperandView {
        self@
    }
}

impl Operand {
    /// The number of words that the operand's binary form takes.
    pub fn word_count(&self) -> (count: usize)
        ensures
            count == self@.words().len(),
            count >= 1,
    {
        match self {
            Operand::LiteralInt64(_) | Operand::LiteralFloat64(_) => 2,
            Operand::LiteralString(s) => s.as_str().as_bytes().len() / 4 + 1,
            _ => 1,
        }
    }
}

} // verus!
