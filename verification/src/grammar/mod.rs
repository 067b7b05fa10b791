//! The grammar table: for each opcode the layout of its instruction, for
//! each operand kind its category and its enumerants. The table is handed
//! to the codec ready-made; nothing here knows what it holds.

pub mod conform;
pub mod table;

pub use self::table::{
    Category, Enumerant, Grammar, InstructionFormat, InvalidGrammar, LogicalOperand, OperandKind,
};
