//! The in-memory representation: operands, instructions, basic blocks,
//! functions and modules.

pub mod build_global;
pub mod build_terminator;
pub mod builder;
pub mod constructs;
pub mod loader;
pub mod operand;
pub mod structure;

pub use self::builder::{Builder, BuilderView, StructureError};
pub use self::constructs::{
    BasicBlock, BasicBlockView, Function, FunctionView, Instruction, InstructionTooLong,
    InstructionView, Module, ModuleHeader, ModuleView,
};
pub use self::loader::{CursorView, Loader, LoaderView, Misplaced, Phase};
pub use self::operand::{Operand, OperandView, Word};
