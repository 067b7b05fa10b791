//! Constants of the binary format: the header's fixed words and the opcodes
//! by which the layout of a module is recognised.

use vstd::prelude::*;

verus! {

/// The first word of every module.
pub const MAGIC_NUMBER: u32 = 0x07230203;

/// The major version of the format that modules are built for.
pub const MAJOR_VERSION: u32 = 1;

/// The minor version of the format that modules are built for.
pub const MINOR_VERSION: u32 = 2;

/// The largest number of words that one instruction can occupy.
pub const MAX_WORD_COUNT: usize = 0xffff;

pub const OP_NOP: u16 = 0;

pub const OP_SOURCE_CONTINUED: u16 = 2;

pub const OP_SOURCE: u16 = 3;

pub const OP_SOURCE_EXTENSION: u16 = 4;

pub const OP_NAME: u16 = 5;

pub const OP_MEMBER_NAME: u16 = 6;

pub const OP_STRING: u16 = 7;

pub const OP_EXTENSION: u16 = 10;

pub const OP_EXT_INST_IMPORT: u16 = 11;

pub const OP_MEMORY_MODEL: u16 = 14;

pub const OP_ENTRY_POINT: u16 = 15;

pub const OP_EXECUTION_MODE: u16 = 16;

pub const OP_CAPABILITY: u16 = 17;

pub const OP_TYPE_VOID: u16 = 19;

pub const OP_TYPE_BOOL: u16 = 20;

pub const OP_TYPE_INT: u16 = 21;

pub const OP_TYPE_FLOAT: u16 = 22;

pub const OP_TYPE_POINTER: u16 = 32;

pub const OP_TYPE_FUNCTION: u16 = 33;

pub const OP_CONSTANT: u16 = 43;

pub const OP_FUNCTION: u16 = 54;

pub const OP_FUNCTION_END: u16 = 56;

pub const OP_DECORATE: u16 = 71;

pub const OP_MEMBER_DECORATE: u16 = 72;

pub const OP_DECORATION_GROUP: u16 = 73;

pub const OP_GROUP_DECORATE: u16 = 74;

pub const OP_GROUP_MEMBER_DECORATE: u16 = 75;

pub const OP_LABEL: u16 = 248;

pub const OP_BRANCH: u16 = 249;

pub const OP_BRANCH_CONDITIONAL: u16 = 250;

pub const OP_SWITCH: u16 = 251;

pub const OP_KILL: u16 = 252;

pub const OP_RETURN: u16 = 253;

pub const OP_RETURN_VALUE: u16 = 254;

pub const OP_UNREACHABLE: u16 = 255;

pub const OP_MODULE_PROCESSED: u16 = 330;

/// The part that an opcode plays in the layout of a module.
#[derive(Clone, Copy, Debug, PartialEq, Eq, Structural)]
pub enum OpClass {
    /// Declares a capability.
    Capability,
    /// Declares an extension.
    Extension,
    /// Imports an extended instruction set.
    ExtInstImport,
    /// Declares the memory model.
    MemoryModel,
    /// Declares an entry point.
    EntryPoint,
    /// Declares an execution mode.
    ExecutionMode,
    /// Debug information that is not tied to a place in the code.
    Debug,
    /// A decoration.
    Annotation,
    /// Opens a function.
    Function,
    /// Closes a function.
    FunctionEnd,
    /// Opens a basic block.
    Label,
    /// Ends a basic block.
    Terminator,
    /// Anything else: a type, constant or global variable at module level,
    /// an ordinary instruction inside a basic block.
    Other,
}

/// The class of each opcode.
pub open spec fn class_of(opcode: u16) -> OpClass {
    if opcode == OP_CAPABILITY {
        OpClass::Capability
    } else if opcode == OP_EXTENSION {
        OpClass::Extension
    } else if opcode == OP_EXT_INST_IMPORT {
        OpClass::ExtInstImport
    } else if opcode == OP_MEMORY_MODEL {
        OpClass::MemoryModel
    } else if opcode == OP_ENTRY_POINT {
        OpClass::EntryPoint
    } else if opcode == OP_EXECUTION_MODE {
        OpClass::ExecutionMode
    } else if OP_SOURCE_CONTINUED <= opcode <= OP_STRING || opcode == OP_MODULE_PROCESSED {
        OpClass::Debug
    } else if OP_DECORATE <= opcode <= OP_GROUP_MEMBER_DECORATE {
        OpClass::Annotation
    } else if opcode == OP_FUNCTION {
        OpClass::Function
    } else if opcode == OP_FUNCTION_END {
        OpClass::FunctionEnd
    } else if opcode == OP_LABEL {
        OpClass::Label
    } else if OP_BRANCH <= opcode <= OP_UNREACHABLE {
        OpClass::Terminator
    } else {
        OpClass::Other
    }
}

/// Tells which part an opcode plays in the layout of a module.
pub fn classify(opcode: u16) -> (class: OpClass)
    ensures
        class == class_of(opcode),
{
    if opcode == OP_CAPABILITY {
        OpClass::Capability
    } else if opcode == OP_EXTENSION {
        OpClass::Extension
    } else if opcode == OP_EXT_INST_IMPORT {
        OpClass::ExtInstImport
    } else if opcode == OP_MEMORY_MODEL {
        OpClass::MemoryModel
    } else if opcode == OP_ENTRY_POINT {
        OpClass::EntryPoint
    } else if opcode == OP_EXECUTION_MODE {
        OpClass::ExecutionMode
    } else if (OP_SOURCE_CONTINUED <= opcode && opcode <= OP_STRING) || opcode
        == OP_MODULE_PROCESSED {
        OpClass::Debug
    } else if OP_DECORATE <= opcode && opcode <= OP_GROUP_MEMBER_DECORATE {
        OpClass::Annotation
    } else if opcode == OP_FUNCTION {
        OpClass::Function
    } else if opcode == OP_FUNCTION_END {
        OpClass::FunctionEnd
    } else if opcode == OP_LABEL {
        OpClass::Label
    } else if OP_BRANCH <= opcode && opcode <= OP_UNREACHABLE {
        OpClass::Terminator
    } else {
        OpClass::Other
    }
}

/// Whether an opcode ends a basic block: a branch, a conditional branch, a
/// switch, a kill, a return with or without a value, or unreachable.
pub open spec fn is_terminator(opcode: u16) -> bool {
    class_of(opcode) == OpClass::Terminator
}

} // verus!
