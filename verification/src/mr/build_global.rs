//! Calls that append the global instructions of a module: capabilities,
//! extensions, the memory model, entry points, execution modes, debug
//! names, decorations, types and constants.

use crate::mr::builder::{
    carried_out, carried_out_with_id, id_refs, instruction, literals, push_id_refs,
    push_literals, Builder, StructureError,
};
use crate::mr::operand::{Operand, OperandView, Word};
use crate::spirv::{
    OP_CAPABILITY, OP_CONSTANT, OP_DECORATE, OP_ENTRY_POINT, OP_EXECUTION_MODE, OP_EXTENSION,
    OP_EXT_INST_IMPORT, OP_MEMORY_MODEL, OP_NAME, OP_TYPE_BOOL, OP_TYPE_FLOAT, OP_TYPE_FUNCTION,
    OP_TYPE_INT, OP_TYPE_POINTER, OP_TYPE_VOID,
};
use vstd::prelude::*;

verus! {

impl Builder {
    /// Declares a capability.
    pub fn capability(&mut self, capability: u32) -> (done: Result<(), StructureError>)
        ensures
            carried_out(
                old(self)@,
                final(self)@,
                done,
                old(self)@.placing_global(
                    instruction(
                        OP_CAPABILITY,
                        None,
                        None,
                        seq![OperandView::ValueEnum(capability)],
                    ),
                ),
            ),
            old(self)@.wf() ==> final(self)@.wf(),
    {
        let operands: Vec<Operand> = vec![Operand::ValueEnum(capability)];
        assert(operands.deep_view() =~= seq![OperandView::ValueEnum(capability)]);
        self.global(OP_CAPABILITY, None, None, operands)
    }

    /// Declares an extension by its name.
    pub fn extension(&mut self, name: String) -> (done: Result<(), StructureError>)
        ensures
            carried_out(
                old(self)@,
                final(self)@,
                done,
                old(self)@.placing_global(
                    instruction(
                        OP_EXTENSION,
                        None,
                        None,
                        seq![OperandView::LiteralString(name@)],
                    ),
                ),
            ),
            old(self)@.wf() ==> final(self)@.wf(),
    {
        let operands: Vec<Operand> = vec![Operand::LiteralString(name)];
        assert(operands.deep_view() =~= seq![OperandView::LiteralString(name@)]);
        self.global(OP_EXTENSION, None, None, operands)
    }

    /// Imports an extended instruction set by its name, and returns the id
    /// that stands for it.
    pub fn ext_inst_import(&mut self, name: String) -> (done: Result<Word, StructureError>)
        ensures
            carried_out_with_id(
                old(self)@,
                final(self)@,
                done,
                old(self)@.placing_global(
                    instruction(
                        OP_EXT_INST_IMPORT,
                        None,
                        Some(old(self)@.next_id),
                        seq![OperandView::LiteralString(name@)],
                    ),
                ),
            ),
            old(self)@.wf() ==> final(self)@.wf(),
    {
        let operands: Vec<Operand> = vec![Operand::LiteralString(name)];
        assert(operands.deep_view() =~= seq![OperandView::LiteralString(name@)]);
        self.global_with_id(OP_EXT_INST_IMPORT, None, operands)
    }

    /// Declares the addressing model and the memory model.
    pub fn memory_model(
        &mut self,
        addressing_model: u32,
        memory_model: u32,
    ) -> (done: Result<(), StructureError>)
        ensures
            carried_out(
                old(self)@,
                final(self)@,
                done,
                old(self)@.placing_global(
                    instruction(
                        OP_MEMORY_MODEL,
                        None,
                        None,
                        seq![
                        OperandView::ValueEnum(addressing_model),
                        OperandView::ValueEnum(memory_model),
                    ],
                    ),
                ),
            ),
            old(self)@.wf() ==> final(self)@.wf(),
    {
        let operands: Vec<Operand> = vec![
            Operand::ValueEnum(addressing_model),
            Operand::ValueEnum(memory_model),
        ];
        assert(operands.deep_view() =~= seq![
            OperandView::ValueEnum(addressing_model),
            OperandView::ValueEnum(memory_model),
        ]);
        self.global(OP_MEMORY_MODEL, None, None, operands)
    }

    /// Declares an entry point: its execution model, the function, its name,
    /// and the ids of the global variables of its interface.
    pub fn entry_point(
        &mut self,
        execution_model: u32,
        entry_point: Word,
        name: String,
        interface: Vec<Word>,
    ) -> (done: Result<(), StructureError>)
        ensures
            carried_out(
                old(self)@,
                final(self)@,
                done,
                old(self)@.placing_global(
                    instruction(
                        OP_ENTRY_POINT,
                        None,
                        None,
                        seq![
                        OperandView::ValueEnum(execution_model),
                        OperandView::IdRef(entry_point),
                        OperandView::LiteralString(name@),
                    ] + id_refs(interface@),
                    ),
                ),
            ),
            old(self)@.wf() ==> final(self)@.wf(),
    {
        let mut operands: Vec<Operand> = vec![
            Operand::ValueEnum(execution_model),
            Operand::IdRef(entry_point),
            Operand::LiteralString(name),
        ];
        assert(operands.deep_view() =~= seq![
            OperandView::ValueEnum(execution_model),
            OperandView::IdRef(entry_point),
            OperandView::LiteralString(name@),
        ]);
        push_id_refs(&mut operands, &interface);
        self.global(OP_ENTRY_POINT, None, None, operands)
    }

    /// Declares an execution mode of an entry point, with the numbers that
    /// the mode takes.
    pub fn execution_mode(
        &mut self,
        entry_point: Word,
        mode: u32,
        parameters: Vec<u32>,
    ) -> (done: Result<(), StructureError>)
        ensures
            carried_out(
                old(self)@,
                final(self)@,
                done,
                old(self)@.placing_global(
                    instruction(
                        OP_EXECUTION_MODE,
                        None,
                        None,
                        seq![
                        OperandView::IdRef(entry_point),
                        OperandView::ValueEnum(mode),
                    ] + literals(parameters@),
                    ),
                ),
            ),
            old(self)@.wf() ==> final(self)@.wf(),
    {
        let mut operands: Vec<Operand> = vec![
            Operand::IdRef(entry_point),
            Operand::ValueEnum(mode),
        ];
        assert(operands.deep_view() =~= seq![
            OperandView::IdRef(entry_point),
            OperandView::ValueEnum(mode),
        ]);
        push_literals(&mut operands, &parameters);
        self.global(OP_EXECUTION_MODE, None, None, operands)
    }

    /// Gives an id a name for debugging.
    pub fn name(&mut self, target: Word, name: String) -> (done: Result<(), StructureError>)
        ensures
            carried_out(
                old(self)@,
                final(self)@,
                done,
                old(self)@.placing_global(
                    instruction(
                        OP_NAME,
                        None,
                        None,
                        seq![
                        OperandView::IdRef(target),
                        OperandView::LiteralString(name@),
                    ],
                    ),
                ),
            ),
            old(self)@.wf() ==> final(self)@.wf(),
    {
        let operands: Vec<Operand> = vec![
            Operand::IdRef(target),
            Operand::LiteralString(name),
        ];
        assert(operands.deep_view() =~= seq![
            OperandView::IdRef(target),
            OperandView::LiteralString(name@),
        ]);
        self.global(OP_NAME, None, None, operands)
    }

    /// Decorates an id, with the numbers that the decoration takes.
    pub fn decorate(
        &mut self,
        target: Word,
        decoration: u32,
        parameters: Vec<u32>,
    ) -> (done: Result<(), StructureError>)
        ensures
            carried_out(
                old(self)@,
                final(self)@,
                done,
                old(self)@.placing_global(
                    instruction(
                        OP_DECORATE,
                        None,
                        None,
                        seq![
                        OperandView::IdRef(target),
                        OperandView::ValueEnum(decoration),
                    ] + literals(parameters@),
                    ),
                ),
            ),
            old(self)@.wf() ==> final(self)@.wf(),
    {
        let mut operands: Vec<Operand> = vec![
            Operand::IdRef(target),
            Operand::ValueEnum(decoration),
        ];
        assert(operands.deep_view() =~= seq![
            OperandView::IdRef(target),
            OperandView::ValueEnum(decoration),
        ]);
        push_literals(&mut operands, &parameters);
        self.global(OP_DECORATE, None, None, operands)
    }

    /// Declares the void type and returns its id.
    pub fn type_void(&mut self) -> (done: Result<Word, StructureError>)
        ensures
            carried_out_with_id(
                old(self)@,
                final(self)@,
                done,
                old(self)@.placing_global(
                    instruction(
                        OP_TYPE_VOID,
                        None,
                        Some(old(self)@.next_id),
                        Seq::empty(),
                    ),
                ),
            ),
            old(self)@.wf() ==> final(self)@.wf(),
    {
        let operands: Vec<Operand> = Vec::new();
        assert(operands.deep_view() =~= Seq::<OperandView>::empty());
        self.global_with_id(OP_TYPE_VOID, None, operands)
    }

    /// Declares the boolean type and returns its id.
    pub fn type_bool(&mut self) -> (done: Result<Word, StructureError>)
        ensures
            carried_out_with_id(
                old(self)@,
                final(self)@,
                done,
                old(self)@.placing_global(
                    instruction(
                        OP_TYPE_BOOL,
                        None,
                        Some(old(self)@.next_id),
                        Seq::empty(),
                    ),
                ),
            ),
            old(self)@.wf() ==> final(self)@.wf(),
    {
        let operands: Vec<Operand> = Vec::new();
        assert(operands.deep_view() =~= Seq::<OperandView>::empty());
        self.global_with_id(OP_TYPE_BOOL, None, operands)
    }

    /// Declares an integer type of the given width in bits, signed where
    /// `signedness` is 1 and unsigned where it is 0, and returns its id.
    pub fn type_int(&mut self, width: u32, signedness: u32) -> (done: Result<Word, StructureError>)
        ensures
            carried_out_with_id(
                old(self)@,
                final(self)@,
                done,
                old(self)@.placing_global(
                    instruction(
                        OP_TYPE_INT,
                        None,
                        Some(old(self)@.next_id),
                        seq![
                        OperandView::LiteralInt32(width),
                        OperandView::LiteralInt32(signedness),
                    ],
                    ),
                ),
            ),
            old(self)@.wf() ==> final(self)@.wf(),
    {
        let operands: Vec<Operand> = vec![
            Operand::LiteralInt32(width),
            Operand::LiteralInt32(signedness),
        ];
        assert(operands.deep_view() =~= seq![
            OperandView::LiteralInt32(width),
            OperandView::LiteralInt32(signedness),
        ]);
        self.global_with_id(OP_TYPE_INT, None, operands)
    }

    /// Declares a floating-point type of the given width in bits and returns
    /// its id.
    pub fn type_float(&mut self, width: u32) -> (done: Result<Word, StructureError>)
        ensures
            carried_out_with_id(
                old(self)@,
                final(self)@,
                done,
                old(self)@.placing_global(
                    instruction(
                        OP_TYPE_FLOAT,
                        None,
                        Some(old(self)@.next_id),
                        seq![OperandView::LiteralInt32(width)],
                    ),
                ),
            ),
            old(self)@.wf() ==> final(self)@.wf(),
    {
        let operands: Vec<Operand> = vec![Operand::LiteralInt32(width)];
        assert(operands.deep_view() =~= seq![OperandView::LiteralInt32(width)]);
        self.global_with_id(OP_TYPE_FLOAT, None, operands)
    }

    /// Declares the type of pointers to a type in a storage class and
    /// returns its id.
    pub fn type_pointer(
        &mut self,
        storage_class: u32,
        pointee_type: Word,
    ) -> (done: Result<Word, StructureError>)
        ensures
            carried_out_with_id(
                old(self)@,
                final(self)@,
                done,
                old(self)@.placing_global(
                    instruction(
                        OP_TYPE_POINTER,
                        None,
                        Some(old(self)@.next_id),
                        seq![
                        OperandView::ValueEnum(storage_class),
                        OperandView::IdRef(pointee_type),
                    ],
                    ),
                ),
            ),
            old(self)@.wf() ==> final(self)@.wf(),
    {
        let operands: Vec<Operand> = vec![
            Operand::ValueEnum(storage_class),
            Operand::IdRef(pointee_type),
        ];
        assert(operands.deep_view() =~= seq![
            OperandView::ValueEnum(storage_class),
            OperandView::IdRef(pointee_type),
        ]);
        self.global_with_id(OP_TYPE_POINTER, None, operands)
    }

    /// Declares the type of functions with the given return type and
    /// parameter types, and returns its id.
    pub fn type_function(
        &mut self,
        return_type: Word,
        parameter_types: Vec<Word>,
    ) -> (done: Result<Word, StructureError>)
        ensures
            carried_out_with_id(
                old(self)@,
                final(self)@,
                done,
                old(self)@.placing_global(
                    instruction(
                        OP_TYPE_FUNCTION,
                        None,
                        Some(old(self)@.next_id),
                        seq![OperandView::IdRef(return_type)] + id_refs(parameter_types@),
                    ),
                ),
            ),
            old(self)@.wf() ==> final(self)@.wf(),
    {
        let mut operands: Vec<Operand> = vec![Operand::IdRef(return_type)];
        assert(operands.deep_view() =~= seq![OperandView::IdRef(return_type)]);
        push_id_refs(&mut operands, &parameter_types);
        self.global_with_id(OP_TYPE_FUNCTION, None, operands)
    }

    /// Declares a constant of the given type with a 32-bit value, and
    /// returns its id.
    pub fn constant_u32(
        &mut self,
        result_type: Word,
        value: u32,
    ) -> (done: Result<Word, StructureError>)
        ensures
            carried_out_with_id(
                old(self)@,
                final(self)@,
                done,
                old(self)@.placing_global(
                    instruction(
                        OP_CONSTANT,
                        Some(result_type),
                        Some(old(self)@.next_id),
                        seq![OperandView::LiteralInt32(value)],
                    ),
                ),
            ),
            old(self)@.wf() ==> final(self)@.wf(),
    {
        let operands: Vec<Operand> = vec![Operand::LiteralInt32(value)];
        assert(operands.deep_view() =~= seq![OperandView::LiteralInt32(value)]);
        self.global_with_id(OP_CONSTANT, Some(result_type), operands)
    }
}

} // verus!
