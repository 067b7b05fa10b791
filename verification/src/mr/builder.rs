//! Building a module step by step.

use crate::binary::encoding::{concat_words, Encoded};
use crate::mr::constructs::{Instruction, InstructionView, Module, ModuleHeader, ModuleView};
use crate::mr::loader::{place, CursorView, Loader, LoaderView, Phase};
use crate::mr::operand::{Operand, OperandView, Word};
use crate::mr::structure::{
    lemma_every_implies, lemma_place_every, lemma_place_structured, Property,
};
use crate::spirv::{class_of, classify, OpClass, MAGIC_NUMBER, MAJOR_VERSION, MINOR_VERSION};
use vstd::prelude::*;

verus! {

/// Why the builder refused a call. A refused call changes nothing.
#[derive(Clone, Copy, Debug, PartialEq, Eq, Structural)]
pub enum StructureError {
    /// A function was begun while another one was still open.
    NestedFunction,
    /// A basic block was begun, or a function was ended, while no function was open.
    NoOpenFunction,
    /// A basic block was begun while another one was still open.
    NestedBlock,
    /// An instruction was appended while no basic block was open: none
    /// had been begun, or the last one had been ended by its terminator.
    NoOpenBlock,
    /// A function was ended while its last basic block had no terminator.
    UnterminatedBlock,
    /// A function was ended that had no basic block.
    NoBasicBlock,
    /// A global instruction was appended, or the module was asked for,
    /// while a function was open.
    FunctionOpen,
    /// The instruction would take more than 65535 words.
    InstructionTooLong,
    /// No id is left: an id of the instruction, or the next one to hand
    /// out, is the largest number that an id can be.
    IdsExhausted,
    /// The opcode has no place where the call would put it: a label, a
    /// terminator or the opening or end of a function among the global
    /// instructions; a label or the opening or end of a function in the
    /// body of a block; a second memory model.
    MisplacedOpcode,
}

/// Builds a module from instructions that come one after another, hands
/// out fresh ids, and keeps the instructions in the order that the
/// format asks for.
#[derive(Debug)]
pub struct Builder {
    loader: Loader,
    next_id: Word,
}

/// The mathematical value of a [`Builder`].
#[verifier::ext_equal]
pub struct BuilderView {
    /// The module so far and what is open.
    pub state: LoaderView,
    /// The next id to hand out: the bound of the ids in use.
    pub next_id: u32,
}

/// The property of an instruction to fit its word count and to use no id
/// at or above `bound`.
pub open spec fn usable(bound: u32) -> Property {
    |inst: InstructionView| inst.wf() && inst.id_bound() <= bound
}

/// The larger of two numbers.
pub open spec fn larger(a: nat, b: nat) -> nat {
    if a >= b {
        a
    } else {
        b
    }
}

/// The larger of a bound and the bound of an instruction's ids.
pub open spec fn raised(next_id: u32, inst: InstructionView) -> u32 {
    if inst.id_bound() > next_id {
        inst.id_bound() as u32
    } else {
        next_id
    }
}

impl BuilderView {
    /// The phase that the builder is in.
    pub open spec fn phase(self) -> Phase {
        self.state.cursor.phase()
    }

    /// The number of complete blocks of the open function.
    pub open spec fn open_blocks(self) -> nat {
        match self.state.cursor {
            CursorView::Idle => 0,
            CursorView::InFunction(function) => function.basic_blocks.len(),
            CursorView::InBlock(function, _) => function.basic_blocks.len(),
        }
    }

    /// What the builder guarantees of itself after every call: the next id
    /// is above every id in use, every instruction stands where its opcode
    /// belongs and fits its word count, and every function that has been
    /// ended has a basic block.
    pub open spec fn wf(self) -> bool {
        &&& self.next_id >= 1
        &&& self.state.module.header is None
        &&& self.state.structured()
        &&& self.state.every(usable(self.next_id))
        &&& forall|i: int|
            0 <= i < self.state.module.functions.len() ==> (
            #[trigger] self.state.module.functions[i]).basic_blocks.len() >= 1
    }

    /// The builder after the instruction has been put in its place.
    pub open spec fn with(self, inst: InstructionView) -> BuilderView {
        BuilderView { state: place(self.state, inst)->0, next_id: raised(self.next_id, inst) }
    }

    /// The module that the builder hands over: what it has built, under a
    /// header whose bound is the next id.
    pub open spec fn module(self) -> ModuleView {
        ModuleView {
            header: Some(
                ModuleHeader {
                    magic_number: MAGIC_NUMBER,
                    version: crate::mr::constructs::version_word(MAJOR_VERSION, MINOR_VERSION),
                    generator: 0xffff_ffff,
                    bound: self.next_id,
                    reserved_word: 0,
                },
            ),
            ..self.state.module
        }
    }

    /// What comes of putting an instruction in its place: too long an
    /// instruction, one with an id that leaves no room for a bound above
    /// it, and one that has no place are refused, in this order.
    pub open spec fn placing(self, inst: InstructionView) -> Result<BuilderView, StructureError> {
        if !inst.wf() {
            Err(StructureError::InstructionTooLong)
        } else if inst.id_bound() > u32::MAX {
            Err(StructureError::IdsExhausted)
        } else if place(self.state, inst) is None {
            Err(StructureError::MisplacedOpcode)
        } else {
            Ok(self.with(inst))
        }
    }

    /// What comes of appending a global instruction: refused while a
    /// function is open, and for the opcode that opens a function.
    pub open spec fn placing_global(self, inst: InstructionView) -> Result<
        BuilderView,
        StructureError,
    > {
        if self.phase() != Phase::Idle {
            Err(StructureError::FunctionOpen)
        } else if class_of(inst.opcode) == OpClass::Function {
            Err(StructureError::MisplacedOpcode)
        } else {
            self.placing(inst)
        }
    }

    /// What comes of appending an instruction to the open block: refused
    /// where no block is open.
    pub open spec fn placing_in_block(self, inst: InstructionView) -> Result<
        BuilderView,
        StructureError,
    > {
        if self.phase() != Phase::InBlock {
            Err(StructureError::NoOpenBlock)
        } else {
            self.placing(inst)
        }
    }

    /// What comes of beginning a function.
    pub open spec fn beginning_function(self, inst: InstructionView) -> Result<
        BuilderView,
        StructureError,
    > {
        if self.phase() != Phase::Idle {
            Err(StructureError::NestedFunction)
        } else {
            self.placing(inst)
        }
    }

    /// What comes of beginning a basic block.
    pub open spec fn beginning_block(self, inst: InstructionView) -> Result<
        BuilderView,
        StructureError,
    > {
        if self.phase() == Phase::Idle {
            Err(StructureError::NoOpenFunction)
        } else if self.phase() == Phase::InBlock {
            Err(StructureError::NestedBlock)
        } else {
            self.placing(inst)
        }
    }

    /// What comes of ending a function.
    pub open spec fn ending_function(self) -> Result<BuilderView, StructureError> {
        if self.phase() == Phase::Idle {
            Err(StructureError::NoOpenFunction)
        } else if self.phase() == Phase::InBlock {
            Err(StructureError::UnterminatedBlock)
        } else if self.open_blocks() == 0 {
            Err(StructureError::NoBasicBlock)
        } else {
            self.placing(function_end())
        }
    }
}

/// An instruction made of the given parts.
pub open spec fn instruction(
    opcode: u16,
    result_type: Option<u32>,
    result_id: Option<u32>,
    operands: Seq<OperandView>,
) -> InstructionView {
    InstructionView { opcode, result_type, result_id, operands }
}

/// The instruction that ends a function.
pub open spec fn function_end() -> InstructionView {
    instruction(crate::spirv::OP_FUNCTION_END, None, None, Seq::empty())
}

/// A builder stays as it should be when an instruction is put in its
/// place that fits its word count and leaves room for a bound above its
/// ids, as long as a function that is ended has a basic block.
pub proof fn lemma_with_wf(builder: BuilderView, inst: InstructionView)
    requires
        builder.wf(),
        inst.wf(),
        inst.id_bound() <= u32::MAX,
        place(builder.state, inst) is Some,
        class_of(inst.opcode) == OpClass::FunctionEnd ==> builder.open_blocks() >= 1,
    ensures
        builder.with(inst).wf(),
{
    let bound = raised(builder.next_id, inst);
    let next = builder.with(inst);
    assert forall|i: InstructionView| #[trigger] usable(builder.next_id)(i) implies usable(bound)(
        i,
    ) by {}
    lemma_every_implies(builder.state, usable(builder.next_id), usable(bound));
    assert(usable(bound)(inst));
    lemma_place_every(builder.state, inst, usable(bound));
    lemma_place_structured(builder.state, inst);
    assert forall|i: int| 0 <= i < next.state.module.functions.len() implies (
    #[trigger] next.state.module.functions[i]).basic_blocks.len() >= 1 by {
        if i < builder.state.module.functions.len() {
            assert(next.state.module.functions[i] == builder.state.module.functions[i]);
        }
    }
}

/// The property of an instruction not to use the id.
pub open spec fn unused(id: u32) -> Property {
    |inst: InstructionView| !inst.uses(id)
}

/// Ids are not used before they are handed out: no instruction of the
/// module, or of what is open, uses the next id or any id above it. So an
/// id that the builder hands out is one that nothing has used.
pub proof fn lemma_fresh_ids_unused(builder: BuilderView, id: u32)
    requires
        builder.wf(),
        id >= builder.next_id,
    ensures
        builder.state.every(unused(id)),
{
    assert forall|inst: InstructionView| #[trigger] usable(builder.next_id)(inst) implies unused(
        id,
    )(inst) by {
        if inst.uses(id) {
            inst.lemma_uses_below_bound(id);
        }
    }
    lemma_every_implies(builder.state, usable(builder.next_id), unused(id));
}

/// What the builder hands over when no function is open: a module whose
/// instructions stand where their opcodes belong, each fitting its word
/// count, whose header's bound is above every id in use, and whose
/// functions each have a basic block.
pub proof fn lemma_built_module(builder: BuilderView)
    requires
        builder.wf(),
        builder.phase() == Phase::Idle,
    ensures
        builder.module().structured(),
        builder.module().every(usable(builder.module().header->0.bound)),
        builder.module().header->0.magic_number == MAGIC_NUMBER,
        forall|i: int|
            0 <= i < builder.module().functions.len() ==> (
            #[trigger] builder.module().functions[i]).basic_blocks.len() >= 1,
{
}

impl View for Builder {
    type V = BuilderView;

    closed spec fn view(&self) -> BuilderView {
        BuilderView { state: self.loader@, next_id: self.next_id }
    }
}

impl Builder {
    /// A builder with an empty module, no function open, and 1 as the
    /// first id to hand out.
    pub fn new() -> (builder: Builder)
        ensures
            builder@.wf(),
            builder@.next_id == 1,
            builder@.state == (LoaderView {
                module: ModuleView::empty(),
                cursor: CursorView::Idle,
            }),
    {
        let builder = Builder { loader: Loader::new(None), next_id: 1 };
        assert(builder@.state =~= LoaderView {
            module: ModuleView::empty(),
            cursor: CursorView::Idle,
        });
        builder
    }

    /// The phase that the builder is in.
    pub fn phase(&self) -> (phase: Phase)
        ensures
            phase == self@.phase(),
    {
        self.loader.phase()
    }

    /// The bound of the ids in use: the next id that will be handed out.
    pub fn bound(&self) -> (bound: Word)
        ensures
            bound == self@.next_id,
    {
        self.next_id
    }

    /// Hands out a fresh id: the bound of the ids in use, which then goes
    /// up by one. Refused where the bound cannot go up.
    pub fn id(&mut self) -> (fresh: Result<Word, StructureError>)
        ensures
            match fresh {
                Ok(id) => {
                    &&& old(self)@.next_id < u32::MAX
                    &&& id == old(self)@.next_id
                    &&& final(self)@ == (BuilderView { next_id: (id + 1) as u32, ..old(self)@ })
                },
                Err(e) => {
                    &&& old(self)@.next_id == u32::MAX
                    &&& e == StructureError::IdsExhausted
                    &&& final(self)@ == old(self)@
                },
            },
            old(self)@.wf() ==> final(self)@.wf(),
    {
        if self.next_id == u32::MAX {
            return Err(StructureError::IdsExhausted);
        }
        let id = self.next_id;
        self.next_id = id + 1;
        proof {
            if old(self)@.wf() {
                assert forall|i: InstructionView| #[trigger] usable(id)(i) implies usable(
                    (id + 1) as u32,
                )(i) by {}
                lemma_every_implies(old(self)@.state, usable(id), usable((id + 1) as u32));
            }
        }
        Ok(id)
    }

    /// Puts an instruction in its place and raises the bound above its ids.
    fn append(&mut self, inst: Instruction) -> (done: Result<(), StructureError>)
        requires
            class_of(inst@.opcode) == OpClass::FunctionEnd && old(self)@.phase()
                == Phase::InFunction ==> old(self)@.open_blocks() >= 1,
        ensures
            match done {
                Ok(_) => old(self)@.placing(inst@) == Ok::<BuilderView, StructureError>(
                    final(self)@,
                ),
                Err(e) => old(self)@.placing(inst@) == Err::<BuilderView, StructureError>(e)
                    && final(self)@ == old(self)@,
            },
            old(self)@.wf() ==> final(self)@.wf(),
    {
        proof {
            use_type_invariant(&inst);
        }
        let bound = inst.id_bound();
        if bound > u32::MAX as u64 {
            return Err(StructureError::IdsExhausted);
        }
        let ghost view = inst@;
        match self.loader.place(inst) {
            Err(_) => Err(StructureError::MisplacedOpcode),
            Ok(_) => {
                if bound > self.next_id as u64 {
                    self.next_id = bound as u32;
                }
                proof {
                    if old(self)@.wf() {
                        lemma_with_wf(old(self)@, view);
                    }
                }
                Ok(())
            },
        }
    }

    /// Makes an instruction and puts it in its place.
    fn append_parts(
        &mut self,
        opcode: u16,
        result_type: Option<Word>,
        result_id: Option<Word>,
        operands: Vec<Operand>,
    ) -> (done: Result<(), StructureError>)
        requires
            class_of(opcode) == OpClass::FunctionEnd && old(self)@.phase() == Phase::InFunction
                ==> old(self)@.open_blocks() >= 1,
        ensures
            match done {
                Ok(_) => old(self)@.placing(
                    instruction(opcode, result_type, result_id, operands.deep_view()),
                ) == Ok::<BuilderView, StructureError>(final(self)@),
                Err(e) => old(self)@.placing(
                    instruction(opcode, result_type, result_id, operands.deep_view()),
                ) == Err::<BuilderView, StructureError>(e) && final(self)@ == old(self)@,
            },
            old(self)@.wf() ==> final(self)@.wf(),
    {
        match Instruction::new(opcode, result_type, result_id, operands) {
            Err(_) => Err(StructureError::InstructionTooLong),
            Ok(inst) => self.append(inst),
        }
    }

    /// Appends a global instruction: it goes to the end of the section of
    /// its opcode. Refused while a function is open.
    pub fn global(
        &mut self,
        opcode: u16,
        result_type: Option<Word>,
        result_id: Option<Word>,
        operands: Vec<Operand>,
    ) -> (done: Result<(), StructureError>)
        ensures
            match done {
                Ok(_) => old(self)@.placing_global(
                    instruction(opcode, result_type, result_id, operands.deep_view()),
                ) == Ok::<BuilderView, StructureError>(final(self)@),
                Err(e) => old(self)@.placing_global(
                    instruction(opcode, result_type, result_id, operands.deep_view()),
                ) == Err::<BuilderView, StructureError>(e) && final(self)@ == old(self)@,
            },
            old(self)@.wf() ==> final(self)@.wf(),
    {
        if self.phase() != Phase::Idle {
            return Err(StructureError::FunctionOpen);
        }
        if classify(opcode) == OpClass::Function {
            return Err(StructureError::MisplacedOpcode);
        }
        self.append_parts(opcode, result_type, result_id, operands)
    }

    /// Appends a global instruction whose result gets a fresh id, and
    /// returns the id.
    pub fn global_with_id(
        &mut self,
        opcode: u16,
        result_type: Option<Word>,
        operands: Vec<Operand>,
    ) -> (done: Result<Word, StructureError>)
        ensures
            match done {
                Ok(id) => id == old(self)@.next_id && old(self)@.placing_global(
                    instruction(opcode, result_type, Some(id), operands.deep_view()),
                ) == Ok::<BuilderView, StructureError>(final(self)@),
                Err(e) => old(self)@.placing_global(
                    instruction(
                        opcode,
                        result_type,
                        Some(old(self)@.next_id),
                        operands.deep_view(),
                    ),
                ) == Err::<BuilderView, StructureError>(e) && final(self)@ == old(self)@,
            },
            old(self)@.wf() ==> final(self)@.wf(),
    {
        let id = self.next_id;
        match self.global(opcode, result_type, Some(id), operands) {
            Ok(_) => Ok(id),
            Err(e) => Err(e),
        }
    }

    /// Appends an instruction to the open basic block; a terminator ends
    /// the block. Refused where no block is open.
    pub fn instruction(
        &mut self,
        opcode: u16,
        result_type: Option<Word>,
        result_id: Option<Word>,
        operands: Vec<Operand>,
    ) -> (done: Result<(), StructureError>)
        ensures
            match done {
                Ok(_) => old(self)@.placing_in_block(
                    instruction(opcode, result_type, result_id, operands.deep_view()),
                ) == Ok::<BuilderView, StructureError>(final(self)@),
                Err(e) => old(self)@.placing_in_block(
                    instruction(opcode, result_type, result_id, operands.deep_view()),
                ) == Err::<BuilderView, StructureError>(e) && final(self)@ == old(self)@,
            },
            old(self)@.phase() != Phase::InBlock ==> done == Err::<(), StructureError>(
                StructureError::NoOpenBlock,
            ),
            done is Ok ==> final(self)@.phase() == (if class_of(opcode) == OpClass::Terminator {
                Phase::InFunction
            } else {
                Phase::InBlock
            }),
            old(self)@.wf() ==> final(self)@.wf(),
    {
        if self.phase() != Phase::InBlock {
            return Err(StructureError::NoOpenBlock);
        }
        self.append_parts(opcode, result_type, result_id, operands)
    }

    /// Appends an instruction whose result gets a fresh id to the open
    /// basic block, and returns the id.
    pub fn instruction_with_id(
        &mut self,
        opcode: u16,
        result_type: Option<Word>,
        operands: Vec<Operand>,
    ) -> (done: Result<Word, StructureError>)
        ensures
            match done {
                Ok(id) => id == old(self)@.next_id && old(self)@.placing_in_block(
                    instruction(opcode, result_type, Some(id), operands.deep_view()),
                ) == Ok::<BuilderView, StructureError>(final(self)@),
                Err(e) => old(self)@.placing_in_block(
                    instruction(
                        opcode,
                        result_type,
                        Some(old(self)@.next_id),
                        operands.deep_view(),
                    ),
                ) == Err::<BuilderView, StructureError>(e) && final(self)@ == old(self)@,
            },
            old(self)@.wf() ==> final(self)@.wf(),
    {
        let id = self.next_id;
        match self.instruction(opcode, result_type, Some(id), operands) {
            Ok(_) => Ok(id),
            Err(e) => Err(e),
        }
    }

    /// Begins a function with the given return type, control flags and
    /// function type. Its id is the one given, or a fresh one. Refused
    /// while a function is open.
    pub fn begin_function(
        &mut self,
        return_type: Word,
        function_id: Option<Word>,
        control: u32,
        function_type: Word,
    ) -> (begun: Result<Word, StructureError>)
        ensures
            match begun {
                Ok(id) => {
                    &&& id == function_id.unwrap_or(old(self)@.next_id)
                    &&& old(self)@.beginning_function(function_def(return_type, id, control, function_type))
                        == Ok::<BuilderView, StructureError>(final(self)@)
                    &&& final(self)@.phase() == Phase::InFunction
                },
                Err(e) => {
                    &&& old(self)@.beginning_function(
                        function_def(
                            return_type,
                            function_id.unwrap_or(old(self)@.next_id),
                            control,
                            function_type,
                        ),
                    ) == Err::<BuilderView, StructureError>(e)
                    &&& final(self)@ == old(self)@
                },
            },
            old(self)@.phase() != Phase::Idle ==> begun == Err::<Word, StructureError>(
                StructureError::NestedFunction,
            ),
            old(self)@.phase() == Phase::Idle ==> (begun is Ok <==> return_type < u32::MAX
                && function_type < u32::MAX && function_id.unwrap_or(old(self)@.next_id)
                < u32::MAX),
            begun is Ok ==> final(self)@.next_id == larger(
                larger(old(self)@.next_id as nat, (return_type + 1) as nat),
                larger((begun->Ok_0 + 1) as nat, (function_type + 1) as nat),
            ),
            old(self)@.wf() ==> final(self)@.wf(),
    {
        proof {
            lemma_function_def(
                return_type,
                function_id.unwrap_or(self@.next_id),
                control,
                function_type,
            );
        }
        if self.phase() != Phase::Idle {
            return Err(StructureError::NestedFunction);
        }
        let id = match function_id {
            Some(v) => v,
            None => self.next_id,
        };
        let operands = vec![Operand::Bitmask(control), Operand::IdRef(function_type)];
        proof {
            assert(operands.deep_view() =~= seq![
                OperandView::Bitmask(control),
                OperandView::IdRef(function_type),
            ]);
        }
        match self.append_parts(crate::spirv::OP_FUNCTION, Some(return_type), Some(id), operands) {
            Ok(_) => Ok(id),
            Err(e) => Err(e),
        }
    }

    /// Begins a basic block in the open function. Its label has the id
    /// given, or a fresh one. Refused where no function is open and where
    /// a block is.
    pub fn begin_basic_block(&mut self, label_id: Option<Word>) -> (begun: Result<
        Word,
        StructureError,
    >)
        ensures
            match begun {
                Ok(id) => {
                    &&& id == label_id.unwrap_or(old(self)@.next_id)
                    &&& old(self)@.beginning_block(label(id)) == Ok::<BuilderView, StructureError>(
                        final(self)@,
                    )
                    &&& final(self)@.phase() == Phase::InBlock
                },
                Err(e) => {
                    &&& old(self)@.beginning_block(label(label_id.unwrap_or(old(self)@.next_id)))
                        == Err::<BuilderView, StructureError>(e)
                    &&& final(self)@ == old(self)@
                },
            },
            old(self)@.phase() == Phase::Idle ==> begun == Err::<Word, StructureError>(
                StructureError::NoOpenFunction,
            ),
            old(self)@.phase() == Phase::InBlock ==> begun == Err::<Word, StructureError>(
                StructureError::NestedBlock,
            ),
            old(self)@.phase() == Phase::InFunction ==> (begun is Ok <==> label_id.unwrap_or(
                old(self)@.next_id,
            ) < u32::MAX),
            begun is Ok ==> final(self)@.next_id == larger(
                old(self)@.next_id as nat,
                (begun->Ok_0 + 1) as nat,
            ),
            old(self)@.wf() ==> final(self)@.wf(),
    {
        proof {
            lemma_label(label_id.unwrap_or(self@.next_id));
        }
        match self.phase() {
            Phase::Idle => {
                return Err(StructureError::NoOpenFunction);
            },
            Phase::InBlock => {
                return Err(StructureError::NestedBlock);
            },
            Phase::InFunction => {},
        }
        let id = match label_id {
            Some(v) => v,
            None => self.next_id,
        };
        let operands: Vec<Operand> = Vec::new();
        proof {
            assert(operands.deep_view() =~= Seq::<OperandView>::empty());
        }
        match self.append_parts(crate::spirv::OP_LABEL, None, Some(id), operands) {
            Ok(_) => Ok(id),
            Err(e) => Err(e),
        }
    }

    /// Ends the open function and adds it to the module. Refused where no
    /// function is open, where the last basic block has no terminator,
    /// and where the function has no basic block.
    pub fn end_function(&mut self) -> (ended: Result<(), StructureError>)
        ensures
            match ended {
                Ok(_) => {
                    &&& old(self)@.ending_function() == Ok::<BuilderView, StructureError>(
                        final(self)@,
                    )
                    &&& final(self)@.phase() == Phase::Idle
                },
                Err(e) => {
                    &&& old(self)@.ending_function() == Err::<BuilderView, StructureError>(e)
                    &&& final(self)@ == old(self)@
                },
            },
            old(self)@.phase() == Phase::Idle ==> ended == Err::<(), StructureError>(
                StructureError::NoOpenFunction,
            ),
            old(self)@.phase() == Phase::InBlock ==> ended == Err::<(), StructureError>(
                StructureError::UnterminatedBlock,
            ),
            old(self)@.phase() == Phase::InFunction ==> (ended is Ok <==> old(self)@.open_blocks()
                >= 1),
            final(self)@.next_id == old(self)@.next_id,
            old(self)@.wf() ==> final(self)@.wf(),
    {
        proof {
            lemma_function_end();
        }
        match self.phase() {
            Phase::Idle => {
                return Err(StructureError::NoOpenFunction);
            },
            Phase::InBlock => {
                return Err(StructureError::UnterminatedBlock);
            },
            Phase::InFunction => {},
        }
        if self.loader.open_block_count() == 0 {
            return Err(StructureError::NoBasicBlock);
        }
        let operands: Vec<Operand> = Vec::new();
        proof {
            assert(operands.deep_view() =~= Seq::<OperandView>::empty());
        }
        self.append_parts(crate::spirv::OP_FUNCTION_END, None, None, operands)
    }

    /// Hands over the module, under a header whose bound is the next id.
    /// Refused while a function is open.
    pub fn module(self) -> (built: Result<Module, StructureError>)
        ensures
            match built {
                Ok(module) => self@.phase() == Phase::Idle && module@ == self@.module(),
                Err(e) => self@.phase() != Phase::Idle && e == StructureError::FunctionOpen,
            },
            self@.wf() && built is Ok ==> built->Ok_0@.structured() && built->Ok_0@.every(
                usable(self@.next_id),
            ),
    {
        proof {
            if self@.wf() && self@.phase() == Phase::Idle {
                lemma_built_module(self@);
            }
        }
        let bound = self.next_id;
        match self.loader.finish() {
            None => Err(StructureError::FunctionOpen),
            Some(mut module) => {
                module.header = Some(ModuleHeader::new(bound));
                assert(module@ =~= self@.module());
                Ok(module)
            },
        }
    }
}

/// Whether a call did what `outcome` says: it went well and left the
/// builder as `outcome` has it, or it was refused with the error of
/// `outcome` and left the builder as it was.
pub open spec fn carried_out(
    before: BuilderView,
    after: BuilderView,
    done: Result<(), StructureError>,
    outcome: Result<BuilderView, StructureError>,
) -> bool {
    match done {
        Ok(_) => outcome == Ok::<BuilderView, StructureError>(after),
        Err(e) => outcome == Err::<BuilderView, StructureError>(e) && after == before,
    }
}

/// Whether a call that hands out a fresh id did what `outcome` says, and
/// returned the id that was next.
pub open spec fn carried_out_with_id(
    before: BuilderView,
    after: BuilderView,
    done: Result<Word, StructureError>,
    outcome: Result<BuilderView, StructureError>,
) -> bool {
    match done {
        Ok(id) => id == before.next_id && outcome == Ok::<BuilderView, StructureError>(after),
        Err(e) => outcome == Err::<BuilderView, StructureError>(e) && after == before,
    }
}

/// References to the given ids, in order.
pub open spec fn id_refs(ids: Seq<u32>) -> Seq<OperandView> {
    Seq::new(ids.len(), |i: int| OperandView::IdRef(ids[i]))
}

/// The given numbers as 32-bit literals, in order.
pub open spec fn literals(values: Seq<u32>) -> Seq<OperandView> {
    Seq::new(values.len(), |i: int| OperandView::LiteralInt32(values[i]))
}

/// Adds a reference to each of the ids at the end of the operands.
pub fn push_id_refs(operands: &mut Vec<Operand>, ids: &Vec<Word>)
    ensures
        final(operands).deep_view() == old(operands).deep_view() + id_refs(ids@),
{
    let mut i: usize = 0;
    while i < ids.len()
        invariant
            i <= ids.len(),
            operands.deep_view() == old(operands).deep_view() + id_refs(ids@.take(i as int)),
        decreases ids.len() - i,
    {
        let ghost before = operands.deep_view();
        operands.push(Operand::IdRef(ids[i]));
        assert(operands.deep_view() =~= before.push(OperandView::IdRef(ids@[i as int])));
        assert(id_refs(ids@.take(i + 1)) =~= id_refs(ids@.take(i as int)).push(
            OperandView::IdRef(ids@[i as int]),
        ));
        assert(operands.deep_view() =~= old(operands).deep_view() + id_refs(ids@.take(i + 1)));
        i += 1;
    }
    assert(ids@.take(i as int) =~= ids@);
}

/// Adds each of the numbers as a 32-bit literal at the end of the operands.
pub fn push_literals(operands: &mut Vec<Operand>, values: &Vec<u32>)
    ensures
        final(operands).deep_view() == old(operands).deep_view() + literals(values@),
{
    let mut i: usize = 0;
    while i < values.len()
        invariant
            i <= values.len(),
            operands.deep_view() == old(operands).deep_view() + literals(values@.take(i as int)),
        decreases values.len() - i,
    {
        let ghost before = operands.deep_view();
        operands.push(Operand::LiteralInt32(values[i]));
        assert(operands.deep_view() =~= before.push(OperandView::LiteralInt32(values@[i as int])));
        assert(literals(values@.take(i + 1)) =~= literals(values@.take(i as int)).push(
            OperandView::LiteralInt32(values@[i as int]),
        ));
        assert(operands.deep_view() =~= old(operands).deep_view() + literals(
            values@.take(i + 1),
        ));
        i += 1;
    }
    assert(values@.take(i as int) =~= values@);
}

/// The instruction that opens a function.
pub open spec fn function_def(
    return_type: u32,
    id: u32,
    control: u32,
    function_type: u32,
) -> InstructionView {
    instruction(
        crate::spirv::OP_FUNCTION,
        Some(return_type),
        Some(id),
        seq![OperandView::Bitmask(control), OperandView::IdRef(function_type)],
    )
}

/// The instruction that opens a basic block.
pub open spec fn label(id: u32) -> InstructionView {
    instruction(crate::spirv::OP_LABEL, None, Some(id), Seq::empty())
}

/// The instruction that opens a function takes five words, and the bound
/// of its ids is above the three ids in it.
pub proof fn lemma_function_def(return_type: u32, id: u32, control: u32, function_type: u32)
    ensures
        function_def(return_type, id, control, function_type).word_count() == 5,
        function_def(return_type, id, control, function_type).wf(),
        function_def(return_type, id, control, function_type).id_bound() == larger(
            (return_type + 1) as nat,
            larger((id + 1) as nat, (function_type + 1) as nat),
        ),
{
    let inst = function_def(return_type, id, control, function_type);
    let operands = inst.operands;
    reveal_with_fuel(concat_words, 3);
    reveal_with_fuel(crate::mr::constructs::operands_id_bound, 3);
    assert(operands.drop_last() =~= seq![OperandView::Bitmask(control)]);
    assert(operands.drop_last().drop_last() =~= Seq::<OperandView>::empty());
}

/// A label takes two words, and the bound of its ids is above its id.
pub proof fn lemma_label(id: u32)
    ensures
        label(id).word_count() == 2,
        label(id).wf(),
        label(id).id_bound() == id + 1,
{
}

/// The instruction that ends a function takes one word and has no id.
pub proof fn lemma_function_end()
    ensures
        function_end().word_count() == 1,
        function_end().wf(),
        function_end().id_bound() == 0,
{
}

} // verus!
