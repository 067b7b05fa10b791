//! Module headers, instructions, basic blocks, functions and modules.

use crate::binary::encoding::{concat_words, Encoded};
use crate::mr::operand::{Operand, OperandView, Word};
use crate::spirv::{MAGIC_NUMBER, MAJOR_VERSION, MAX_WORD_COUNT, MINOR_VERSION};
use vstd::prelude::*;

verus! {

/// The five words that open a module.
#[derive(Clone, Copy, Debug, PartialEq, Eq, Structural)]
pub struct ModuleHeader {
    pub magic_number: Word,
    pub version: Word,
    pub generator: Word,
    pub bound: Word,
    pub reserved_word: Word,
}

/// The version word for a major and a minor version number.
pub open spec fn version_word(major: u32, minor: u32) -> u32 {
    (major << 16) | (minor << 8)
}

impl ModuleHeader {
    /// The header of a module of the current version whose ids all lie below `bound`.
    pub fn new(bound: Word) -> (header: ModuleHeader)
        ensures
            header == (ModuleHeader {
                magic_number: MAGIC_NUMBER,
                version: version_word(MAJOR_VERSION, MINOR_VERSION),
                generator: 0xffff_ffff,
                bound,
                reserved_word: 0,
            }),
    {
        ModuleHeader {
            magic_number: MAGIC_NUMBER,
            version: (MAJOR_VERSION << 16) | (MINOR_VERSION << 8),
            generator: 0xffff_ffff,
            bound,
            reserved_word: 0,
        }
    }
}

/// One instruction: an opcode, the ids of its result type and of its result
/// where it has them, and its operands. Its binary form never takes more
/// than 65535 words.
#[derive(Debug, PartialEq, Eq)]
pub struct Instruction {
    opcode: u16,
    result_type: Option<Word>,
    result_id: Option<Word>,
    operands: Vec<Operand>,
}

/// The mathematical value of an [`Instruction`].
#[verifier::ext_equal]
pub struct InstructionView {
    pub opcode: u16,
    pub result_type: Option<u32>,
    pub result_id: Option<u32>,
    pub operands: Seq<OperandView>,
}

/// One more than the id, where there is one; zero where there is none.
pub open spec fn id_above(id: Option<u32>) -> nat {
    match id {
        Some(v) => (v + 1) as nat,
        None => 0,
    }
}

/// The least number that is above the id in the operand, if the operand is an id.
pub open spec fn operand_id_bound(operand: OperandView) -> nat {
    match operand {
        OperandView::IdRef(v) => (v + 1) as nat,
        _ => 0,
    }
}

/// The least number that is above every id among the operands.
pub open spec fn operands_id_bound(operands: Seq<OperandView>) -> nat
    decreases operands.len(),
{
    if operands.len() == 0 {
        0
    } else {
        let before = operands_id_bound(operands.drop_last());
        let last = operand_id_bound(operands.last());
        if last > before {
            last
        } else {
            before
        }
    }
}

/// The bound of the operands is above each id among them.
pub proof fn lemma_operands_id_bound(operands: Seq<OperandView>, i: int)
    requires
        0 <= i < operands.len(),
    ensures
        operand_id_bound(operands[i]) <= operands_id_bound(operands),
    decreases operands.len(),
{
    if i < operands.len() - 1 {
        lemma_operands_id_bound(operands.drop_last(), i);
    }
}

/// A number that is above each id among the operands is at or above their bound.
pub proof fn lemma_operands_id_bound_le(operands: Seq<OperandView>, bound: nat)
    requires
        forall|i: int| 0 <= i < operands.len() ==> operand_id_bound(#[trigger] operands[i]) <= bound,
    ensures
        operands_id_bound(operands) <= bound,
    decreases operands.len(),
{
    if operands.len() > 0 {
        assert forall|i: int| 0 <= i < operands.drop_last().len() implies operand_id_bound(
            #[trigger] operands.drop_last()[i],
        ) <= bound by {
            assert(operands.drop_last()[i] == operands[i]);
        }
        lemma_operands_id_bound_le(operands.drop_last(), bound);
        assert(operand_id_bound(operands[operands.len() - 1]) <= bound);
    }
}

/// Operands without a text among them take two words each at most.
pub proof fn lemma_words_without_text(operands: Seq<OperandView>)
    requires
        forall|i: int| 0 <= i < operands.len() ==> !((#[trigger] operands[i]) is LiteralString),
    ensures
        concat_words(operands).len() <= 2 * operands.len(),
    decreases operands.len(),
{
    if operands.len() > 0 {
        assert forall|i: int| 0 <= i < operands.drop_last().len() implies !((
        #[trigger] operands.drop_last()[i]) is LiteralString) by {
            assert(operands.drop_last()[i] == operands[i]);
        }
        lemma_words_without_text(operands.drop_last());
        assert(!(operands[operands.len() - 1] is LiteralString));
    }
}

impl InstructionView {
    /// The least number that is above every id that the instruction uses:
    /// that of its result, that of its result's type, and those among its
    /// operands. Zero where it uses none.
    pub open spec fn id_bound(self) -> nat {
        let a = id_above(self.result_type);
        let b = id_above(self.result_id);
        let c = operands_id_bound(self.operands);
        if a >= b && a >= c {
            a
        } else if b >= c {
            b
        } else {
            c
        }
    }

    /// Whether the instruction uses the id: as the id of its result, as
    /// that of its result's type, or in an operand.
    pub open spec fn uses(self, id: u32) -> bool {
        ||| self.result_type == Some(id)
        ||| self.result_id == Some(id)
        ||| self.operands.contains(OperandView::IdRef(id))
    }

    /// The bound of an instruction's ids is above each id that it uses.
    pub proof fn lemma_uses_below_bound(self, id: u32)
        requires
            self.uses(id),
        ensures
            id < self.id_bound(),
    {
        if self.operands.contains(OperandView::IdRef(id)) {
            let i = choose|i: int|
                0 <= i < self.operands.len() && self.operands[i] == OperandView::IdRef(id);
            lemma_operands_id_bound(self.operands, i);
        }
    }

    /// The number of words that the instruction occupies, its first word included.
    pub open spec fn word_count(self) -> nat {
        1 + (if self.result_type is Some { 1nat } else { 0nat })
            + (if self.result_id is Some { 1nat } else { 0nat })
            + concat_words(self.operands).len()
    }

    /// Whether the word count fits the 16 bits that the first word has for it.
    pub open spec fn wf(self) -> bool {
        self.word_count() <= MAX_WORD_COUNT
    }
}

impl View for Instruction {
    type V = InstructionView;

    closed spec fn view(&self) -> InstructionView {
        InstructionView {
            opcode: self.opcode,
            result_type: self.result_type,
            result_id: self.result_id,
            operands: self.operands.deep_view(),
        }
    }
}

impl DeepView for Instruction {
    type V = InstructionView;

    open spec fn deep_view(&self) -> InstructionView {
        self@
    }
}

/// The error of [`Instruction::new`]: the instruction would take more than
/// 65535 words.
#[derive(Clone, Copy, Debug, PartialEq, Eq, Structural)]
pub struct InstructionTooLong;

impl Instruction {
    #[verifier::type_invariant]
    pub open spec fn well_formed(&self) -> bool {
        self@.wf()
    }

    /// Makes an instruction from its parts, unless its binary form would
    /// take more words than the first word can count.
    pub fn new(
        opcode: u16,
        result_type: Option<Word>,
        result_id: Option<Word>,
        operands: Vec<Operand>,
    ) -> (made: Result<Instruction, InstructionTooLong>)
        ensures
            match made {
                Ok(inst) => {
                    &&& inst@.wf()
                    &&& inst@ == (InstructionView {
                        opcode,
                        result_type,
                        result_id,
                        operands: operands.deep_view(),
                    })
                },
                Err(_) => !(InstructionView {
                    opcode,
                    result_type,
                    result_id,
                    operands: operands.deep_view(),
                }).wf(),
            },
    {
        let mut count: usize = 1;
        if result_type.is_some() {
            count += 1;
        }
        if result_id.is_some() {
            count += 1;
        }
        let ghost fixed = count;
        let mut i: usize = 0;
        while i < operands.len()
            invariant
                i <= operands.len(),
                fixed == 1 + (if result_type is Some { 1nat } else { 0nat }) + (if result_id is Some {
                    1nat
                } else {
                    0nat
                }),
                count == fixed + concat_words(operands.deep_view().take(i as int)).len(),
                count <= MAX_WORD_COUNT,
            decreases operands.len() - i,
        {
            let more = operands[i].word_count();
            proof {
                assert(operands.deep_view()[i as int] == operands@[i as int]@);
                crate::binary::encoding::lemma_concat_take_step(operands.deep_view(), i as int);
                crate::binary::encoding::lemma_concat_take_le(
                    operands.deep_view(),
                    i as int + 1,
                );
            }
            if more > MAX_WORD_COUNT - count {
                return Err(InstructionTooLong);
            }
            count += more;
            i += 1;
        }
        assert(operands.deep_view().take(i as int) =~= operands.deep_view());
        Ok(Instruction { opcode, result_type, result_id, operands })
    }

    /// Makes an instruction from parts that are known to fit.
    pub(crate) fn from_parts(
        opcode: u16,
        result_type: Option<Word>,
        result_id: Option<Word>,
        operands: Vec<Operand>,
    ) -> (inst: Instruction)
        requires
            (InstructionView {
                opcode,
                result_type,
                result_id,
                operands: operands.deep_view(),
            }).wf(),
        ensures
            inst@ == (InstructionView {
                opcode,
                result_type,
                result_id,
                operands: operands.deep_view(),
            }),
    {
        Instruction { opcode, result_type, result_id, operands }
    }

    /// The least number that is above every id that the instruction uses.
    pub fn id_bound(&self) -> (bound: u64)
        ensures
            bound == self@.id_bound(),
            bound <= 0x1_0000_0000,
    {
        let mut bound: u64 = 0;
        if let Some(v) = self.result_type {
            bound = v as u64 + 1;
        }
        if let Some(v) = self.result_id {
            if v as u64 + 1 > bound {
                bound = v as u64 + 1;
            }
        }
        let ghost fixed = bound;
        let mut most: u64 = 0;
        let mut i: usize = 0;
        while i < self.operands.len()
            invariant
                i <= self.operands.len(),
                most == operands_id_bound(self.operands.deep_view().take(i as int)),
                most <= 0x1_0000_0000,
            decreases self.operands.len() - i,
        {
            proof {
                let ops = self.operands.deep_view();
                assert(ops.take(i + 1).drop_last() =~= ops.take(i as int));
                assert(ops.take(i + 1).last() == self.operands@[i as int]@);
            }
            if let Operand::IdRef(v) = &self.operands[i] {
                if *v as u64 + 1 > most {
                    most = *v as u64 + 1;
                }
            }
            i += 1;
        }
        assert(self.operands.deep_view().take(i as int) =~= self.operands.deep_view());
        if most > bound {
            most
        } else {
            bound
        }
    }

    /// A copy of the operands.
    fn cloned_operands(&self) -> (operands: Vec<Operand>)
        ensures
            operands.deep_view() == self.operands.deep_view(),
    {
        let mut operands: Vec<Operand> = Vec::new();
        let mut i: usize = 0;
        while i < self.operands.len()
            invariant
                i <= self.operands.len(),
                operands@.len() == i,
                forall|k: int| 0 <= k < i ==> operands@[k] == self.operands@[k],
            decreases self.operands.len() - i,
        {
            operands.push(self.operands[i].clone());
            i += 1;
        }
        assert(operands.deep_view() =~= self.operands.deep_view());
        operands
    }

    /// The opcode.
    pub fn opcode(&self) -> (opcode: u16)
        ensures
            opcode == self@.opcode,
    {
        self.opcode
    }

    /// The id of the result's type, where the instruction has one.
    pub fn result_type(&self) -> (id: Option<Word>)
        ensures
            id == self@.result_type,
    {
        self.result_type
    }

    /// The id of the result, where the instruction has one.
    pub fn result_id(&self) -> (id: Option<Word>)
        ensures
            id == self@.result_id,
    {
        self.result_id
    }

    /// The operands, in order.
    pub fn operands(&self) -> (operands: &Vec<Operand>)
        ensures
            operands.deep_view() == self@.operands,
    {
        &self.operands
    }
}

impl Clone for Instruction {
    fn clone(&self) -> (copy: Instruction)
        ensures
            copy@ == self@,
    {
        proof {
            use_type_invariant(self);
        }
        Instruction {
            opcode: self.opcode,
            result_type: self.result_type,
            result_id: self.result_id,
            operands: self.cloned_operands(),
        }
    }
}

/// A straight run of instructions: a label, then the body, whose last
/// instruction ends the block.
#[derive(Clone, Debug, PartialEq, Eq)]
pub struct BasicBlock {
    /// The instruction that opens the block.
    pub label: Option<Instruction>,
    /// The instructions of the body.
    pub instructions: Vec<Instruction>,
}

/// The mathematical value of a [`BasicBlock`].
#[verifier::ext_equal]
pub struct BasicBlockView {
    pub label: Option<InstructionView>,
    pub instructions: Seq<InstructionView>,
}

impl View for BasicBlock {
    type V = BasicBlockView;

    open spec fn view(&self) -> BasicBlockView {
        BasicBlockView {
            label: self.label.deep_view(),
            instructions: self.instructions.deep_view(),
        }
    }
}

impl DeepView for BasicBlock {
    type V = BasicBlockView;

    open spec fn deep_view(&self) -> BasicBlockView {
        self@
    }
}

impl BasicBlock {
    /// A block with no label and no instructions.
    pub fn new() -> (block: BasicBlock)
        ensures
            block@ == (BasicBlockView { label: None, instructions: Seq::empty() }),
    {
        let block = BasicBlock { label: None, instructions: Vec::new() };
        assert(block@.instructions =~= Seq::empty());
        block
    }
}

/// A function: the instruction that defines it, its basic blocks, and the
/// instruction that ends it.
#[derive(Clone, Debug, PartialEq, Eq)]
pub struct Function {
    /// The instruction that opens the function.
    pub def: Option<Instruction>,
    /// The basic blocks, in order.
    pub basic_blocks: Vec<BasicBlock>,
    /// The instruction that closes the function.
    pub end: Option<Instruction>,
}

/// The mathematical value of a [`Function`].
#[verifier::ext_equal]
pub struct FunctionView {
    pub def: Option<InstructionView>,
    pub basic_blocks: Seq<BasicBlockView>,
    pub end: Option<InstructionView>,
}

impl View for Function {
    type V = FunctionView;

    open spec fn view(&self) -> FunctionView {
        FunctionView {
            def: self.def.deep_view(),
            basic_blocks: self.basic_blocks.deep_view(),
            end: self.end.deep_view(),
        }
    }
}

impl DeepView for Function {
    type V = FunctionView;

    open spec fn deep_view(&self) -> FunctionView {
        self@
    }
}

impl Function {
    /// A function with no instructions at all.
    pub fn new() -> (function: Function)
        ensures
            function@ == (FunctionView { def: None, basic_blocks: Seq::empty(), end: None }),
    {
        let function = Function { def: None, basic_blocks: Vec::new(), end: None };
        assert(function@.basic_blocks =~= Seq::empty());
        function
    }
}

/// A whole module: the header, the global instructions section by section,
/// and the functions.
#[derive(Clone, Debug, PartialEq, Eq)]
pub struct Module {
    pub header: Option<ModuleHeader>,
    pub capabilities: Vec<Instruction>,
    pub extensions: Vec<Instruction>,
    pub ext_inst_imports: Vec<Instruction>,
    pub memory_model: Option<Instruction>,
    pub entry_points: Vec<Instruction>,
    pub execution_modes: Vec<Instruction>,
    pub debugs: Vec<Instruction>,
    pub annotations: Vec<Instruction>,
    pub types_global_values: Vec<Instruction>,
    pub functions: Vec<Function>,
}

/// The mathematical value of a [`Module`].
#[verifier::ext_equal]
pub struct ModuleView {
    pub header: Option<ModuleHeader>,
    pub capabilities: Seq<InstructionView>,
    pub extensions: Seq<InstructionView>,
    pub ext_inst_imports: Seq<InstructionView>,
    pub memory_model: Option<InstructionView>,
    pub entry_points: Seq<InstructionView>,
    pub execution_modes: Seq<InstructionView>,
    pub debugs: Seq<InstructionView>,
    pub annotations: Seq<InstructionView>,
    pub types_global_values: Seq<InstructionView>,
    pub functions: Seq<FunctionView>,
}

impl ModuleView {
    /// The module that holds nothing.
    pub open spec fn empty() -> ModuleView {
        ModuleView {
            header: None,
            capabilities: Seq::empty(),
            extensions: Seq::empty(),
            ext_inst_imports: Seq::empty(),
            memory_model: None,
            entry_points: Seq::empty(),
            execution_modes: Seq::empty(),
            debugs: Seq::empty(),
            annotations: Seq::empty(),
            types_global_values: Seq::empty(),
            functions: Seq::empty(),
        }
    }

    /// The global instructions, in the order of the format's sections.
    pub open spec fn global_instructions(self) -> Seq<InstructionView> {
        self.capabilities + self.extensions + self.ext_inst_imports + (match self.memory_model {
            Some(inst) => seq![inst],
            None => Seq::empty(),
        }) + self.entry_points + self.execution_modes + self.debugs + self.annotations
            + self.types_global_values
    }
}

impl View for Module {
    type V = ModuleView;

    open spec fn view(&self) -> ModuleView {
        ModuleView {
            header: self.header,
            capabilities: self.capabilities.deep_view(),
            extensions: self.extensions.deep_view(),
            ext_inst_imports: self.ext_inst_imports.deep_view(),
            memory_model: self.memory_model.deep_view(),
            entry_points: self.entry_points.deep_view(),
            execution_modes: self.execution_modes.deep_view(),
            debugs: self.debugs.deep_view(),
            annotations: self.annotations.deep_view(),
            types_global_values: self.types_global_values.deep_view(),
            functions: self.functions.deep_view(),
        }
    }
}

impl Module {
    /// A module that holds nothing.
    pub fn new() -> (module: Module)
        ensures
            module@ == ModuleView::empty(),
    {
        let module = Module {
            header: None,
            capabilities: Vec::new(),
            extensions: Vec::new(),
            ext_inst_imports: Vec::new(),
            memory_model: None,
            entry_points: Vec::new(),
            execution_modes: Vec::new(),
            debugs: Vec::new(),
            annotations: Vec::new(),
            types_global_values: Vec::new(),
            functions: Vec::new(),
        };
        assert(module@.capabilities =~= Seq::empty());
        assert(module@.extensions =~= Seq::empty());
        assert(module@.ext_inst_imports =~= Seq::empty());
        assert(module@.entry_points =~= Seq::empty());
        assert(module@.execution_modes =~= Seq::empty());
        assert(module@.debugs =~= Seq::empty());
        assert(module@.annotations =~= Seq::empty());
        assert(module@.types_global_values =~= Seq::empty());
        assert(module@.functions =~= Seq::empty());
        module
    }
}

} // verus!
