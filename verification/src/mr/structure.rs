//! The shape of a finished module, and why putting its instructions in
//! their places one after another builds it again.

use crate::mr::constructs::{BasicBlockView, FunctionView, InstructionView, ModuleView};
use crate::mr::loader::{place, stays_in_block, CursorView, LoaderView};
use crate::spirv::{class_of, OpClass};
use vstd::prelude::*;

verus! {

/// The one value of an option, or nothing.
pub open spec fn opt_seq<T>(item: Option<T>) -> Seq<T> {
    match item {
        Some(v) => seq![v],
        None => Seq::empty(),
    }
}

/// Parts of a module that are made of instructions.
pub trait Listed: Sized {
    /// The instructions of the part, in the order of the binary form.
    spec fn listing(self) -> Seq<InstructionView>;
}

/// The instructions of a run of parts, those of one part after those of another.
pub open spec fn concat_listings<T: Listed>(items: Seq<T>) -> Seq<InstructionView>
    decreases items.len(),
{
    if items.len() == 0 {
        Seq::empty()
    } else {
        concat_listings(items.drop_last()) + items.last().listing()
    }
}

impl Listed for BasicBlockView {
    open spec fn listing(self) -> Seq<InstructionView> {
        opt_seq(self.label) + self.instructions
    }
}

impl Listed for FunctionView {
    open spec fn listing(self) -> Seq<InstructionView> {
        opt_seq(self.def) + concat_listings(self.basic_blocks) + opt_seq(self.end)
    }
}

impl Listed for ModuleView {
    open spec fn listing(self) -> Seq<InstructionView> {
        self.global_instructions() + concat_listings(self.functions)
    }
}

/// Whether every instruction has an opcode of the given class.
pub open spec fn all_of_class(insts: Seq<InstructionView>, class: OpClass) -> bool {
    forall|i: int| 0 <= i < insts.len() ==> class_of((#[trigger] insts[i]).opcode) == class
}

/// Whether every instruction belongs to the body of a block without ending it.
pub open spec fn all_stay_in_block(insts: Seq<InstructionView>) -> bool {
    forall|i: int| 0 <= i < insts.len() ==> stays_in_block(class_of((#[trigger] insts[i]).opcode))
}

impl BasicBlockView {
    /// Whether the block is open in the right way: it starts with a label,
    /// and no instruction of its body ends it or belongs elsewhere.
    pub open spec fn open_ok(self) -> bool {
        &&& self.label is Some
        &&& class_of(self.label->0.opcode) == OpClass::Label
        &&& all_stay_in_block(self.instructions)
    }

    /// Whether the block is complete: it starts with a label, its last
    /// instruction is a terminator, and none before it is.
    pub open spec fn complete(self) -> bool {
        &&& self.label is Some
        &&& class_of(self.label->0.opcode) == OpClass::Label
        &&& self.instructions.len() > 0
        &&& class_of(self.instructions.last().opcode) == OpClass::Terminator
        &&& all_stay_in_block(self.instructions.drop_last())
    }
}

/// Whether every block is complete.
pub open spec fn all_complete(blocks: Seq<BasicBlockView>) -> bool {
    forall|i: int| 0 <= i < blocks.len() ==> (#[trigger] blocks[i]).complete()
}

impl FunctionView {
    /// Whether the function is open in the right way: it has its
    /// definition and no end, and its blocks are complete.
    pub open spec fn open_ok(self) -> bool {
        &&& self.def is Some
        &&& class_of(self.def->0.opcode) == OpClass::Function
        &&& self.end is None
        &&& all_complete(self.basic_blocks)
    }

    /// Whether the function is complete: it has its definition, complete
    /// blocks, and its end.
    pub open spec fn complete(self) -> bool {
        &&& self.def is Some
        &&& class_of(self.def->0.opcode) == OpClass::Function
        &&& self.end is Some
        &&& class_of(self.end->0.opcode) == OpClass::FunctionEnd
        &&& all_complete(self.basic_blocks)
    }
}

impl ModuleView {
    /// Whether every instruction stands where its opcode belongs: the
    /// global ones in the sections of their opcodes, the others in complete
    /// functions.
    pub open spec fn structured(self) -> bool {
        &&& all_of_class(self.capabilities, OpClass::Capability)
        &&& all_of_class(self.extensions, OpClass::Extension)
        &&& all_of_class(self.ext_inst_imports, OpClass::ExtInstImport)
        &&& (self.memory_model is Some ==> class_of(self.memory_model->0.opcode)
            == OpClass::MemoryModel)
        &&& all_of_class(self.entry_points, OpClass::EntryPoint)
        &&& all_of_class(self.execution_modes, OpClass::ExecutionMode)
        &&& all_of_class(self.debugs, OpClass::Debug)
        &&& all_of_class(self.annotations, OpClass::Annotation)
        &&& all_of_class(self.types_global_values, OpClass::Other)
        &&& forall|i: int| 0 <= i < self.functions.len() ==> (#[trigger] self.functions[i]).complete()
    }
}

impl LoaderView {
    /// Whether the state is one that putting instructions in their places
    /// leads to: the module is structured, and what is open is open in the
    /// right way.
    pub open spec fn structured(self) -> bool {
        &&& self.module.structured()
        &&& match self.cursor {
            CursorView::Idle => true,
            CursorView::InFunction(function) => function.open_ok(),
            CursorView::InBlock(function, block) => function.open_ok() && block.open_ok(),
        }
    }
}

/// One more instruction in its place leaves the state structured.
pub proof fn lemma_place_structured(state: LoaderView, inst: InstructionView)
    requires
        state.structured(),
        place(state, inst) is Some,
    ensures
        place(state, inst)->0.structured(),
{
    let next = place(state, inst)->0;
    let class = class_of(inst.opcode);
    match state.cursor {
        CursorView::Idle => {
            if class != OpClass::Function {
                lemma_pushed_class(state.module.capabilities, inst, class);
                lemma_pushed_class(state.module.extensions, inst, class);
                lemma_pushed_class(state.module.ext_inst_imports, inst, class);
                lemma_pushed_class(state.module.entry_points, inst, class);
                lemma_pushed_class(state.module.execution_modes, inst, class);
                lemma_pushed_class(state.module.debugs, inst, class);
                lemma_pushed_class(state.module.annotations, inst, class);
                lemma_pushed_class(state.module.types_global_values, inst, class);
            }
        },
        CursorView::InFunction(function) => {
            if class == OpClass::FunctionEnd {
                let done = FunctionView { end: Some(inst), ..function };
                assert forall|i: int| 0 <= i < next.module.functions.len() implies (
                #[trigger] next.module.functions[i]).complete() by {
                    if i < state.module.functions.len() {
                        assert(next.module.functions[i] == state.module.functions[i]);
                    } else {
                        assert(next.module.functions[i] == done);
                    }
                }
            }
        },
        CursorView::InBlock(function, block) => {
            let body = block.instructions.push(inst);
            if class == OpClass::Terminator {
                let done = BasicBlockView { instructions: body, ..block };
                assert(body.drop_last() =~= block.instructions);
                let blocks = function.basic_blocks.push(done);
                assert forall|i: int| 0 <= i < blocks.len() implies (#[trigger] blocks[i]).complete() by {
                    if i < function.basic_blocks.len() {
                        assert(blocks[i] == function.basic_blocks[i]);
                    }
                }
            } else {
                assert forall|i: int| 0 <= i < body.len() implies stays_in_block(
                    class_of((#[trigger] body[i]).opcode),
                ) by {
                    if i < block.instructions.len() {
                        assert(body[i] == block.instructions[i]);
                    }
                }
            }
        },
    }
}

/// A section stays of its class when an instruction of the class joins it.
proof fn lemma_pushed_class(insts: Seq<InstructionView>, inst: InstructionView, class: OpClass)
    requires
        class_of(inst.opcode) == class,
    ensures
        all_of_class(insts, class) ==> all_of_class(insts.push(inst), class),
{
    if all_of_class(insts, class) {
        assert forall|i: int| 0 <= i < insts.push(inst).len() implies class_of(
            (#[trigger] insts.push(inst)[i]).opcode,
        ) == class by {
            if i < insts.len() {
                assert(insts.push(inst)[i] == insts[i]);
            }
        }
    }
}

/// The state after each of the instructions has been put in its place, in
/// order; `None` where one of them has no place.
pub open spec fn place_all(state: LoaderView, insts: Seq<InstructionView>) -> Option<LoaderView>
    decreases insts.len(),
{
    if insts.len() == 0 {
        Some(state)
    } else {
        match place(state, insts.first()) {
            None => None,
            Some(next) => place_all(next, insts.drop_first()),
        }
    }
}

/// Placing two runs of instructions is placing the first run, then the second.
pub proof fn lemma_place_all_append(
    state: LoaderView,
    a: Seq<InstructionView>,
    b: Seq<InstructionView>,
)
    ensures
        place_all(state, a + b) == match place_all(state, a) {
            Some(next) => place_all(next, b),
            None => None,
        },
    decreases a.len(),
{
    if a.len() == 0 {
        assert(a + b =~= b);
    } else {
        assert((a + b).first() == a.first());
        assert((a + b).drop_first() =~= a.drop_first() + b);
        match place(state, a.first()) {
            None => {},
            Some(next) => {
                lemma_place_all_append(next, a.drop_first(), b);
            },
        }
    }
}

/// Placing a run of one instruction is placing the instruction.
pub proof fn lemma_place_all_single(state: LoaderView, inst: InstructionView)
    ensures
        place_all(state, seq![inst]) == place(state, inst),
{
    assert(seq![inst].first() == inst);
    assert(seq![inst].drop_first() =~= Seq::<InstructionView>::empty());
    match place(state, inst) {
        None => {},
        Some(next) => {
            assert(place_all(next, Seq::<InstructionView>::empty()) == Some(next));
        },
    }
}

/// The state in which no function is open.
pub open spec fn idle(module: ModuleView) -> LoaderView {
    LoaderView { module, cursor: CursorView::Idle }
}

/// Whether instructions of the class make up a section that holds any
/// number of them.
pub open spec fn is_section(class: OpClass) -> bool {
    class == OpClass::Capability || class == OpClass::Extension || class == OpClass::ExtInstImport
        || class == OpClass::EntryPoint || class == OpClass::ExecutionMode || class
        == OpClass::Debug || class == OpClass::Annotation || class == OpClass::Other
}

/// The module with instructions added at the end of the section of a class.
pub open spec fn with_section(module: ModuleView, class: OpClass, insts: Seq<InstructionView>) -> ModuleView {
    match class {
        OpClass::Capability => ModuleView { capabilities: module.capabilities + insts, ..module },
        OpClass::Extension => ModuleView { extensions: module.extensions + insts, ..module },
        OpClass::ExtInstImport => ModuleView {
            ext_inst_imports: module.ext_inst_imports + insts,
            ..module
        },
        OpClass::EntryPoint => ModuleView { entry_points: module.entry_points + insts, ..module },
        OpClass::ExecutionMode => ModuleView {
            execution_modes: module.execution_modes + insts,
            ..module
        },
        OpClass::Debug => ModuleView { debugs: module.debugs + insts, ..module },
        OpClass::Annotation => ModuleView { annotations: module.annotations + insts, ..module },
        OpClass::Other => ModuleView {
            types_global_values: module.types_global_values + insts,
            ..module
        },
        _ => module,
    }
}

/// Global instructions of one class go to the end of their section.
pub proof fn lemma_place_section(module: ModuleView, class: OpClass, insts: Seq<InstructionView>)
    requires
        is_section(class),
        all_of_class(insts, class),
    ensures
        place_all(idle(module), insts) == Some(idle(with_section(module, class, insts))),
    decreases insts.len(),
{
    if insts.len() == 0 {
        assert(with_section(module, class, insts) =~= module);
    } else {
        let first = insts.first();
        let others = insts.drop_first();
        assert(class_of(insts[0].opcode) == class);
        let next = with_section(module, class, seq![first]);
        assert(place(idle(module), first)->0 =~= idle(next));
        assert forall|i: int| 0 <= i < others.len() implies class_of((#[trigger] others[i]).opcode)
            == class by {
            assert(others[i] == insts[i + 1]);
        }
        lemma_place_section(next, class, others);
        assert(seq![first] + others =~= insts);
        assert(with_section(next, class, others) =~= with_section(module, class, insts));
    }
}

/// The instructions of the body of an open block go to the end of the block.
pub proof fn lemma_place_body(
    module: ModuleView,
    function: FunctionView,
    block: BasicBlockView,
    insts: Seq<InstructionView>,
)
    requires
        all_stay_in_block(insts),
    ensures
        place_all(LoaderView { module, cursor: CursorView::InBlock(function, block) }, insts)
            == Some(
            LoaderView {
                module,
                cursor: CursorView::InBlock(
                    function,
                    BasicBlockView { instructions: block.instructions + insts, ..block },
                ),
            },
        ),
    decreases insts.len(),
{
    let state = LoaderView { module, cursor: CursorView::InBlock(function, block) };
    if insts.len() == 0 {
        assert(BasicBlockView { instructions: block.instructions + insts, ..block } =~= block);
    } else {
        let first = insts.first();
        let others = insts.drop_first();
        assert(stays_in_block(class_of(insts[0].opcode)));
        let next = BasicBlockView { instructions: block.instructions.push(first), ..block };
        assert forall|i: int| 0 <= i < others.len() implies stays_in_block(
            class_of((#[trigger] others[i]).opcode),
        ) by {
            assert(others[i] == insts[i + 1]);
        }
        lemma_place_body(module, function, next, others);
        assert(next.instructions + others =~= block.instructions + insts);
    }
}

/// The instructions of a complete block add the block to the open function.
pub proof fn lemma_place_block(module: ModuleView, function: FunctionView, block: BasicBlockView)
    requires
        block.complete(),
    ensures
        place_all(
            LoaderView { module, cursor: CursorView::InFunction(function) },
            block.listing(),
        ) == Some(
            LoaderView {
                module,
                cursor: CursorView::InFunction(
                    FunctionView { basic_blocks: function.basic_blocks.push(block), ..function },
                ),
            },
        ),
{
    let start = LoaderView { module, cursor: CursorView::InFunction(function) };
    let label = block.label->0;
    let body = block.instructions.drop_last();
    let last = block.instructions.last();
    let opened = BasicBlockView { label: Some(label), instructions: Seq::empty() };
    let in_block = LoaderView { module, cursor: CursorView::InBlock(function, opened) };
    let filled = BasicBlockView { label: Some(label), instructions: body };
    let before_last = LoaderView { module, cursor: CursorView::InBlock(function, filled) };
    assert(block.listing() =~= seq![label] + (body + seq![last]));
    lemma_place_all_append(start, seq![label], body + seq![last]);
    lemma_place_all_single(start, label);
    assert(place(start, label) == Some(in_block));
    lemma_place_all_append(in_block, body, seq![last]);
    lemma_place_body(module, function, opened, body);
    assert(opened.instructions + body =~= body);
    lemma_place_all_single(before_last, last);
    assert(body.push(last) =~= block.instructions);
    assert(BasicBlockView { instructions: body.push(last), ..filled } =~= block);
}

/// The instructions of complete blocks add the blocks to the open function.
pub proof fn lemma_place_blocks(
    module: ModuleView,
    function: FunctionView,
    blocks: Seq<BasicBlockView>,
)
    requires
        all_complete(blocks),
    ensures
        place_all(
            LoaderView { module, cursor: CursorView::InFunction(function) },
            concat_listings(blocks),
        ) == Some(
            LoaderView {
                module,
                cursor: CursorView::InFunction(
                    FunctionView { basic_blocks: function.basic_blocks + blocks, ..function },
                ),
            },
        ),
    decreases blocks.len(),
{
    let start = LoaderView { module, cursor: CursorView::InFunction(function) };
    if blocks.len() == 0 {
        assert(FunctionView { basic_blocks: function.basic_blocks + blocks, ..function }
            =~= function);
    } else {
        let before = blocks.drop_last();
        let last = blocks.last();
        assert forall|i: int| 0 <= i < before.len() implies (#[trigger] before[i]).complete() by {
            assert(before[i] == blocks[i]);
        }
        assert(blocks[blocks.len() - 1].complete());
        lemma_place_blocks(module, function, before);
        let middle = FunctionView { basic_blocks: function.basic_blocks + before, ..function };
        lemma_place_all_append(start, concat_listings(before), last.listing());
        lemma_place_block(module, middle, last);
        assert(middle.basic_blocks.push(last) =~= function.basic_blocks + blocks);
    }
}

/// The instructions of a complete function add the function to the module.
pub proof fn lemma_place_function(module: ModuleView, function: FunctionView)
    requires
        function.complete(),
    ensures
        place_all(idle(module), function.listing()) == Some(
            idle(ModuleView { functions: module.functions.push(function), ..module }),
        ),
{
    let def = function.def->0;
    let end = function.end->0;
    let opened = FunctionView { def: Some(def), basic_blocks: Seq::empty(), end: None };
    let in_function = LoaderView { module, cursor: CursorView::InFunction(opened) };
    let filled = FunctionView { def: Some(def), basic_blocks: function.basic_blocks, end: None };
    let before_end = LoaderView { module, cursor: CursorView::InFunction(filled) };
    let blocks = concat_listings(function.basic_blocks);
    assert(function.listing() =~= seq![def] + (blocks + seq![end]));
    lemma_place_all_append(idle(module), seq![def], blocks + seq![end]);
    lemma_place_all_single(idle(module), def);
    assert(place(idle(module), def) == Some(in_function));
    lemma_place_all_append(in_function, blocks, seq![end]);
    lemma_place_blocks(module, opened, function.basic_blocks);
    assert(opened.basic_blocks + function.basic_blocks =~= function.basic_blocks);
    lemma_place_all_single(before_end, end);
    assert(FunctionView { end: Some(end), ..filled } =~= function);
}

/// The instructions of complete functions add the functions to the module.
pub proof fn lemma_place_functions(module: ModuleView, functions: Seq<FunctionView>)
    requires
        forall|i: int| 0 <= i < functions.len() ==> (#[trigger] functions[i]).complete(),
    ensures
        place_all(idle(module), concat_listings(functions)) == Some(
            idle(ModuleView { functions: module.functions + functions, ..module }),
        ),
    decreases functions.len(),
{
    if functions.len() == 0 {
        assert(ModuleView { functions: module.functions + functions, ..module } =~= module);
    } else {
        let before = functions.drop_last();
        let last = functions.last();
        assert forall|i: int| 0 <= i < before.len() implies (#[trigger] before[i]).complete() by {
            assert(before[i] == functions[i]);
        }
        assert(functions[functions.len() - 1].complete());
        lemma_place_functions(module, before);
        let middle = ModuleView { functions: module.functions + before, ..module };
        lemma_place_all_append(idle(module), concat_listings(before), last.listing());
        lemma_place_function(middle, last);
        assert(middle.functions.push(last) =~= module.functions + functions);
    }
}

/// The module with the header and the sections of `module` up to and
/// including the one numbered `upto`, and nothing else.
pub open spec fn sections_upto(module: ModuleView, upto: int) -> ModuleView {
    let none = Seq::<InstructionView>::empty();
    ModuleView {
        header: module.header,
        capabilities: if upto >= 1 { module.capabilities } else { none },
        extensions: if upto >= 2 { module.extensions } else { none },
        ext_inst_imports: if upto >= 3 { module.ext_inst_imports } else { none },
        memory_model: if upto >= 4 { module.memory_model } else { None },
        entry_points: if upto >= 5 { module.entry_points } else { none },
        execution_modes: if upto >= 6 { module.execution_modes } else { none },
        debugs: if upto >= 7 { module.debugs } else { none },
        annotations: if upto >= 8 { module.annotations } else { none },
        types_global_values: if upto >= 9 { module.types_global_values } else { none },
        functions: Seq::empty(),
    }
}

/// The global instructions of the sections up to and including the one
/// numbered `upto`.
pub open spec fn globals_upto(module: ModuleView, upto: int) -> Seq<InstructionView> {
    let none = Seq::<InstructionView>::empty();
    (if upto >= 1 { module.capabilities } else { none })
        + (if upto >= 2 { module.extensions } else { none })
        + (if upto >= 3 { module.ext_inst_imports } else { none })
        + (if upto >= 4 { opt_seq(module.memory_model) } else { none })
        + (if upto >= 5 { module.entry_points } else { none })
        + (if upto >= 6 { module.execution_modes } else { none })
        + (if upto >= 7 { module.debugs } else { none })
        + (if upto >= 8 { module.annotations } else { none })
        + (if upto >= 9 { module.types_global_values } else { none })
}

/// The instructions of a section and its class, by the section's number.
pub open spec fn section_at(module: ModuleView, number: int) -> (Seq<InstructionView>, OpClass) {
    if number == 1 {
        (module.capabilities, OpClass::Capability)
    } else if number == 2 {
        (module.extensions, OpClass::Extension)
    } else if number == 3 {
        (module.ext_inst_imports, OpClass::ExtInstImport)
    } else if number == 4 {
        (opt_seq(module.memory_model), OpClass::MemoryModel)
    } else if number == 5 {
        (module.entry_points, OpClass::EntryPoint)
    } else if number == 6 {
        (module.execution_modes, OpClass::ExecutionMode)
    } else if number == 7 {
        (module.debugs, OpClass::Debug)
    } else if number == 8 {
        (module.annotations, OpClass::Annotation)
    } else {
        (module.types_global_values, OpClass::Other)
    }
}

/// The global instructions of a structured module build its sections.
pub proof fn lemma_place_globals(module: ModuleView, upto: int)
    requires
        module.structured(),
        0 <= upto <= 9,
    ensures
        place_all(idle(sections_upto(module, 0)), globals_upto(module, upto)) == Some(
            idle(sections_upto(module, upto)),
        ),
    decreases upto,
{
    let start = idle(sections_upto(module, 0));
    if upto == 0 {
        assert(globals_upto(module, 0) =~= Seq::<InstructionView>::empty());
    } else {
        lemma_place_globals(module, upto - 1);
        let (section, class) = section_at(module, upto);
        let before = sections_upto(module, upto - 1);
        assert(globals_upto(module, upto) =~= globals_upto(module, upto - 1) + section);
        lemma_place_all_append(start, globals_upto(module, upto - 1), section);
        if upto == 4 {
            match module.memory_model {
                Some(inst) => {
                    lemma_place_all_single(idle(before), inst);
                    assert(place(idle(before), inst)->0 =~= idle(sections_upto(module, upto)));
                },
                None => {
                    assert(before =~= sections_upto(module, upto));
                },
            }
        } else {
            lemma_place_section(before, class, section);
            assert(with_section(before, class, section) =~= sections_upto(module, upto));
        }
    }
}

/// Putting the instructions of a structured module in their places, one
/// after another, builds the module.
pub proof fn lemma_place_module(module: ModuleView)
    requires
        module.structured(),
    ensures
        place_all(
            idle(ModuleView { header: module.header, ..ModuleView::empty() }),
            module.listing(),
        ) == Some(idle(module)),
{
    let start = idle(ModuleView { header: module.header, ..ModuleView::empty() });
    assert(start =~= idle(sections_upto(module, 0)));
    lemma_place_globals(module, 9);
    assert(globals_upto(module, 9) =~= module.global_instructions());
    lemma_place_all_append(start, module.global_instructions(), concat_listings(module.functions));
    lemma_place_functions(sections_upto(module, 9), module.functions);
    assert(ModuleView {
        functions: sections_upto(module, 9).functions + module.functions,
        ..sections_upto(module, 9)
    } =~= module);
}

/// A property of instructions.
pub type Property = spec_fn(InstructionView) -> bool;

/// Whether each of the instructions has the property.
pub open spec fn each(insts: Seq<InstructionView>, p: Property) -> bool {
    forall|i: int| 0 <= i < insts.len() ==> p(#[trigger] insts[i])
}

/// Whether the instruction, if there is one, has the property.
pub open spec fn each_opt(inst: Option<InstructionView>, p: Property) -> bool {
    inst is Some ==> p(inst->0)
}

impl BasicBlockView {
    /// Whether every instruction of the block has the property.
    pub open spec fn every(self, p: Property) -> bool {
        each_opt(self.label, p) && each(self.instructions, p)
    }
}

impl FunctionView {
    /// Whether every instruction of the function has the property.
    pub open spec fn every(self, p: Property) -> bool {
        &&& each_opt(self.def, p)
        &&& each_opt(self.end, p)
        &&& forall|i: int|
            0 <= i < self.basic_blocks.len() ==> (#[trigger] self.basic_blocks[i]).every(p)
    }
}

impl ModuleView {
    /// Whether every instruction of the module has the property.
    pub open spec fn every(self, p: Property) -> bool {
        &&& each(self.capabilities, p)
        &&& each(self.extensions, p)
        &&& each(self.ext_inst_imports, p)
        &&& each_opt(self.memory_model, p)
        &&& each(self.entry_points, p)
        &&& each(self.execution_modes, p)
        &&& each(self.debugs, p)
        &&& each(self.annotations, p)
        &&& each(self.types_global_values, p)
        &&& forall|i: int| 0 <= i < self.functions.len() ==> (#[trigger] self.functions[i]).every(p)
    }
}

impl LoaderView {
    /// Whether every instruction of the module and of what is open has
    /// the property.
    pub open spec fn every(self, p: Property) -> bool {
        &&& self.module.every(p)
        &&& match self.cursor {
            CursorView::Idle => true,
            CursorView::InFunction(function) => function.every(p),
            CursorView::InBlock(function, block) => function.every(p) && block.every(p),
        }
    }
}

/// A run keeps a property when an instruction with the property joins it.
pub proof fn lemma_each_push(insts: Seq<InstructionView>, inst: InstructionView, p: Property)
    requires
        each(insts, p),
        p(inst),
    ensures
        each(insts.push(inst), p),
{
    assert forall|i: int| 0 <= i < insts.push(inst).len() implies p(
        #[trigger] insts.push(inst)[i],
    ) by {
        if i < insts.len() {
            assert(insts.push(inst)[i] == insts[i]);
        }
    }
}

/// Two runs with a property make one run with the property.
pub proof fn lemma_each_append(a: Seq<InstructionView>, b: Seq<InstructionView>, p: Property)
    requires
        each(a, p),
        each(b, p),
    ensures
        each(a + b, p),
{
    assert forall|i: int| 0 <= i < (a + b).len() implies p(#[trigger] (a + b)[i]) by {
        if i < a.len() {
            assert((a + b)[i] == a[i]);
        } else {
            assert((a + b)[i] == b[i - a.len()]);
        }
    }
}

/// One more instruction in its place leaves a property that it has with
/// every instruction.
pub proof fn lemma_place_every(state: LoaderView, inst: InstructionView, p: Property)
    requires
        state.every(p),
        p(inst),
        place(state, inst) is Some,
    ensures
        place(state, inst)->0.every(p),
{
    let next = place(state, inst)->0;
    let class = class_of(inst.opcode);
    match state.cursor {
        CursorView::Idle => {
            if class != OpClass::Function {
                lemma_each_push(state.module.capabilities, inst, p);
                lemma_each_push(state.module.extensions, inst, p);
                lemma_each_push(state.module.ext_inst_imports, inst, p);
                lemma_each_push(state.module.entry_points, inst, p);
                lemma_each_push(state.module.execution_modes, inst, p);
                lemma_each_push(state.module.debugs, inst, p);
                lemma_each_push(state.module.annotations, inst, p);
                lemma_each_push(state.module.types_global_values, inst, p);
            }
        },
        CursorView::InFunction(function) => {
            if class == OpClass::FunctionEnd {
                let done = FunctionView { end: Some(inst), ..function };
                assert forall|i: int| 0 <= i < next.module.functions.len() implies (
                #[trigger] next.module.functions[i]).every(p) by {
                    if i < state.module.functions.len() {
                        assert(next.module.functions[i] == state.module.functions[i]);
                    } else {
                        assert(next.module.functions[i] == done);
                    }
                }
            }
        },
        CursorView::InBlock(function, block) => {
            lemma_each_push(block.instructions, inst, p);
            if class == OpClass::Terminator {
                let done = BasicBlockView {
                    instructions: block.instructions.push(inst),
                    ..block
                };
                let blocks = function.basic_blocks.push(done);
                assert forall|i: int| 0 <= i < blocks.len() implies (#[trigger] blocks[i]).every(
                    p,
                ) by {
                    if i < function.basic_blocks.len() {
                        assert(blocks[i] == function.basic_blocks[i]);
                    }
                }
            }
        },
    }
}

/// A property that follows from one that every instruction has is one
/// that every instruction has.
pub proof fn lemma_every_implies(state: LoaderView, p: Property, q: Property)
    requires
        state.every(p),
        forall|inst: InstructionView| #[trigger] p(inst) ==> q(inst),
    ensures
        state.every(q),
{
    lemma_module_every_implies(state.module, p, q);
    match state.cursor {
        CursorView::Idle => {},
        CursorView::InFunction(function) => {
            lemma_function_every_implies(function, p, q);
        },
        CursorView::InBlock(function, block) => {
            lemma_function_every_implies(function, p, q);
            lemma_each_implies(block.instructions, p, q);
        },
    }
}

proof fn lemma_each_implies(insts: Seq<InstructionView>, p: Property, q: Property)
    requires
        each(insts, p),
        forall|inst: InstructionView| #[trigger] p(inst) ==> q(inst),
    ensures
        each(insts, q),
{
    assert forall|i: int| 0 <= i < insts.len() implies q(#[trigger] insts[i]) by {
        assert(p(insts[i]));
    }
}

proof fn lemma_function_every_implies(function: FunctionView, p: Property, q: Property)
    requires
        function.every(p),
        forall|inst: InstructionView| #[trigger] p(inst) ==> q(inst),
    ensures
        function.every(q),
{
    assert forall|i: int| 0 <= i < function.basic_blocks.len() implies (
    #[trigger] function.basic_blocks[i]).every(q) by {
        assert(function.basic_blocks[i].every(p));
        lemma_each_implies(function.basic_blocks[i].instructions, p, q);
    }
}

proof fn lemma_module_every_implies(module: ModuleView, p: Property, q: Property)
    requires
        module.every(p),
        forall|inst: InstructionView| #[trigger] p(inst) ==> q(inst),
    ensures
        module.every(q),
{
    lemma_each_implies(module.capabilities, p, q);
    lemma_each_implies(module.extensions, p, q);
    lemma_each_implies(module.ext_inst_imports, p, q);
    lemma_each_implies(module.entry_points, p, q);
    lemma_each_implies(module.execution_modes, p, q);
    lemma_each_implies(module.debugs, p, q);
    lemma_each_implies(module.annotations, p, q);
    lemma_each_implies(module.types_global_values, p, q);
    assert forall|i: int| 0 <= i < module.functions.len() implies (
    #[trigger] module.functions[i]).every(q) by {
        assert(module.functions[i].every(p));
        lemma_function_every_implies(module.functions[i], p, q);
    }
}

/// A property that every instruction of a block has is one that each
/// instruction of its listing has.
pub proof fn lemma_block_listing_each(block: BasicBlockView, p: Property)
    requires
        block.every(p),
    ensures
        each(block.listing(), p),
{
    lemma_each_append(opt_seq(block.label), block.instructions, p);
}

proof fn lemma_blocks_listing_each(blocks: Seq<BasicBlockView>, p: Property)
    requires
        forall|i: int| 0 <= i < blocks.len() ==> (#[trigger] blocks[i]).every(p),
    ensures
        each(concat_listings(blocks), p),
    decreases blocks.len(),
{
    if blocks.len() > 0 {
        assert forall|i: int| 0 <= i < blocks.drop_last().len() implies (
        #[trigger] blocks.drop_last()[i]).every(p) by {
            assert(blocks.drop_last()[i] == blocks[i]);
        }
        lemma_blocks_listing_each(blocks.drop_last(), p);
        assert(blocks[blocks.len() - 1].every(p));
        lemma_block_listing_each(blocks.last(), p);
        lemma_each_append(concat_listings(blocks.drop_last()), blocks.last().listing(), p);
    }
}

/// A property that every instruction of a function has is one that each
/// instruction of its listing has.
pub proof fn lemma_function_listing_each(function: FunctionView, p: Property)
    requires
        function.every(p),
    ensures
        each(function.listing(), p),
{
    lemma_blocks_listing_each(function.basic_blocks, p);
    lemma_each_append(opt_seq(function.def), concat_listings(function.basic_blocks), p);
    lemma_each_append(
        opt_seq(function.def) + concat_listings(function.basic_blocks),
        opt_seq(function.end),
        p,
    );
}

proof fn lemma_functions_listing_each(functions: Seq<FunctionView>, p: Property)
    requires
        forall|i: int| 0 <= i < functions.len() ==> (#[trigger] functions[i]).every(p),
    ensures
        each(concat_listings(functions), p),
    decreases functions.len(),
{
    if functions.len() > 0 {
        assert forall|i: int| 0 <= i < functions.drop_last().len() implies (
        #[trigger] functions.drop_last()[i]).every(p) by {
            assert(functions.drop_last()[i] == functions[i]);
        }
        lemma_functions_listing_each(functions.drop_last(), p);
        assert(functions[functions.len() - 1].every(p));
        lemma_function_listing_each(functions.last(), p);
        lemma_each_append(concat_listings(functions.drop_last()), functions.last().listing(), p);
    }
}

/// A property that every instruction of a module has is one that each
/// instruction of its listing has.
pub proof fn lemma_module_listing_each(module: ModuleView, p: Property)
    requires
        module.every(p),
    ensures
        each(module.listing(), p),
{
    let s1 = module.capabilities;
    let s2 = s1 + module.extensions;
    let s3 = s2 + module.ext_inst_imports;
    let s4 = s3 + (match module.memory_model {
        Some(inst) => seq![inst],
        None => Seq::empty(),
    });
    let s5 = s4 + module.entry_points;
    let s6 = s5 + module.execution_modes;
    let s7 = s6 + module.debugs;
    let s8 = s7 + module.annotations;
    let s9 = s8 + module.types_global_values;
    lemma_each_append(s1, module.extensions, p);
    lemma_each_append(s2, module.ext_inst_imports, p);
    lemma_each_append(
        s3,
        match module.memory_model {
            Some(inst) => seq![inst],
            None => Seq::empty(),
        },
        p,
    );
    lemma_each_append(s4, module.entry_points, p);
    lemma_each_append(s5, module.execution_modes, p);
    lemma_each_append(s6, module.debugs, p);
    lemma_each_append(s7, module.annotations, p);
    lemma_each_append(s8, module.types_global_values, p);
    lemma_functions_listing_each(module.functions, p);
    lemma_each_append(s9, concat_listings(module.functions), p);
}

} // verus!
