//! Putting instructions in their place: the state machine that sorts a
//! stream of instructions into the sections, functions and basic blocks of
//! a module.

use crate::mr::constructs::{
    BasicBlock, BasicBlockView, Function, FunctionView, Instruction, InstructionView, Module,
    ModuleHeader, ModuleView,
};
use crate::spirv::{class_of, classify, OpClass};
use vstd::prelude::*;

verus! {

/// Where in a module the next instruction goes.
#[derive(Clone, Copy, Debug, PartialEq, Eq, Structural)]
pub enum Phase {
    /// No function is open: the next instruction is a global one, or opens a function.
    Idle,
    /// A function is open and no basic block is: the next instruction opens
    /// a block or closes the function.
    InFunction,
    /// A function and a basic block are open: the next instruction belongs
    /// to the block, and ends it if it is a terminator.
    InBlock,
}

/// The phase together with what is open in it.
#[derive(Debug)]
enum Cursor {
    Idle,
    InFunction(Function),
    InBlock(Function, BasicBlock),
}

/// The mathematical value of the loader's cursor.
#[verifier::ext_equal]
pub enum CursorView {
    Idle,
    InFunction(FunctionView),
    InBlock(FunctionView, BasicBlockView),
}

impl CursorView {
    /// The phase that the cursor is in.
    pub open spec fn phase(self) -> Phase {
        match self {
            CursorView::Idle => Phase::Idle,
            CursorView::InFunction(_) => Phase::InFunction,
            CursorView::InBlock(_, _) => Phase::InBlock,
        }
    }
}

/// The mathematical value of a [`Loader`]: the module so far, without the
/// function that is still open, and the cursor, which holds that function.
#[verifier::ext_equal]
pub struct LoaderView {
    pub module: ModuleView,
    pub cursor: CursorView,
}

/// The error of [`Loader::place`]: the instruction cannot stand at this place.
#[derive(Clone, Copy, Debug, PartialEq, Eq, Structural)]
pub struct Misplaced;

/// The module with a global instruction added to the section of its opcode;
/// `None` for an opcode that no section takes, and for a second memory model.
pub open spec fn place_global(module: ModuleView, inst: InstructionView) -> Option<ModuleView> {
    match class_of(inst.opcode) {
        OpClass::Capability => Some(
            ModuleView { capabilities: module.capabilities.push(inst), ..module },
        ),
        OpClass::Extension => Some(
            ModuleView { extensions: module.extensions.push(inst), ..module },
        ),
        OpClass::ExtInstImport => Some(
            ModuleView { ext_inst_imports: module.ext_inst_imports.push(inst), ..module },
        ),
        OpClass::MemoryModel => if module.memory_model is None {
            Some(ModuleView { memory_model: Some(inst), ..module })
        } else {
            None
        },
        OpClass::EntryPoint => Some(
            ModuleView { entry_points: module.entry_points.push(inst), ..module },
        ),
        OpClass::ExecutionMode => Some(
            ModuleView { execution_modes: module.execution_modes.push(inst), ..module },
        ),
        OpClass::Debug => Some(ModuleView { debugs: module.debugs.push(inst), ..module }),
        OpClass::Annotation => Some(
            ModuleView { annotations: module.annotations.push(inst), ..module },
        ),
        OpClass::Other => Some(
            ModuleView { types_global_values: module.types_global_values.push(inst), ..module },
        ),
        _ => None,
    }
}

/// Whether an instruction of this class belongs to the body of a block
/// without ending it.
pub open spec fn stays_in_block(class: OpClass) -> bool {
    class != OpClass::Function && class != OpClass::FunctionEnd && class != OpClass::Label
        && class != OpClass::Terminator
}

/// The state after an instruction has been put in its place, `None` where
/// it has no place in the state.
///
/// With no function open, the instruction that opens a function opens one,
/// and any other goes to the section of its opcode. In an open function
/// outside a block, a label opens a block and the instruction that ends a
/// function closes the function and adds it to the module. In an open
/// block, a terminator is the block's last instruction and adds the block
/// to the function; anything but a label or the opening or the end of a
/// function goes into the block.
pub open spec fn place(state: LoaderView, inst: InstructionView) -> Option<LoaderView> {
    let class = class_of(inst.opcode);
    match state.cursor {
        CursorView::Idle => if class == OpClass::Function {
            Some(
                LoaderView {
                    module: state.module,
                    cursor: CursorView::InFunction(
                        FunctionView { def: Some(inst), basic_blocks: Seq::empty(), end: None },
                    ),
                },
            )
        } else {
            match place_global(state.module, inst) {
                Some(module) => Some(LoaderView { module, cursor: CursorView::Idle }),
                None => None,
            }
        },
        CursorView::InFunction(function) => if class == OpClass::Label {
            Some(
                LoaderView {
                    module: state.module,
                    cursor: CursorView::InBlock(
                        function,
                        BasicBlockView { label: Some(inst), instructions: Seq::empty() },
                    ),
                },
            )
        } else if class == OpClass::FunctionEnd {
            Some(
                LoaderView {
                    module: ModuleView {
                        functions: state.module.functions.push(
                            FunctionView { end: Some(inst), ..function },
                        ),
                        ..state.module
                    },
                    cursor: CursorView::Idle,
                },
            )
        } else {
            None
        },
        CursorView::InBlock(function, block) => if class == OpClass::Terminator {
            Some(
                LoaderView {
                    module: state.module,
                    cursor: CursorView::InFunction(
                        FunctionView {
                            basic_blocks: function.basic_blocks.push(
                                BasicBlockView {
                                    instructions: block.instructions.push(inst),
                                    ..block
                                },
                            ),
                            ..function
                        },
                    ),
                },
            )
        } else if stays_in_block(class) {
            Some(
                LoaderView {
                    module: state.module,
                    cursor: CursorView::InBlock(
                        function,
                        BasicBlockView { instructions: block.instructions.push(inst), ..block },
                    ),
                },
            )
        } else {
            None
        },
    }
}

/// Adds a value at the end of a vector.
pub(crate) fn push_deep<T: DeepView>(items: &mut Vec<T>, item: T)
    ensures
        final(items).deep_view() == old(items).deep_view().push(item.deep_view()),
{
    items.push(item);
    assert(items.deep_view() =~= old(items).deep_view().push(item.deep_view()));
}

/// Sorts instructions, one after another, into a module.
#[derive(Debug)]
pub struct Loader {
    module: Module,
    cursor: Cursor,
}

impl View for Cursor {
    type V = CursorView;

    closed spec fn view(&self) -> CursorView {
        match self {
            Cursor::Idle => CursorView::Idle,
            Cursor::InFunction(f) => CursorView::InFunction(f@),
            Cursor::InBlock(f, b) => CursorView::InBlock(f@, b@),
        }
    }
}

impl View for Loader {
    type V = LoaderView;

    closed spec fn view(&self) -> LoaderView {
        LoaderView { module: self.module@, cursor: self.cursor@ }
    }
}

impl Loader {
    /// A loader for a module with the given header and nothing else.
    pub fn new(header: Option<ModuleHeader>) -> (loader: Loader)
        ensures
            loader@ == (LoaderView {
                module: ModuleView { header, ..ModuleView::empty() },
                cursor: CursorView::Idle,
            }),
    {
        let mut module = Module::new();
        module.header = header;
        Loader { module, cursor: Cursor::Idle }
    }

    /// The phase that the loader is in.
    pub fn phase(&self) -> (phase: Phase)
        ensures
            phase == self@.cursor.phase(),
    {
        match &self.cursor {
            Cursor::Idle => Phase::Idle,
            Cursor::InFunction(_) => Phase::InFunction,
            Cursor::InBlock(_, _) => Phase::InBlock,
        }
    }

    /// Puts a global instruction into the section of its opcode.
    fn place_global(&mut self, inst: Instruction) -> (placed: Result<(), Misplaced>)
        requires
            old(self)@.cursor is Idle,
        ensures
            match placed {
                Ok(_) => place_global(old(self)@.module, inst@) == Some(final(self)@.module),
                Err(_) => place_global(old(self)@.module, inst@) is None && final(self)@.module
                    == old(self)@.module,
            },
            final(self)@.cursor is Idle,
    {
        match classify(inst.opcode()) {
            OpClass::Capability => {
                push_deep(&mut self.module.capabilities, inst);
                Ok(())
            },
            OpClass::Extension => {
                push_deep(&mut self.module.extensions, inst);
                Ok(())
            },
            OpClass::ExtInstImport => {
                push_deep(&mut self.module.ext_inst_imports, inst);
                Ok(())
            },
            OpClass::MemoryModel => {
                if self.module.memory_model.is_none() {
                    self.module.memory_model = Some(inst);
                    Ok(())
                } else {
                    Err(Misplaced)
                }
            },
            OpClass::EntryPoint => {
                push_deep(&mut self.module.entry_points, inst);
                Ok(())
            },
            OpClass::ExecutionMode => {
                push_deep(&mut self.module.execution_modes, inst);
                Ok(())
            },
            OpClass::Debug => {
                push_deep(&mut self.module.debugs, inst);
                Ok(())
            },
            OpClass::Annotation => {
                push_deep(&mut self.module.annotations, inst);
                Ok(())
            },
            OpClass::Other => {
                push_deep(&mut self.module.types_global_values, inst);
                Ok(())
            },
            _ => Err(Misplaced),
        }
    }

    /// Puts the next instruction in its place. An instruction that has no
    /// place is dropped, and the loader stays as it was.
    pub fn place(&mut self, inst: Instruction) -> (placed: Result<(), Misplaced>)
        ensures
            match placed {
                Ok(_) => place(old(self)@, inst@) == Some(final(self)@),
                Err(_) => place(old(self)@, inst@) is None && final(self)@ == old(self)@,
            },
    {
        let class = classify(inst.opcode());
        let mut cursor = Cursor::Idle;
        core::mem::swap(&mut self.cursor, &mut cursor);
        match cursor {
            Cursor::Idle => {
                if class == OpClass::Function {
                    let function = Function {
                        def: Some(inst),
                        basic_blocks: Vec::new(),
                        end: None,
                    };
                    assert(function@.basic_blocks =~= Seq::empty());
                    self.cursor = Cursor::InFunction(function);
                    Ok(())
                } else {
                    self.place_global(inst)
                }
            },
            Cursor::InFunction(mut function) => {
                if class == OpClass::Label {
                    let block = BasicBlock { label: Some(inst), instructions: Vec::new() };
                    assert(block@.instructions =~= Seq::empty());
                    self.cursor = Cursor::InBlock(function, block);
                    Ok(())
                } else if class == OpClass::FunctionEnd {
                    function.end = Some(inst);
                    push_deep(&mut self.module.functions, function);
                    Ok(())
                } else {
                    self.cursor = Cursor::InFunction(function);
                    Err(Misplaced)
                }
            },
            Cursor::InBlock(mut function, mut block) => {
                if class == OpClass::Terminator {
                    push_deep(&mut block.instructions, inst);
                    push_deep(&mut function.basic_blocks, block);
                    self.cursor = Cursor::InFunction(function);
                    Ok(())
                } else if class == OpClass::Function || class == OpClass::FunctionEnd || class
                    == OpClass::Label {
                    self.cursor = Cursor::InBlock(function, block);
                    Err(Misplaced)
                } else {
                    push_deep(&mut block.instructions, inst);
                    self.cursor = Cursor::InBlock(function, block);
                    Ok(())
                }
            },
        }
    }

    /// The number of complete blocks of the function that is open; zero
    /// where none is.
    pub fn open_block_count(&self) -> (count: usize)
        ensures
            count == match self@.cursor {
                CursorView::Idle => 0,
                CursorView::InFunction(function) => function.basic_blocks.len(),
                CursorView::InBlock(function, _) => function.basic_blocks.len(),
            },
    {
        match &self.cursor {
            Cursor::Idle => 0,
            Cursor::InFunction(function) => function.basic_blocks.len(),
            Cursor::InBlock(function, _) => function.basic_blocks.len(),
        }
    }

    /// The module, where no function is open; `None` where one is.
    pub fn finish(self) -> (module: Option<Module>)
        ensures
            match module {
                Some(m) => self@.cursor is Idle && m@ == self@.module,
                None => !(self@.cursor is Idle),
            },
    {
        match self.cursor {
            Cursor::Idle => Some(self.module),
            _ => None,
        }
    }
}

} // verus!
