use rspirv::binary::Assemble;
use rspirv::mr::{
    Builder, Instruction, InstructionTooLong, Loader, Misplaced, ModuleHeader, Operand, Phase,
    StructureError,
};
use rspirv::spirv::{classify, OpClass, MAGIC_NUMBER, MAJOR_VERSION, MINOR_VERSION};

const OP_NOP: u16 = 0;
const OP_MEMORY_MODEL: u16 = 14;
const OP_CAPABILITY: u16 = 17;
const OP_TYPE_VOID: u16 = 19;
const OP_FUNCTION: u16 = 54;
const OP_FUNCTION_END: u16 = 56;
const OP_IADD: u16 = 128;
const OP_LABEL: u16 = 248;
const OP_RETURN: u16 = 253;

fn open_function(b: &mut Builder) -> u32 {
    let void = b.type_void().unwrap();
    let fty = b.type_function(void, vec![]).unwrap();
    b.begin_function(void, None, 0, fty).unwrap()
}

#[test]
fn new_builder_is_idle_and_starts_ids_at_one() {
    let mut b = Builder::new();
    assert_eq!(b.phase(), Phase::Idle);
    assert_eq!(b.bound(), 1);
    assert_eq!(b.id(), Ok(1));
    assert_eq!(b.id(), Ok(2));
    assert_eq!(b.bound(), 3);
}

#[test]
fn empty_module_has_header_only() {
    let b = Builder::new();
    let module = b.module().unwrap();
    assert_eq!(
        module.header,
        Some(ModuleHeader {
            magic_number: MAGIC_NUMBER,
            version: (MAJOR_VERSION << 16) | (MINOR_VERSION << 8),
            generator: 0xffff_ffff,
            bound: 1,
            reserved_word: 0,
        })
    );
    assert_eq!(
        module.assemble(),
        vec![
            0x07230203,
            (MAJOR_VERSION << 16) | (MINOR_VERSION << 8),
            0xffff_ffff,
            1,
            0
        ]
    );
}

#[test]
fn header_assembles_to_its_five_words() {
    let header = ModuleHeader {
        magic_number: 1,
        version: 2,
        generator: 3,
        bound: 4,
        reserved_word: 5,
    };
    assert_eq!(header.assemble(), vec![1, 2, 3, 4, 5]);
    assert_eq!(ModuleHeader::new(9).bound, 9);
    assert_eq!(ModuleHeader::new(9).magic_number, 0x07230203);
    assert_eq!(ModuleHeader::new(9).version, 0x0001_0200);
}

#[test]
fn begin_basic_block_without_function_fails() {
    let mut b = Builder::new();
    assert_eq!(
        b.begin_basic_block(None),
        Err(StructureError::NoOpenFunction)
    );
    assert_eq!(b.phase(), Phase::Idle);
    assert_eq!(b.bound(), 1);
}

#[test]
fn append_to_sealed_block_fails() {
    let mut b = Builder::new();
    open_function(&mut b);
    b.begin_basic_block(None).unwrap();
    assert_eq!(b.phase(), Phase::InBlock);
    b.ret().unwrap();
    assert_eq!(b.phase(), Phase::InFunction);
    let bound = b.bound();
    assert_eq!(
        b.instruction(OP_NOP, None, None, vec![]),
        Err(StructureError::NoOpenBlock)
    );
    assert_eq!(b.ret(), Err(StructureError::NoOpenBlock));
    assert_eq!(
        b.instruction_with_id(OP_IADD, Some(1), vec![Operand::IdRef(1), Operand::IdRef(1)]),
        Err(StructureError::NoOpenBlock)
    );
    assert_eq!(b.phase(), Phase::InFunction);
    assert_eq!(b.bound(), bound);
}

#[test]
fn append_without_any_block_fails() {
    let mut b = Builder::new();
    assert_eq!(b.ret(), Err(StructureError::NoOpenBlock));
    open_function(&mut b);
    assert_eq!(b.kill(), Err(StructureError::NoOpenBlock));
    assert_eq!(b.branch(1), Err(StructureError::NoOpenBlock));
    assert_eq!(b.unreachable(), Err(StructureError::NoOpenBlock));
    assert_eq!(b.ret_value(1), Err(StructureError::NoOpenBlock));
}

#[test]
fn end_function_with_unterminated_block_fails() {
    let mut b = Builder::new();
    open_function(&mut b);
    b.begin_basic_block(None).unwrap();
    b.instruction(OP_NOP, None, None, vec![]).unwrap();
    assert_eq!(b.end_function(), Err(StructureError::UnterminatedBlock));
    assert_eq!(b.phase(), Phase::InBlock);
    b.ret().unwrap();
    assert_eq!(b.end_function(), Ok(()));
    assert_eq!(b.phase(), Phase::Idle);
}

#[test]
fn end_function_without_function_fails() {
    let mut b = Builder::new();
    assert_eq!(b.end_function(), Err(StructureError::NoOpenFunction));
}

#[test]
fn end_function_without_block_fails() {
    let mut b = Builder::new();
    open_function(&mut b);
    assert_eq!(b.end_function(), Err(StructureError::NoBasicBlock));
    assert_eq!(b.phase(), Phase::InFunction);
}

#[test]
fn nested_function_fails() {
    let mut b = Builder::new();
    open_function(&mut b);
    let bound = b.bound();
    assert_eq!(
        b.begin_function(1, None, 0, 2),
        Err(StructureError::NestedFunction)
    );
    b.begin_basic_block(None).unwrap();
    assert_eq!(
        b.begin_function(1, None, 0, 2),
        Err(StructureError::NestedFunction)
    );
    assert_eq!(b.bound(), bound + 1);
}

#[test]
fn nested_block_fails() {
    let mut b = Builder::new();
    open_function(&mut b);
    b.begin_basic_block(None).unwrap();
    let bound = b.bound();
    assert_eq!(b.begin_basic_block(None), Err(StructureError::NestedBlock));
    assert_eq!(b.bound(), bound);
    assert_eq!(b.phase(), Phase::InBlock);
}

#[test]
fn global_while_function_open_fails() {
    let mut b = Builder::new();
    open_function(&mut b);
    let bound = b.bound();
    assert_eq!(b.capability(1), Err(StructureError::FunctionOpen));
    assert_eq!(b.type_void(), Err(StructureError::FunctionOpen));
    assert_eq!(b.memory_model(0, 0), Err(StructureError::FunctionOpen));
    assert_eq!(
        b.name(1, "x".to_string()),
        Err(StructureError::FunctionOpen)
    );
    assert_eq!(
        b.global(OP_NOP, None, None, vec![]),
        Err(StructureError::FunctionOpen)
    );
    b.begin_basic_block(None).unwrap();
    assert_eq!(b.type_bool(), Err(StructureError::FunctionOpen));
    assert_eq!(b.bound(), bound + 1);
}

#[test]
fn module_while_function_open_fails() {
    let mut b = Builder::new();
    open_function(&mut b);
    assert_eq!(b.module().err(), Some(StructureError::FunctionOpen));
}

#[test]
fn misplaced_opcodes_are_refused() {
    let mut b = Builder::new();
    assert_eq!(
        b.global(OP_LABEL, None, Some(1), vec![]),
        Err(StructureError::MisplacedOpcode)
    );
    assert_eq!(
        b.global(OP_RETURN, None, None, vec![]),
        Err(StructureError::MisplacedOpcode)
    );
    assert_eq!(
        b.global(OP_FUNCTION_END, None, None, vec![]),
        Err(StructureError::MisplacedOpcode)
    );
    assert_eq!(
        b.global(
            OP_FUNCTION,
            Some(1),
            Some(2),
            vec![Operand::Bitmask(0), Operand::IdRef(3)]
        ),
        Err(StructureError::MisplacedOpcode)
    );
    assert_eq!(b.bound(), 1);
    open_function(&mut b);
    b.begin_basic_block(None).unwrap();
    assert_eq!(
        b.instruction(OP_LABEL, None, Some(1), vec![]),
        Err(StructureError::MisplacedOpcode)
    );
    assert_eq!(
        b.instruction(OP_FUNCTION_END, None, None, vec![]),
        Err(StructureError::MisplacedOpcode)
    );
    assert_eq!(b.phase(), Phase::InBlock);
}

#[test]
fn second_memory_model_is_refused() {
    let mut b = Builder::new();
    b.memory_model(0, 1).unwrap();
    assert_eq!(b.memory_model(0, 2), Err(StructureError::MisplacedOpcode));
    let module = b.module().unwrap();
    assert_eq!(
        module.memory_model,
        Some(
            Instruction::new(
                OP_MEMORY_MODEL,
                None,
                None,
                vec![Operand::ValueEnum(0), Operand::ValueEnum(1)]
            )
            .unwrap()
        )
    );
}

#[test]
fn fresh_ids_are_never_reused() {
    let mut b = Builder::new();
    let mut seen = vec![];
    seen.push(b.type_void().unwrap());
    seen.push(b.id().unwrap());
    seen.push(b.type_int(32, 0).unwrap());
    seen.push(b.type_float(32).unwrap());
    seen.push(b.type_bool().unwrap());
    seen.push(b.type_pointer(7, seen[0]).unwrap());
    seen.push(b.constant_u32(seen[2], 42).unwrap());
    seen.push(b.type_function(seen[0], vec![seen[2], seen[3]]).unwrap());
    seen.push(b.begin_function(seen[0], None, 0, seen[7]).unwrap());
    seen.push(b.begin_basic_block(None).unwrap());
    seen.push(
        b.instruction_with_id(
            OP_IADD,
            Some(seen[2]),
            vec![Operand::IdRef(seen[6]), Operand::IdRef(seen[6])],
        )
        .unwrap(),
    );
    assert_eq!(seen, (1..=11).collect::<Vec<u32>>());
    assert_eq!(b.bound(), 12);
}

#[test]
fn given_ids_raise_the_bound() {
    let mut b = Builder::new();
    b.global(OP_TYPE_VOID, None, Some(40), vec![]).unwrap();
    assert_eq!(b.bound(), 41);
    assert_eq!(b.id(), Ok(41));
    b.name(100, "far".to_string()).unwrap();
    assert_eq!(b.bound(), 101);
    b.name(7, "near".to_string()).unwrap();
    assert_eq!(b.bound(), 101);
    assert_eq!(b.begin_function(200, Some(5), 0, 300), Ok(5));
    assert_eq!(b.bound(), 301);
    assert_eq!(b.begin_basic_block(Some(400)), Ok(400));
    assert_eq!(b.bound(), 401);
    b.ret().unwrap();
    b.end_function().unwrap();
    let module = b.module().unwrap();
    assert_eq!(module.header.unwrap().bound, 401);
}

#[test]
fn ids_run_out_at_the_largest_number() {
    let mut b = Builder::new();
    assert_eq!(
        b.name(u32::MAX, "top".to_string()),
        Err(StructureError::IdsExhausted)
    );
    assert_eq!(b.bound(), 1);
    b.name(u32::MAX - 1, "almost".to_string()).unwrap();
    assert_eq!(b.bound(), u32::MAX);
    assert_eq!(b.id(), Err(StructureError::IdsExhausted));
    assert_eq!(b.type_void(), Err(StructureError::IdsExhausted));
    assert_eq!(
        b.begin_function(1, None, 0, 2),
        Err(StructureError::IdsExhausted)
    );
    assert_eq!(b.begin_function(1, Some(3), 0, 2), Ok(3));
    assert_eq!(
        b.begin_basic_block(None),
        Err(StructureError::IdsExhausted)
    );
    assert_eq!(b.phase(), Phase::InFunction);
    assert_eq!(b.bound(), u32::MAX);
}

#[test]
fn too_long_instruction_is_refused() {
    let mut b = Builder::new();
    let operands: Vec<Operand> = (0..65535).map(|_| Operand::LiteralInt32(0)).collect();
    assert_eq!(
        b.global(OP_NOP, None, None, operands),
        Err(StructureError::InstructionTooLong)
    );
    let operands: Vec<Operand> = (0..65534).map(|_| Operand::LiteralInt32(0)).collect();
    assert_eq!(b.global(OP_NOP, None, None, operands), Ok(()));
    let module = b.module().unwrap();
    let words = module.assemble();
    assert_eq!(words.len(), 5 + 65535);
    assert_eq!(words[5], 0xffff_0000);
}

#[test]
fn instruction_word_count_limit() {
    let long = "x".repeat(4 * 65534);
    assert_eq!(
        Instruction::new(OP_NOP, None, None, vec![Operand::LiteralString(long)]).err(),
        Some(InstructionTooLong)
    );
    let fits = "x".repeat(4 * 65534 - 1);
    let inst = Instruction::new(OP_NOP, None, None, vec![Operand::LiteralString(fits)]).unwrap();
    assert_eq!(inst.assemble().len(), 65535);
    assert_eq!(
        Instruction::new(
            OP_NOP,
            Some(1),
            Some(2),
            (0..32767).map(|_| Operand::LiteralInt64(1)).collect()
        )
        .err(),
        Some(InstructionTooLong)
    );
    let inst = Instruction::new(
        OP_NOP,
        Some(1),
        Some(2),
        (0..32766).map(|_| Operand::LiteralInt64(1)).collect(),
    )
    .unwrap();
    let words = inst.assemble();
    assert_eq!(words.len(), 65535);
    assert_eq!(words[0] >> 16, 65535);
}

#[test]
fn instruction_getters_and_id_bound() {
    let inst = Instruction::new(
        OP_IADD,
        Some(3),
        Some(9),
        vec![Operand::IdRef(4), Operand::LiteralInt32(1000), Operand::IdRef(2)],
    )
    .unwrap();
    assert_eq!(inst.opcode(), OP_IADD);
    assert_eq!(inst.result_type(), Some(3));
    assert_eq!(inst.result_id(), Some(9));
    assert_eq!(inst.operands().len(), 3);
    assert_eq!(inst.id_bound(), 10);
    assert_eq!(inst.clone(), inst);
    let inst = Instruction::new(OP_NOP, None, None, vec![Operand::IdRef(u32::MAX)]).unwrap();
    assert_eq!(inst.id_bound(), 0x1_0000_0000);
    let inst = Instruction::new(OP_NOP, None, None, vec![Operand::LiteralInt32(5)]).unwrap();
    assert_eq!(inst.id_bound(), 0);
}

#[test]
fn word_count_is_in_the_high_half_of_the_first_word() {
    let operands = vec![
        Operand::LiteralString("hello".to_string()),
        Operand::LiteralInt64(7),
        Operand::IdRef(3),
    ];
    let words = Instruction::new(0x1234, Some(1), None, operands)
        .unwrap()
        .assemble();
    assert_eq!(words.len(), 7);
    assert_eq!(words[0] >> 16, 7);
    assert_eq!(words[0] & 0xffff, 0x1234);
}

#[test]
fn wide_literals_assemble_low_word_first() {
    assert_eq!(
        Operand::LiteralInt64(0x1122_3344_5566_7788).assemble(),
        vec![0x5566_7788, 0x1122_3344]
    );
    assert_eq!(
        Operand::LiteralFloat64(1.0f64.to_bits()).assemble(),
        vec![0, 0x3ff0_0000]
    );
    assert_eq!(
        Operand::LiteralFloat32(1.0f32.to_bits()).assemble(),
        vec![0x3f80_0000]
    );
    assert_eq!(Operand::LiteralContextDependent(9).assemble(), vec![9]);
    assert_eq!(Operand::IdRef(0xdead).assemble(), vec![0xdead]);
    assert_eq!(Operand::LiteralInt32(u32::MAX).assemble(), vec![u32::MAX]);
    assert_eq!(Operand::LiteralInt64(1).word_count(), 2);
    assert_eq!(Operand::LiteralString("abcd".to_string()).word_count(), 2);
    assert_eq!(Operand::LiteralString("abc".to_string()).word_count(), 1);
}

#[test]
fn classes_of_opcodes() {
    assert_eq!(classify(OP_CAPABILITY), OpClass::Capability);
    assert_eq!(classify(10), OpClass::Extension);
    assert_eq!(classify(11), OpClass::ExtInstImport);
    assert_eq!(classify(OP_MEMORY_MODEL), OpClass::MemoryModel);
    assert_eq!(classify(15), OpClass::EntryPoint);
    assert_eq!(classify(16), OpClass::ExecutionMode);
    for op in [2u16, 3, 4, 5, 6, 7, 330] {
        assert_eq!(classify(op), OpClass::Debug);
    }
    for op in 71u16..=75 {
        assert_eq!(classify(op), OpClass::Annotation);
    }
    assert_eq!(classify(OP_FUNCTION), OpClass::Function);
    assert_eq!(classify(OP_FUNCTION_END), OpClass::FunctionEnd);
    assert_eq!(classify(OP_LABEL), OpClass::Label);
    for op in 249u16..=255 {
        assert_eq!(classify(op), OpClass::Terminator);
    }
    for op in [0u16, 1, 8, 19, 33, 43, 59, 128, 256] {
        assert_eq!(classify(op), OpClass::Other);
    }
}

#[test]
fn loader_places_instructions_by_opcode() {
    let make = |op: u16| Instruction::new(op, None, None, vec![]).unwrap();
    let mut loader = Loader::new(None);
    assert_eq!(loader.phase(), Phase::Idle);
    assert_eq!(loader.place(make(OP_LABEL)), Err(Misplaced));
    assert_eq!(loader.place(make(OP_RETURN)), Err(Misplaced));
    assert_eq!(loader.place(make(OP_FUNCTION_END)), Err(Misplaced));
    assert_eq!(loader.place(make(OP_CAPABILITY)), Ok(()));
    assert_eq!(loader.place(make(OP_FUNCTION)), Ok(()));
    assert_eq!(loader.phase(), Phase::InFunction);
    assert_eq!(loader.open_block_count(), 0);
    assert_eq!(loader.place(make(OP_NOP)), Err(Misplaced));
    assert_eq!(loader.place(make(OP_FUNCTION)), Err(Misplaced));
    assert_eq!(loader.place(make(OP_LABEL)), Ok(()));
    assert_eq!(loader.phase(), Phase::InBlock);
    assert_eq!(loader.place(make(OP_LABEL)), Err(Misplaced));
    assert_eq!(loader.place(make(OP_NOP)), Ok(()));
    assert_eq!(loader.place(make(OP_RETURN)), Ok(()));
    assert_eq!(loader.phase(), Phase::InFunction);
    assert_eq!(loader.open_block_count(), 1);
    assert_eq!(loader.place(make(OP_FUNCTION_END)), Ok(()));
    assert_eq!(loader.phase(), Phase::Idle);
    let module = loader.finish().unwrap();
    assert_eq!(module.capabilities.len(), 1);
    assert_eq!(module.functions.len(), 1);
    assert_eq!(module.functions[0].basic_blocks[0].instructions.len(), 2);
    let mut open = Loader::new(None);
    open.place(make(OP_FUNCTION)).unwrap();
    assert!(open.finish().is_none());
}

#[test]
fn terminators_end_the_block() {
    let mut b = Builder::new();
    open_function(&mut b);
    let first = b.begin_basic_block(None).unwrap();
    let second = b.id().unwrap();
    let third = b.id().unwrap();
    b.branch(second).unwrap();
    assert_eq!(b.phase(), Phase::InFunction);
    b.begin_basic_block(Some(second)).unwrap();
    b.branch_conditional(first, third, second, vec![]).unwrap();
    b.begin_basic_block(Some(third)).unwrap();
    b.kill().unwrap();
    b.begin_basic_block(None).unwrap();
    b.unreachable().unwrap();
    b.begin_basic_block(None).unwrap();
    b.ret_value(first).unwrap();
    b.end_function().unwrap();
    let module = b.module().unwrap();
    assert_eq!(module.functions[0].basic_blocks.len(), 5);
    for block in &module.functions[0].basic_blocks {
        assert_eq!(block.instructions.len(), 1);
        assert_eq!(
            classify(block.instructions[0].opcode()),
            OpClass::Terminator
        );
        assert_eq!(classify(block.label.as_ref().unwrap().opcode()), OpClass::Label);
    }
}
