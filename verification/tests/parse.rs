use rspirv::binary::{
    assemble_bytes, bytes_to_words, parse_bytes, parse_words, words_to_bytes, Assemble,
    DecodeError, DecodeErrorKind,
};
use rspirv::grammar::LogicalOperand::{One, Pairs, ZeroOrMore, ZeroOrOne};
use rspirv::grammar::{
    Category, Enumerant, Grammar, InstructionFormat, InvalidGrammar, LogicalOperand, OperandKind,
};
use rspirv::mr::{
    BasicBlock, Builder, Function, Instruction, Module, ModuleHeader, Operand,
};
use rspirv::spirv::{MAGIC_NUMBER, MAJOR_VERSION, MINOR_VERSION};

const ID_REF: usize = 0;
const LITERAL_INTEGER: usize = 1;
const LITERAL_STRING: usize = 2;
const ADDRESSING_MODEL: usize = 3;
const MEMORY_MODEL: usize = 4;
const FUNCTION_CONTROL: usize = 5;
const CAPABILITY: usize = 6;
const EXECUTION_MODEL: usize = 7;
const EXECUTION_MODE: usize = 8;
const MEMORY_ACCESS: usize = 9;
const DECORATION: usize = 10;
const BUILT_IN: usize = 11;
const LITERAL_INT64: usize = 12;
const LITERAL_FLOAT32: usize = 13;
const LITERAL_FLOAT64: usize = 14;
const CONTEXT_DEPENDENT: usize = 15;
const STORAGE_CLASS: usize = 16;

const OP_NOP: u16 = 0;
const OP_NAME: u16 = 5;
const OP_EXTENSION: u16 = 10;
const OP_EXT_INST_IMPORT: u16 = 11;
const OP_MEMORY_MODEL: u16 = 14;
const OP_ENTRY_POINT: u16 = 15;
const OP_EXECUTION_MODE: u16 = 16;
const OP_CAPABILITY: u16 = 17;
const OP_TYPE_VOID: u16 = 19;
const OP_TYPE_BOOL: u16 = 20;
const OP_TYPE_INT: u16 = 21;
const OP_TYPE_FLOAT: u16 = 22;
const OP_TYPE_POINTER: u16 = 32;
const OP_TYPE_FUNCTION: u16 = 33;
const OP_CONSTANT: u16 = 43;
const OP_FUNCTION: u16 = 54;
const OP_FUNCTION_END: u16 = 56;
const OP_LOAD: u16 = 61;
const OP_STORE: u16 = 62;
const OP_DECORATE: u16 = 71;
const OP_IADD: u16 = 128;
const OP_LABEL: u16 = 248;
const OP_BRANCH: u16 = 249;
const OP_BRANCH_CONDITIONAL: u16 = 250;
const OP_SWITCH: u16 = 251;
const OP_KILL: u16 = 252;
const OP_RETURN: u16 = 253;
const OP_RETURN_VALUE: u16 = 254;
const OP_UNREACHABLE: u16 = 255;
const OP_WIDE: u16 = 1000;

fn plain(name: &str, category: Category) -> OperandKind {
    OperandKind {
        name: name.to_string(),
        category,
        enumerants: vec![],
    }
}

fn flag(value: u32, parameters: Vec<usize>) -> Enumerant {
    Enumerant { value, parameters }
}

fn values(name: &str, category: Category, numbers: &[u32]) -> OperandKind {
    OperandKind {
        name: name.to_string(),
        category,
        enumerants: numbers.iter().map(|v| flag(*v, vec![])).collect(),
    }
}

fn kinds() -> Vec<OperandKind> {
    vec![
        plain("IdRef", Category::Id),
        plain("LiteralInteger", Category::LiteralInt32),
        plain("LiteralString", Category::LiteralString),
        values("AddressingModel", Category::ValueEnum, &[0, 1, 2]),
        values("MemoryModel", Category::ValueEnum, &[0, 1, 2]),
        values("FunctionControl", Category::Bitmask, &[0, 1, 2, 4, 8]),
        values("Capability", Category::ValueEnum, &[0, 1, 2, 3, 4, 5]),
        values("ExecutionModel", Category::ValueEnum, &[0, 1, 2, 3, 4, 5, 6]),
        OperandKind {
            name: "ExecutionMode".to_string(),
            category: Category::ValueEnum,
            enumerants: vec![
                flag(0, vec![LITERAL_INTEGER]),
                flag(7, vec![]),
                flag(17, vec![LITERAL_INTEGER, LITERAL_INTEGER, LITERAL_INTEGER]),
            ],
        },
        OperandKind {
            name: "MemoryAccess".to_string(),
            category: Category::Bitmask,
            enumerants: vec![
                flag(0, vec![]),
                flag(1, vec![]),
                flag(2, vec![LITERAL_INTEGER]),
                flag(4, vec![]),
            ],
        },
        OperandKind {
            name: "Decoration".to_string(),
            category: Category::ValueEnum,
            enumerants: vec![
                flag(0, vec![]),
                flag(1, vec![LITERAL_INTEGER]),
                flag(11, vec![BUILT_IN]),
                flag(30, vec![LITERAL_INTEGER]),
            ],
        },
        values("BuiltIn", Category::ValueEnum, &[0, 1, 6]),
        plain("LiteralInteger64", Category::LiteralInt64),
        plain("LiteralFloat", Category::LiteralFloat32),
        plain("LiteralFloat64", Category::LiteralFloat64),
        plain("LiteralSpecConstantOpInteger", Category::ContextDependent),
        values("StorageClass", Category::ValueEnum, &[0, 1, 2, 3, 4, 5, 6, 7]),
    ]
}

fn format(
    opname: &str,
    opcode: u16,
    has_result_type: bool,
    has_result_id: bool,
    operands: Vec<LogicalOperand>,
) -> InstructionFormat {
    InstructionFormat {
        opname: opname.to_string(),
        opcode,
        has_result_type,
        has_result_id,
        operands,
    }
}

fn formats() -> Vec<InstructionFormat> {
    vec![
        format("Nop", OP_NOP, false, false, vec![]),
        format("Name", OP_NAME, false, false, vec![One(ID_REF), One(LITERAL_STRING)]),
        format("Extension", OP_EXTENSION, false, false, vec![One(LITERAL_STRING)]),
        format("ExtInstImport", OP_EXT_INST_IMPORT, false, true, vec![One(LITERAL_STRING)]),
        format(
            "MemoryModel",
            OP_MEMORY_MODEL,
            false,
            false,
            vec![One(ADDRESSING_MODEL), One(MEMORY_MODEL)],
        ),
        format(
            "EntryPoint",
            OP_ENTRY_POINT,
            false,
            false,
            vec![
                One(EXECUTION_MODEL),
                One(ID_REF),
                One(LITERAL_STRING),
                ZeroOrMore(ID_REF),
            ],
        ),
        format(
            "ExecutionMode",
            OP_EXECUTION_MODE,
            false,
            false,
            vec![One(ID_REF), One(EXECUTION_MODE)],
        ),
        format("Capability", OP_CAPABILITY, false, false, vec![One(CAPABILITY)]),
        format("TypeVoid", OP_TYPE_VOID, false, true, vec![]),
        format("TypeBool", OP_TYPE_BOOL, false, true, vec![]),
        format(
            "TypeInt",
            OP_TYPE_INT,
            false,
            true,
            vec![One(LITERAL_INTEGER), One(LITERAL_INTEGER)],
        ),
        format("TypeFloat", OP_TYPE_FLOAT, false, true, vec![One(LITERAL_INTEGER)]),
        format(
            "TypePointer",
            OP_TYPE_POINTER,
            false,
            true,
            vec![One(STORAGE_CLASS), One(ID_REF)],
        ),
        format(
            "TypeFunction",
            OP_TYPE_FUNCTION,
            false,
            true,
            vec![One(ID_REF), ZeroOrMore(ID_REF)],
        ),
        format("Constant", OP_CONSTANT, true, true, vec![One(LITERAL_INTEGER)]),
        format(
            "Function",
            OP_FUNCTION,
            true,
            true,
            vec![One(FUNCTION_CONTROL), One(ID_REF)],
        ),
        format("FunctionEnd", OP_FUNCTION_END, false, false, vec![]),
        format(
            "Load",
            OP_LOAD,
            true,
            true,
            vec![One(ID_REF), ZeroOrOne(MEMORY_ACCESS)],
        ),
        format(
            "Store",
            OP_STORE,
            false,
            false,
            vec![One(ID_REF), One(ID_REF), ZeroOrOne(MEMORY_ACCESS)],
        ),
        format("Decorate", OP_DECORATE, false, false, vec![One(ID_REF), One(DECORATION)]),
        format("IAdd", OP_IADD, true, true, vec![One(ID_REF), One(ID_REF)]),
        format("Label", OP_LABEL, false, true, vec![]),
        format("Branch", OP_BRANCH, false, false, vec![One(ID_REF)]),
        format(
            "BranchConditional",
            OP_BRANCH_CONDITIONAL,
            false,
            false,
            vec![One(ID_REF), One(ID_REF), One(ID_REF), ZeroOrMore(LITERAL_INTEGER)],
        ),
        format(
            "Switch",
            OP_SWITCH,
            false,
            false,
            vec![One(ID_REF), One(ID_REF), Pairs(LITERAL_INTEGER, ID_REF)],
        ),
        format("Kill", OP_KILL, false, false, vec![]),
        format("Return", OP_RETURN, false, false, vec![]),
        format("ReturnValue", OP_RETURN_VALUE, false, false, vec![One(ID_REF)]),
        format("Unreachable", OP_UNREACHABLE, false, false, vec![]),
        format(
            "Wide",
            OP_WIDE,
            false,
            false,
            vec![
                One(LITERAL_INT64),
                One(LITERAL_FLOAT32),
                One(LITERAL_FLOAT64),
                One(CONTEXT_DEPENDENT),
            ],
        ),
    ]
}

fn grammar() -> Grammar {
    Grammar::new(formats(), kinds()).unwrap()
}

fn wc_op(wc: u32, op: u16) -> u32 {
    (wc << 16) | op as u32
}

fn header(bound: u32) -> Vec<u32> {
    vec![
        MAGIC_NUMBER,
        (MAJOR_VERSION << 16) | (MINOR_VERSION << 8),
        0xffffffff,
        bound,
        0,
    ]
}

fn stream(bound: u32, body: &[u32]) -> Vec<u32> {
    let mut words = header(bound);
    words.extend_from_slice(body);
    words
}

fn text(s: &[u8; 4]) -> u32 {
    u32::from_le_bytes(*s)
}

fn inst(
    opcode: u16,
    result_type: Option<u32>,
    result_id: Option<u32>,
    operands: Vec<Operand>,
) -> Instruction {
    Instruction::new(opcode, result_type, result_id, operands).unwrap()
}

fn fault(kind: DecodeErrorKind, offset: usize) -> Result<Module, DecodeError> {
    Err(DecodeError { kind, offset })
}

fn small_module() -> Module {
    let mut b = Builder::new();
    b.memory_model(0, 0).unwrap();
    let void = b.type_void().unwrap();
    let voidfvoid = b.type_function(void, vec![void]).unwrap();
    b.begin_function(void, None, 8, voidfvoid).unwrap();
    b.begin_basic_block(None).unwrap();
    b.ret().unwrap();
    b.end_function().unwrap();
    b.module().unwrap()
}

#[test]
fn grammar_rejects_unknown_kind_in_format() {
    let bad = vec![format("Bad", 1, false, false, vec![LogicalOperand::One(99)])];
    assert_eq!(Grammar::new(bad, kinds()).err(), Some(InvalidGrammar));
}

#[test]
fn grammar_rejects_unknown_kind_in_pair() {
    let bad = vec![format(
        "Bad",
        1,
        false,
        false,
        vec![LogicalOperand::Pairs(0, 17)],
    )];
    assert_eq!(Grammar::new(bad, kinds()).err(), Some(InvalidGrammar));
}

#[test]
fn grammar_rejects_unknown_kind_in_parameter() {
    let mut ks = kinds();
    ks[BUILT_IN].enumerants[0].parameters.push(17);
    assert_eq!(Grammar::new(formats(), ks).err(), Some(InvalidGrammar));
}

#[test]
fn grammar_lookup_finds_first_format() {
    let g = grammar();
    assert_eq!(g.lookup(OP_IADD).unwrap().opname, "IAdd");
    assert!(g.lookup(4242).is_none());
    assert_eq!(g.kind_count(), 17);
    assert_eq!(g.kind(MEMORY_ACCESS).name, "MemoryAccess");
}

#[test]
fn parse_gives_back_built_module() {
    let g = grammar();
    let module = small_module();
    assert!(g.check_module(&module));
    let words = module.assemble();
    assert_eq!(parse_words(&g, &words), Ok(module));
}

#[test]
fn parse_end_to_end_words() {
    let g = grammar();
    let words = stream(
        5,
        &[
            wc_op(3, OP_MEMORY_MODEL),
            0,
            0,
            wc_op(2, OP_TYPE_VOID),
            1,
            wc_op(4, OP_TYPE_FUNCTION),
            2,
            1,
            1,
            wc_op(5, OP_FUNCTION),
            1,
            3,
            8,
            2,
            wc_op(2, OP_LABEL),
            4,
            wc_op(1, OP_RETURN),
            wc_op(1, OP_FUNCTION_END),
        ],
    );
    let module = parse_words(&g, &words).unwrap();
    assert_eq!(
        module.header,
        Some(ModuleHeader {
            magic_number: MAGIC_NUMBER,
            version: (MAJOR_VERSION << 16) | (MINOR_VERSION << 8),
            generator: 0xffffffff,
            bound: 5,
            reserved_word: 0,
        })
    );
    assert_eq!(
        module.memory_model,
        Some(inst(
            OP_MEMORY_MODEL,
            None,
            None,
            vec![Operand::ValueEnum(0), Operand::ValueEnum(0)]
        ))
    );
    assert_eq!(
        module.types_global_values,
        vec![
            inst(OP_TYPE_VOID, None, Some(1), vec![]),
            inst(
                OP_TYPE_FUNCTION,
                None,
                Some(2),
                vec![Operand::IdRef(1), Operand::IdRef(1)]
            ),
        ]
    );
    assert_eq!(
        module.functions,
        vec![Function {
            def: Some(inst(
                OP_FUNCTION,
                Some(1),
                Some(3),
                vec![Operand::Bitmask(8), Operand::IdRef(2)]
            )),
            basic_blocks: vec![BasicBlock {
                label: Some(inst(OP_LABEL, None, Some(4), vec![])),
                instructions: vec![inst(OP_RETURN, None, None, vec![])],
            }],
            end: Some(inst(OP_FUNCTION_END, None, None, vec![])),
        }]
    );
    assert_eq!(module.assemble(), words);
}

#[test]
fn parse_sorts_globals_into_sections() {
    let g = grammar();
    let mut b = Builder::new();
    let void = b.type_void().unwrap();
    b.name(void, "void".to_string()).unwrap();
    b.capability(1).unwrap();
    b.decorate(void, 30, vec![7]).unwrap();
    b.extension("SPV_KHR_test".to_string()).unwrap();
    let glsl = b.ext_inst_import("GLSL.std.450".to_string()).unwrap();
    b.memory_model(0, 1).unwrap();
    let fty = b.type_function(void, vec![]).unwrap();
    let f = b.begin_function(void, None, 0, fty).unwrap();
    b.begin_basic_block(None).unwrap();
    b.ret().unwrap();
    b.end_function().unwrap();
    b.entry_point(4, f, "main".to_string(), vec![]).unwrap();
    b.execution_mode(f, 17, vec![1, 2, 3]).unwrap();
    assert_eq!(glsl, 2);
    let module = b.module().unwrap();
    assert_eq!(module.capabilities.len(), 1);
    assert_eq!(module.extensions.len(), 1);
    assert_eq!(module.ext_inst_imports.len(), 1);
    assert_eq!(module.entry_points.len(), 1);
    assert_eq!(module.execution_modes.len(), 1);
    assert_eq!(module.debugs.len(), 1);
    assert_eq!(module.annotations.len(), 1);
    assert_eq!(module.types_global_values.len(), 2);
    assert!(g.check_module(&module));
    let words = module.assemble();
    // The capability comes first, whatever the order of the calls.
    assert_eq!(words[5], wc_op(2, OP_CAPABILITY));
    assert_eq!(parse_words(&g, &words), Ok(module));
}

#[test]
fn parse_round_trip_with_every_operand_category() {
    let g = grammar();
    let mut b = Builder::new();
    b.global(
        OP_WIDE,
        None,
        None,
        vec![
            Operand::LiteralInt64(0x1122_3344_5566_7788),
            Operand::LiteralFloat32(1.5f32.to_bits()),
            Operand::LiteralFloat64((-2.25f64).to_bits()),
            Operand::LiteralContextDependent(128),
        ],
    )
    .unwrap();
    b.name(9, "héllo wörld".to_string()).unwrap();
    b.name(9, "".to_string()).unwrap();
    b.name(9, "four".to_string()).unwrap();
    let void = b.type_void().unwrap();
    let fty = b.type_function(void, vec![]).unwrap();
    b.begin_function(void, None, 2 | 4, fty).unwrap();
    b.begin_basic_block(None).unwrap();
    let loaded = b
        .instruction_with_id(
            OP_LOAD,
            Some(void),
            vec![
                Operand::IdRef(9),
                Operand::Bitmask(1 | 2),
                Operand::LiteralInt32(16),
            ],
        )
        .unwrap();
    b.instruction(
        OP_STORE,
        None,
        None,
        vec![Operand::IdRef(9), Operand::IdRef(loaded)],
    )
    .unwrap();
    let next = b.id().unwrap();
    b.instruction(
        OP_SWITCH,
        None,
        None,
        vec![
            Operand::IdRef(loaded),
            Operand::IdRef(next),
            Operand::LiteralInt32(1),
            Operand::IdRef(next),
            Operand::LiteralInt32(2),
            Operand::IdRef(next),
        ],
    )
    .unwrap();
    b.begin_basic_block(Some(next)).unwrap();
    b.branch_conditional(loaded, next, next, vec![3, 4]).unwrap();
    b.end_function().unwrap();
    let module = b.module().unwrap();
    assert!(g.check_module(&module));
    let words = module.assemble();
    assert_eq!(parse_words(&g, &words), Ok(module));
}

#[test]
fn parse_reads_wide_literals_low_word_first() {
    let g = grammar();
    let words = stream(
        1,
        &[
            wc_op(7, OP_WIDE),
            0x5566_7788,
            0x1122_3344,
            0x3fc0_0000,
            0,
            0xc002_0000,
            77,
        ],
    );
    let module = parse_words(&g, &words).unwrap();
    assert_eq!(
        module.types_global_values,
        vec![inst(
            OP_WIDE,
            None,
            None,
            vec![
                Operand::LiteralInt64(0x1122_3344_5566_7788),
                Operand::LiteralFloat32(0x3fc0_0000),
                Operand::LiteralFloat64(0xc002_0000_0000_0000),
                Operand::LiteralContextDependent(77),
            ]
        )]
    );
    assert_eq!(f32::from_bits(0x3fc0_0000), 1.5);
    assert_eq!(f64::from_bits(0xc002_0000_0000_0000), -2.25);
}

#[test]
fn parse_reads_parameters_of_enumerants() {
    let g = grammar();
    let words = stream(
        9,
        &[
            wc_op(6, OP_EXECUTION_MODE),
            3,
            17,
            8,
            4,
            2,
            wc_op(4, OP_DECORATE),
            3,
            11,
            6,
            wc_op(3, OP_DECORATE),
            3,
            0,
        ],
    );
    let module = parse_words(&g, &words).unwrap();
    assert_eq!(
        module.execution_modes,
        vec![inst(
            OP_EXECUTION_MODE,
            None,
            None,
            vec![
                Operand::IdRef(3),
                Operand::ValueEnum(17),
                Operand::LiteralInt32(8),
                Operand::LiteralInt32(4),
                Operand::LiteralInt32(2),
            ]
        )]
    );
    assert_eq!(
        module.annotations,
        vec![
            inst(
                OP_DECORATE,
                None,
                None,
                vec![
                    Operand::IdRef(3),
                    Operand::ValueEnum(11),
                    Operand::ValueEnum(6)
                ]
            ),
            inst(
                OP_DECORATE,
                None,
                None,
                vec![Operand::IdRef(3), Operand::ValueEnum(0)]
            ),
        ]
    );
}

#[test]
fn parse_reads_text_up_to_the_first_zero_byte() {
    let g = grammar();
    let words = stream(
        9,
        &[
            wc_op(4, OP_NAME),
            3,
            text(b"hell"),
            text(b"o\0\0\0"),
            wc_op(4, OP_NAME),
            3,
            text(b"hell"),
            0,
            wc_op(3, OP_NAME),
            3,
            0,
        ],
    );
    let module = parse_words(&g, &words).unwrap();
    assert_eq!(
        module.debugs,
        vec![
            inst(
                OP_NAME,
                None,
                None,
                vec![Operand::IdRef(3), Operand::LiteralString("hello".to_string())]
            ),
            inst(
                OP_NAME,
                None,
                None,
                vec![Operand::IdRef(3), Operand::LiteralString("hell".to_string())]
            ),
            inst(
                OP_NAME,
                None,
                None,
                vec![Operand::IdRef(3), Operand::LiteralString("".to_string())]
            ),
        ]
    );
}

#[test]
fn parse_fails_on_short_header() {
    let g = grammar();
    assert_eq!(
        parse_words(&g, &[MAGIC_NUMBER, 0, 0]),
        fault(DecodeErrorKind::TruncatedStream, 3)
    );
    assert_eq!(
        parse_words(&g, &[]),
        fault(DecodeErrorKind::TruncatedStream, 0)
    );
}

#[test]
fn parse_fails_on_wrong_magic() {
    let g = grammar();
    assert_eq!(
        parse_words(&g, &[0x0302_2307, 0, 0, 1, 0]),
        fault(DecodeErrorKind::InvalidMagic, 0)
    );
}

#[test]
fn parse_accepts_header_alone() {
    let g = grammar();
    let module = parse_words(&g, &header(1)).unwrap();
    assert_eq!(module.header.unwrap().bound, 1);
    assert!(module.functions.is_empty());
    assert_eq!(module.assemble(), header(1));
}

#[test]
fn parse_fails_on_unknown_opcode() {
    let g = grammar();
    let words = stream(1, &[wc_op(1, OP_NOP), wc_op(1, 4242)]);
    assert_eq!(
        parse_words(&g, &words),
        fault(DecodeErrorKind::UnknownOpcode, 6)
    );
}

#[test]
fn parse_fails_on_invalid_enumerant() {
    let g = grammar();
    let words = stream(1, &[wc_op(3, OP_MEMORY_MODEL), 77, 0]);
    assert_eq!(
        parse_words(&g, &words),
        fault(DecodeErrorKind::InvalidEnumerant, 5)
    );
}

#[test]
fn parse_fails_on_invalid_flag() {
    let g = grammar();
    let words = stream(
        9,
        &[
            wc_op(2, OP_TYPE_VOID),
            1,
            wc_op(5, OP_FUNCTION),
            1,
            3,
            16,
            2,
        ],
    );
    assert_eq!(
        parse_words(&g, &words),
        fault(DecodeErrorKind::InvalidEnumerant, 7)
    );
}

#[test]
fn parse_fails_on_unterminated_string() {
    let g = grammar();
    let words = stream(
        9,
        &[wc_op(3, OP_NAME), 3, text(b"hell"), wc_op(1, OP_NOP)],
    );
    assert_eq!(
        parse_words(&g, &words),
        fault(DecodeErrorKind::UnterminatedString, 5)
    );
}

#[test]
fn parse_fails_on_text_that_is_not_utf8() {
    let g = grammar();
    let words = stream(9, &[wc_op(3, OP_NAME), 3, 0x0000_80ff]);
    assert_eq!(
        parse_words(&g, &words),
        fault(DecodeErrorKind::InvalidString, 5)
    );
}

#[test]
fn parse_fails_on_words_left_over() {
    let g = grammar();
    let words = stream(1, &[wc_op(2, OP_NOP), 0]);
    assert_eq!(
        parse_words(&g, &words),
        fault(DecodeErrorKind::WordCountMismatch, 5)
    );
    let words = stream(9, &[wc_op(4, OP_NAME), 3, 0, 0]);
    assert_eq!(
        parse_words(&g, &words),
        fault(DecodeErrorKind::WordCountMismatch, 5)
    );
}

#[test]
fn parse_fails_on_missing_operand() {
    let g = grammar();
    let words = stream(9, &[wc_op(3, OP_TYPE_INT), 1, 32]);
    assert_eq!(
        parse_words(&g, &words),
        fault(DecodeErrorKind::WordCountMismatch, 5)
    );
    let words = stream(9, &[wc_op(1, OP_TYPE_VOID)]);
    assert_eq!(
        parse_words(&g, &words),
        fault(DecodeErrorKind::WordCountMismatch, 5)
    );
    let words = stream(9, &[wc_op(2, OP_WIDE), 1]);
    assert_eq!(
        parse_words(&g, &words),
        fault(DecodeErrorKind::WordCountMismatch, 5)
    );
    // A flag that brings an operand with it, and no word left for it.
    let words = stream(
        9,
        &[
            wc_op(2, OP_TYPE_VOID),
            1,
            wc_op(5, OP_FUNCTION),
            1,
            2,
            0,
            1,
            wc_op(2, OP_LABEL),
            3,
            wc_op(5, OP_LOAD),
            1,
            4,
            5,
            2,
        ],
    );
    assert_eq!(
        parse_words(&g, &words),
        fault(DecodeErrorKind::WordCountMismatch, 14)
    );
}

#[test]
fn parse_fails_on_half_a_pair() {
    let g = grammar();
    let words = stream(
        9,
        &[
            wc_op(2, OP_TYPE_VOID),
            1,
            wc_op(5, OP_FUNCTION),
            1,
            2,
            0,
            1,
            wc_op(2, OP_LABEL),
            3,
            wc_op(4, OP_SWITCH),
            4,
            3,
            1,
        ],
    );
    assert_eq!(
        parse_words(&g, &words),
        fault(DecodeErrorKind::WordCountMismatch, 14)
    );
}

#[test]
fn parse_fails_on_zero_word_count() {
    let g = grammar();
    let words = stream(1, &[wc_op(1, OP_NOP), OP_NOP as u32]);
    assert_eq!(
        parse_words(&g, &words),
        fault(DecodeErrorKind::WordCountMismatch, 6)
    );
}

#[test]
fn parse_fails_on_instruction_past_the_end() {
    let g = grammar();
    let words = stream(9, &[wc_op(4, OP_TYPE_INT), 1, 32]);
    assert_eq!(
        parse_words(&g, &words),
        fault(DecodeErrorKind::TruncatedStream, 5)
    );
}

#[test]
fn parse_fails_on_function_left_open() {
    let g = grammar();
    let words = stream(
        9,
        &[
            wc_op(2, OP_TYPE_VOID),
            1,
            wc_op(5, OP_FUNCTION),
            1,
            2,
            0,
            1,
            wc_op(2, OP_LABEL),
            3,
            wc_op(1, OP_RETURN),
        ],
    );
    assert_eq!(
        parse_words(&g, &words),
        fault(DecodeErrorKind::TruncatedStream, 15)
    );
}

#[test]
fn parse_fails_on_label_outside_function() {
    let g = grammar();
    let words = stream(9, &[wc_op(2, OP_LABEL), 3]);
    assert_eq!(
        parse_words(&g, &words),
        fault(DecodeErrorKind::MisplacedInstruction, 5)
    );
}

#[test]
fn parse_fails_on_terminator_outside_block() {
    let g = grammar();
    let words = stream(9, &[wc_op(1, OP_RETURN)]);
    assert_eq!(
        parse_words(&g, &words),
        fault(DecodeErrorKind::MisplacedInstruction, 5)
    );
}

#[test]
fn parse_fails_on_function_inside_function() {
    let g = grammar();
    let words = stream(
        9,
        &[
            wc_op(5, OP_FUNCTION),
            1,
            2,
            0,
            1,
            wc_op(5, OP_FUNCTION),
            1,
            3,
            0,
            1,
        ],
    );
    assert_eq!(
        parse_words(&g, &words),
        fault(DecodeErrorKind::MisplacedInstruction, 10)
    );
}

#[test]
fn parse_fails_on_instruction_between_blocks() {
    let g = grammar();
    let words = stream(
        9,
        &[
            wc_op(5, OP_FUNCTION),
            1,
            2,
            0,
            1,
            wc_op(2, OP_LABEL),
            3,
            wc_op(1, OP_RETURN),
            wc_op(1, OP_NOP),
        ],
    );
    assert_eq!(
        parse_words(&g, &words),
        fault(DecodeErrorKind::MisplacedInstruction, 13)
    );
}

#[test]
fn parse_fails_on_function_end_in_open_block() {
    let g = grammar();
    let words = stream(
        9,
        &[
            wc_op(5, OP_FUNCTION),
            1,
            2,
            0,
            1,
            wc_op(2, OP_LABEL),
            3,
            wc_op(1, OP_FUNCTION_END),
        ],
    );
    assert_eq!(
        parse_words(&g, &words),
        fault(DecodeErrorKind::MisplacedInstruction, 12)
    );
}

#[test]
fn parse_fails_on_second_memory_model() {
    let g = grammar();
    let words = stream(
        1,
        &[wc_op(3, OP_MEMORY_MODEL), 0, 0, wc_op(3, OP_MEMORY_MODEL), 0, 1],
    );
    assert_eq!(
        parse_words(&g, &words),
        fault(DecodeErrorKind::MisplacedInstruction, 8)
    );
}

#[test]
fn parse_accepts_function_without_blocks() {
    let g = grammar();
    let words = stream(
        9,
        &[wc_op(5, OP_FUNCTION), 1, 2, 0, 1, wc_op(1, OP_FUNCTION_END)],
    );
    let module = parse_words(&g, &words).unwrap();
    assert_eq!(module.functions.len(), 1);
    assert!(module.functions[0].basic_blocks.is_empty());
    assert_eq!(module.assemble(), words);
}

#[test]
fn decode_error_byte_offset() {
    let e = DecodeError {
        kind: DecodeErrorKind::UnknownOpcode,
        offset: 6,
    };
    assert_eq!(e.byte_offset(), Some(24));
    let e = DecodeError {
        kind: DecodeErrorKind::TruncatedStream,
        offset: usize::MAX,
    };
    assert_eq!(e.byte_offset(), None);
}

#[test]
fn check_accepts_what_the_format_allows() {
    let g = grammar();
    assert!(g.check(&inst(OP_NOP, None, None, vec![])));
    assert!(g.check(&inst(
        OP_LOAD,
        Some(1),
        Some(2),
        vec![Operand::IdRef(3)]
    )));
    assert!(g.check(&inst(
        OP_LOAD,
        Some(1),
        Some(2),
        vec![Operand::IdRef(3), Operand::Bitmask(1 | 4)]
    )));
    assert!(g.check(&inst(
        OP_LOAD,
        Some(1),
        Some(2),
        vec![
            Operand::IdRef(3),
            Operand::Bitmask(2),
            Operand::LiteralInt32(4)
        ]
    )));
    assert!(g.check(&inst(
        OP_SWITCH,
        None,
        None,
        vec![Operand::IdRef(3), Operand::IdRef(4)]
    )));
    assert!(g.check(&inst(
        OP_TYPE_FUNCTION,
        None,
        Some(2),
        vec![Operand::IdRef(1), Operand::IdRef(1), Operand::IdRef(1)]
    )));
}

#[test]
fn check_refuses_what_the_format_does_not_allow() {
    let g = grammar();
    // an opcode that the table does not have
    assert!(!g.check(&inst(4242, None, None, vec![])));
    // a result id where the format has none, and none where it has one
    assert!(!g.check(&inst(OP_NOP, None, Some(1), vec![])));
    assert!(!g.check(&inst(OP_TYPE_VOID, None, None, vec![])));
    assert!(!g.check(&inst(OP_TYPE_VOID, Some(1), Some(2), vec![])));
    // an operand too many, an operand too few, an operand of another category
    assert!(!g.check(&inst(OP_NOP, None, None, vec![Operand::IdRef(1)])));
    assert!(!g.check(&inst(
        OP_MEMORY_MODEL,
        None,
        None,
        vec![Operand::ValueEnum(0)]
    )));
    assert!(!g.check(&inst(
        OP_MEMORY_MODEL,
        None,
        None,
        vec![Operand::ValueEnum(0), Operand::IdRef(0)]
    )));
    // an enumerant and a flag that the kind does not have
    assert!(!g.check(&inst(
        OP_MEMORY_MODEL,
        None,
        None,
        vec![Operand::ValueEnum(0), Operand::ValueEnum(9)]
    )));
    assert!(!g.check(&inst(
        OP_LOAD,
        Some(1),
        Some(2),
        vec![Operand::IdRef(3), Operand::Bitmask(8)]
    )));
    // a flag without the operand that it brings with it
    assert!(!g.check(&inst(
        OP_LOAD,
        Some(1),
        Some(2),
        vec![Operand::IdRef(3), Operand::Bitmask(2)]
    )));
    // half a pair
    assert!(!g.check(&inst(
        OP_SWITCH,
        None,
        None,
        vec![
            Operand::IdRef(3),
            Operand::IdRef(4),
            Operand::LiteralInt32(1)
        ]
    )));
    // a text with a zero byte inside
    assert!(!g.check(&inst(
        OP_NAME,
        None,
        None,
        vec![Operand::IdRef(3), Operand::LiteralString("a\0b".to_string())]
    )));
}

#[test]
fn text_with_zero_byte_does_not_come_back() {
    let g = grammar();
    let mut b = Builder::new();
    b.name(1, "a\0b".to_string()).unwrap();
    let module = b.module().unwrap();
    assert!(!g.check_module(&module));
    let parsed = parse_words(&g, &module.assemble()).unwrap();
    assert_eq!(
        parsed.debugs,
        vec![inst(
            OP_NAME,
            None,
            None,
            vec![Operand::IdRef(1), Operand::LiteralString("a".to_string())]
        )]
    );
}

#[test]
fn bytes_and_words() {
    assert_eq!(
        words_to_bytes(&[0x0723_0203, 0x0001_0200]),
        vec![0x03, 0x02, 0x23, 0x07, 0x00, 0x02, 0x01, 0x00]
    );
    assert_eq!(
        bytes_to_words(&[0x03, 0x02, 0x23, 0x07, 0x00, 0x02, 0x01, 0x00]),
        Some(vec![0x0723_0203, 0x0001_0200])
    );
    assert_eq!(bytes_to_words(&[]), Some(vec![]));
    assert_eq!(bytes_to_words(&[1, 2, 3]), None);
    assert_eq!(bytes_to_words(&[1, 2, 3, 4, 5]), None);
}

#[test]
fn parse_bytes_gives_back_built_module() {
    let g = grammar();
    let module = small_module();
    let bytes = assemble_bytes(&module);
    assert_eq!(bytes.len(), 4 * module.assemble().len());
    assert_eq!(&bytes[0..4], &[0x03, 0x02, 0x23, 0x07]);
    assert_eq!(parse_bytes(&g, &bytes), Ok(module));
}

#[test]
fn parse_bytes_fails_inside_a_word() {
    let g = grammar();
    let mut bytes = assemble_bytes(&small_module());
    let whole = bytes.len() / 4;
    bytes.push(0);
    assert_eq!(
        parse_bytes(&g, &bytes),
        fault(DecodeErrorKind::TruncatedStream, whole)
    );
    assert_eq!(
        parse_bytes(&g, &[3, 2]),
        fault(DecodeErrorKind::TruncatedStream, 0)
    );
}

#[test]
fn parsed_module_parses_to_itself_again() {
    let g = grammar();
    // Bytes after the closing zero byte of a text are not part of the text.
    let words = stream(
        9,
        &[
            wc_op(2, OP_CAPABILITY),
            3,
            wc_op(3, OP_NAME),
            3,
            text(b"a\0zz"),
            wc_op(5, OP_FUNCTION),
            1,
            2,
            1 | 8,
            1,
            wc_op(2, OP_LABEL),
            3,
            wc_op(5, OP_LOAD),
            1,
            4,
            5,
            0,
            wc_op(1, OP_KILL),
            wc_op(1, OP_FUNCTION_END),
        ],
    );
    let module = parse_words(&g, &words).unwrap();
    assert!(g.check_module(&module));
    let again = module.assemble();
    assert_ne!(again, words);
    assert_eq!(again[9], text(b"a\0\0\0"));
    assert_eq!(parse_words(&g, &again), Ok(module));
}
