use rspirv::binary::{assemble_str, Assemble};
use rspirv::mr::{Builder, Instruction, Operand};
use rspirv::spirv::{MAJOR_VERSION, MINOR_VERSION};
use rspirv::utils::num::bytes_to_u32_le;

const FUNCTION_CONTROL_DONT_INLINE: u32 = 0x2;
const FUNCTION_CONTROL_PURE: u32 = 0x4;
const FUNCTION_CONTROL_CONST: u32 = 0x8;

const BUILT_IN_POSITION: u32 = 0;
const BUILT_IN_POINT_SIZE: u32 = 1;
const BUILT_IN_INSTANCE_ID: u32 = 6;

const ADDRESSING_MODEL_LOGICAL: u32 = 0;
const ADDRESSING_MODEL_PHYSICAL32: u32 = 1;
const MEMORY_MODEL_SIMPLE: u32 = 0;
const MEMORY_MODEL_OPENCL: u32 = 2;

const OP_NOP: u16 = 0;
const OP_MEMORY_MODEL: u16 = 14;
const OP_TYPE_INT: u16 = 21;
const OP_IADD: u16 = 128;
const OP_TYPE_VOID: u16 = 19;
const OP_TYPE_FUNCTION: u16 = 33;
const OP_FUNCTION: u16 = 54;
const OP_FUNCTION_END: u16 = 56;
const OP_LABEL: u16 = 248;
const OP_RETURN: u16 = 253;

fn wc_op(wc: u32, op: u16) -> u32 {
    (wc << 16) | op as u32
}

#[test]
fn test_assemble_str() {
    assert_eq!(vec![0u32], assemble_str(""));
    assert_eq!(vec![bytes_to_u32_le(b"h\0\0\0")], assemble_str("h"));
    assert_eq!(vec![bytes_to_u32_le(b"hell"), 0u32], assemble_str("hell"));
    assert_eq!(
        vec![bytes_to_u32_le(b"hell"), bytes_to_u32_le(b"o\0\0\0")],
        assemble_str("hello")
    );
}

#[test]
fn test_assemble_operand_bitmask() {
    let v = FUNCTION_CONTROL_DONT_INLINE;
    assert_eq!(vec![v], Operand::Bitmask(v).assemble());
    let v = FUNCTION_CONTROL_PURE;
    assert_eq!(vec![v], Operand::Bitmask(v).assemble());
    let v = FUNCTION_CONTROL_CONST;
    assert_eq!(vec![v], Operand::Bitmask(v).assemble());
    let v = FUNCTION_CONTROL_DONT_INLINE | FUNCTION_CONTROL_CONST;
    assert_eq!(vec![v], Operand::Bitmask(v).assemble());
    let v = FUNCTION_CONTROL_DONT_INLINE | FUNCTION_CONTROL_PURE | FUNCTION_CONTROL_CONST;
    assert_eq!(vec![v], Operand::Bitmask(v).assemble());
}

#[test]
fn test_assemble_operand_enum() {
    assert_eq!(
        vec![BUILT_IN_POSITION],
        Operand::ValueEnum(BUILT_IN_POSITION).assemble()
    );
    assert_eq!(
        vec![BUILT_IN_POINT_SIZE],
        Operand::ValueEnum(BUILT_IN_POINT_SIZE).assemble()
    );
    assert_eq!(
        vec![BUILT_IN_INSTANCE_ID],
        Operand::ValueEnum(BUILT_IN_INSTANCE_ID).assemble()
    );
}

// No operands
#[test]
fn test_assemble_inst_nop() {
    assert_eq!(
        vec![wc_op(1, OP_NOP)],
        Instruction::new(OP_NOP, None, None, vec![])
            .unwrap()
            .assemble()
    );
}

// No result type and result id
#[test]
fn test_assemble_inst_memory_model() {
    let operands = vec![
        Operand::ValueEnum(ADDRESSING_MODEL_PHYSICAL32),
        Operand::ValueEnum(MEMORY_MODEL_OPENCL),
    ];
    assert_eq!(
        vec![
            wc_op(3, OP_MEMORY_MODEL),
            ADDRESSING_MODEL_PHYSICAL32,
            MEMORY_MODEL_OPENCL
        ],
        Instruction::new(OP_MEMORY_MODEL, None, None, operands)
            .unwrap()
            .assemble()
    );
}

// No result type, having result id
#[test]
fn test_assemble_inst_type_int() {
    let operands = vec![Operand::LiteralInt32(32), Operand::LiteralInt32(1)];
    assert_eq!(
        vec![wc_op(4, OP_TYPE_INT), 42, 32, 1],
        Instruction::new(OP_TYPE_INT, None, Some(42), operands)
            .unwrap()
            .assemble()
    );
}

// Having result type and id
#[test]
fn test_assemble_inst_iadd() {
    let operands = vec![Operand::IdRef(0xef), Operand::IdRef(0x78)];
    assert_eq!(
        vec![wc_op(5, OP_IADD), 0xab, 0xcd, 0xef, 0x78],
        Instruction::new(OP_IADD, Some(0xab), Some(0xcd), operands)
            .unwrap()
            .assemble()
    );
}

#[test]
fn test_assemble_function() {
    let mut b = Builder::new();
    b.memory_model(ADDRESSING_MODEL_LOGICAL, MEMORY_MODEL_SIMPLE)
        .unwrap();
    let void = b.type_void().unwrap();
    let voidfvoid = b.type_function(void, vec![void]).unwrap();
    b.begin_function(void, None, FUNCTION_CONTROL_CONST, voidfvoid)
        .unwrap();
    b.begin_basic_block(None).unwrap();
    b.ret().unwrap();
    b.end_function().unwrap();

    assert_eq!(
        vec![
            0x07230203,
            (MAJOR_VERSION << 16) | (MINOR_VERSION << 8),
            0xffffffff,
            5,
            0,
            wc_op(3, OP_MEMORY_MODEL),
            ADDRESSING_MODEL_LOGICAL,
            MEMORY_MODEL_SIMPLE,
            wc_op(2, OP_TYPE_VOID),
            1,
            wc_op(4, OP_TYPE_FUNCTION),
            2,
            1,
            1,
            wc_op(5, OP_FUNCTION),
            1,
            3,
            FUNCTION_CONTROL_CONST,
            2,
            wc_op(2, OP_LABEL),
            4,
            wc_op(1, OP_RETURN),
            wc_op(1, OP_FUNCTION_END)
        ],
        b.module().unwrap().assemble()
    );
}

#[test]
fn test_bytes_to_u32_le() {
    assert_eq!(bytes_to_u32_le(b""), 0);
    assert_eq!(bytes_to_u32_le(b"\x01"), 1);
    assert_eq!(bytes_to_u32_le(b"\x01\x02"), 0x0201);
    assert_eq!(bytes_to_u32_le(b"\x01\x02\x03\x04"), 0x0403_0201);
    assert_eq!(bytes_to_u32_le(b"\x01\x02\x03\x04\x05"), 0x0403_0201);
    assert_eq!(bytes_to_u32_le(b"hell"), 0x6c6c_6568);
}

#[test]
fn test_assemble_str_exact_words() {
    assert_eq!(assemble_str("h"), vec![0x0000_0068]);
    assert_eq!(assemble_str("hell"), vec![0x6c6c_6568, 0]);
    assert_eq!(assemble_str("hello"), vec![0x6c6c_6568, 0x0000_006f]);
    assert_eq!(assemble_str("héllo"), vec![0x6ca9_c368, 0x0000_6f6c]);
    assert_eq!(assemble_str("12345678"), vec![0x3433_3231, 0x3837_3635, 0]);
}
