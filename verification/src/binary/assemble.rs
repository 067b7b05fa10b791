//! Assembling the in-memory representation into words.

use crate::binary::encoding::{
    concat_words, lemma_concat_append, lemma_concat_single, lemma_concat_take_step,
    lemma_header_word, opcode_of, packed_string, word_count_of, Encoded,
};
use crate::mr::constructs::{BasicBlock, Function, Instruction, Module, ModuleHeader};
use crate::mr::operand::Operand;
use crate::utils::num::{bytes_to_u32_le, word_at, word_of_bytes};
use vstd::prelude::*;
use vstd::slice::slice_subrange;
use vstd::string::StringSliceAdditionalSpecFns;

verus! {

/// Values that have a binary form.
pub trait Assemble {
    /// The words that the value stands for.
    spec fn encoding(&self) -> Seq<u32>;

    /// Assembles the value and returns its binary code.
    fn assemble(&self) -> (code: Vec<u32>)
        ensures
            code@ == self.encoding(),
    ;
}

/// Packs a text literal into words: its UTF-8 bytes, four to a word with
/// the first byte in the lowest place, the last word filled up with zero
/// bytes. A text whose bytes fill their words exactly gets one more word,
/// of zeros, so that a zero byte always closes the text.
pub fn assemble_str(s: &str) -> (words: Vec<u32>)
    ensures
        words@ == packed_string(s@),
        words@.len() == s.spec_bytes().len() / 4 + 1,
        s.spec_bytes().len() % 4 == 0 ==> words@.last() == 0,
{
    let bytes = s.as_bytes();
    let count: usize = bytes.len() / 4 + 1;
    let mut words: Vec<u32> = Vec::new();
    let mut i: usize = 0;
    while i < count
        invariant
            count == bytes@.len() / 4 + 1,
            bytes@.len() <= usize::MAX,
            i <= count,
            words@.len() == i,
            forall|k: int| 0 <= k < i ==> words@[k] == word_at(bytes@, 4 * k),
        decreases count - i,
    {
        assert(4 * i <= bytes@.len());
        let rest = slice_subrange(bytes, 4 * i, bytes.len());
        assert(word_at(rest@, 0) == word_at(bytes@, 4 * i));
        words.push(bytes_to_u32_le(rest));
        i += 1;
    }
    assert(words@ =~= packed_string(s@));
    proof {
        if bytes@.len() % 4 == 0 {
            assert(words@.last() == word_at(bytes@, 4 * (count - 1)));
            assert(word_of_bytes(0, 0, 0, 0) == 0) by (bit_vector);
        }
    }
    words
}

impl Assemble for Operand {
    open spec fn encoding(&self) -> Seq<u32> {
        self@.words()
    }

    /// A bitmask is one word, its bit pattern; an enumerant is one word,
    /// its number; no operand is less than one word.
    fn assemble(&self) -> (code: Vec<u32>)
        ensures
            code@.len() >= 1,
            *self matches Operand::Bitmask(bits) ==> code@ == seq![bits],
            *self matches Operand::ValueEnum(value) ==> code@ == seq![value],
    {
        match self {
            Operand::Bitmask(v) => vec![*v],
            Operand::ValueEnum(v) => vec![*v],
            Operand::IdRef(v) => vec![*v],
            Operand::LiteralInt32(v) => vec![*v],
            Operand::LiteralInt64(v) => vec![(*v & 0xffff_ffff) as u32, (*v >> 32) as u32],
            Operand::LiteralFloat32(v) => vec![*v],
            Operand::LiteralFloat64(v) => vec![(*v & 0xffff_ffff) as u32, (*v >> 32) as u32],
            Operand::LiteralString(s) => assemble_str(s.as_str()),
            Operand::LiteralContextDependent(v) => vec![*v],
        }
    }
}

impl Assemble for ModuleHeader {
    open spec fn encoding(&self) -> Seq<u32> {
        self.words()
    }

    fn assemble(&self) -> (code: Vec<u32>) {
        vec![self.magic_number, self.version, self.generator, self.bound, self.reserved_word]
    }
}

impl Assemble for Instruction {
    open spec fn encoding(&self) -> Seq<u32> {
        self@.words()
    }

    /// The first word of the code holds the opcode in its low half and, in
    /// its high half, the number of words of the code.
    fn assemble(&self) -> (code: Vec<u32>)
        ensures
            code@.len() == self@.word_count(),
            opcode_of(code@[0]) == self@.opcode,
            word_count_of(code@[0]) == code@.len(),
    {
        proof {
            use_type_invariant(self);
            lemma_header_word(self@.opcode, self@.word_count());
        }
        let mut code: Vec<u32> = vec![self.opcode() as u32];
        if let Some(r) = self.result_type() {
            code.push(r);
        }
        if let Some(r) = self.result_id() {
            code.push(r);
        }
        let ghost fixed = code@;
        let operands = self.operands();
        let mut i: usize = 0;
        while i < operands.len()
            invariant
                i <= operands.len(),
                code@ == fixed + concat_words(operands.deep_view().take(i as int)),
            decreases operands.len() - i,
        {
            let mut words = operands[i].assemble();
            code.append(&mut words);
            proof {
                lemma_concat_take_step(operands.deep_view(), i as int);
            }
            i += 1;
        }
        assert(operands.deep_view().take(i as int) =~= operands.deep_view());
        let count = code.len();
        assert(count == self@.word_count());
        let first = code[0] | ((count as u32) << 16);
        code.set(0, first);
        assert(code@ =~= self@.words());
        code
    }
}

/// Appends the code of each instruction, in order.
fn append_instructions(code: &mut Vec<u32>, instructions: &Vec<Instruction>)
    ensures
        final(code)@ == old(code)@ + concat_words(instructions.deep_view()),
{
    let mut i: usize = 0;
    while i < instructions.len()
        invariant
            i <= instructions.len(),
            code@ == old(code)@ + concat_words(instructions.deep_view().take(i as int)),
        decreases instructions.len() - i,
    {
        let mut words = instructions[i].assemble();
        code.append(&mut words);
        proof {
            lemma_concat_take_step(instructions.deep_view(), i as int);
        }
        i += 1;
    }
    assert(instructions.deep_view().take(i as int) =~= instructions.deep_view());
}

/// Appends the code of an instruction that may be missing.
fn append_optional(code: &mut Vec<u32>, instruction: &Option<Instruction>)
    ensures
        final(code)@ == old(code)@ + crate::binary::encoding::opt_words(instruction.deep_view()),
{
    if let Some(inst) = instruction {
        let mut words = inst.assemble();
        code.append(&mut words);
    }
}

/// Appends a section to code that holds the sections before it.
fn append_section(
    code: &mut Vec<u32>,
    instructions: &Vec<Instruction>,
    Ghost(start): Ghost<Seq<u32>>,
    Ghost(before): Ghost<Seq<crate::mr::constructs::InstructionView>>,
)
    requires
        old(code)@ == start + concat_words(before),
    ensures
        final(code)@ == start + concat_words(before + instructions.deep_view()),
{
    append_instructions(code, instructions);
    proof {
        lemma_concat_append(before, instructions.deep_view());
        assert(code@ =~= start + concat_words(before + instructions.deep_view()));
    }
}

/// Appends a section of at most one instruction to code that holds the
/// sections before it.
fn append_optional_section(
    code: &mut Vec<u32>,
    instruction: &Option<Instruction>,
    Ghost(start): Ghost<Seq<u32>>,
    Ghost(before): Ghost<Seq<crate::mr::constructs::InstructionView>>,
)
    requires
        old(code)@ == start + concat_words(before),
    ensures
        final(code)@ == start + concat_words(
            before + (match instruction.deep_view() {
                Some(inst) => seq![inst],
                None => Seq::empty(),
            }),
        ),
{
    append_optional(code, instruction);
    proof {
        let section = match instruction.deep_view() {
            Some(inst) => seq![inst],
            None => Seq::empty(),
        };
        if instruction.deep_view() is Some {
            lemma_concat_single(instruction.deep_view()->0);
        }
        lemma_concat_append(before, section);
        assert(code@ =~= start + concat_words(before + section));
    }
}

impl Assemble for BasicBlock {
    open spec fn encoding(&self) -> Seq<u32> {
        self@.words()
    }

    fn assemble(&self) -> (code: Vec<u32>) {
        let mut code: Vec<u32> = Vec::new();
        append_optional(&mut code, &self.label);
        append_instructions(&mut code, &self.instructions);
        code
    }
}

impl Assemble for Function {
    open spec fn encoding(&self) -> Seq<u32> {
        self@.words()
    }

    fn assemble(&self) -> (code: Vec<u32>) {
        let mut code: Vec<u32> = Vec::new();
        append_optional(&mut code, &self.def);
        let ghost start = code@;
        let mut i: usize = 0;
        while i < self.basic_blocks.len()
            invariant
                i <= self.basic_blocks.len(),
                code@ == start + concat_words(self.basic_blocks.deep_view().take(i as int)),
            decreases self.basic_blocks.len() - i,
        {
            let mut words = self.basic_blocks[i].assemble();
            code.append(&mut words);
            proof {
                lemma_concat_take_step(self.basic_blocks.deep_view(), i as int);
            }
            i += 1;
        }
        assert(self.basic_blocks.deep_view().take(i as int) =~= self.basic_blocks.deep_view());
        append_optional(&mut code, &self.end);
        code
    }
}

impl Assemble for Module {
    open spec fn encoding(&self) -> Seq<u32> {
        self@.words()
    }

    fn assemble(&self) -> (code: Vec<u32>) {
        let mut code: Vec<u32> = match &self.header {
            Some(h) => h.assemble(),
            None => Vec::new(),
        };
        let ghost start = code@;
        let ghost m = self@;
        append_instructions(&mut code, &self.capabilities);
        let ghost g1 = m.capabilities;
        append_section(&mut code, &self.extensions, Ghost(start), Ghost(g1));
        let ghost g2 = g1 + m.extensions;
        append_section(&mut code, &self.ext_inst_imports, Ghost(start), Ghost(g2));
        let ghost g3 = g2 + m.ext_inst_imports;
        append_optional_section(&mut code, &self.memory_model, Ghost(start), Ghost(g3));
        let ghost g4 = g3 + (match m.memory_model {
            Some(inst) => seq![inst],
            None => Seq::empty(),
        });
        append_section(&mut code, &self.entry_points, Ghost(start), Ghost(g4));
        let ghost g5 = g4 + m.entry_points;
        append_section(&mut code, &self.execution_modes, Ghost(start), Ghost(g5));
        let ghost g6 = g5 + m.execution_modes;
        append_section(&mut code, &self.debugs, Ghost(start), Ghost(g6));
        let ghost g7 = g6 + m.debugs;
        append_section(&mut code, &self.annotations, Ghost(start), Ghost(g7));
        let ghost g8 = g7 + m.annotations;
        append_section(&mut code, &self.types_global_values, Ghost(start), Ghost(g8));
        assert(g8 + m.types_global_values == m.global_instructions());
        let ghost globals = code@;
        let mut i: usize = 0;
        while i < self.functions.len()
            invariant
                i <= self.functions.len(),
                code@ == globals + concat_words(self.functions.deep_view().take(i as int)),
            decreases self.functions.len() - i,
        {
            let mut words = self.functions[i].assemble();
            code.append(&mut words);
            proof {
                lemma_concat_take_step(self.functions.deep_view(), i as int);
            }
            i += 1;
        }
        assert(self.functions.deep_view().take(i as int) =~= self.functions.deep_view());
        code
    }
}

} // verus!
