//! Decoding gives back what was encoded.

use crate::binary::decode::{
    after, decode_instruction, decode_kind, decode_operands, decode_parameters, decode_place,
    decode_single, decode_text, id_words, lemma_first_nul, may_be_absent, may_repeat,
    parameter_kinds, unpacked,
};
use crate::binary::encoding::{
    concat_words, header_word, lemma_concat_append, lemma_concat_first, lemma_header_word,
    lemma_join_split, packed_bytes, packed_string, Encoded,
};
use crate::binary::error::DecodeErrorKind;
use crate::grammar::conform::{
    accepted, are_parameters, fill_places, filling_len, group_len, is_of_kind,
};
use crate::grammar::table::{Grammar, LogicalOperand, OperandKind};
use crate::binary::encoding::{lemma_concat_single, opt_words, word_count_of};
use crate::binary::error::DecodeError;
use crate::binary::parse::{fault, header_of, initial, load, parse};
use crate::mr::constructs::{BasicBlockView, FunctionView, InstructionView, ModuleView};
use crate::mr::builder::{usable, BuilderView};
use crate::mr::loader::{place, LoaderView, Phase};
use crate::mr::structure::{
    concat_listings, each, idle, lemma_module_listing_each, lemma_place_module,
    lemma_place_structured, opt_seq, place_all, Listed,
};
use crate::spirv::MAGIC_NUMBER;
use crate::mr::operand::OperandView;
use crate::utils::num::{byte_of_word, byte_or_zero, lemma_bytes_of_word, word_at};
use vstd::prelude::*;
use vstd::utf8::encode_utf8;

verus! {

/// The bytes of packed bytes are the bytes themselves, then a zero byte.
pub proof fn lemma_unpacked_packed(bytes: Seq<u8>, rest: Seq<u32>, j: int)
    requires
        0 <= j <= bytes.len(),
    ensures
        j < unpacked(packed_bytes(bytes) + rest).len(),
        unpacked(packed_bytes(bytes) + rest)[j] == byte_or_zero(bytes, j),
{
    let words = packed_bytes(bytes) + rest;
    let q = j / 4;
    let r = j % 4;
    assert(q < packed_bytes(bytes).len());
    assert(words[q] == word_at(bytes, 4 * q));
    lemma_bytes_of_word(
        byte_or_zero(bytes, 4 * q),
        byte_or_zero(bytes, 4 * q + 1),
        byte_or_zero(bytes, 4 * q + 2),
        byte_or_zero(bytes, 4 * q + 3),
    );
    assert(byte_of_word(words[q], r) == byte_or_zero(bytes, 4 * q + r));
}

/// A text without a zero byte is read back from its words, whatever
/// follows them.
pub proof fn lemma_text_round_trip(text: Seq<char>, rest: Seq<u32>)
    requires
        !encode_utf8(text).contains(0u8),
    ensures
        decode_text(packed_string(text) + rest) == Ok::<(Seq<char>, nat), DecodeErrorKind>(
            (text, packed_string(text).len()),
        ),
{
    let bytes = encode_utf8(text);
    let n = bytes.len() as int;
    let all = unpacked(packed_string(text) + rest);
    assert forall|j: int| 0 <= j < n implies all[j] != 0 by {
        lemma_unpacked_packed(bytes, rest, j);
        assert(bytes.contains(bytes[j]));
    }
    lemma_unpacked_packed(bytes, rest, n);
    lemma_first_nul(all, 0, n);
    assert forall|j: int| 0 <= j < n implies all.take(n)[j] == bytes[j] by {
        lemma_unpacked_packed(bytes, rest, j);
    }
    assert(all.take(n) =~= bytes);
    vstd::utf8::encode_utf8_valid_utf8(text);
    vstd::utf8::encode_utf8_decode_utf8(text);
}

/// An operand of a kind is read back from its words, whatever follows them.
pub proof fn lemma_single_round_trip(kind: OperandKind, operand: OperandView, rest: Seq<u32>)
    requires
        is_of_kind(kind, operand),
    ensures
        decode_single(kind, operand.words() + rest) == Ok::<(OperandView, nat), DecodeErrorKind>(
            (operand, operand.words().len()),
        ),
{
    let words = operand.words() + rest;
    match operand {
        OperandView::LiteralInt64(v) => {
            lemma_join_split(v);
            assert(words[0] == operand.words()[0] && words[1] == operand.words()[1]);
        },
        OperandView::LiteralFloat64(v) => {
            lemma_join_split(v);
            assert(words[0] == operand.words()[0] && words[1] == operand.words()[1]);
        },
        OperandView::LiteralString(text) => {
            lemma_text_round_trip(text, rest);
        },
        _ => {
            assert(words[0] == operand.words()[0]);
        },
    }
}

/// The operands that a value brings with it are read back from their words.
pub proof fn lemma_parameters_round_trip(
    kinds: Seq<OperandKind>,
    parameters: Seq<usize>,
    operands: Seq<OperandView>,
    rest: Seq<u32>,
)
    requires
        are_parameters(kinds, parameters, operands),
    ensures
        decode_parameters(kinds, parameters, concat_words(operands) + rest) == Ok::<
            (Seq<OperandView>, nat),
            DecodeErrorKind,
        >((operands, concat_words(operands).len())),
    decreases parameters.len(),
{
    if parameters.len() == 0 {
        assert(operands =~= Seq::empty());
        assert(concat_words(operands) =~= Seq::<u32>::empty());
    } else {
        let first = operands.first();
        let others = operands.drop_first();
        lemma_concat_first(operands);
        let tail = concat_words(others) + rest;
        assert(concat_words(operands) + rest =~= first.words() + tail);
        assert(is_of_kind(kinds[parameters[0] as int], operands[0]));
        lemma_single_round_trip(kinds[parameters.first() as int], first, tail);
        assert forall|j: int| 0 <= j < parameters.drop_first().len() implies is_of_kind(
            kinds[parameters.drop_first()[j] as int],
            #[trigger] others[j],
        ) by {
            assert(is_of_kind(kinds[parameters[j + 1] as int], operands[j + 1]));
        }
        lemma_parameters_round_trip(kinds, parameters.drop_first(), others, rest);
        assert((first.words() + tail).skip(first.words().len() as int) =~= tail);
        assert(seq![first] + others =~= operands);
    }
}

/// An operand with the operands that its value brings with it is read
/// back from the words of all of them.
pub proof fn lemma_group_round_trip(
    kinds: Seq<OperandKind>,
    kind: usize,
    operands: Seq<OperandView>,
    rest: Seq<u32>,
)
    requires
        group_len(kinds, kind, operands) is Some,
    ensures
        decode_kind(
            kinds,
            kind,
            concat_words(operands.take(group_len(kinds, kind, operands)->0 as int)) + concat_words(
                operands.skip(group_len(kinds, kind, operands)->0 as int),
            ) + rest,
        ) == Ok::<(Seq<OperandView>, nat), DecodeErrorKind>(
            (
                operands.take(group_len(kinds, kind, operands)->0 as int),
                concat_words(operands.take(group_len(kinds, kind, operands)->0 as int)).len(),
            ),
        ),
{
    let n = group_len(kinds, kind, operands)->0 as int;
    let group = operands.take(n);
    let first = operands[0];
    let parameters = parameter_kinds(kinds[kind as int], first);
    let extra = operands.subrange(1, n);
    let after_group = concat_words(operands.skip(n)) + rest;
    assert(group.first() == first);
    assert(group.drop_first() =~= extra);
    lemma_concat_first(group);
    let tail = concat_words(extra) + after_group;
    assert(concat_words(group) + concat_words(operands.skip(n)) + rest =~= first.words() + tail);
    lemma_single_round_trip(kinds[kind as int], first, tail);
    lemma_parameters_round_trip(kinds, parameters, extra, after_group);
    assert((first.words() + tail).skip(first.words().len() as int) =~= tail);
    assert(seq![first] + extra =~= group);
}

/// What fills a place once is read back from its words.
pub proof fn lemma_filling_round_trip(
    kinds: Seq<OperandKind>,
    place: LogicalOperand,
    operands: Seq<OperandView>,
)
    requires
        filling_len(kinds, place, operands) is Some,
    ensures
        filling_len(kinds, place, operands)->0 >= 1,
        filling_len(kinds, place, operands)->0 <= operands.len(),
        decode_place(kinds, place, concat_words(operands)) == Ok::<
            (Seq<OperandView>, nat),
            DecodeErrorKind,
        >(
            (
                operands.take(filling_len(kinds, place, operands)->0 as int),
                concat_words(operands.take(filling_len(kinds, place, operands)->0 as int)).len(),
            ),
        ),
        concat_words(operands).skip(
            concat_words(operands.take(filling_len(kinds, place, operands)->0 as int)).len() as int,
        ) == concat_words(operands.skip(filling_len(kinds, place, operands)->0 as int)),
{
    let total = filling_len(kinds, place, operands)->0 as int;
    let none = Seq::<u32>::empty();
    match place {
        LogicalOperand::Pairs(a, b) => {
            let n = group_len(kinds, a, operands)->0 as int;
            let others = operands.skip(n);
            let m = group_len(kinds, b, others)->0 as int;
            lemma_group_round_trip(kinds, a, operands, none);
            lemma_group_round_trip(kinds, b, others, none);
            assert(operands =~= operands.take(n) + others);
            lemma_concat_append(operands.take(n), others);
            assert(others =~= others.take(m) + others.skip(m));
            lemma_concat_append(others.take(m), others.skip(m));
            assert(concat_words(operands.take(n)) + concat_words(others) + none =~= concat_words(
                operands,
            ));
            assert(concat_words(others.take(m)) + concat_words(others.skip(m)) + none
                =~= concat_words(others));
            assert(concat_words(operands).skip(concat_words(operands.take(n)).len() as int)
                =~= concat_words(others));
            assert(operands.take(n) + others.take(m) =~= operands.take(total));
            lemma_concat_append(operands.take(n), others.take(m));
            assert(others.skip(m) =~= operands.skip(total));
            assert(concat_words(operands).skip(concat_words(operands.take(total)).len() as int)
                =~= concat_words(operands.skip(total)));
        },
        LogicalOperand::One(k) => {
            lemma_single_place(kinds, k, operands);
        },
        LogicalOperand::ZeroOrOne(k) => {
            lemma_single_place(kinds, k, operands);
        },
        LogicalOperand::ZeroOrMore(k) => {
            lemma_single_place(kinds, k, operands);
        },
    }
}

/// A group at the start of the operands is read back from the words of all
/// the operands, and the words of the others are left.
proof fn lemma_single_place(kinds: Seq<OperandKind>, kind: usize, operands: Seq<OperandView>)
    requires
        group_len(kinds, kind, operands) is Some,
    ensures
        decode_kind(kinds, kind, concat_words(operands)) == Ok::<
            (Seq<OperandView>, nat),
            DecodeErrorKind,
        >(
            (
                operands.take(group_len(kinds, kind, operands)->0 as int),
                concat_words(operands.take(group_len(kinds, kind, operands)->0 as int)).len(),
            ),
        ),
        concat_words(operands).skip(
            concat_words(operands.take(group_len(kinds, kind, operands)->0 as int)).len() as int,
        ) == concat_words(operands.skip(group_len(kinds, kind, operands)->0 as int)),
{
    let n = group_len(kinds, kind, operands)->0 as int;
    let none = Seq::<u32>::empty();
    lemma_group_round_trip(kinds, kind, operands, none);
    assert(operands =~= operands.take(n) + operands.skip(n));
    lemma_concat_append(operands.take(n), operands.skip(n));
    assert(concat_words(operands.take(n)) + concat_words(operands.skip(n)) + none =~= concat_words(
        operands,
    ));
    assert(concat_words(operands).skip(concat_words(operands.take(n)).len() as int)
        =~= concat_words(operands.skip(n)));
}

/// Operands are not encoded in no words at all.
pub proof fn lemma_operands_take_words(operands: Seq<OperandView>)
    requires
        operands.len() > 0,
    ensures
        concat_words(operands).len() > 0,
{
    lemma_concat_first(operands);
}

/// Operands that fill the places of an operand list are read back from
/// their words.
pub proof fn lemma_operands_round_trip(
    kinds: Seq<OperandKind>,
    places: Seq<LogicalOperand>,
    operands: Seq<OperandView>,
)
    requires
        fill_places(kinds, places, operands),
    ensures
        decode_operands(kinds, places, concat_words(operands)) == Ok::<
            Seq<OperandView>,
            DecodeErrorKind,
        >(operands),
    decreases places.len(), operands.len(),
{
    reveal(decode_operands);
    let words = concat_words(operands);
    if places.len() == 0 {
        assert(operands =~= Seq::empty());
    } else if operands.len() == 0 && may_be_absent(places.first()) {
        lemma_operands_round_trip(kinds, places.drop_first(), operands);
    } else {
        let n = filling_len(kinds, places.first(), operands)->0 as int;
        lemma_filling_round_trip(kinds, places.first(), operands);
        lemma_operands_take_words(operands);
        lemma_operands_take_words(operands.take(n));
        assert(operands =~= operands.take(n) + operands.skip(n));
        lemma_concat_append(operands.take(n), operands.skip(n));
        let next = if may_repeat(places.first()) {
            places
        } else {
            places.drop_first()
        };
        lemma_operands_round_trip(kinds, next, operands.skip(n));
    }
}

/// An instruction that the grammar table accepts is read back from its words.
pub proof fn lemma_instruction_round_trip(grammar: Grammar, inst: InstructionView)
    requires
        grammar.accepts(inst),
        inst.wf(),
    ensures
        decode_instruction(grammar, inst.words()) == Ok::<InstructionView, DecodeErrorKind>(inst),
{
    let words = inst.words();
    let format = grammar.format_of(inst.opcode)->0;
    let ids = id_words(format.has_result_type, format.has_result_id);
    lemma_header_word(inst.opcode, inst.word_count());
    assert(words[0] == header_word(inst.opcode, inst.word_count()));
    assert(words.skip(1 + ids as int) =~= concat_words(inst.operands));
    lemma_operands_round_trip(grammar.kinds(), format.operands@, inst.operands);
    if format.has_result_type {
        assert(words[1] == inst.result_type->0);
    }
    if format.has_result_id {
        assert(words[ids as int] == inst.result_id->0);
    }
}

/// Whether the grammar table accepts each of the instructions, and each
/// fits the 16 bits of its word count.
pub open spec fn all_encodable(grammar: Grammar, insts: Seq<InstructionView>) -> bool {
    forall|i: int| 0 <= i < insts.len() ==> grammar.accepts(#[trigger] insts[i]) && insts[i].wf()
}

/// Loading the words of an instruction puts the instruction in its place
/// and goes on with the words after it.
pub proof fn lemma_load_instruction(
    grammar: Grammar,
    inst: InstructionView,
    rest: Seq<u32>,
    offset: nat,
    state: LoaderView,
)
    requires
        grammar.accepts(inst),
        inst.wf(),
    ensures
        load(grammar, inst.words() + rest, offset, state) == match place(state, inst) {
            Some(next) => load(grammar, rest, offset + inst.words().len(), next),
            None => Err(fault(DecodeErrorKind::MisplacedInstruction, offset)),
        },
{
    let words = inst.words() + rest;
    let count = inst.word_count();
    lemma_header_word(inst.opcode, count);
    assert(words[0] == header_word(inst.opcode, count));
    assert(words.take(count as int) =~= inst.words());
    assert(words.skip(count as int) =~= rest);
    lemma_instruction_round_trip(grammar, inst);
}

/// Loading the words of a run of instructions puts each in its place and
/// goes on with the words after them.
pub proof fn lemma_load_all(
    grammar: Grammar,
    insts: Seq<InstructionView>,
    rest: Seq<u32>,
    offset: nat,
    state: LoaderView,
)
    requires
        all_encodable(grammar, insts),
        place_all(state, insts) is Some,
    ensures
        load(grammar, concat_words(insts) + rest, offset, state) == load(
            grammar,
            rest,
            offset + concat_words(insts).len(),
            place_all(state, insts)->0,
        ),
    decreases insts.len(),
{
    if insts.len() == 0 {
        assert(concat_words(insts) + rest =~= rest);
    } else {
        let first = insts.first();
        let others = insts.drop_first();
        lemma_concat_first(insts);
        assert(grammar.accepts(insts[0]) && insts[0].wf());
        let tail = concat_words(others) + rest;
        assert(concat_words(insts) + rest =~= first.words() + tail);
        lemma_load_instruction(grammar, first, tail, offset, state);
        assert forall|i: int| 0 <= i < others.len() implies grammar.accepts(#[trigger] others[i])
            && others[i].wf() by {
            assert(others[i] == insts[i + 1]);
        }
        lemma_load_all(
            grammar,
            others,
            rest,
            offset + first.words().len(),
            place(state, first)->0,
        );
    }
}

/// The words of an instruction that may be missing are the words of the
/// run that holds it.
pub proof fn lemma_opt_words(inst: Option<InstructionView>)
    ensures
        opt_words(inst) == concat_words(opt_seq(inst)),
{
    match inst {
        Some(i) => lemma_concat_single(i),
        None => {
            assert(concat_words(opt_seq(inst)) =~= Seq::<u32>::empty());
        },
    }
}

/// The words of a block are the words of its instructions.
pub proof fn lemma_block_words(block: BasicBlockView)
    ensures
        block.words() == concat_words(block.listing()),
{
    lemma_opt_words(block.label);
    lemma_concat_append(opt_seq(block.label), block.instructions);
}

/// The words of blocks are the words of their instructions.
pub proof fn lemma_blocks_words(blocks: Seq<BasicBlockView>)
    ensures
        concat_words(blocks) == concat_words(concat_listings(blocks)),
    decreases blocks.len(),
{
    if blocks.len() == 0 {
        assert(concat_words(concat_listings(blocks)) =~= Seq::<u32>::empty());
    } else {
        lemma_blocks_words(blocks.drop_last());
        lemma_block_words(blocks.last());
        lemma_concat_append(concat_listings(blocks.drop_last()), blocks.last().listing());
    }
}

/// The words of a function are the words of its instructions.
pub proof fn lemma_function_words(function: FunctionView)
    ensures
        function.words() == concat_words(function.listing()),
{
    lemma_opt_words(function.def);
    lemma_opt_words(function.end);
    lemma_blocks_words(function.basic_blocks);
    lemma_concat_append(opt_seq(function.def), concat_listings(function.basic_blocks));
    lemma_concat_append(
        opt_seq(function.def) + concat_listings(function.basic_blocks),
        opt_seq(function.end),
    );
}

/// The words of functions are the words of their instructions.
pub proof fn lemma_functions_words(functions: Seq<FunctionView>)
    ensures
        concat_words(functions) == concat_words(concat_listings(functions)),
    decreases functions.len(),
{
    if functions.len() == 0 {
        assert(concat_words(concat_listings(functions)) =~= Seq::<u32>::empty());
    } else {
        lemma_functions_words(functions.drop_last());
        lemma_function_words(functions.last());
        lemma_concat_append(concat_listings(functions.drop_last()), functions.last().listing());
    }
}

/// The words of a module are the words of its header, then those of its
/// instructions.
pub proof fn lemma_module_words(module: ModuleView)
    ensures
        module.words() == opt_words(module.header) + concat_words(module.listing()),
{
    lemma_functions_words(module.functions);
    lemma_concat_append(module.global_instructions(), concat_listings(module.functions));
    assert(module.words() =~= opt_words(module.header) + concat_words(module.listing()));
}

/// Parsing undoes assembling: a module that has a header with the magic
/// number, whose instructions stand where their opcodes belong and are
/// accepted by the grammar table, is what parsing finds in its words.
pub proof fn lemma_parse_assembled(grammar: Grammar, module: ModuleView)
    requires
        module.header is Some,
        module.header->0.magic_number == MAGIC_NUMBER,
        module.structured(),
        all_encodable(grammar, module.listing()),
    ensures
        parse(grammar, module.words()) == Ok::<ModuleView, DecodeError>(module),
{
    let header = module.header->0;
    let words = module.words();
    let body = concat_words(module.listing());
    let none = Seq::<u32>::empty();
    lemma_module_words(module);
    assert(words == header.words() + body);
    assert(header_of(words) == header);
    assert(words.skip(5) =~= body + none);
    lemma_place_module(module);
    assert(initial(header) == idle(ModuleView { header: module.header, ..ModuleView::empty() }));
    lemma_load_all(grammar, module.listing(), none, 5, initial(header));
}

/// Parsing undoes assembling for what the builder makes: the module that
/// a builder hands over, if the grammar table accepts its instructions,
/// is what parsing finds in the module's words.
pub proof fn lemma_parse_built(grammar: Grammar, builder: BuilderView)
    requires
        builder.wf(),
        builder.phase() == Phase::Idle,
        builder.module().every(accepted(grammar)),
    ensures
        parse(grammar, builder.module().words()) == Ok::<ModuleView, DecodeError>(
            builder.module(),
        ),
{
    let module = builder.module();
    crate::mr::builder::lemma_built_module(builder);
    lemma_module_listing_each(module, accepted(grammar));
    lemma_module_listing_each(module, usable(builder.next_id));
    let insts = module.listing();
    assert forall|i: int| 0 <= i < insts.len() implies grammar.accepts(#[trigger] insts[i])
        && insts[i].wf() by {
        assert(accepted(grammar)(insts[i]));
        assert(usable(builder.next_id)(insts[i]));
    }
    lemma_parse_assembled(grammar, module);
}

/// Parsing undoes assembling at the storage boundary too: the module is
/// what parsing finds in the bytes of its words.
pub proof fn lemma_parse_assembled_bytes(grammar: Grammar, module: ModuleView)
    requires
        module.header is Some,
        module.header->0.magic_number == MAGIC_NUMBER,
        module.structured(),
        all_encodable(grammar, module.listing()),
    ensures
        crate::binary::bytes::parse_stream(grammar, unpacked(module.words())) == Ok::<
            ModuleView,
            DecodeError,
        >(module),
{
    crate::binary::bytes::lemma_words_of_unpacked(module.words());
    lemma_parse_assembled(grammar, module);
}

/// Loading keeps the header and leaves every instruction where its
/// opcode belongs.
pub proof fn lemma_loaded_structured(
    grammar: Grammar,
    words: Seq<u32>,
    offset: nat,
    state: LoaderView,
)
    requires
        state.structured(),
        load(grammar, words, offset, state) is Ok,
    ensures
        load(grammar, words, offset, state)->Ok_0.structured(),
        load(grammar, words, offset, state)->Ok_0.header == state.module.header,
    decreases words.len(),
{
    if words.len() > 0 {
        let count = word_count_of(words[0]);
        let inst = decode_instruction(grammar, words.take(count as int))->Ok_0;
        let next = place(state, inst)->0;
        lemma_place_structured(state, inst);
        lemma_loaded_structured(grammar, words.skip(count as int), offset + count, next);
    }
}

/// What parsing finds is a module with the header that the first five
/// words hold, in which every instruction stands where its opcode belongs:
/// the global ones in the sections of their opcodes, the others in
/// functions that are complete.
pub proof fn lemma_parsed_structured(grammar: Grammar, words: Seq<u32>)
    requires
        parse(grammar, words) is Ok,
    ensures
        words.len() >= 5,
        words[0] == MAGIC_NUMBER,
        parse(grammar, words)->Ok_0.header == Some(header_of(words)),
        parse(grammar, words)->Ok_0.structured(),
{
    lemma_loaded_structured(grammar, words.skip(5), 5, initial(header_of(words)));
}

} // verus!
