//! What decoding finds is what the grammar table accepts, and its words
//! decode to it again.

use crate::binary::decode::{
    decode_instruction, decode_kind, decode_operands, decode_parameters, decode_place,
    decode_single, decode_text, first_nul, id_words, lemma_decode_place_count,
    lemma_first_nul_from, may_be_absent, may_repeat, parameter_kinds, unpacked,
};
use crate::binary::encoding::{
    concat_words, lemma_concat_append, lemma_concat_single, packed_string, word_count_of,
    Encoded,
};
use crate::binary::parse::{header_of, initial, load, parse};
use crate::binary::roundtrip::{lemma_parse_assembled, lemma_parsed_structured};
use crate::grammar::conform::{are_parameters, fill_places, filling_len, group_len, is_of_kind};
use crate::grammar::table::{Grammar, LogicalOperand, OperandKind};
use crate::mr::constructs::InstructionView;
use crate::mr::loader::{place, LoaderView};
use crate::mr::operand::OperandView;
use crate::mr::structure::{lemma_module_listing_each, lemma_place_every, Listed, Property};
use vstd::prelude::*;
use vstd::utf8::encode_utf8;

verus! {

/// No byte before the first zero byte is zero.
pub proof fn lemma_before_first_nul(bytes: Seq<u8>, from: int, j: int)
    requires
        0 <= from <= j < first_nul(bytes, from),
        from <= bytes.len(),
    ensures
        j < bytes.len(),
        bytes[j] != 0,
    decreases bytes.len() - from,
{
    lemma_first_nul_from(bytes, from);
    if from < j {
        lemma_before_first_nul(bytes, from + 1, j);
    }
}

/// A text that was decoded holds no zero byte and takes as many words as
/// were read for it.
pub proof fn lemma_decoded_text(words: Seq<u32>)
    requires
        decode_text(words) is Ok,
    ensures
        !encode_utf8(decode_text(words)->Ok_0.0).contains(0u8),
        packed_string(decode_text(words)->Ok_0.0).len() == decode_text(words)->Ok_0.1,
{
    let all = unpacked(words);
    let end = first_nul(all, 0);
    lemma_first_nul_from(all, 0);
    let bytes = all.take(end);
    vstd::utf8::decode_utf8_encode_utf8(bytes);
    assert forall|j: int| 0 <= j < bytes.len() implies bytes[j] != 0 by {
        lemma_before_first_nul(all, 0, j);
    }
}

/// An operand that was decoded is one of the kind that it was decoded as,
/// and takes as many words as were read for it.
pub proof fn lemma_decoded_single(kind: OperandKind, words: Seq<u32>)
    requires
        decode_single(kind, words) is Ok,
    ensures
        is_of_kind(kind, decode_single(kind, words)->Ok_0.0),
        decode_single(kind, words)->Ok_0.0.words().len() == decode_single(kind, words)->Ok_0.1,
{
    if decode_text(words) is Ok {
        lemma_decoded_text(words);
    }
}

/// The operands that were decoded after a value are the ones that the
/// value brings with it.
pub proof fn lemma_decoded_parameters(
    kinds: Seq<OperandKind>,
    parameters: Seq<usize>,
    words: Seq<u32>,
)
    requires
        decode_parameters(kinds, parameters, words) is Ok,
    ensures
        are_parameters(kinds, parameters, decode_parameters(kinds, parameters, words)->Ok_0.0),
        concat_words(decode_parameters(kinds, parameters, words)->Ok_0.0).len()
            == decode_parameters(kinds, parameters, words)->Ok_0.1,
    decreases parameters.len(),
{
    let (operands, total) = decode_parameters(kinds, parameters, words)->Ok_0;
    if parameters.len() == 0 {
        assert(concat_words(operands) =~= Seq::<u32>::empty());
    } else {
        let kind = kinds[parameters.first() as int];
        let (first, count) = decode_single(kind, words)->Ok_0;
        let (others, more) = decode_parameters(
            kinds,
            parameters.drop_first(),
            words.skip(count as int),
        )->Ok_0;
        lemma_decoded_single(kind, words);
        lemma_decoded_parameters(kinds, parameters.drop_first(), words.skip(count as int));
        assert(operands == seq![first] + others);
        assert forall|j: int| 0 <= j < parameters.len() implies is_of_kind(
            kinds[parameters[j] as int],
            #[trigger] operands[j],
        ) by {
            if j > 0 {
                assert(operands[j] == others[j - 1]);
                assert(parameters[j] == parameters.drop_first()[j - 1]);
            }
        }
        lemma_concat_single(first);
        lemma_concat_append(seq![first], others);
    }
}

/// An operand that was decoded with the operands that its value brings
/// with it is a group of its kind, whatever operands follow.
pub proof fn lemma_decoded_kind(
    kinds: Seq<OperandKind>,
    kind: usize,
    words: Seq<u32>,
    rest: Seq<OperandView>,
)
    requires
        decode_kind(kinds, kind, words) is Ok,
    ensures
        decode_kind(kinds, kind, words)->Ok_0.0.len() >= 1,
        group_len(kinds, kind, decode_kind(kinds, kind, words)->Ok_0.0 + rest) == Some(
            decode_kind(kinds, kind, words)->Ok_0.0.len(),
        ),
        concat_words(decode_kind(kinds, kind, words)->Ok_0.0).len() == decode_kind(
            kinds,
            kind,
            words,
        )->Ok_0.1,
{
    let (operands, total) = decode_kind(kinds, kind, words)->Ok_0;
    let (first, count) = decode_single(kinds[kind as int], words)->Ok_0;
    let parameters = parameter_kinds(kinds[kind as int], first);
    let (extra, more) = decode_parameters(kinds, parameters, words.skip(count as int))->Ok_0;
    lemma_decoded_single(kinds[kind as int], words);
    lemma_decoded_parameters(kinds, parameters, words.skip(count as int));
    assert(operands == seq![first] + extra);
    let all = operands + rest;
    assert(all[0] == first);
    assert(all.subrange(1, 1 + parameters.len() as int) =~= extra);
    lemma_concat_single(first);
    lemma_concat_append(seq![first], extra);
}

/// What was decoded for a place fills the place once, whatever operands follow.
pub proof fn lemma_decoded_place(
    kinds: Seq<OperandKind>,
    place: LogicalOperand,
    words: Seq<u32>,
    rest: Seq<OperandView>,
)
    requires
        decode_place(kinds, place, words) is Ok,
    ensures
        decode_place(kinds, place, words)->Ok_0.0.len() >= 1,
        filling_len(kinds, place, decode_place(kinds, place, words)->Ok_0.0 + rest) == Some(
            decode_place(kinds, place, words)->Ok_0.0.len(),
        ),
        concat_words(decode_place(kinds, place, words)->Ok_0.0).len() == decode_place(
            kinds,
            place,
            words,
        )->Ok_0.1,
{
    match place {
        LogicalOperand::One(k) => lemma_decoded_kind(kinds, k, words, rest),
        LogicalOperand::ZeroOrOne(k) => lemma_decoded_kind(kinds, k, words, rest),
        LogicalOperand::ZeroOrMore(k) => lemma_decoded_kind(kinds, k, words, rest),
        LogicalOperand::Pairs(a, b) => {
            let (first, count) = decode_kind(kinds, a, words)->Ok_0;
            let (second, more) = decode_kind(kinds, b, words.skip(count as int))->Ok_0;
            lemma_decoded_kind(kinds, a, words, second + rest);
            lemma_decoded_kind(kinds, b, words.skip(count as int), rest);
            assert(first + (second + rest) =~= (first + second) + rest);
            assert(((first + second) + rest).skip(first.len() as int) =~= second + rest);
            lemma_concat_append(first, second);
        },
    }
}

/// No operands are decoded from no words.
pub proof fn lemma_decoded_nothing(kinds: Seq<OperandKind>, places: Seq<LogicalOperand>)
    requires
        decode_operands(kinds, places, Seq::<u32>::empty()) is Ok,
    ensures
        decode_operands(kinds, places, Seq::<u32>::empty())->Ok_0.len() == 0,
    decreases places.len(),
{
    reveal(decode_operands);
    let none = Seq::<u32>::empty();
    if places.len() > 0 {
        if may_be_absent(places.first()) {
            lemma_decoded_nothing(kinds, places.drop_first());
        } else {
            lemma_decode_place_count(kinds, places.first(), none);
        }
    }
}

/// The operands that were decoded fill the places of the operand list,
/// and their words are as many as were read.
pub proof fn lemma_decoded_operands(
    kinds: Seq<OperandKind>,
    places: Seq<LogicalOperand>,
    words: Seq<u32>,
)
    requires
        decode_operands(kinds, places, words) is Ok,
    ensures
        fill_places(kinds, places, decode_operands(kinds, places, words)->Ok_0),
        concat_words(decode_operands(kinds, places, words)->Ok_0).len() == words.len(),
    decreases places.len(), words.len(),
{
    reveal(decode_operands);
    let operands = decode_operands(kinds, places, words)->Ok_0;
    if places.len() == 0 {
        assert(concat_words(operands) =~= Seq::<u32>::empty());
    } else if words.len() == 0 && may_be_absent(places.first()) {
        assert(words =~= Seq::<u32>::empty());
        lemma_decoded_nothing(kinds, places.drop_first());
        lemma_decoded_operands(kinds, places.drop_first(), words);
    } else {
        let (group, count) = decode_place(kinds, places.first(), words)->Ok_0;
        lemma_decode_place_count(kinds, places.first(), words);
        let next = if may_repeat(places.first()) {
            places
        } else {
            places.drop_first()
        };
        let more = decode_operands(kinds, next, words.skip(count as int))->Ok_0;
        lemma_decoded_place(kinds, places.first(), words, more);
        lemma_decoded_operands(kinds, next, words.skip(count as int));
        assert(operands == group + more);
        assert(operands.skip(group.len() as int) =~= more);
        lemma_concat_append(group, more);
    }
}

/// An instruction that was decoded is one that the grammar table accepts,
/// and takes as many words as it was decoded from.
pub proof fn lemma_decoded_instruction(grammar: Grammar, words: Seq<u32>)
    requires
        decode_instruction(grammar, words) is Ok,
    ensures
        grammar.accepts(decode_instruction(grammar, words)->Ok_0),
        decode_instruction(grammar, words)->Ok_0.word_count() == words.len(),
{
    let inst = decode_instruction(grammar, words)->Ok_0;
    let format = grammar.format_of(inst.opcode)->0;
    let ids = id_words(format.has_result_type, format.has_result_id);
    lemma_decoded_operands(grammar.kinds(), format.operands@, words.skip(1 + ids as int));
}

/// The property of an instruction to be accepted by the grammar table and
/// to fit its word count.
pub open spec fn encodable(grammar: Grammar) -> Property {
    |inst: InstructionView| grammar.accepts(inst) && inst.wf()
}

/// Every instruction of what was loaded is accepted by the grammar table
/// and fits its word count.
pub proof fn lemma_loaded_encodable(
    grammar: Grammar,
    words: Seq<u32>,
    offset: nat,
    state: LoaderView,
)
    requires
        state.every(encodable(grammar)),
        load(grammar, words, offset, state) is Ok,
    ensures
        load(grammar, words, offset, state)->Ok_0.every(encodable(grammar)),
    decreases words.len(),
{
    if words.len() > 0 {
        let first = words[0];
        let count = word_count_of(first);
        assert(first >> 16 <= 0xffff) by (bit_vector);
        let inst = decode_instruction(grammar, words.take(count as int))->Ok_0;
        let next = place(state, inst)->0;
        lemma_decoded_instruction(grammar, words.take(count as int));
        assert(encodable(grammar)(inst));
        lemma_place_every(state, inst, encodable(grammar));
        lemma_loaded_encodable(grammar, words.skip(count as int), offset + count, next);
    }
}

/// Every instruction of a module that was parsed is accepted by the
/// grammar table: its enumerants are legal, its operands are those of its
/// opcode, and it fits its word count.
pub proof fn lemma_parsed_encodable(grammar: Grammar, words: Seq<u32>)
    requires
        parse(grammar, words) is Ok,
    ensures
        parse(grammar, words)->Ok_0.every(encodable(grammar)),
{
    lemma_loaded_encodable(grammar, words.skip(5), 5, initial(header_of(words)));
}

/// A module that was parsed is what parsing finds in its own words.
pub proof fn lemma_parse_of_parsed(grammar: Grammar, words: Seq<u32>)
    requires
        parse(grammar, words) is Ok,
    ensures
        parse(grammar, parse(grammar, words)->Ok_0.words()) == parse(grammar, words),
{
    let module = parse(grammar, words)->Ok_0;
    lemma_parsed_structured(grammar, words);
    lemma_parsed_encodable(grammar, words);
    lemma_module_listing_each(module, encodable(grammar));
    let insts = module.listing();
    assert forall|i: int| 0 <= i < insts.len() implies grammar.accepts(#[trigger] insts[i])
        && insts[i].wf() by {
        assert(encodable(grammar)(insts[i]));
    }
    lemma_parse_assembled(grammar, module);
}

} // verus!
