//! Decoding operands and instructions from words, guided by the grammar table.

use crate::binary::encoding::{
    concat_words, join_words, lemma_concat_append, lemma_concat_single, opcode_of,
    packed_string, Encoded,
};
use crate::binary::error::DecodeErrorKind;
use crate::grammar::table::{
    flag_parameters, value_parameters, Category, Grammar, LogicalOperand, OperandKind,
};
use crate::mr::constructs::{Instruction, InstructionView};
use crate::mr::operand::{Operand, OperandView};
use crate::utils::num::byte_of_word;
use vstd::prelude::*;
use vstd::utf8::{decode_utf8, encode_utf8, valid_utf8};

verus! {

/// The bytes of a run of words, the least significant byte of each word first.
pub open spec fn unpacked(words: Seq<u32>) -> Seq<u8> {
    Seq::new(4 * words.len(), |j: int| byte_of_word(words[j / 4], j % 4))
}

/// The index of the first zero byte at or after `from`; the length of
/// `bytes` where there is none.
pub open spec fn first_nul(bytes: Seq<u8>, from: int) -> int
    decreases bytes.len() - from,
{
    if from < 0 || from >= bytes.len() {
        bytes.len() as int
    } else if bytes[from] == 0 {
        from
    } else {
        first_nul(bytes, from + 1)
    }
}

/// The first zero byte is found where no byte before it is zero.
pub proof fn lemma_first_nul(bytes: Seq<u8>, from: int, at: int)
    requires
        0 <= from <= at <= bytes.len(),
        forall|j: int| from <= j < at ==> bytes[j] != 0,
        at == bytes.len() || bytes[at] == 0,
    ensures
        first_nul(bytes, from) == at,
    decreases at - from,
{
    if from < at {
        lemma_first_nul(bytes, from + 1, at);
    }
}

/// The text at the start of `words` and the number of words that it takes:
/// the bytes before the first zero byte, read as UTF-8.
pub open spec fn decode_text(words: Seq<u32>) -> Result<(Seq<char>, nat), DecodeErrorKind> {
    let bytes = unpacked(words);
    let end = first_nul(bytes, 0);
    if end >= bytes.len() {
        Err(DecodeErrorKind::UnterminatedString)
    } else if !valid_utf8(bytes.take(end)) {
        Err(DecodeErrorKind::InvalidString)
    } else {
        Ok((decode_utf8(bytes.take(end)), (end / 4 + 1) as nat))
    }
}

/// The operand of the given kind at the start of `words`, without the
/// operands that its value may bring with it, and the number of words that
/// it takes.
pub open spec fn decode_single(kind: OperandKind, words: Seq<u32>) -> Result<
    (OperandView, nat),
    DecodeErrorKind,
> {
    if words.len() == 0 {
        Err(DecodeErrorKind::WordCountMismatch)
    } else {
        match kind.category {
            Category::Bitmask => if kind.legal_bits(words[0]) {
                Ok((OperandView::Bitmask(words[0]), 1))
            } else {
                Err(DecodeErrorKind::InvalidEnumerant)
            },
            Category::ValueEnum => if kind.legal_value(words[0]) {
                Ok((OperandView::ValueEnum(words[0]), 1))
            } else {
                Err(DecodeErrorKind::InvalidEnumerant)
            },
            Category::Id => Ok((OperandView::IdRef(words[0]), 1)),
            Category::LiteralInt32 => Ok((OperandView::LiteralInt32(words[0]), 1)),
            Category::LiteralFloat32 => Ok((OperandView::LiteralFloat32(words[0]), 1)),
            Category::ContextDependent => Ok((OperandView::LiteralContextDependent(words[0]), 1)),
            Category::LiteralInt64 => if words.len() < 2 {
                Err(DecodeErrorKind::WordCountMismatch)
            } else {
                Ok((OperandView::LiteralInt64(join_words(words[0], words[1])), 2))
            },
            Category::LiteralFloat64 => if words.len() < 2 {
                Err(DecodeErrorKind::WordCountMismatch)
            } else {
                Ok((OperandView::LiteralFloat64(join_words(words[0], words[1])), 2))
            },
            Category::LiteralString => match decode_text(words) {
                Ok((text, count)) => Ok((OperandView::LiteralString(text), count)),
                Err(e) => Err(e),
            },
        }
    }
}

/// The kinds of the operands that follow an operand of the given kind
/// because of its value: for a bitmask those of each flag that is set,
/// for an enumerant its own, for anything else none.
pub open spec fn parameter_kinds(kind: OperandKind, operand: OperandView) -> Seq<usize> {
    match operand {
        OperandView::Bitmask(bits) => flag_parameters(kind.enumerants@, bits),
        OperandView::ValueEnum(value) => value_parameters(kind.enumerants@, value),
        _ => Seq::empty(),
    }
}

/// What decoding gives: the operands and the number of words they took.
pub type Decoded = Result<(Seq<OperandView>, nat), DecodeErrorKind>;

/// A result of decoding with operands and words put in front of it.
pub open spec fn after(operands: Seq<OperandView>, count: nat, rest: Decoded) -> Decoded {
    match rest {
        Ok((more, n)) => Ok((operands + more, count + n)),
        Err(e) => Err(e),
    }
}

/// One operand of each of the kinds in `parameters`, in order, from the
/// start of `words`.
pub open spec fn decode_parameters(
    kinds: Seq<OperandKind>,
    parameters: Seq<usize>,
    words: Seq<u32>,
) -> Decoded
    decreases parameters.len(),
{
    if parameters.len() == 0 {
        Ok((Seq::empty(), 0))
    } else {
        match decode_single(kinds[parameters.first() as int], words) {
            Err(e) => Err(e),
            Ok((operand, count)) => after(
                seq![operand],
                count,
                decode_parameters(kinds, parameters.drop_first(), words.skip(count as int)),
            ),
        }
    }
}

/// The operand of kind number `kind` at the start of `words`, followed by
/// the operands that its value brings with it.
pub open spec fn decode_kind(kinds: Seq<OperandKind>, kind: usize, words: Seq<u32>) -> Decoded {
    match decode_single(kinds[kind as int], words) {
        Err(e) => Err(e),
        Ok((operand, count)) => after(
            seq![operand],
            count,
            decode_parameters(
                kinds,
                parameter_kinds(kinds[kind as int], operand),
                words.skip(count as int),
            ),
        ),
    }
}

/// A pair: an operand of the first kind, then one of the second.
pub open spec fn decode_pair(
    kinds: Seq<OperandKind>,
    first: usize,
    second: usize,
    words: Seq<u32>,
) -> Decoded {
    match decode_kind(kinds, first, words) {
        Err(e) => Err(e),
        Ok((operands, count)) => after(
            operands,
            count,
            decode_kind(kinds, second, words.skip(count as int)),
        ),
    }
}

/// What stands at one place of the operand list when it stands there once.
pub open spec fn decode_place(kinds: Seq<OperandKind>, place: LogicalOperand, words: Seq<u32>) -> Decoded {
    match place {
        LogicalOperand::One(k) => decode_kind(kinds, k, words),
        LogicalOperand::ZeroOrOne(k) => decode_kind(kinds, k, words),
        LogicalOperand::ZeroOrMore(k) => decode_kind(kinds, k, words),
        LogicalOperand::Pairs(a, b) => decode_pair(kinds, a, b, words),
    }
}

/// Whether a place may be left empty.
pub open spec fn may_be_absent(place: LogicalOperand) -> bool {
    !(place is One)
}

/// Whether a place may be filled more than once.
pub open spec fn may_repeat(place: LogicalOperand) -> bool {
    place is ZeroOrMore || place is Pairs
}

/// The first zero byte at or after `from` is not before `from`.
pub proof fn lemma_first_nul_from(bytes: Seq<u8>, from: int)
    requires
        0 <= from <= bytes.len(),
    ensures
        from <= first_nul(bytes, from) <= bytes.len(),
    decreases bytes.len() - from,
{
    if from < bytes.len() && bytes[from] != 0 {
        lemma_first_nul_from(bytes, from + 1);
    }
}

/// An operand takes at least one of the words and no more than there are.
pub proof fn lemma_decode_single_count(kind: OperandKind, words: Seq<u32>)
    ensures
        decode_single(kind, words) is Ok ==> 1 <= decode_single(kind, words)->Ok_0.1
            <= words.len(),
{
    lemma_first_nul_from(unpacked(words), 0);
}

/// The operands that a value brings with it take no more words than there are.
pub proof fn lemma_decode_parameters_count(
    kinds: Seq<OperandKind>,
    parameters: Seq<usize>,
    words: Seq<u32>,
)
    ensures
        decode_parameters(kinds, parameters, words) is Ok ==> decode_parameters(
            kinds,
            parameters,
            words,
        )->Ok_0.1 <= words.len(),
    decreases parameters.len(),
{
    if parameters.len() > 0 {
        lemma_decode_single_count(kinds[parameters.first() as int], words);
        match decode_single(kinds[parameters.first() as int], words) {
            Ok((_, count)) => {
                lemma_decode_parameters_count(
                    kinds,
                    parameters.drop_first(),
                    words.skip(count as int),
                );
            },
            Err(_) => {},
        }
    }
}

/// An operand with the operands that its value brings with it takes at
/// least one of the words and no more than there are.
pub proof fn lemma_decode_kind_count(kinds: Seq<OperandKind>, kind: usize, words: Seq<u32>)
    ensures
        decode_kind(kinds, kind, words) is Ok ==> 1 <= decode_kind(kinds, kind, words)->Ok_0.1
            <= words.len(),
{
    lemma_decode_single_count(kinds[kind as int], words);
    match decode_single(kinds[kind as int], words) {
        Ok((operand, count)) => {
            lemma_decode_parameters_count(
                kinds,
                parameter_kinds(kinds[kind as int], operand),
                words.skip(count as int),
            );
        },
        Err(_) => {},
    }
}

/// What fills a place once takes at least one of the words and no more
/// than there are.
pub proof fn lemma_decode_place_count(
    kinds: Seq<OperandKind>,
    place: LogicalOperand,
    words: Seq<u32>,
)
    ensures
        decode_place(kinds, place, words) is Ok ==> 1 <= decode_place(kinds, place, words)->Ok_0.1
            <= words.len(),
{
    match place {
        LogicalOperand::One(k) => lemma_decode_kind_count(kinds, k, words),
        LogicalOperand::ZeroOrOne(k) => lemma_decode_kind_count(kinds, k, words),
        LogicalOperand::ZeroOrMore(k) => lemma_decode_kind_count(kinds, k, words),
        LogicalOperand::Pairs(a, b) => {
            lemma_decode_kind_count(kinds, a, words);
            match decode_kind(kinds, a, words) {
                Ok((_, count)) => {
                    lemma_decode_kind_count(kinds, b, words.skip(count as int));
                },
                Err(_) => {},
            }
        },
    }
}

/// The operands that `words` hold for an operand list with the given
/// places. The words decide how often a place is filled: a place that may
/// be empty is empty only where no word is left, and a place that may
/// repeat is filled again as long as words are left. All the words have to
/// be used up.
#[verifier::opaque]
pub open spec fn decode_operands(
    kinds: Seq<OperandKind>,
    places: Seq<LogicalOperand>,
    words: Seq<u32>,
) -> Result<Seq<OperandView>, DecodeErrorKind>
    decreases places.len(), words.len(),
    via decode_operands_ends
{
    if places.len() == 0 {
        if words.len() == 0 {
            Ok(Seq::empty())
        } else {
            Err(DecodeErrorKind::WordCountMismatch)
        }
    } else if words.len() == 0 && may_be_absent(places.first()) {
        decode_operands(kinds, places.drop_first(), words)
    } else {
        match decode_place(kinds, places.first(), words) {
            Err(e) => Err(e),
            Ok((operands, count)) => {
                let rest = if may_repeat(places.first()) {
                    decode_operands(kinds, places, words.skip(count as int))
                } else {
                    decode_operands(kinds, places.drop_first(), words.skip(count as int))
                };
                match rest {
                    Err(e) => Err(e),
                    Ok(more) => Ok(operands + more),
                }
            },
        }
    }
}

#[via_fn]
proof fn decode_operands_ends(
    kinds: Seq<OperandKind>,
    places: Seq<LogicalOperand>,
    words: Seq<u32>,
) {
    if places.len() > 0 {
        lemma_decode_place_count(kinds, places.first(), words);
    }
}

/// The number of words that the ids of an instruction with the given format take.
pub open spec fn id_words(has_result_type: bool, has_result_id: bool) -> nat {
    (if has_result_type { 1nat } else { 0nat }) + (if has_result_id { 1nat } else { 0nat })
}

/// The instruction that `words` hold, where `words` are exactly the words
/// of one instruction, the first word included.
pub open spec fn decode_instruction(grammar: Grammar, words: Seq<u32>) -> Result<
    InstructionView,
    DecodeErrorKind,
> {
    match grammar.format_of(opcode_of(words[0])) {
        None => Err(DecodeErrorKind::UnknownOpcode),
        Some(format) => {
            let ids = id_words(format.has_result_type, format.has_result_id);
            if words.len() < 1 + ids {
                Err(DecodeErrorKind::WordCountMismatch)
            } else {
                match decode_operands(grammar.kinds(), format.operands@, words.skip(1 + ids as int)) {
                    Err(e) => Err(e),
                    Ok(operands) => Ok(
                        InstructionView {
                            opcode: opcode_of(words[0]),
                            result_type: if format.has_result_type {
                                Some(words[1])
                            } else {
                                None
                            },
                            result_id: if format.has_result_id {
                                Some(words[ids as int])
                            } else {
                                None
                            },
                            operands,
                        },
                    ),
                }
            }
        },
    }
}

/// Putting operands in front of a result twice is putting all of them in front once.
pub proof fn lemma_after_after(
    a: Seq<OperandView>,
    n: nat,
    b: Seq<OperandView>,
    m: nat,
    rest: Decoded,
)
    ensures
        after(a, n, after(b, m, rest)) == after(a + b, n + m, rest),
{
    match rest {
        Ok((more, k)) => {
            assert(a + (b + more) =~= (a + b) + more);
        },
        Err(_) => {},
    }
}

/// Converts bytes to a `String` with `String::from_utf8`: there is a
/// string exactly when the bytes are UTF-8, and its bytes are the ones given.
#[verifier::external_body]
fn string_from_utf8(bytes: Vec<u8>) -> (text: Option<String>)
    ensures
        match text {
            Some(s) => valid_utf8(bytes@) && encode_utf8(s@) == bytes@,
            None => !valid_utf8(bytes@),
        },
{
    match String::from_utf8(bytes) {
        Ok(s) => Some(s),
        Err(_) => None,
    }
}

/// Reads the text that starts at `pos` and ends before `end`.
fn read_text(words: &[u32], pos: usize, end: usize) -> (read: Result<
    (String, usize),
    DecodeErrorKind,
>)
    requires
        pos <= end <= words@.len(),
    ensures
        match read {
            Ok((text, next)) => {
                &&& pos < next <= end
                &&& decode_text(words@.subrange(pos as int, end as int)) == Ok::<
                    (Seq<char>, nat),
                    DecodeErrorKind,
                >((text@, (next - pos) as nat))
                &&& packed_string(text@).len() == next - pos
            },
            Err(e) => decode_text(words@.subrange(pos as int, end as int)) == Err::<
                (Seq<char>, nat),
                DecodeErrorKind,
            >(e),
        },
{
    let ghost ws = words@.subrange(pos as int, end as int);
    let ghost all = unpacked(ws);
    let mut bytes: Vec<u8> = Vec::new();
    let mut i: usize = pos;
    while i < end
        invariant
            pos <= i <= end <= words@.len(),
            ws == words@.subrange(pos as int, end as int),
            all == unpacked(ws),
            bytes@ == all.take(4 * (i - pos)),
            forall|k: int| 0 <= k < 4 * (i - pos) ==> all[k] != 0,
        decreases end - i,
    {
        let word = words[i];
        let mut j: u32 = 0;
        while j < 4
            invariant
                pos <= i < end <= words@.len(),
                ws == words@.subrange(pos as int, end as int),
                all == unpacked(ws),
                word == words@[i as int],
                j <= 4,
                bytes@ == all.take(4 * (i - pos) + j),
                forall|k: int| 0 <= k < 4 * (i - pos) + j ==> all[k] != 0,
            decreases 4 - j,
        {
            let byte = ((word >> (8 * j)) & 0xff) as u8;
            let ghost at = 4 * (i - pos) + j;
            proof {
                assert(at / 4 == i - pos && at % 4 == j as int);
                assert(ws[i - pos] == word);
                assert(all[at] == byte_of_word(word, j as int));
                assert(all[at] == byte);
            }
            if byte == 0 {
                proof {
                    lemma_first_nul(all, 0, at);
                    assert(at / 4 + 1 == i + 1 - pos);
                }
                return match string_from_utf8(bytes) {
                    Some(text) => {
                        proof {
                            vstd::utf8::encode_utf8_decode_utf8(text@);
                        }
                        Ok((text, i + 1))
                    },
                    None => Err(DecodeErrorKind::InvalidString),
                };
            }
            bytes.push(byte);
            assert(all.take(at + 1) =~= all.take(at).push(all[at]));
            j += 1;
        }
        i += 1;
    }
    proof {
        lemma_first_nul(all, 0, all.len() as int);
    }
    Err(DecodeErrorKind::UnterminatedString)
}

/// Reads the operand of the given kind that starts at `pos`, without the
/// operands that its value may bring with it.
fn read_single(kind: &OperandKind, words: &[u32], pos: usize, end: usize) -> (read: Result<
    (Operand, usize),
    DecodeErrorKind,
>)
    requires
        pos <= end <= words@.len(),
    ensures
        match read {
            Ok((operand, next)) => {
                &&& pos < next <= end
                &&& decode_single(*kind, words@.subrange(pos as int, end as int)) == Ok::<
                    (OperandView, nat),
                    DecodeErrorKind,
                >((operand@, (next - pos) as nat))
                &&& operand@.words().len() == next - pos
            },
            Err(e) => decode_single(*kind, words@.subrange(pos as int, end as int)) == Err::<
                (OperandView, nat),
                DecodeErrorKind,
            >(e),
        },
{
    if pos == end {
        return Err(DecodeErrorKind::WordCountMismatch);
    }
    let word = words[pos];
    assert(words@.subrange(pos as int, end as int)[0] == word);
    match kind.category {
        Category::Bitmask => if kind.has_bits(word) {
            Ok((Operand::Bitmask(word), pos + 1))
        } else {
            Err(DecodeErrorKind::InvalidEnumerant)
        },
        Category::ValueEnum => if kind.has_value(word) {
            Ok((Operand::ValueEnum(word), pos + 1))
        } else {
            Err(DecodeErrorKind::InvalidEnumerant)
        },
        Category::Id => Ok((Operand::IdRef(word), pos + 1)),
        Category::LiteralInt32 => Ok((Operand::LiteralInt32(word), pos + 1)),
        Category::LiteralFloat32 => Ok((Operand::LiteralFloat32(word), pos + 1)),
        Category::ContextDependent => Ok((Operand::LiteralContextDependent(word), pos + 1)),
        Category::LiteralInt64 => if end - pos < 2 {
            Err(DecodeErrorKind::WordCountMismatch)
        } else {
            let high = words[pos + 1];
            assert(words@.subrange(pos as int, end as int)[1] == high);
            Ok((Operand::LiteralInt64((word as u64) | ((high as u64) << 32)), pos + 2))
        },
        Category::LiteralFloat64 => if end - pos < 2 {
            Err(DecodeErrorKind::WordCountMismatch)
        } else {
            let high = words[pos + 1];
            assert(words@.subrange(pos as int, end as int)[1] == high);
            Ok((Operand::LiteralFloat64((word as u64) | ((high as u64) << 32)), pos + 2))
        },
        Category::LiteralString => match read_text(words, pos, end) {
            Ok((text, next)) => Ok((Operand::LiteralString(text), next)),
            Err(e) => Err(e),
        },
    }
}

/// Moves the operands of `more` to the end of `operands`.
fn append_operands(operands: &mut Vec<Operand>, more: &mut Vec<Operand>)
    ensures
        final(operands).deep_view() == old(operands).deep_view() + old(more).deep_view(),
{
    operands.append(more);
    assert(operands.deep_view() =~= old(operands).deep_view() + old(more).deep_view());
}

/// Reads one operand of each of the kinds in `parameters`, in order.
fn read_parameters(
    grammar: &Grammar,
    parameters: &Vec<usize>,
    words: &[u32],
    pos: usize,
    end: usize,
) -> (read: Result<(Vec<Operand>, usize), DecodeErrorKind>)
    requires
        pos <= end <= words@.len(),
        forall|i: int| 0 <= i < parameters@.len() ==> parameters@[i] < grammar.kinds().len(),
    ensures
        match read {
            Ok((operands, next)) => {
                &&& pos <= next <= end
                &&& decode_parameters(
                    grammar.kinds(),
                    parameters@,
                    words@.subrange(pos as int, end as int),
                ) == Ok::<(Seq<OperandView>, nat), DecodeErrorKind>(
                    (operands.deep_view(), (next - pos) as nat),
                )
                &&& concat_words(operands.deep_view()).len() == next - pos
            },
            Err(e) => decode_parameters(
                grammar.kinds(),
                parameters@,
                words@.subrange(pos as int, end as int),
            ) == Err::<(Seq<OperandView>, nat), DecodeErrorKind>(e),
        },
{
    let ghost ws = words@.subrange(pos as int, end as int);
    let ghost kinds = grammar.kinds();
    let mut operands: Vec<Operand> = Vec::new();
    let mut cur: usize = pos;
    let mut i: usize = 0;
    proof {
        assert(parameters@.skip(0) =~= parameters@);
        assert(ws.skip(0) =~= ws);
        assert(operands.deep_view() =~= Seq::<OperandView>::empty());
        assert(Seq::<OperandView>::empty() + Seq::<OperandView>::empty() =~= Seq::<
            OperandView,
        >::empty());
        let rest = decode_parameters(kinds, parameters@, ws);
        match rest {
            Ok((more, n)) => {
                assert(Seq::<OperandView>::empty() + more =~= more);
            },
            Err(_) => {},
        }
    }
    while i < parameters.len()
        invariant
            pos <= cur <= end <= words@.len(),
            i <= parameters.len(),
            ws == words@.subrange(pos as int, end as int),
            kinds == grammar.kinds(),
            forall|k: int| 0 <= k < parameters@.len() ==> parameters@[k] < grammar.kinds().len(),
            decode_parameters(kinds, parameters@, ws) == after(
                operands.deep_view(),
                (cur - pos) as nat,
                decode_parameters(kinds, parameters@.skip(i as int), ws.skip(cur - pos)),
            ),
            concat_words(operands.deep_view()).len() == cur - pos,
        decreases parameters.len() - i,
    {
        let ghost here = parameters@.skip(i as int);
        let ghost left = ws.skip(cur - pos);
        proof {
            assert(here.first() == parameters@[i as int]);
            assert(here.drop_first() =~= parameters@.skip(i + 1));
            assert(left =~= words@.subrange(cur as int, end as int));
        }
        let kind = grammar.kind(parameters[i]);
        match read_single(kind, words, cur, end) {
            Err(e) => {
                return Err(e);
            },
            Ok((operand, next)) => {
                proof {
                    let count = (next - cur) as nat;
                    assert(left.skip(count as int) =~= ws.skip(next - pos));
                    lemma_after_after(
                        operands.deep_view(),
                        (cur - pos) as nat,
                        seq![operand@],
                        count,
                        decode_parameters(kinds, parameters@.skip(i + 1), ws.skip(next - pos)),
                    );
                    lemma_concat_single(operand@);
                    lemma_concat_append(operands.deep_view(), seq![operand@]);
                }
                let mut one: Vec<Operand> = vec![operand];
                assert(one.deep_view() =~= seq![operand@]);
                append_operands(&mut operands, &mut one);
                cur = next;
                i += 1;
            },
        }
    }
    proof {
        assert(parameters@.skip(i as int) =~= Seq::<usize>::empty());
        assert(operands.deep_view() + Seq::<OperandView>::empty() =~= operands.deep_view());
    }
    Ok((operands, cur))
}

/// Reads the operand of kind number `kind` that starts at `pos`, and the
/// operands that its value brings with it.
fn read_kind(grammar: &Grammar, kind: usize, words: &[u32], pos: usize, end: usize) -> (read:
    Result<(Vec<Operand>, usize), DecodeErrorKind>)
    requires
        pos <= end <= words@.len(),
        kind < grammar.kinds().len(),
    ensures
        match read {
            Ok((operands, next)) => {
                &&& pos < next <= end
                &&& decode_kind(grammar.kinds(), kind, words@.subrange(pos as int, end as int))
                    == Ok::<(Seq<OperandView>, nat), DecodeErrorKind>(
                    (operands.deep_view(), (next - pos) as nat),
                )
                &&& concat_words(operands.deep_view()).len() == next - pos
            },
            Err(e) => decode_kind(grammar.kinds(), kind, words@.subrange(pos as int, end as int))
                == Err::<(Seq<OperandView>, nat), DecodeErrorKind>(e),
        },
{
    proof {
        use_type_invariant(grammar);
    }
    let ghost ws = words@.subrange(pos as int, end as int);
    let described = grammar.kind(kind);
    match read_single(described, words, pos, end) {
        Err(e) => Err(e),
        Ok((operand, next)) => {
            let parameters = match &operand {
                Operand::Bitmask(bits) => described.parameters_of_bits(*bits),
                Operand::ValueEnum(value) => described.parameters_of_value(*value),
                _ => Vec::new(),
            };
            proof {
                assert(parameters@ =~= parameter_kinds(*described, operand@));
                lemma_parameters_within(*described, operand@, grammar.kinds().len());
                assert(ws.skip(next - pos) =~= words@.subrange(next as int, end as int));
            }
            match read_parameters(grammar, &parameters, words, next, end) {
                Err(e) => Err(e),
                Ok((mut more, last)) => {
                    proof {
                        lemma_concat_single(operand@);
                        lemma_concat_append(seq![operand@], more.deep_view());
                    }
                    let mut operands: Vec<Operand> = vec![operand];
                    assert(operands.deep_view() =~= seq![operand@]);
                    append_operands(&mut operands, &mut more);
                    Ok((operands, last))
                },
            }
        },
    }
}

/// The parameter kinds of a value are among the kinds that the operand
/// kind names.
pub proof fn lemma_parameters_within(kind: OperandKind, operand: OperandView, limit: nat)
    requires
        kind.within(limit),
    ensures
        all_below(parameter_kinds(kind, operand), limit),
{
    match operand {
        OperandView::Bitmask(bits) => {
            lemma_flag_parameters_within(kind, kind.enumerants@.len() as int, bits, limit);
            assert(kind.enumerants@.take(kind.enumerants@.len() as int) =~= kind.enumerants@);
        },
        OperandView::ValueEnum(value) => {
            lemma_value_parameters_within(kind, 0, value, limit);
            assert(kind.enumerants@.skip(0) =~= kind.enumerants@);
        },
        _ => {},
    }
}

/// Whether every number in `kinds` is below `limit`.
pub open spec fn all_below(kinds: Seq<usize>, limit: nat) -> bool {
    forall|i: int| 0 <= i < kinds.len() ==> kinds[i] < limit
}

proof fn lemma_flag_parameters_within(kind: OperandKind, upto: int, bits: u32, limit: nat)
    requires
        kind.within(limit),
        0 <= upto <= kind.enumerants@.len(),
    ensures
        all_below(flag_parameters(kind.enumerants@.take(upto), bits), limit),
    decreases upto,
{
    if upto > 0 {
        lemma_flag_parameters_within(kind, upto - 1, bits, limit);
        assert(kind.enumerants@.take(upto).drop_last() =~= kind.enumerants@.take(upto - 1));
        assert(kind.enumerants@.take(upto).last() == kind.enumerants@[upto - 1]);
        let e = kind.enumerants@[upto - 1];
        let before = flag_parameters(kind.enumerants@.take(upto - 1), bits);
        let all = flag_parameters(kind.enumerants@.take(upto), bits);
        assert forall|j: int| 0 <= j < e.parameters@.len() implies e.parameters@[j] < limit by {
            assert(kind.enumerants@[upto - 1].parameters@[j] < limit);
        }
        assert forall|i: int| 0 <= i < all.len() implies all[i] < limit by {
            if i < before.len() {
                assert(all[i] == before[i]);
            } else {
                assert(all[i] == e.parameters@[i - before.len()]);
            }
        }
    }
}

proof fn lemma_value_parameters_within(kind: OperandKind, from: int, value: u32, limit: nat)
    requires
        kind.within(limit),
        0 <= from <= kind.enumerants@.len(),
    ensures
        all_below(value_parameters(kind.enumerants@.skip(from), value), limit),
    decreases kind.enumerants@.len() - from,
{
    if from < kind.enumerants@.len() {
        lemma_value_parameters_within(kind, from + 1, value, limit);
        assert(kind.enumerants@.skip(from).drop_first() =~= kind.enumerants@.skip(from + 1));
        assert(kind.enumerants@.skip(from).first() == kind.enumerants@[from]);
        let e = kind.enumerants@[from];
        assert forall|j: int| 0 <= j < e.parameters@.len() implies e.parameters@[j] < limit by {
            assert(kind.enumerants@[from].parameters@[j] < limit);
        }
    }
}

/// Reads what stands at one place of the operand list, once.
fn read_place(
    grammar: &Grammar,
    place: &LogicalOperand,
    words: &[u32],
    pos: usize,
    end: usize,
) -> (read: Result<(Vec<Operand>, usize), DecodeErrorKind>)
    requires
        pos <= end <= words@.len(),
        place.within(grammar.kinds().len()),
    ensures
        match read {
            Ok((operands, next)) => {
                &&& pos < next <= end
                &&& decode_place(grammar.kinds(), *place, words@.subrange(pos as int, end as int))
                    == Ok::<(Seq<OperandView>, nat), DecodeErrorKind>(
                    (operands.deep_view(), (next - pos) as nat),
                )
                &&& concat_words(operands.deep_view()).len() == next - pos
            },
            Err(e) => decode_place(grammar.kinds(), *place, words@.subrange(pos as int, end as int))
                == Err::<(Seq<OperandView>, nat), DecodeErrorKind>(e),
        },
{
    match place {
        LogicalOperand::One(k) => read_kind(grammar, *k, words, pos, end),
        LogicalOperand::ZeroOrOne(k) => read_kind(grammar, *k, words, pos, end),
        LogicalOperand::ZeroOrMore(k) => read_kind(grammar, *k, words, pos, end),
        LogicalOperand::Pairs(a, b) => {
            let ghost ws = words@.subrange(pos as int, end as int);
            match read_kind(grammar, *a, words, pos, end) {
                Err(e) => Err(e),
                Ok((mut operands, middle)) => {
                    proof {
                        assert(ws.skip(middle - pos) =~= words@.subrange(
                            middle as int,
                            end as int,
                        ));
                    }
                    match read_kind(grammar, *b, words, middle, end) {
                        Err(e) => Err(e),
                        Ok((mut more, next)) => {
                            proof {
                                lemma_concat_append(operands.deep_view(), more.deep_view());
                            }
                            append_operands(&mut operands, &mut more);
                            Ok((operands, next))
                        },
                    }
                },
            }
        },
    }
}

/// A result of decoding with operands put in front of it.
pub open spec fn prefixed(
    operands: Seq<OperandView>,
    rest: Result<Seq<OperandView>, DecodeErrorKind>,
) -> Result<Seq<OperandView>, DecodeErrorKind> {
    match rest {
        Ok(more) => Ok(operands + more),
        Err(e) => Err(e),
    }
}

/// A place that may be empty is empty where no word is left.
pub proof fn lemma_place_absent(
    kinds: Seq<OperandKind>,
    places: Seq<LogicalOperand>,
    words: Seq<u32>,
)
    requires
        places.len() > 0,
        words.len() == 0,
        may_be_absent(places.first()),
    ensures
        decode_operands(kinds, places, words) == decode_operands(
            kinds,
            places.drop_first(),
            words,
        ),
{
    reveal(decode_operands);
}

/// Where a place cannot be read, the operand list cannot be read.
pub proof fn lemma_place_fails(
    kinds: Seq<OperandKind>,
    places: Seq<LogicalOperand>,
    words: Seq<u32>,
)
    requires
        places.len() > 0,
        !(words.len() == 0 && may_be_absent(places.first())),
        decode_place(kinds, places.first(), words) is Err,
    ensures
        decode_operands(kinds, places, words) == Err::<Seq<OperandView>, DecodeErrorKind>(
            decode_place(kinds, places.first(), words)->Err_0,
        ),
{
    reveal(decode_operands);
}

/// Where a place has been read, the rest of the operand list follows: the
/// same place again where it may repeat, the next place where it may not.
pub proof fn lemma_place_read(
    kinds: Seq<OperandKind>,
    places: Seq<LogicalOperand>,
    words: Seq<u32>,
    before: Seq<OperandView>,
)
    requires
        places.len() > 0,
        !(words.len() == 0 && may_be_absent(places.first())),
        decode_place(kinds, places.first(), words) is Ok,
    ensures
        prefixed(before, decode_operands(kinds, places, words)) == prefixed(
            before + decode_place(kinds, places.first(), words)->Ok_0.0,
            decode_operands(
                kinds,
                if may_repeat(places.first()) {
                    places
                } else {
                    places.drop_first()
                },
                words.skip(decode_place(kinds, places.first(), words)->Ok_0.1 as int),
            ),
        ),
{
    reveal(decode_operands);
    let (operands, count) = decode_place(kinds, places.first(), words)->Ok_0;
    let rest = decode_operands(
        kinds,
        if may_repeat(places.first()) {
            places
        } else {
            places.drop_first()
        },
        words.skip(count as int),
    );
    match rest {
        Ok(more) => {
            assert(before + (operands + more) =~= (before + operands) + more);
        },
        Err(_) => {},
    }
}

/// Reads the operands of an instruction whose operand list has the given
/// places, from the words between `pos` and `end`.
fn read_operands(
    grammar: &Grammar,
    places: &Vec<LogicalOperand>,
    words: &[u32],
    pos: usize,
    end: usize,
) -> (read: Result<Vec<Operand>, DecodeErrorKind>)
    requires
        pos <= end <= words@.len(),
        forall|i: int| 0 <= i < places@.len() ==> (#[trigger] places@[i]).within(grammar.kinds().len()),
    ensures
        match read {
            Ok(operands) => {
                &&& decode_operands(
                    grammar.kinds(),
                    places@,
                    words@.subrange(pos as int, end as int),
                ) == Ok::<Seq<OperandView>, DecodeErrorKind>(operands.deep_view())
                &&& concat_words(operands.deep_view()).len() == end - pos
            },
            Err(e) => decode_operands(
                grammar.kinds(),
                places@,
                words@.subrange(pos as int, end as int),
            ) == Err::<Seq<OperandView>, DecodeErrorKind>(e),
        },
{
    let ghost ws = words@.subrange(pos as int, end as int);
    let ghost kinds = grammar.kinds();
    let mut operands: Vec<Operand> = Vec::new();
    let mut cur: usize = pos;
    let mut i: usize = 0;
    proof {
        assert(places@.skip(0) =~= places@);
        assert(ws.skip(0) =~= ws);
        assert(operands.deep_view() =~= Seq::<OperandView>::empty());
        match decode_operands(kinds, places@, ws) {
            Ok(more) => {
                assert(Seq::<OperandView>::empty() + more =~= more);
            },
            Err(_) => {},
        }
    }
    while i < places.len()
        invariant
            pos <= cur <= end <= words@.len(),
            i <= places.len(),
            ws == words@.subrange(pos as int, end as int),
            kinds == grammar.kinds(),
            forall|k: int| 0 <= k < places@.len() ==> (#[trigger] places@[k]).within(kinds.len()),
            decode_operands(kinds, places@, ws) == prefixed(
                operands.deep_view(),
                decode_operands(kinds, places@.skip(i as int), ws.skip(cur - pos)),
            ),
            concat_words(operands.deep_view()).len() == cur - pos,
        decreases places.len() - i, end - cur,
    {
        let ghost here = places@.skip(i as int);
        let ghost left = ws.skip(cur - pos);
        proof {
            assert(here.first() == places@[i as int]);
            assert(here.drop_first() =~= places@.skip(i + 1));
            assert(left =~= words@.subrange(cur as int, end as int));
        }
        let place = places[i];
        let absent = !matches!(place, LogicalOperand::One(_));
        if cur == end && absent {
            proof {
                lemma_place_absent(kinds, here, left);
            }
            i += 1;
        } else {
            match read_place(grammar, &place, words, cur, end) {
                Err(e) => {
                    proof {
                        lemma_place_fails(kinds, here, left);
                    }
                    return Err(e);
                },
                Ok((mut more, next)) => {
                    let repeat = matches!(place, LogicalOperand::ZeroOrMore(_))
                        || matches!(place, LogicalOperand::Pairs(_, _));
                    proof {
                        lemma_place_read(kinds, here, left, operands.deep_view());
                        assert(left.skip(next - cur) =~= ws.skip(next - pos));
                        lemma_concat_append(operands.deep_view(), more.deep_view());
                    }
                    append_operands(&mut operands, &mut more);
                    cur = next;
                    if !repeat {
                        i += 1;
                    }
                },
            }
        }
    }
    proof {
        reveal(decode_operands);
        assert(places@.skip(i as int) =~= Seq::<LogicalOperand>::empty());
        assert(operands.deep_view() + Seq::<OperandView>::empty() =~= operands.deep_view());
    }
    if cur == end {
        Ok(operands)
    } else {
        Err(DecodeErrorKind::WordCountMismatch)
    }
}

/// Reads the instruction whose words lie between `pos` and `end`.
pub fn read_instruction(grammar: &Grammar, words: &[u32], pos: usize, end: usize) -> (read: Result<
    Instruction,
    DecodeErrorKind,
>)
    requires
        pos < end <= words@.len(),
        end - pos <= 0xffff,
    ensures
        match read {
            Ok(inst) => {
                &&& decode_instruction(*grammar, words@.subrange(pos as int, end as int)) == Ok::<
                    InstructionView,
                    DecodeErrorKind,
                >(inst@)
                &&& inst@.word_count() == end - pos
            },
            Err(e) => decode_instruction(*grammar, words@.subrange(pos as int, end as int))
                == Err::<InstructionView, DecodeErrorKind>(e),
        },
{
    let ghost ws = words@.subrange(pos as int, end as int);
    let first = words[pos];
    assert(ws[0] == first);
    let opcode = (first & 0xffff) as u16;
    let format = match grammar.lookup(opcode) {
        None => {
            return Err(DecodeErrorKind::UnknownOpcode);
        },
        Some(format) => format,
    };
    let ids: usize = if format.has_result_type {
        1
    } else {
        0
    } + if format.has_result_id {
        1
    } else {
        0
    };
    assert(ids == id_words(format.has_result_type, format.has_result_id));
    if end - pos - 1 < ids {
        return Err(DecodeErrorKind::WordCountMismatch);
    }
    let result_type: Option<u32> = if format.has_result_type {
        Some(words[pos + 1])
    } else {
        None
    };
    let result_id: Option<u32> = if format.has_result_id {
        Some(words[pos + ids])
    } else {
        None
    };
    let cur: usize = pos + 1 + ids;
    proof {
        assert(format.has_result_type ==> ws[1] == words@[pos + 1]);
        assert(format.has_result_id ==> ws[ids as int] == words@[pos + ids]);
        assert(ws.skip(1 + ids as int) =~= words@.subrange(cur as int, end as int));
    }
    match read_operands(grammar, &format.operands, words, cur, end) {
        Err(e) => Err(e),
        Ok(operands) => {
            proof {
                let view = InstructionView {
                    opcode,
                    result_type,
                    result_id,
                    operands: operands.deep_view(),
                };
                assert(view.word_count() == end - pos);
            }
            Ok(Instruction::from_parts(opcode, result_type, result_id, operands))
        },
    }
}

} // verus!
