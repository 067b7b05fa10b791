//! The word sequence that each part of a module stands for.

use crate::mr::constructs::{
    BasicBlockView, FunctionView, InstructionView, ModuleHeader, ModuleView,
};
use crate::mr::operand::OperandView;
use crate::utils::num::word_at;
use vstd::prelude::*;
use vstd::utf8::encode_utf8;

verus! {

/// The low 32 bits of a 64-bit value.
pub open spec fn low_word(v: u64) -> u32 {
    (v & 0xffff_ffff) as u32
}

/// The high 32 bits of a 64-bit value.
pub open spec fn high_word(v: u64) -> u32 {
    (v >> 32) as u32
}

/// The 64-bit value with the given low and high halves.
pub open spec fn join_words(low: u32, high: u32) -> u64 {
    (low as u64) | ((high as u64) << 32)
}

/// The two halves of a 64-bit value give the value back.
pub proof fn lemma_join_split(v: u64)
    ensures
        join_words(low_word(v), high_word(v)) == v,
{
    assert((((v & 0xffff_ffff) as u32) as u64) | ((((v >> 32) as u32) as u64) << 32) == v)
        by (bit_vector);
}

/// Bytes packed four to a word, least significant byte first, and closed by
/// a zero byte: the last word is padded with zeros, and where the bytes fill
/// their words exactly, a word of zeros follows them.
pub open spec fn packed_bytes(bytes: Seq<u8>) -> Seq<u32> {
    Seq::new((bytes.len() / 4 + 1) as nat, |i: int| word_at(bytes, 4 * i))
}

/// The words of a text literal: its UTF-8 bytes, packed.
pub open spec fn packed_string(text: Seq<char>) -> Seq<u32> {
    packed_bytes(encode_utf8(text))
}

/// Values of the model that have a binary form.
pub trait Encoded: Sized {
    /// The words that encode the value.
    spec fn words(self) -> Seq<u32>;
}

/// The words of a run of values, one value's words after another's.
pub open spec fn concat_words<T: Encoded>(items: Seq<T>) -> Seq<u32>
    decreases items.len(),
{
    if items.len() == 0 {
        Seq::empty()
    } else {
        concat_words(items.drop_last()) + items.last().words()
    }
}

/// Adding a value at the end adds its words at the end.
pub proof fn lemma_concat_push<T: Encoded>(items: Seq<T>, item: T)
    ensures
        concat_words(items.push(item)) == concat_words(items) + item.words(),
{
    assert(items.push(item).drop_last() =~= items);
}

/// The words of two runs joined are the words of the first, then those of the second.
pub proof fn lemma_concat_append<T: Encoded>(a: Seq<T>, b: Seq<T>)
    ensures
        concat_words(a + b) == concat_words(a) + concat_words(b),
    decreases b.len(),
{
    if b.len() == 0 {
        assert(a + b =~= a);
        assert(concat_words(a) + concat_words(b) =~= concat_words(a));
    } else {
        lemma_concat_append(a, b.drop_last());
        assert((a + b).drop_last() =~= a + b.drop_last());
        assert((a + b).last() == b.last());
        assert(concat_words(a + b) =~= concat_words(a) + concat_words(b));
    }
}

/// The words of a run that holds one value are that value's words.
pub proof fn lemma_concat_single<T: Encoded>(item: T)
    ensures
        concat_words(seq![item]) == item.words(),
{
    assert(seq![item].drop_last() =~= Seq::<T>::empty());
    assert(concat_words(Seq::<T>::empty()) =~= Seq::<u32>::empty());
    assert(concat_words(seq![item]) =~= concat_words(Seq::<T>::empty()) + item.words());
}

/// The words of a run start with the words of its first value.
pub proof fn lemma_concat_first<T: Encoded>(items: Seq<T>)
    requires
        items.len() > 0,
    ensures
        concat_words(items) == items.first().words() + concat_words(items.drop_first()),
{
    assert(items =~= seq![items.first()] + items.drop_first());
    lemma_concat_append(seq![items.first()], items.drop_first());
    lemma_concat_single(items.first());
}

/// One more value taken from a run adds that value's words.
pub proof fn lemma_concat_take_step<T: Encoded>(items: Seq<T>, i: int)
    requires
        0 <= i < items.len(),
    ensures
        concat_words(items.take(i + 1)) == concat_words(items.take(i)) + items[i].words(),
{
    assert(items.take(i + 1) =~= items.take(i).push(items[i]));
    lemma_concat_push(items.take(i), items[i]);
}

/// A prefix of a run has no more words than the run.
pub proof fn lemma_concat_take_le<T: Encoded>(items: Seq<T>, i: int)
    requires
        0 <= i <= items.len(),
    ensures
        concat_words(items.take(i)).len() <= concat_words(items).len(),
{
    assert(items =~= items.take(i) + items.skip(i));
    lemma_concat_append(items.take(i), items.skip(i));
}

impl Encoded for OperandView {
    open spec fn words(self) -> Seq<u32> {
        match self {
            OperandView::Bitmask(v) => seq![v],
            OperandView::ValueEnum(v) => seq![v],
            OperandView::IdRef(v) => seq![v],
            OperandView::LiteralInt32(v) => seq![v],
            OperandView::LiteralInt64(v) => seq![low_word(v), high_word(v)],
            OperandView::LiteralFloat32(v) => seq![v],
            OperandView::LiteralFloat64(v) => seq![low_word(v), high_word(v)],
            OperandView::LiteralString(s) => packed_string(s),
            OperandView::LiteralContextDependent(v) => seq![v],
        }
    }

}

/// The first word of an instruction: the opcode in the low 16 bits, the
/// number of words in the high 16 bits.
pub open spec fn header_word(opcode: u16, count: nat) -> u32 {
    (opcode as u32) | ((count as u32) << 16)
}

/// The opcode that a first word holds.
pub open spec fn opcode_of(word: u32) -> u16 {
    (word & 0xffff) as u16
}

/// The number of words that a first word holds.
pub open spec fn word_count_of(word: u32) -> nat {
    (word >> 16) as nat
}

/// A first word gives back the opcode and the count that it was made of.
pub proof fn lemma_header_word(opcode: u16, count: nat)
    requires
        count <= 0xffff,
    ensures
        opcode_of(header_word(opcode, count)) == opcode,
        word_count_of(header_word(opcode, count)) == count,
{
    let c = count as u32;
    assert((((opcode as u32) | (c << 16)) & 0xffff) as u16 == opcode) by (bit_vector)
        requires
            c <= 0xffff,
    ;
    assert(((opcode as u32) | (c << 16)) >> 16 == c) by (bit_vector)
        requires
            c <= 0xffff,
    ;
}

/// The word of an id that is there, nothing for one that is not.
pub open spec fn opt_word(id: Option<u32>) -> Seq<u32> {
    match id {
        Some(v) => seq![v],
        None => Seq::empty(),
    }
}

/// The words of a value that is there, nothing for one that is not.
pub open spec fn opt_words<T: Encoded>(item: Option<T>) -> Seq<u32> {
    match item {
        Some(v) => v.words(),
        None => Seq::empty(),
    }
}

impl Encoded for InstructionView {
    open spec fn words(self) -> Seq<u32> {
        seq![header_word(self.opcode, self.word_count())] + opt_word(self.result_type) + opt_word(
            self.result_id,
        ) + concat_words(self.operands)
    }
}

impl InstructionView {
    /// The first word of an instruction holds its opcode and, in the high
    /// half, the number of words that the instruction occupies, the first
    /// word included.
    pub proof fn lemma_first_word(self)
        requires
            self.wf(),
        ensures
            self.words().len() == self.word_count(),
            opcode_of(self.words()[0]) == self.opcode,
            word_count_of(self.words()[0]) == self.words().len(),
    {
        lemma_header_word(self.opcode, self.word_count());
    }
}

impl Encoded for BasicBlockView {
    open spec fn words(self) -> Seq<u32> {
        opt_words(self.label) + concat_words(self.instructions)
    }
}

impl Encoded for FunctionView {
    open spec fn words(self) -> Seq<u32> {
        opt_words(self.def) + concat_words(self.basic_blocks) + opt_words(self.end)
    }
}

impl Encoded for ModuleHeader {
    open spec fn words(self) -> Seq<u32> {
        seq![self.magic_number, self.version, self.generator, self.bound, self.reserved_word]
    }
}

impl Encoded for ModuleView {
    open spec fn words(self) -> Seq<u32> {
        opt_words(self.header) + concat_words(self.global_instructions()) + concat_words(
            self.functions,
        )
    }
}

} // verus!
