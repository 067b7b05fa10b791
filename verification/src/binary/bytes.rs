//! Words at the storage boundary: each word is four bytes, the least
//! significant one first.

use crate::binary::assemble::Assemble;
use crate::binary::decode::unpacked;
use crate::binary::error::{DecodeError, DecodeErrorKind};
use crate::binary::parse::{fault, parse, parse_words};
use crate::grammar::table::Grammar;
use crate::mr::constructs::{Module, ModuleView};
use crate::utils::num::{byte_of_word, word_at, word_of_bytes};
use vstd::prelude::*;

verus! {

/// The words that bytes hold, four bytes to a word, the least significant
/// byte first. Bytes that do not fill a word are left out.
pub open spec fn words_of_bytes(bytes: Seq<u8>) -> Seq<u32> {
    Seq::new((bytes.len() / 4) as nat, |i: int| word_at(bytes, 4 * i))
}

/// A word is made of its own bytes.
pub proof fn lemma_word_of_its_bytes(word: u32)
    ensures
        word_of_bytes(
            byte_of_word(word, 0),
            byte_of_word(word, 1),
            byte_of_word(word, 2),
            byte_of_word(word, 3),
        ) == word,
{
    assert(((((word >> 0u32) & 0xff) as u8) as u32) | (((((word >> 8u32) & 0xff) as u8) as u32)
        << 8) | (((((word >> 16u32) & 0xff) as u8) as u32) << 16) | (((((word >> 24u32)
        & 0xff) as u8) as u32) << 24) == word) by (bit_vector);
}

/// The bytes of words hold the words.
pub proof fn lemma_words_of_unpacked(words: Seq<u32>)
    ensures
        words_of_bytes(unpacked(words)) == words,
{
    let bytes = unpacked(words);
    assert forall|i: int| 0 <= i < words.len() implies words_of_bytes(bytes)[i] == words[i] by {
        lemma_word_of_its_bytes(words[i]);
        assert(bytes[4 * i] == byte_of_word(words[(4 * i) / 4], (4 * i) % 4));
        assert(bytes[4 * i + 1] == byte_of_word(words[(4 * i + 1) / 4], (4 * i + 1) % 4));
        assert(bytes[4 * i + 2] == byte_of_word(words[(4 * i + 2) / 4], (4 * i + 2) % 4));
        assert(bytes[4 * i + 3] == byte_of_word(words[(4 * i + 3) / 4], (4 * i + 3) % 4));
    }
    assert(words_of_bytes(bytes) =~= words);
}

/// Writes words as bytes, the least significant byte of each word first.
pub fn words_to_bytes(words: &[u32]) -> (bytes: Vec<u8>)
    ensures
        bytes@ == unpacked(words@),
{
    let mut bytes: Vec<u8> = Vec::new();
    let mut i: usize = 0;
    while i < words.len()
        invariant
            i <= words.len(),
            bytes@.len() == 4 * i,
            forall|j: int| 0 <= j < 4 * i ==> bytes@[j] == byte_of_word(words@[j / 4], j % 4),
        decreases words.len() - i,
    {
        let word = words[i];
        assert(word >> 0u32 == word) by (bit_vector);
        bytes.push((word & 0xff) as u8);
        bytes.push(((word >> 8) & 0xff) as u8);
        bytes.push(((word >> 16) & 0xff) as u8);
        bytes.push(((word >> 24) & 0xff) as u8);
        i += 1;
    }
    assert(bytes@ =~= unpacked(words@));
    bytes
}

/// Reads bytes as words, the least significant byte of each word first;
/// `None` where the bytes do not make up whole words.
pub fn bytes_to_words(bytes: &[u8]) -> (read: Option<Vec<u32>>)
    ensures
        match read {
            Some(words) => bytes@.len() % 4 == 0 && words@ == words_of_bytes(bytes@),
            None => bytes@.len() % 4 != 0,
        },
{
    if bytes.len() % 4 != 0 {
        return None;
    }
    let count = bytes.len() / 4;
    let mut words: Vec<u32> = Vec::new();
    let mut i: usize = 0;
    while i < count
        invariant
            i <= count,
            count == bytes@.len() / 4,
            bytes@.len() % 4 == 0,
            bytes@.len() <= usize::MAX,
            words@.len() == i,
            forall|k: int| 0 <= k < i ==> words@[k] == word_at(bytes@, 4 * k),
        decreases count - i,
    {
        let at = 4 * i;
        let word = (bytes[at] as u32) | ((bytes[at + 1] as u32) << 8) | ((bytes[at + 2] as u32)
            << 16) | ((bytes[at + 3] as u32) << 24);
        words.push(word);
        i += 1;
    }
    assert(words@ =~= words_of_bytes(bytes@));
    Some(words)
}

/// Assembles a value and returns its binary code as bytes.
pub fn assemble_bytes<T: Assemble>(value: &T) -> (bytes: Vec<u8>)
    ensures
        bytes@ == unpacked(value.encoding()),
{
    let code = value.assemble();
    words_to_bytes(code.as_slice())
}

/// The module that a byte stream holds: the bytes have to make up whole
/// words, and the words a module.
pub open spec fn parse_stream(grammar: Grammar, bytes: Seq<u8>) -> Result<ModuleView, DecodeError> {
    if bytes.len() % 4 != 0 {
        Err(fault(DecodeErrorKind::TruncatedStream, bytes.len() / 4))
    } else {
        parse(grammar, words_of_bytes(bytes))
    }
}

/// Parses a byte stream into a module. A stream that ends inside a word is
/// truncated at that word.
pub fn parse_bytes(grammar: &Grammar, bytes: &[u8]) -> (parsed: Result<Module, DecodeError>)
    ensures
        match parsed {
            Ok(module) => parse_stream(*grammar, bytes@) == Ok::<ModuleView, DecodeError>(module@),
            Err(e) => parse_stream(*grammar, bytes@) == Err::<ModuleView, DecodeError>(e),
        },
{
    match bytes_to_words(bytes) {
        None => Err(
            DecodeError { kind: DecodeErrorKind::TruncatedStream, offset: bytes.len() / 4 },
        ),
        Some(words) => parse_words(grammar, words.as_slice()),
    }
}

} // verus!
