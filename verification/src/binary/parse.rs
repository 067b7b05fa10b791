//! Parsing a word stream into a module.

use crate::binary::decode::{decode_instruction, read_instruction};
use crate::binary::encoding::word_count_of;
use crate::binary::error::{DecodeError, DecodeErrorKind};
use crate::grammar::table::Grammar;
use crate::mr::constructs::{Module, ModuleHeader, ModuleView};
use crate::mr::loader::{place, CursorView, Loader, LoaderView};
use crate::spirv::MAGIC_NUMBER;
use vstd::prelude::*;

verus! {

/// The error of the given kind at the given word.
pub open spec fn fault(kind: DecodeErrorKind, offset: nat) -> DecodeError {
    DecodeError { kind, offset: offset as usize }
}

/// The module that results when the instructions in `words` are put in
/// their places one after another, starting from `state`. `offset` is the
/// index of the first of `words` in the whole stream.
///
/// The high half of an instruction's first word says how many words the
/// instruction has. A count of zero, a count that reaches past the end, an
/// instruction that cannot be decoded and an instruction that has no place
/// are errors at the instruction's first word; a function still open at
/// the end is an error at the end.
pub open spec fn load(grammar: Grammar, words: Seq<u32>, offset: nat, state: LoaderView) -> Result<
    ModuleView,
    DecodeError,
>
    decreases words.len(),
{
    if words.len() == 0 {
        if state.cursor is Idle {
            Ok(state.module)
        } else {
            Err(fault(DecodeErrorKind::TruncatedStream, offset))
        }
    } else {
        let count = word_count_of(words[0]);
        if count == 0 {
            Err(fault(DecodeErrorKind::WordCountMismatch, offset))
        } else if count > words.len() {
            Err(fault(DecodeErrorKind::TruncatedStream, offset))
        } else {
            match decode_instruction(grammar, words.take(count as int)) {
                Err(kind) => Err(fault(kind, offset)),
                Ok(inst) => match place(state, inst) {
                    None => Err(fault(DecodeErrorKind::MisplacedInstruction, offset)),
                    Some(next) => load(grammar, words.skip(count as int), offset + count, next),
                },
            }
        }
    }
}

/// The header that the first five words of a stream hold.
pub open spec fn header_of(words: Seq<u32>) -> ModuleHeader {
    ModuleHeader {
        magic_number: words[0],
        version: words[1],
        generator: words[2],
        bound: words[3],
        reserved_word: words[4],
    }
}

/// The state in which loading starts: a module with a header and nothing else.
pub open spec fn initial(header: ModuleHeader) -> LoaderView {
    LoaderView {
        module: ModuleView { header: Some(header), ..ModuleView::empty() },
        cursor: CursorView::Idle,
    }
}

/// The module that a word stream holds: five words of header, the first
/// of them the magic number, then instructions to the end.
pub open spec fn parse(grammar: Grammar, words: Seq<u32>) -> Result<ModuleView, DecodeError> {
    if words.len() < 5 {
        Err(fault(DecodeErrorKind::TruncatedStream, words.len()))
    } else if words[0] != MAGIC_NUMBER {
        Err(fault(DecodeErrorKind::InvalidMagic, 0))
    } else {
        load(grammar, words.skip(5), 5, initial(header_of(words)))
    }
}

/// Parses a word stream into a module, with the grammar table as the guide
/// to each instruction's operands.
pub fn parse_words(grammar: &Grammar, words: &[u32]) -> (parsed: Result<Module, DecodeError>)
    ensures
        match parsed {
            Ok(module) => parse(*grammar, words@) == Ok::<ModuleView, DecodeError>(module@),
            Err(e) => parse(*grammar, words@) == Err::<ModuleView, DecodeError>(e),
        },
{
    let len = words.len();
    if len < 5 {
        return Err(DecodeError { kind: DecodeErrorKind::TruncatedStream, offset: len });
    }
    if words[0] != MAGIC_NUMBER {
        return Err(DecodeError { kind: DecodeErrorKind::InvalidMagic, offset: 0 });
    }
    let header = ModuleHeader {
        magic_number: words[0],
        version: words[1],
        generator: words[2],
        bound: words[3],
        reserved_word: words[4],
    };
    let mut loader = Loader::new(Some(header));
    let mut pos: usize = 5;
    while pos < len
        invariant
            5 <= pos <= len,
            len == words@.len(),
            parse(*grammar, words@) == load(*grammar, words@.skip(pos as int), pos as nat, loader@),
        decreases len - pos,
    {
        let ghost rest = words@.skip(pos as int);
        let first = words[pos];
        assert(rest[0] == first);
        let count = (first >> 16) as usize;
        assert(first >> 16 <= 0xffff) by (bit_vector);
        if count == 0 {
            return Err(DecodeError { kind: DecodeErrorKind::WordCountMismatch, offset: pos });
        }
        if count > len - pos {
            return Err(DecodeError { kind: DecodeErrorKind::TruncatedStream, offset: pos });
        }
        proof {
            assert(rest.take(count as int) =~= words@.subrange(pos as int, pos + count));
            assert(rest.skip(count as int) =~= words@.skip(pos + count));
        }
        match read_instruction(grammar, words, pos, pos + count) {
            Err(kind) => {
                return Err(DecodeError { kind, offset: pos });
            },
            Ok(inst) => {
                match loader.place(inst) {
                    Err(_) => {
                        return Err(
                            DecodeError { kind: DecodeErrorKind::MisplacedInstruction, offset: pos },
                        );
                    },
                    Ok(_) => {},
                }
            },
        }
        pos += count;
    }
    match loader.finish() {
        Some(module) => Ok(module),
        None => Err(DecodeError { kind: DecodeErrorKind::TruncatedStream, offset: pos }),
    }
}

} // verus!
