//! What can go wrong when words are decoded.

use vstd::prelude::*;

verus! {

/// The ways in which a word stream can be malformed.
#[derive(Clone, Copy, Debug, PartialEq, Eq, Structural)]
pub enum DecodeErrorKind {
    /// The stream ends before the header, an instruction or a function is complete.
    TruncatedStream,
    /// The first word is not the format's magic number.
    InvalidMagic,
    /// The grammar table has no instruction with this opcode.
    UnknownOpcode,
    /// A flag or an enumerant's number is not among those of its kind.
    InvalidEnumerant,
    /// The words of the instruction end before a text's closing zero byte.
    UnterminatedString,
    /// The bytes of a text are not UTF-8.
    InvalidString,
    /// The instruction's word count does not agree with its operand list:
    /// words are left over, or an operand that has to be there is missing.
    WordCountMismatch,
    /// The instruction cannot stand where it is: a label outside a function,
    /// a function inside a function, an instruction between two blocks, a
    /// second memory model.
    MisplacedInstruction,
}

/// A malformed word stream: what is wrong, and where.
#[derive(Clone, Copy, Debug, PartialEq, Eq, Structural)]
pub struct DecodeError {
    /// What is wrong.
    pub kind: DecodeErrorKind,
    /// The index of the first word of the instruction that is at fault;
    /// zero for a wrong magic number; the length of the stream where the
    /// header is short or a function is still open at the end.
    pub offset: usize,
}

impl DecodeError {
    /// The offset of the fault in bytes, or `None` where it does not fit.
    pub fn byte_offset(&self) -> (bytes: Option<usize>)
        ensures
            match bytes {
                Some(b) => b == 4 * self.offset,
                None => 4 * self.offset > usize::MAX,
            },
    {
        self.offset.checked_mul(4)
    }
}

} // verus!
