//! The table's types and its lookups.

use vstd::prelude::*;

verus! {

/// How the operands of a kind are stored and encoded.
#[derive(Clone, Copy, Debug, PartialEq, Eq, Structural)]
pub enum Category {
    /// A set of flags in one word.
    Bitmask,
    /// An enumerant's value in one word.
    ValueEnum,
    /// An id in one word.
    Id,
    /// An integer in one word.
    LiteralInt32,
    /// An integer in two words, the low one first.
    LiteralInt64,
    /// The bit pattern of a floating-point number in one word.
    LiteralFloat32,
    /// The bit pattern of a floating-point number in two words, the low one first.
    LiteralFloat64,
    /// A text, packed into words and closed by a zero byte.
    LiteralString,
    /// A number in one word whose meaning the instruction gives.
    ContextDependent,
}

/// One place in an instruction's operand list: which kind of operand stands
/// there, and how often. The numbers are indices into the table's kinds.
#[derive(Clone, Copy, Debug, PartialEq, Eq, Structural)]
pub enum LogicalOperand {
    /// Exactly one operand of the kind.
    One(usize),
    /// One operand of the kind, or none.
    ZeroOrOne(usize),
    /// Any number of operands of the kind.
    ZeroOrMore(usize),
    /// Any number of pairs: an operand of the first kind, then one of the second.
    Pairs(usize, usize),
}

impl LogicalOperand {
    /// Whether every kind that the place names is below `limit`.
    pub open spec fn within(self, limit: nat) -> bool {
        match self {
            LogicalOperand::One(k) => k < limit,
            LogicalOperand::ZeroOrOne(k) => k < limit,
            LogicalOperand::ZeroOrMore(k) => k < limit,
            LogicalOperand::Pairs(a, b) => a < limit && b < limit,
        }
    }

    /// Tells whether every kind that the place names is below `limit`.
    pub fn is_within(&self, limit: usize) -> (within: bool)
        ensures
            within == self.within(limit as nat),
    {
        match self {
            LogicalOperand::One(k) => *k < limit,
            LogicalOperand::ZeroOrOne(k) => *k < limit,
            LogicalOperand::ZeroOrMore(k) => *k < limit,
            LogicalOperand::Pairs(a, b) => *a < limit && *b < limit,
        }
    }
}

/// One value of a bitmask or of an enumeration, with the kinds of the
/// operands that follow in the instruction when the value is chosen.
#[derive(Clone, Debug, PartialEq, Eq)]
pub struct Enumerant {
    /// The flag's bit or the enumerant's number.
    pub value: u32,
    /// The kinds of the operands that the value brings with it, in order.
    pub parameters: Vec<usize>,
}

/// The flags of all the enumerants together.
pub open spec fn mask_of(enumerants: Seq<Enumerant>) -> u32
    decreases enumerants.len(),
{
    if enumerants.len() == 0 {
        0
    } else {
        mask_of(enumerants.drop_last()) | enumerants.last().value
    }
}

/// Whether the flag of an enumerant is set in `bits`. The enumerant that
/// stands for no flag at all is never set.
pub open spec fn flag_set(value: u32, bits: u32) -> bool {
    value != 0 && bits & value == value
}

/// The parameter kinds of every flag that is set in `bits`, in the order
/// of the enumerants.
pub open spec fn flag_parameters(enumerants: Seq<Enumerant>, bits: u32) -> Seq<usize>
    decreases enumerants.len(),
{
    if enumerants.len() == 0 {
        Seq::empty()
    } else {
        flag_parameters(enumerants.drop_last(), bits) + (if flag_set(
            enumerants.last().value,
            bits,
        ) {
            enumerants.last().parameters@
        } else {
            Seq::empty()
        })
    }
}

/// The parameter kinds of the first enumerant whose number is `value`;
/// none where there is no such enumerant.
pub open spec fn value_parameters(enumerants: Seq<Enumerant>, value: u32) -> Seq<usize>
    decreases enumerants.len(),
{
    if enumerants.len() == 0 {
        Seq::empty()
    } else if enumerants.first().value == value {
        enumerants.first().parameters@
    } else {
        value_parameters(enumerants.drop_first(), value)
    }
}

/// An operand kind: its category and, for bitmasks and enumerations, its
/// legal values.
#[derive(Clone, Debug, PartialEq, Eq)]
pub struct OperandKind {
    /// The kind's name.
    pub name: String,
    /// How operands of the kind are encoded.
    pub category: Category,
    /// The legal values of a bitmask or an enumeration; empty for other kinds.
    pub enumerants: Vec<Enumerant>,
}

impl OperandKind {
    /// Whether `bits` holds no flag but the kind's own.
    pub open spec fn legal_bits(&self, bits: u32) -> bool {
        bits & !mask_of(self.enumerants@) == 0
    }

    /// Whether `value` is the number of one of the kind's enumerants.
    pub open spec fn legal_value(&self, value: u32) -> bool {
        exists|i: int| 0 <= i < self.enumerants@.len() && #[trigger] self.enumerants@[i].value == value
    }

    /// Whether every parameter kind of every enumerant is below `limit`.
    pub open spec fn within(&self, limit: nat) -> bool {
        forall|i: int, j: int|
            0 <= i < self.enumerants@.len() && 0 <= j < self.enumerants@[i].parameters@.len()
                ==> #[trigger] self.enumerants@[i].parameters@[j] < limit
    }

    /// Tells whether `bits` holds no flag but the kind's own.
    pub fn has_bits(&self, bits: u32) -> (legal: bool)
        ensures
            legal == self.legal_bits(bits),
    {
        let mut mask: u32 = 0;
        let mut i: usize = 0;
        while i < self.enumerants.len()
            invariant
                i <= self.enumerants.len(),
                mask == mask_of(self.enumerants@.take(i as int)),
            decreases self.enumerants.len() - i,
        {
            assert(self.enumerants@.take(i + 1).drop_last() =~= self.enumerants@.take(i as int));
            mask = mask | self.enumerants[i].value;
            i += 1;
        }
        assert(self.enumerants@.take(i as int) =~= self.enumerants@);
        bits & !mask == 0
    }

    /// Tells whether `value` is the number of one of the kind's enumerants.
    pub fn has_value(&self, value: u32) -> (legal: bool)
        ensures
            legal == self.legal_value(value),
    {
        let mut i: usize = 0;
        while i < self.enumerants.len()
            invariant
                i <= self.enumerants.len(),
                forall|k: int| 0 <= k < i ==> self.enumerants@[k].value != value,
            decreases self.enumerants.len() - i,
        {
            if self.enumerants[i].value == value {
                return true;
            }
            i += 1;
        }
        false
    }

    /// The kinds of the operands that follow a bitmask with the given bits.
    pub fn parameters_of_bits(&self, bits: u32) -> (kinds: Vec<usize>)
        ensures
            kinds@ == flag_parameters(self.enumerants@, bits),
    {
        let mut kinds: Vec<usize> = Vec::new();
        let mut i: usize = 0;
        while i < self.enumerants.len()
            invariant
                i <= self.enumerants.len(),
                kinds@ == flag_parameters(self.enumerants@.take(i as int), bits),
            decreases self.enumerants.len() - i,
        {
            assert(self.enumerants@.take(i + 1).drop_last() =~= self.enumerants@.take(i as int));
            let enumerant = &self.enumerants[i];
            if enumerant.value != 0 && bits & enumerant.value == enumerant.value {
                let ghost before = kinds@;
                let mut j: usize = 0;
                while j < enumerant.parameters.len()
                    invariant
                        j <= enumerant.parameters.len(),
                        kinds@ == before + enumerant.parameters@.take(j as int),
                    decreases enumerant.parameters.len() - j,
                {
                    kinds.push(enumerant.parameters[j]);
                    assert(enumerant.parameters@.take(j + 1) =~= enumerant.parameters@.take(
                        j as int,
                    ).push(enumerant.parameters@[j as int]));
                    j += 1;
                }
                assert(enumerant.parameters@.take(j as int) =~= enumerant.parameters@);
            } else {
                assert(kinds@ + Seq::<usize>::empty() =~= kinds@);
            }
            i += 1;
        }
        assert(self.enumerants@.take(i as int) =~= self.enumerants@);
        kinds
    }

    /// The kinds of the operands that follow an enumerant with the given number.
    pub fn parameters_of_value(&self, value: u32) -> (kinds: Vec<usize>)
        ensures
            kinds@ == value_parameters(self.enumerants@, value),
    {
        let mut kinds: Vec<usize> = Vec::new();
        let mut i: usize = 0;
        assert(self.enumerants@.skip(0) =~= self.enumerants@);
        while i < self.enumerants.len()
            invariant
                i <= self.enumerants.len(),
                value_parameters(self.enumerants@, value) == value_parameters(
                    self.enumerants@.skip(i as int),
                    value,
                ),
                kinds@.len() == 0,
            decreases self.enumerants.len() - i,
        {
            let enumerant = &self.enumerants[i];
            assert(self.enumerants@.skip(i as int).first() == self.enumerants@[i as int]);
            assert(self.enumerants@.skip(i as int).drop_first() =~= self.enumerants@.skip(i + 1));
            if enumerant.value == value {
                let mut j: usize = 0;
                while j < enumerant.parameters.len()
                    invariant
                        j <= enumerant.parameters.len(),
                        kinds@ == enumerant.parameters@.take(j as int),
                    decreases enumerant.parameters.len() - j,
                {
                    kinds.push(enumerant.parameters[j]);
                    assert(enumerant.parameters@.take(j + 1) =~= enumerant.parameters@.take(
                        j as int,
                    ).push(enumerant.parameters@[j as int]));
                    j += 1;
                }
                assert(enumerant.parameters@.take(j as int) =~= enumerant.parameters@);
                return kinds;
            }
            i += 1;
        }
        assert(kinds@ =~= Seq::<usize>::empty());
        kinds
    }

    /// Tells whether every parameter kind of every enumerant is below `limit`.
    pub fn is_within(&self, limit: usize) -> (within: bool)
        ensures
            within == self.within(limit as nat),
    {
        let mut i: usize = 0;
        while i < self.enumerants.len()
            invariant
                i <= self.enumerants.len(),
                forall|a: int, b: int|
                    0 <= a < i && 0 <= b < self.enumerants@[a].parameters@.len()
                        ==> #[trigger] self.enumerants@[a].parameters@[b] < limit,
            decreases self.enumerants.len() - i,
        {
            let enumerant = &self.enumerants[i];
            let mut j: usize = 0;
            while j < enumerant.parameters.len()
                invariant
                    j <= enumerant.parameters.len(),
                    i < self.enumerants.len(),
                    *enumerant == self.enumerants@[i as int],
                    forall|b: int| 0 <= b < j ==> #[trigger] enumerant.parameters@[b] < limit,
                decreases enumerant.parameters.len() - j,
            {
                if enumerant.parameters[j] >= limit {
                    assert(!(self.enumerants@[i as int].parameters@[j as int] < limit));
                    return false;
                }
                j += 1;
            }
            i += 1;
        }
        true
    }
}

/// The layout of the instructions of one opcode.
#[derive(Clone, Debug, PartialEq, Eq)]
pub struct InstructionFormat {
    /// The instruction's mnemonic.
    pub opname: String,
    /// The opcode.
    pub opcode: u16,
    /// Whether the id of the result's type follows the first word.
    pub has_result_type: bool,
    /// Whether the id of the result comes before the operands.
    pub has_result_id: bool,
    /// The places of the operand list, in order.
    pub operands: Vec<LogicalOperand>,
}

impl InstructionFormat {
    /// Whether every kind that the operand list names is below `limit`.
    pub open spec fn within(&self, limit: nat) -> bool {
        forall|i: int| 0 <= i < self.operands@.len() ==> (#[trigger] self.operands@[i]).within(limit)
    }

    /// Tells whether every kind that the operand list names is below `limit`.
    pub fn is_within(&self, limit: usize) -> (within: bool)
        ensures
            within == self.within(limit as nat),
    {
        let mut i: usize = 0;
        while i < self.operands.len()
            invariant
                i <= self.operands.len(),
                forall|k: int| 0 <= k < i ==> (#[trigger] self.operands@[k]).within(limit as nat),
            decreases self.operands.len() - i,
        {
            if !self.operands[i].is_within(limit) {
                return false;
            }
            i += 1;
        }
        true
    }
}

/// The first format in `formats` with the given opcode.
pub open spec fn find_format(formats: Seq<InstructionFormat>, opcode: u16) -> Option<
    InstructionFormat,
>
    decreases formats.len(),
{
    if formats.len() == 0 {
        None
    } else if formats.first().opcode == opcode {
        Some(formats.first())
    } else {
        find_format(formats.drop_first(), opcode)
    }
}

/// The error of [`Grammar::new`]: a format or an enumerant names a kind
/// that the table does not hold.
#[derive(Clone, Copy, Debug, PartialEq, Eq, Structural)]
pub struct InvalidGrammar;

/// The grammar table. Every kind that a format or an enumerant names is one
/// of the table's kinds.
#[derive(Debug)]
pub struct Grammar {
    formats: Vec<InstructionFormat>,
    kinds: Vec<OperandKind>,
}

impl Grammar {
    /// The formats of the table, in order.
    pub closed spec fn formats(&self) -> Seq<InstructionFormat> {
        self.formats@
    }

    /// The operand kinds of the table; a kind's number is its index here.
    pub closed spec fn kinds(&self) -> Seq<OperandKind> {
        self.kinds@
    }

    /// Whether every kind that the given formats and kinds name is one of the kinds.
    pub open spec fn consistent(formats: Seq<InstructionFormat>, kinds: Seq<OperandKind>) -> bool {
        &&& forall|i: int| 0 <= i < formats.len() ==> (#[trigger] formats[i]).within(kinds.len())
        &&& forall|k: int| 0 <= k < kinds.len() ==> (#[trigger] kinds[k]).within(kinds.len())
    }

    #[verifier::type_invariant]
    pub open spec fn wf(&self) -> bool {
        Grammar::consistent(self.formats(), self.kinds())
    }

    /// The format of the instructions with the given opcode: the first one
    /// in the table, if there are several.
    pub open spec fn format_of(&self, opcode: u16) -> Option<InstructionFormat> {
        find_format(self.formats(), opcode)
    }

    /// Makes a table of the given formats and kinds, unless one of them
    /// names a kind that is not among `kinds`.
    pub fn new(formats: Vec<InstructionFormat>, kinds: Vec<OperandKind>) -> (made: Result<
        Grammar,
        InvalidGrammar,
    >)
        ensures
            match made {
                Ok(grammar) => {
                    &&& grammar.formats() == formats@
                    &&& grammar.kinds() == kinds@
                    &&& grammar.wf()
                },
                Err(_) => !Grammar::consistent(formats@, kinds@),
            },
    {
        let limit = kinds.len();
        let mut i: usize = 0;
        while i < formats.len()
            invariant
                i <= formats.len(),
                limit == kinds@.len(),
                forall|a: int| 0 <= a < i ==> (#[trigger] formats@[a]).within(kinds@.len()),
            decreases formats.len() - i,
        {
            if !formats[i].is_within(limit) {
                return Err(InvalidGrammar);
            }
            i += 1;
        }
        let mut k: usize = 0;
        while k < kinds.len()
            invariant
                k <= kinds.len(),
                limit == kinds@.len(),
                forall|a: int| 0 <= a < k ==> (#[trigger] kinds@[a]).within(kinds@.len()),
            decreases kinds.len() - k,
        {
            if !kinds[k].is_within(limit) {
                return Err(InvalidGrammar);
            }
            k += 1;
        }
        Ok(Grammar { formats, kinds })
    }

    /// Looks up the format of the instructions with the given opcode.
    pub fn lookup(&self, opcode: u16) -> (found: Option<&InstructionFormat>)
        ensures
            match found {
                Some(format) => {
                    &&& self.format_of(opcode) == Some(*format)
                    &&& format.within(self.kinds().len())
                },
                None => self.format_of(opcode) is None,
            },
    {
        proof {
            use_type_invariant(self);
        }
        let mut i: usize = 0;
        assert(self.formats@.skip(0) =~= self.formats@);
        while i < self.formats.len()
            invariant
                i <= self.formats.len(),
                self.wf(),
                find_format(self.formats@, opcode) == find_format(
                    self.formats@.skip(i as int),
                    opcode,
                ),
            decreases self.formats.len() - i,
        {
            assert(self.formats@.skip(i as int).first() == self.formats@[i as int]);
            assert(self.formats@.skip(i as int).drop_first() =~= self.formats@.skip(i + 1));
            if self.formats[i].opcode == opcode {
                assert(self.formats()[i as int].within(self.kinds().len()));
                return Some(&self.formats[i]);
            }
            i += 1;
        }
        None
    }

    /// The number of operand kinds.
    pub fn kind_count(&self) -> (count: usize)
        ensures
            count == self.kinds().len(),
    {
        self.kinds.len()
    }

    /// The operand kind with the given number.
    pub fn kind(&self, index: usize) -> (kind: &OperandKind)
        requires
            index < self.kinds().len(),
        ensures
            *kind == self.kinds()[index as int],
    {
        &self.kinds[index]
    }
}

} // verus!
