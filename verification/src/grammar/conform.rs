//! Which instructions the grammar table accepts.

use crate::binary::decode::{
    all_below, lemma_parameters_within, may_be_absent, may_repeat, parameter_kinds,
};
use crate::grammar::table::{Category, Grammar, LogicalOperand, OperandKind};
use crate::mr::constructs::{BasicBlock, Function, Instruction, InstructionView, Module};
use crate::mr::operand::{Operand, OperandView};
use crate::mr::structure::{each, each_opt, Property};
use vstd::prelude::*;
use vstd::utf8::encode_utf8;

verus! {

/// Whether an operand is one of the given kind: its variant is that of the
/// kind's category, its flags or its number are among the kind's
/// enumerants, and its text, if it is one, holds no zero byte.
pub open spec fn is_of_kind(kind: OperandKind, operand: OperandView) -> bool {
    match operand {
        OperandView::Bitmask(bits) => kind.category == Category::Bitmask && kind.legal_bits(bits),
        OperandView::ValueEnum(value) => kind.category == Category::ValueEnum && kind.legal_value(
            value,
        ),
        OperandView::IdRef(_) => kind.category == Category::Id,
        OperandView::LiteralInt32(_) => kind.category == Category::LiteralInt32,
        OperandView::LiteralInt64(_) => kind.category == Category::LiteralInt64,
        OperandView::LiteralFloat32(_) => kind.category == Category::LiteralFloat32,
        OperandView::LiteralFloat64(_) => kind.category == Category::LiteralFloat64,
        OperandView::LiteralString(text) => kind.category == Category::LiteralString
            && !encode_utf8(text).contains(0u8),
        OperandView::LiteralContextDependent(_) => kind.category == Category::ContextDependent,
    }
}

/// Whether `operands` are exactly one operand of each of the kinds in
/// `parameters`, in order.
pub open spec fn are_parameters(
    kinds: Seq<OperandKind>,
    parameters: Seq<usize>,
    operands: Seq<OperandView>,
) -> bool {
    &&& operands.len() == parameters.len()
    &&& forall|j: int|
        0 <= j < parameters.len() ==> is_of_kind(kinds[parameters[j] as int], #[trigger] operands[j])
}

/// The number of operands at the start of `operands` that make up one
/// operand of kind number `kind` with the operands that its value brings
/// with it; `None` where the operands do not start with such a group.
pub open spec fn group_len(kinds: Seq<OperandKind>, kind: usize, operands: Seq<OperandView>) -> Option<
    nat,
> {
    if operands.len() == 0 || !is_of_kind(kinds[kind as int], operands[0]) {
        None
    } else {
        let parameters = parameter_kinds(kinds[kind as int], operands[0]);
        if operands.len() < 1 + parameters.len() || !are_parameters(
            kinds,
            parameters,
            operands.subrange(1, 1 + parameters.len() as int),
        ) {
            None
        } else {
            Some(1 + parameters.len())
        }
    }
}

/// The number of operands at the start of `operands` that fill a place
/// once; `None` where the operands do not start with such a filling.
pub open spec fn filling_len(
    kinds: Seq<OperandKind>,
    place: LogicalOperand,
    operands: Seq<OperandView>,
) -> Option<nat> {
    match place {
        LogicalOperand::One(k) => group_len(kinds, k, operands),
        LogicalOperand::ZeroOrOne(k) => group_len(kinds, k, operands),
        LogicalOperand::ZeroOrMore(k) => group_len(kinds, k, operands),
        LogicalOperand::Pairs(a, b) => match group_len(kinds, a, operands) {
            None => None,
            Some(n) => match group_len(kinds, b, operands.skip(n as int)) {
                None => None,
                Some(m) => Some(n + m),
            },
        },
    }
}

/// Whether `operands` fill the places of an operand list, each place as
/// often as it allows, with nothing left over.
pub open spec fn fill_places(
    kinds: Seq<OperandKind>,
    places: Seq<LogicalOperand>,
    operands: Seq<OperandView>,
) -> bool
    decreases places.len(), operands.len(),
    via fill_places_ends
{
    if places.len() == 0 {
        operands.len() == 0
    } else if operands.len() == 0 && may_be_absent(places.first()) {
        fill_places(kinds, places.drop_first(), operands)
    } else {
        match filling_len(kinds, places.first(), operands) {
            None => false,
            Some(n) => fill_places(
                kinds,
                if may_repeat(places.first()) {
                    places
                } else {
                    places.drop_first()
                },
                operands.skip(n as int),
            ),
        }
    }
}

#[via_fn]
proof fn fill_places_ends(
    kinds: Seq<OperandKind>,
    places: Seq<LogicalOperand>,
    operands: Seq<OperandView>,
) {
    if places.len() > 0 {
        lemma_filling_len(kinds, places.first(), operands);
    }
}

/// What fills a place once is at least one of the operands and no more
/// than there are.
pub proof fn lemma_filling_len(
    kinds: Seq<OperandKind>,
    place: LogicalOperand,
    operands: Seq<OperandView>,
)
    ensures
        filling_len(kinds, place, operands) is Some ==> 1 <= filling_len(
            kinds,
            place,
            operands,
        )->0 <= operands.len(),
{
}

impl Grammar {
    /// Whether the table accepts an instruction: it has a format for the
    /// opcode, the instruction has the ids that the format asks for and no
    /// others, and the operands fill the places of the format's operand list.
    pub open spec fn accepts(&self, inst: InstructionView) -> bool {
        match self.format_of(inst.opcode) {
            None => false,
            Some(format) => {
                &&& inst.result_type is Some <==> format.has_result_type
                &&& inst.result_id is Some <==> format.has_result_id
                &&& fill_places(self.kinds(), format.operands@, inst.operands)
            },
        }
    }
}

/// The property of an instruction to be accepted by the grammar table.
pub open spec fn accepted(grammar: Grammar) -> Property {
    |inst: InstructionView| grammar.accepts(inst)
}

/// Tells whether a text holds no zero byte.
fn has_no_nul(text: &str) -> (clean: bool)
    ensures
        clean == !encode_utf8(text@).contains(0u8),
{
    let bytes = text.as_bytes();
    let mut i: usize = 0;
    while i < bytes.len()
        invariant
            i <= bytes.len(),
            bytes@ == encode_utf8(text@),
            forall|k: int| 0 <= k < i ==> bytes@[k] != 0,
        decreases bytes.len() - i,
    {
        if bytes[i] == 0 {
            assert(bytes@.contains(bytes@[i as int]));
            return false;
        }
        i += 1;
    }
    true
}

/// Tells whether an operand is one of the given kind.
pub fn operand_is_of_kind(kind: &OperandKind, operand: &Operand) -> (fits: bool)
    ensures
        fits == is_of_kind(*kind, operand@),
{
    match operand {
        Operand::Bitmask(bits) => kind.category == Category::Bitmask && kind.has_bits(*bits),
        Operand::ValueEnum(value) => kind.category == Category::ValueEnum && kind.has_value(*value),
        Operand::IdRef(_) => kind.category == Category::Id,
        Operand::LiteralInt32(_) => kind.category == Category::LiteralInt32,
        Operand::LiteralInt64(_) => kind.category == Category::LiteralInt64,
        Operand::LiteralFloat32(_) => kind.category == Category::LiteralFloat32,
        Operand::LiteralFloat64(_) => kind.category == Category::LiteralFloat64,
        Operand::LiteralString(text) => kind.category == Category::LiteralString && has_no_nul(
            text.as_str(),
        ),
        Operand::LiteralContextDependent(_) => kind.category == Category::ContextDependent,
    }
}

/// The length of a group, as a machine number.
pub open spec fn as_length(len: Option<nat>) -> Option<usize> {
    match len {
        Some(n) => Some(n as usize),
        None => None,
    }
}

/// Finds the length of the group of kind number `kind` that starts at
/// `pos` in the operands.
fn group_length(grammar: &Grammar, kind: usize, operands: &Vec<Operand>, pos: usize) -> (found:
    Option<usize>)
    requires
        kind < grammar.kinds().len(),
        pos <= operands@.len(),
    ensures
        found == as_length(group_len(grammar.kinds(), kind, operands.deep_view().skip(pos as int))),
        found is Some ==> 0 < found->0 <= operands@.len() - pos,
{
    proof {
        use_type_invariant(grammar);
    }
    let ghost rest = operands.deep_view().skip(pos as int);
    if pos == operands.len() {
        return None;
    }
    let described = grammar.kind(kind);
    let first = &operands[pos];
    assert(rest[0] == first@);
    if !operand_is_of_kind(described, first) {
        return None;
    }
    let parameters = match first {
        Operand::Bitmask(bits) => described.parameters_of_bits(*bits),
        Operand::ValueEnum(value) => described.parameters_of_value(*value),
        _ => Vec::new(),
    };
    proof {
        assert(parameters@ =~= parameter_kinds(*described, first@));
        lemma_parameters_within(*described, first@, grammar.kinds().len());
    }
    let count = parameters.len();
    if operands.len() - pos - 1 < count {
        return None;
    }
    let ghost extra = rest.subrange(1, 1 + count as int);
    let mut j: usize = 0;
    while j < count
        invariant
            j <= count,
            count == parameters@.len(),
            pos + 1 + count <= operands@.len(),
            operands@.len() <= usize::MAX,
            rest.len() > 0,
            is_of_kind(grammar.kinds()[kind as int], rest[0]),
            parameters@ == parameter_kinds(grammar.kinds()[kind as int], rest[0]),
            all_below(parameters@, grammar.kinds().len()),
            rest == operands.deep_view().skip(pos as int),
            extra == rest.subrange(1, 1 + count as int),
            forall|k: int|
                0 <= k < j ==> is_of_kind(
                    grammar.kinds()[parameters@[k] as int],
                    #[trigger] extra[k],
                ),
        decreases count - j,
    {
        let operand = &operands[pos + 1 + j];
        assert(extra[j as int] == operand@);
        assert(parameters@[j as int] < grammar.kinds().len());
        if !operand_is_of_kind(grammar.kind(parameters[j]), operand) {
            assert(!is_of_kind(grammar.kinds()[parameters@[j as int] as int], extra[j as int]));
            return None;
        }
        j += 1;
    }
    Some(1 + count)
}

/// Finds the length of what fills a place once, from `pos` in the operands.
fn filling_length(
    grammar: &Grammar,
    place: &LogicalOperand,
    operands: &Vec<Operand>,
    pos: usize,
) -> (found: Option<usize>)
    requires
        place.within(grammar.kinds().len()),
        pos <= operands@.len(),
    ensures
        found == as_length(
            filling_len(grammar.kinds(), *place, operands.deep_view().skip(pos as int)),
        ),
        found is Some ==> 0 < found->0 <= operands@.len() - pos,
{
    let total = operands.len();
    match place {
        LogicalOperand::One(k) => group_length(grammar, *k, operands, pos),
        LogicalOperand::ZeroOrOne(k) => group_length(grammar, *k, operands, pos),
        LogicalOperand::ZeroOrMore(k) => group_length(grammar, *k, operands, pos),
        LogicalOperand::Pairs(a, b) => {
            match group_length(grammar, *a, operands, pos) {
                None => None,
                Some(n) => {
                    proof {
                        assert(operands.deep_view().skip(pos as int).skip(n as int)
                            =~= operands.deep_view().skip(pos + n));
                    }
                    match group_length(grammar, *b, operands, pos + n) {
                        None => None,
                        Some(m) => Some(n + m),
                    }
                },
            }
        },
    }
}

/// Tells whether the operands fill the places of an operand list.
fn operands_fill(grammar: &Grammar, places: &Vec<LogicalOperand>, operands: &Vec<Operand>) -> (fits:
    bool)
    requires
        forall|i: int|
            0 <= i < places@.len() ==> (#[trigger] places@[i]).within(grammar.kinds().len()),
    ensures
        fits == fill_places(grammar.kinds(), places@, operands.deep_view()),
{
    let ghost kinds = grammar.kinds();
    let ghost all = operands.deep_view();
    let mut pos: usize = 0;
    let mut i: usize = 0;
    proof {
        assert(places@.skip(0) =~= places@);
        assert(all.skip(0) =~= all);
    }
    while i < places.len()
        invariant
            i <= places.len(),
            pos <= operands@.len(),
            kinds == grammar.kinds(),
            all == operands.deep_view(),
            forall|k: int| 0 <= k < places@.len() ==> (#[trigger] places@[k]).within(kinds.len()),
            fill_places(kinds, places@, all) == fill_places(
                kinds,
                places@.skip(i as int),
                all.skip(pos as int),
            ),
        decreases places.len() - i, operands.len() - pos,
    {
        let ghost here = places@.skip(i as int);
        let ghost left = all.skip(pos as int);
        proof {
            assert(here.first() == places@[i as int]);
            assert(here.drop_first() =~= places@.skip(i + 1));
        }
        let place = places[i];
        let absent = !matches!(place, LogicalOperand::One(_));
        if pos == operands.len() && absent {
            i += 1;
        } else {
            match filling_length(grammar, &place, operands, pos) {
                None => {
                    return false;
                },
                Some(n) => {
                    proof {
                        assert(left.skip(n as int) =~= all.skip(pos + n));
                    }
                    pos += n;
                    if !(matches!(place, LogicalOperand::ZeroOrMore(_)) || matches!(
                        place,
                        LogicalOperand::Pairs(_, _)
                    )) {
                        i += 1;
                    }
                },
            }
        }
    }
    proof {
        assert(places@.skip(i as int) =~= Seq::<LogicalOperand>::empty());
    }
    pos == operands.len()
}

/// Tells whether the grammar table accepts each of the instructions.
fn check_all(grammar: &Grammar, insts: &Vec<Instruction>) -> (fits: bool)
    ensures
        fits == each(insts.deep_view(), accepted(*grammar)),
{
    let mut i: usize = 0;
    while i < insts.len()
        invariant
            i <= insts.len(),
            forall|k: int| 0 <= k < i ==> grammar.accepts(#[trigger] insts.deep_view()[k]),
        decreases insts.len() - i,
    {
        if !grammar.check(&insts[i]) {
            assert(!accepted(*grammar)(insts.deep_view()[i as int]));
            return false;
        }
        i += 1;
    }
    true
}

/// Tells whether the grammar table accepts the instruction, if there is one.
fn check_optional(grammar: &Grammar, inst: &Option<Instruction>) -> (fits: bool)
    ensures
        fits == each_opt(inst.deep_view(), accepted(*grammar)),
{
    match inst {
        Some(i) => grammar.check(i),
        None => true,
    }
}

impl Grammar {
    /// Tells whether the table accepts an instruction.
    pub fn check(&self, inst: &Instruction) -> (fits: bool)
        ensures
            fits == self.accepts(inst@),
    {
        match self.lookup(inst.opcode()) {
            None => false,
            Some(format) => {
                inst.result_type().is_some() == format.has_result_type
                    && inst.result_id().is_some() == format.has_result_id && operands_fill(
                    self,
                    &format.operands,
                    inst.operands(),
                )
            },
        }
    }

    /// Tells whether the table accepts every instruction of a basic block.
    pub fn check_block(&self, block: &BasicBlock) -> (fits: bool)
        ensures
            fits == block@.every(accepted(*self)),
    {
        check_optional(self, &block.label) && check_all(self, &block.instructions)
    }

    /// Tells whether the table accepts every instruction of a function.
    pub fn check_function(&self, function: &Function) -> (fits: bool)
        ensures
            fits == function@.every(accepted(*self)),
    {
        if !check_optional(self, &function.def) || !check_optional(self, &function.end) {
            return false;
        }
        let mut i: usize = 0;
        while i < function.basic_blocks.len()
            invariant
                i <= function.basic_blocks.len(),
                forall|k: int|
                    0 <= k < i ==> (#[trigger] function@.basic_blocks[k]).every(accepted(*self)),
            decreases function.basic_blocks.len() - i,
        {
            if !self.check_block(&function.basic_blocks[i]) {
                assert(!function@.basic_blocks[i as int].every(accepted(*self)));
                return false;
            }
            i += 1;
        }
        true
    }

    /// Tells whether the table accepts every instruction of a module.
    pub fn check_module(&self, module: &Module) -> (fits: bool)
        ensures
            fits == module@.every(accepted(*self)),
    {
        if !(check_all(self, &module.capabilities) && check_all(self, &module.extensions)
            && check_all(self, &module.ext_inst_imports) && check_optional(
            self,
            &module.memory_model,
        ) && check_all(self, &module.entry_points) && check_all(self, &module.execution_modes)
            && check_all(self, &module.debugs) && check_all(self, &module.annotations)
            && check_all(self, &module.types_global_values)) {
            return false;
        }
        let mut i: usize = 0;
        while i < module.functions.len()
            invariant
                i <= module.functions.len(),
                forall|k: int|
                    0 <= k < i ==> (#[trigger] module@.functions[k]).every(accepted(*self)),
            decreases module.functions.len() - i,
        {
            if !self.check_function(&module.functions[i]) {
                assert(!module@.functions[i as int].every(accepted(*self)));
                return false;
            }
            i += 1;
        }
        true
    }
}

} // verus!
