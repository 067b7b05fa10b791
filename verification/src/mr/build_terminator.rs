//! Calls that end the open basic block.

use crate::mr::builder::{
    carried_out, instruction, literals, push_literals, Builder, StructureError,
};
use crate::mr::loader::Phase;
use crate::mr::operand::{Operand, OperandView, Word};
use crate::spirv::{
    OP_BRANCH, OP_BRANCH_CONDITIONAL, OP_KILL, OP_RETURN, OP_RETURN_VALUE, OP_UNREACHABLE,
};
use vstd::prelude::*;

verus! {

impl Builder {
    /// Ends the open block with a jump to the block with the given label.
    pub fn branch(&mut self, target: Word) -> (done: Result<(), StructureError>)
        ensures
            carried_out(
                old(self)@,
                final(self)@,
                done,
                old(self)@.placing_in_block(
                    instruction(
                        OP_BRANCH,
                        None,
                        None,
                        seq![OperandView::IdRef(target)],
                    ),
                ),
            ),
            done is Ok ==> final(self)@.phase() == Phase::InFunction,
            old(self)@.wf() ==> final(self)@.wf(),
    {
        let operands: Vec<Operand> = vec![Operand::IdRef(target)];
        assert(operands.deep_view() =~= seq![OperandView::IdRef(target)]);
        self.instruction(OP_BRANCH, None, None, operands)
    }

    /// Ends the open block with a jump to one of two blocks, chosen by a
    /// condition; `weights` holds the two branch weights, or nothing.
    pub fn branch_conditional(
        &mut self,
        condition: Word,
        true_label: Word,
        false_label: Word,
        weights: Vec<u32>,
    ) -> (done: Result<(), StructureError>)
        ensures
            carried_out(
                old(self)@,
                final(self)@,
                done,
                old(self)@.placing_in_block(
                    instruction(
                        OP_BRANCH_CONDITIONAL,
                        None,
                        None,
                        seq![
                        OperandView::IdRef(condition),
                        OperandView::IdRef(true_label),
                        OperandView::IdRef(false_label),
                    ] + literals(weights@),
                    ),
                ),
            ),
            done is Ok ==> final(self)@.phase() == Phase::InFunction,
            old(self)@.wf() ==> final(self)@.wf(),
    {
        let mut operands: Vec<Operand> = vec![
            Operand::IdRef(condition),
            Operand::IdRef(true_label),
            Operand::IdRef(false_label),
        ];
        assert(operands.deep_view() =~= seq![
            OperandView::IdRef(condition),
            OperandView::IdRef(true_label),
            OperandView::IdRef(false_label),
        ]);
        push_literals(&mut operands, &weights);
        self.instruction(OP_BRANCH_CONDITIONAL, None, None, operands)
    }

    /// Ends the open block by discarding the fragment.
    pub fn kill(&mut self) -> (done: Result<(), StructureError>)
        ensures
            carried_out(
                old(self)@,
                final(self)@,
                done,
                old(self)@.placing_in_block(
                    instruction(
                        OP_KILL,
                        None,
                        None,
                        Seq::empty(),
                    ),
                ),
            ),
            done is Ok ==> final(self)@.phase() == Phase::InFunction,
            old(self)@.wf() ==> final(self)@.wf(),
    {
        let operands: Vec<Operand> = Vec::new();
        assert(operands.deep_view() =~= Seq::<OperandView>::empty());
        self.instruction(OP_KILL, None, None, operands)
    }

    /// Ends the open block with a return from a function without a value.
    pub fn ret(&mut self) -> (done: Result<(), StructureError>)
        ensures
            carried_out(
                old(self)@,
                final(self)@,
                done,
                old(self)@.placing_in_block(
                    instruction(
                        OP_RETURN,
                        None,
                        None,
                        Seq::empty(),
                    ),
                ),
            ),
            done is Ok ==> final(self)@.phase() == Phase::InFunction,
            old(self)@.wf() ==> final(self)@.wf(),
    {
        let operands: Vec<Operand> = Vec::new();
        assert(operands.deep_view() =~= Seq::<OperandView>::empty());
        self.instruction(OP_RETURN, None, None, operands)
    }

    /// Ends the open block with a return of the given value.
    pub fn ret_value(&mut self, value: Word) -> (done: Result<(), StructureError>)
        ensures
            carried_out(
                old(self)@,
                final(self)@,
                done,
                old(self)@.placing_in_block(
                    instruction(
                        OP_RETURN_VALUE,
                        None,
                        None,
                        seq![OperandView::IdRef(value)],
                    ),
                ),
            ),
            done is Ok ==> final(self)@.phase() == Phase::InFunction,
            old(self)@.wf() ==> final(self)@.wf(),
    {
        let operands: Vec<Operand> = vec![Operand::IdRef(value)];
        assert(operands.deep_view() =~= seq![OperandView::IdRef(value)]);
        self.instruction(OP_RETURN_VALUE, None, None, operands)
    }

    /// Ends the open block with the mark that it is never reached.
    pub fn unreachable(&mut self) -> (done: Result<(), StructureError>)
        ensures
            carried_out(
                old(self)@,
                final(self)@,
                done,
                old(self)@.placing_in_block(
                    instruction(
                        OP_UNREACHABLE,
                        None,
                        None,
                        Seq::empty(),
                    ),
                ),
            ),
            done is Ok ==> final(self)@.phase() == Phase::InFunction,
            old(self)@.wf() ==> final(self)@.wf(),
    {
        let operands: Vec<Operand> = Vec::new();
        assert(operands.deep_view() =~= Seq::<OperandView>::empty());
        self.instruction(OP_UNREACHABLE, None, None, operands)
    }
}

} // verus!
