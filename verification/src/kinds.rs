//! What the kinds of the optimizer mean.
//!
//! A kind fits a value where it says nothing false of it. On a line that a
//! pass leaves as it is, the kinds of the pass fit the values of every run:
//! where the pass has a text, the run has a text, and where the pass has a
//! number that is zero, or one that is not, so has the run.

use crate::instruction::Instruction;
use crate::instruction::Shape;
use crate::instruction::shape;
use crate::optimizer::AbstractStack;
use crate::optimizer::AbstractType;
use crate::optimizer::Effect;
use crate::optimizer::Truth;
use crate::optimizer::effect;
use crate::value::ValueModel;
use crate::vm::Move;
use crate::vm::step_spec;
use vstd::prelude::*;

verus! {

/// Whether a kind says nothing false of a value.
pub open spec fn fits(kind: AbstractType, v: ValueModel) -> bool {
    match kind {
        AbstractType::String => v is Text,
        AbstractType::Int(Truth::True) => v matches ValueModel::Int(x) && x != 0,
        AbstractType::Int(Truth::False) => v == ValueModel::Int(0),
        _ => true,
    }
}

/// Whether the kinds of a pass fit the values on top of the stack of a run,
/// one by one.
pub open spec fn fit_stack(kinds: AbstractStack, stack: Seq<ValueModel>) -> bool {
    &&& kinds.len() <= stack.len()
    &&& forall|j: int|
        0 <= j < kinds.len() ==> fits((#[trigger] kinds[j]).1, stack[stack.len() - kinds.len() + j])
}

/// Whether the kinds of the variables fit their values.
pub open spec fn fit_table(ram: Seq<AbstractType>, vars: Seq<ValueModel>) -> bool {
    &&& ram.len() == vars.len()
    &&& forall|i: int| 0 <= i < ram.len() ==> fits(#[trigger] ram[i], vars[i])
}

/// An instruction that is no jump keeps the kinds fitting: where they fit
/// before it, they fit behind it; and where the pass takes it as bound to
/// fail, it fails in the run.
pub proof fn lemma_effect_fits(
    inst: Instruction,
    position: usize,
    kinds: AbstractStack,
    ram: Seq<AbstractType>,
    stack: Seq<ValueModel>,
    vars: Seq<ValueModel>,
    unknown: i64,
)
    requires
        !(inst is Jump),
        !(inst is JumpFalse),
        fit_stack(kinds, stack),
        fit_table(ram, vars),
    ensures
        match (effect(inst, position, kinds, ram), step_spec(inst, stack, vars, unknown)) {
            (Effect::Next { stack: after, ram: types }, Move::Next { stack: next, vars: stored, .. }) => fit_stack(
                after,
                next,
            ) && fit_table(types, stored),
            (Effect::Flagged { .. }, m) => m is Abort,
            _ => true,
        },
{
    let n = kinds.len() as int;
    let d = stack.len() - n;
    match shape(inst) {
        Shape::Binary => {
            if n >= 2 {
                assert(fits(kinds[n - 1].1, stack[d + n - 1]));
                assert(fits(kinds[n - 2].1, stack[d + n - 2]));
            }
        },
        Shape::Unary => {
            if n >= 1 {
                assert(fits(kinds[n - 1].1, stack[d + n - 1]));
            }
        },
        Shape::Other => {
            if n >= 1 {
                assert(fits(kinds[n - 1].1, stack[d + n - 1]));
            }
        },
    }
    match (effect(inst, position, kinds, ram), step_spec(inst, stack, vars, unknown)) {
        (Effect::Next { stack: after, ram: types }, Move::Next { stack: next, vars: stored, .. }) => {
            assert forall|j: int| 0 <= j < after.len() implies fits(
                (#[trigger] after[j]).1,
                next[next.len() - after.len() + j],
            ) by {
                if j < n && j < after.len() - 1 {
                    assert(fits(kinds[j].1, stack[d + j]));
                } else if j < n {
                    assert(fits(kinds[j].1, stack[d + j]));
                }
            }
        },
        _ => {},
    }
}

} // verus!
