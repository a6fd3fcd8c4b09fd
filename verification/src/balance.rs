//! What holds of every line that the optimizer returns.
//!
//! The optimizer ends with a line that a pass leaves as it is. So a second
//! run of the optimizer, with the same kinds of the variables, returns the
//! line of the first. And on such a line a run goes as the pass does,
//! through every conditional: its stack is as deep as the abstract stack of
//! the pass, and the kinds of the pass fit its values. So a run that comes
//! to the end of the line leaves nothing on the stack, and the kinds that
//! the optimizer returns fit the variables behind it.

use crate::evaluation::holds_at;
use crate::instruction::Instruction;
use crate::kinds::fit_stack;
use crate::kinds::fit_table;
use crate::kinds::fits;
use crate::kinds::lemma_effect_fits;
use crate::optimizer::join;
use crate::value::ValueModel;
use crate::value::truth;
use crate::vm::Move;
use crate::vm::Outcome;
use crate::vm::first_unknown;
use crate::vm::later_unknowns;
use crate::vm::lemma_run_step;
use crate::vm::run_from;
use crate::vm::run_spec;
use crate::vm::step_spec;
use crate::vm::takes_unknown;
use crate::optimizer::AbstractType;
use crate::optimizer::Effect;
use crate::optimizer::Pass;
use crate::optimizer::Truth;
use crate::optimizer::branch_end;
use crate::optimizer::closes_with_jump;
use crate::optimizer::conditional;
use crate::optimizer::effect;
use crate::optimizer::else_end;
use crate::optimizer::fresh;
use crate::optimizer::is_open;
use crate::optimizer::join_kinds;
use crate::optimizer::lemma_pass_at_conditional;
use crate::optimizer::lemma_pass_at_other;
use crate::optimizer::optimize_spec;
use crate::optimizer::pass_from;
use crate::optimizer::rewritten;
use crate::optimizer::settled;
use crate::optimizer::surplus;
use crate::optimizer::then_end;
use crate::optimizer::without_orphans;
use vstd::prelude::*;

verus! {

/// A pass that flags nothing and changes nothing keeps every instruction as
/// it is.
pub proof fn lemma_pass_unchanged(code: Seq<Instruction>, c: int, state: Pass)
    requires
        0 <= c <= code.len(),
        pass_from(code, c, state) matches Some(end) && !end.flagged && !end.changed,
    ensures
        !state.changed,
        pass_from(code, c, state)->0.out == state.out + code.subrange(c, code.len() as int),
    decreases code.len(), 0nat, code.len() - c,
{
    lemma_pass_at_other(code, c, state);
    if c < code.len() {
        match code[c] {
            Instruction::JumpFalse(rel) => {
                lemma_pass_at_conditional(code, c, state);
                let end = branch_end(code.len() as int, c, rel);
                let with_else = closes_with_jump(code, c, end);
                let last = else_end(code, c, end);
                let first = code.subrange(c + 1, then_end(code, c, end));
                let second = code.subrange(end, last);
                let t = state.stack.last().1;
                if t == AbstractType::Int(Truth::True) {
                    let (branch, ram) = optimize_spec(first, state.ram)->0;
                    lemma_pass_unchanged(
                        code,
                        last,
                        Pass { out: state.out + branch, ram, changed: true, ..state },
                    );
                } else if !is_open(t) {
                    let (branch, ram) = optimize_spec(second, state.ram)->0;
                    lemma_pass_unchanged(
                        code,
                        last,
                        Pass { out: state.out + branch, ram, changed: true, ..state },
                    );
                } else {
                    let (taken, one) = optimize_spec(first, state.ram)->0;
                    let (other, two) = optimize_spec(second, state.ram)->0;
                    let block = conditional(taken, other, with_else);
                    lemma_pass_unchanged(
                        code,
                        last,
                        Pass {
                            out: state.out + block,
                            stack: state.stack.drop_last(),
                            ram: join_kinds(one, two),
                            flagged: false,
                            changed: state.changed || rewritten(code, c, end, taken, other),
                        },
                    );
                    assert(block =~= code.subrange(c, last));
                    assert(state.out + block + code.subrange(last, code.len() as int)
                        =~= state.out + code.subrange(c, code.len() as int));
                }
            },
            Instruction::Jump(rel) => {
                lemma_pass_unchanged(
                    code,
                    branch_end(code.len() as int, c, rel),
                    Pass { changed: true, ..state },
                );
            },
            inst => {
                match effect(inst, state.out.len() as usize, state.stack, state.ram) {
                    Effect::Next { stack, ram } => {
                        lemma_pass_unchanged(
                            code,
                            c + 1,
                            Pass { out: state.out.push(inst), stack, ram, ..state },
                        );
                        assert(state.out.push(inst) + code.subrange(c + 1, code.len() as int)
                            =~= state.out + code.subrange(c, code.len() as int));
                    },
                    _ => {},
                }
            },
        }
    } else {
        assert(state.out + code.subrange(c, code.len() as int) =~= state.out);
    }
}

/// Whether a pass that begins with these kinds leaves the line as it is.
pub open spec fn left_alone(code: Seq<Instruction>, ram: Seq<AbstractType>) -> bool {
    pass_from(code, 0, fresh(ram)) matches Some(end) && settled(end) && end.out == code
}

/// The line that the optimizer returns is one that a pass leaves as it is.
pub proof fn lemma_optimized_line_is_settled(code: Seq<Instruction>, ram: Seq<AbstractType>)
    requires
        optimize_spec(code, ram) is Some,
    ensures
        ({
            let (out, kinds) = optimize_spec(code, ram)->0;
            left_alone(out, ram) && pass_from(out, 0, fresh(ram))->0.ram == kinds
        }),
    decreases code.len(), surplus(code),
{
    let end = pass_from(code, 0, fresh(ram))->0;
    if settled(end) {
        lemma_pass_unchanged(code, 0, fresh(ram));
        assert(fresh(ram).out + code.subrange(0, code.len() as int) =~= code);
    } else {
        lemma_optimized_line_is_settled(without_orphans(end.out, end.stack), ram);
    }
}

/// A second run of the optimizer on the line that it returned, with the
/// same kinds of the variables, returns that line again, and the same
/// kinds behind it.
pub proof fn lemma_optimizer_reaches_fixed_point(code: Seq<Instruction>, ram: Seq<AbstractType>)
    requires
        optimize_spec(code, ram) is Some,
    ensures
        ({
            let (out, kinds) = optimize_spec(code, ram)->0;
            optimize_spec(out, ram) == Some((out, kinds))
        }),
{
    lemma_optimized_line_is_settled(code, ram);
}

/// Where an instruction that is no jump goes through in the pass and in the
/// run, the two stacks grow or shrink alike.
pub proof fn lemma_step_depth(
    inst: Instruction,
    position: usize,
    kinds: Seq<(usize, AbstractType)>,
    ram: Seq<AbstractType>,
    stack: Seq<ValueModel>,
    vars: Seq<ValueModel>,
    unknown: i64,
)
    requires
        !(inst is Jump),
        !(inst is JumpFalse),
        kinds.len() <= stack.len(),
    ensures
        match (effect(inst, position, kinds, ram), step_spec(inst, stack, vars, unknown)) {
            (Effect::Next { stack: after, .. }, Move::Next { stack: next, skip, .. }) => next.len()
                - after.len() == stack.len() - kinds.len() && skip == 0 && next.subrange(
                0,
                stack.len() - kinds.len(),
            ) == stack.subrange(0, stack.len() - kinds.len()),
            _ => true,
        },
{
    match (effect(inst, position, kinds, ram), step_spec(inst, stack, vars, unknown)) {
        (Effect::Next { stack: after, .. }, Move::Next { stack: next, skip, .. }) => {
            assert(next.subrange(0, stack.len() - kinds.len()) =~= stack.subrange(
                0,
                stack.len() - kinds.len(),
            ));
        },
        _ => {},
    }
}

/// Kinds that fit the variables behind either branch of a conditional fit
/// them when joined.
pub proof fn lemma_join_fits(
    one: Seq<AbstractType>,
    two: Seq<AbstractType>,
    vars: Seq<ValueModel>,
)
    requires
        one.len() == two.len(),
        fit_table(one, vars) || fit_table(two, vars),
    ensures
        fit_table(join_kinds(one, two), vars),
{
    assert forall|i: int| 0 <= i < one.len() implies fits(
        #[trigger] join_kinds(one, two)[i],
        vars[i],
    ) by {
        if fit_table(one, vars) {
            assert(fits(one[i], vars[i]));
        } else {
            assert(fits(two[i], vars[i]));
        }
    }
}

/// A part of a part of a line is a part of the line.
pub proof fn lemma_holds_part(
    whole: Seq<Instruction>,
    off: int,
    code: Seq<Instruction>,
    from: int,
    to: int,
)
    requires
        holds_at(whole, off, code),
        0 <= from <= to <= code.len(),
    ensures
        holds_at(whole, off + from, code.subrange(from, to)),
        forall|i: int| 0 <= i < code.len() ==> whole[off + i] == #[trigger] code[i],
{
    assert(whole.subrange(off + from, off + to) =~= code.subrange(from, to)) by {
        assert forall|i: int| 0 <= i < to - from implies whole.subrange(off + from, off + to)[i]
            == code.subrange(from, to)[i] by {
            assert(whole.subrange(off, off + code.len())[from + i] == code[from + i]);
        }
    }
    assert forall|i: int| 0 <= i < code.len() implies whole[off + i] == #[trigger] code[i] by {
        assert(whole.subrange(off, off + code.len())[i] == code[i]);
    }
}

/// Whether a run that has not ended goes on at `at` in step with the pass:
/// the values that lay below the stack of the pass lie there still, the
/// stack holds as many more as the pass has kinds, and the kinds of the
/// pass fit the values and the variables.
pub open spec fn keeps_pace(
    o: Outcome,
    whole: Seq<Instruction>,
    at: int,
    below: Seq<ValueModel>,
    end: Pass,
    left: (Seq<ValueModel>, Seq<ValueModel>, Seq<i64>),
) -> bool {
    ||| o is Aborted
    ||| o is Jumped
    ||| {
        &&& o == run_from(whole, at, left.0, left.1, left.2)
        &&& left.0.len() == below.len() + end.stack.len()
        &&& left.0.subrange(0, below.len() as int) == below
        &&& fit_stack(end.stack, left.0)
        &&& fit_table(end.ram, left.1)
    }
}

/// On a part of a line that a pass leaves as it is, a run goes through the
/// part as the pass does: unless it ends inside, it goes on behind the part
/// with as many values more on its stack than the pass has kinds, as it
/// began with.
pub proof fn lemma_settled_run(
    whole: Seq<Instruction>,
    off: int,
    code: Seq<Instruction>,
    c: int,
    state: Pass,
    stack: Seq<ValueModel>,
    vars: Seq<ValueModel>,
    unknowns: Seq<i64>,
) -> (left: (Seq<ValueModel>, Seq<ValueModel>, Seq<i64>))
    requires
        holds_at(whole, off, code),
        0 <= c <= code.len(),
        pass_from(code, c, state) matches Some(end) && !end.flagged && !end.changed,
        fit_stack(state.stack, stack),
        fit_table(state.ram, vars),
    ensures
        keeps_pace(
            run_from(whole, off + c, stack, vars, unknowns),
            whole,
            off + code.len(),
            stack.subrange(0, stack.len() - state.stack.len()),
            pass_from(code, c, state)->0,
            left,
        ),
    decreases code.len(), code.len() - c, 1nat,
{
    lemma_pass_at_other(code, c, state);
    lemma_holds_part(whole, off, code, 0, code.len() as int);
    if c >= code.len() {
        return (stack, vars, unknowns);
    }
    lemma_run_step(whole, off + c, stack, vars, unknowns);
    let inst = code[c];
    let base = stack.len() - state.stack.len();
    match inst {
        Instruction::JumpFalse(_) => { lemma_settled_conditional(
            whole,
            off,
            code,
            c,
            state,
            stack,
            vars,
            unknowns,
        ) },
        Instruction::Jump(rel) => {
            lemma_pass_unchanged(
                code,
                branch_end(code.len() as int, c, rel),
                Pass { changed: true, ..state },
            );
            (stack, vars, unknowns)
        },
        _ => {
            lemma_step_depth(
                inst,
                state.out.len() as usize,
                state.stack,
                state.ram,
                stack,
                vars,
                first_unknown(unknowns),
            );
            lemma_effect_fits(
                inst,
                state.out.len() as usize,
                state.stack,
                state.ram,
                stack,
                vars,
                first_unknown(unknowns),
            );
            match effect(inst, state.out.len() as usize, state.stack, state.ram) {
                Effect::Next { stack: kinds, ram } => {
                    match step_spec(inst, stack, vars, first_unknown(unknowns)) {
                        Move::Next { skip, stack: next, vars: stored } => {
                            lemma_settled_run(
                                whole,
                                off,
                                code,
                                c + 1,
                                Pass { out: state.out.push(inst), stack: kinds, ram, ..state },
                                next,
                                stored,
                                if takes_unknown(inst, stack) {
                                    later_unknowns(unknowns)
                                } else {
                                    unknowns
                                },
                            )
                        },
                        _ => (stack, vars, unknowns),
                    }
                },
                _ => (stack, vars, unknowns),
            }
        },
    }
}

/// The same at a conditional: whichever branch the run takes, it goes on
/// behind the conditional with the condition taken off its stack.
proof fn lemma_settled_conditional(
    whole: Seq<Instruction>,
    off: int,
    code: Seq<Instruction>,
    c: int,
    state: Pass,
    stack: Seq<ValueModel>,
    vars: Seq<ValueModel>,
    unknowns: Seq<i64>,
) -> (left: (Seq<ValueModel>, Seq<ValueModel>, Seq<i64>))
    requires
        holds_at(whole, off, code),
        0 <= c < code.len(),
        code[c] is JumpFalse,
        pass_from(code, c, state) matches Some(end) && !end.flagged && !end.changed,
        fit_stack(state.stack, stack),
        fit_table(state.ram, vars),
    ensures
        keeps_pace(
            run_from(whole, off + c, stack, vars, unknowns),
            whole,
            off + code.len(),
            stack.subrange(0, stack.len() - state.stack.len()),
            pass_from(code, c, state)->0,
            left,
        ),
    decreases code.len(), code.len() - c, 0nat,
{
    lemma_pass_at_conditional(code, c, state);
    lemma_holds_part(whole, off, code, 0, code.len() as int);
    lemma_run_step(whole, off + c, stack, vars, unknowns);
    let rel = code[c]->JumpFalse_0;
    let end = branch_end(code.len() as int, c, rel);
    let with_else = closes_with_jump(code, c, end);
    let stop = then_end(code, c, end);
    let last = else_end(code, c, end);
    let first = code.subrange(c + 1, stop);
    let second = code.subrange(end, last);
    let t = state.stack.last().1;
    if t == AbstractType::Int(Truth::True) {
        let (branch, ram) = optimize_spec(first, state.ram)->0;
        lemma_pass_unchanged(
            code,
            last,
            Pass { out: state.out + branch, ram, changed: true, ..state },
        );
        return (stack, vars, unknowns);
    }
    if !is_open(t) {
        let (branch, ram) = optimize_spec(second, state.ram)->0;
        lemma_pass_unchanged(
            code,
            last,
            Pass { out: state.out + branch, ram, changed: true, ..state },
        );
        return (stack, vars, unknowns);
    }
    let (taken, one) = optimize_spec(first, state.ram)->0;
    let (other, two) = optimize_spec(second, state.ram)->0;
    let behind = Pass {
        out: state.out + conditional(taken, other, with_else),
        stack: state.stack.drop_last(),
        ram: join_kinds(one, two),
        flagged: false,
        changed: state.changed || rewritten(code, c, end, taken, other),
    };
    lemma_pass_unchanged(code, last, behind);
    lemma_optimized_line_is_settled(first, state.ram);
    lemma_optimized_line_is_settled(second, state.ram);
    let below = stack.drop_last();
    let base = stack.len() - state.stack.len();
    assert(fit_stack(fresh(state.ram).stack, below));
    let inside = if truth(stack.last()) {
        lemma_holds_part(whole, off, code, c + 1, stop);
        let through = lemma_settled_run(
            whole,
            off + c + 1,
            first,
            0,
            fresh(state.ram),
            below,
            vars,
            unknowns,
        );
        if with_else {
            lemma_run_step(whole, off + stop, through.0, through.1, through.2);
        }
        through
    } else {
        lemma_holds_part(whole, off, code, end, last);
        lemma_settled_run(whole, off + end, second, 0, fresh(state.ram), below, vars, unknowns)
    };
    let o = run_from(whole, off + c, stack, vars, unknowns);
    if o is Aborted || o is Jumped {
        return inside;
    }
    assert(o == run_from(whole, off + last, inside.0, inside.1, inside.2));
    assert(below.subrange(0, below.len() as int) =~= below);
    assert(inside.0 =~= below);
    crate::progress::lemma_optimizer_ends(first, state.ram);
    crate::progress::lemma_optimizer_ends(second, state.ram);
    lemma_kinds_keep_length(first, state.ram);
    lemma_kinds_keep_length(second, state.ram);
    lemma_join_fits(one, two, inside.1);
    assert(fit_stack(behind.stack, inside.0)) by {
        assert forall|j: int| 0 <= j < behind.stack.len() implies fits(
            (#[trigger] behind.stack[j]).1,
            inside.0[inside.0.len() - behind.stack.len() + j],
        ) by {
            assert(fits(state.stack[j].1, stack[stack.len() - state.stack.len() + j]));
        }
    }
    let left = lemma_settled_run(whole, off, code, last, behind, inside.0, inside.1, inside.2);
    assert(inside.0.subrange(0, base) =~= stack.subrange(0, base));
    left
}

/// A run of a line that a pass leaves as it is, if it comes to the end of
/// the line, leaves nothing on the stack, and the kinds behind the pass fit
/// the variables behind the run. This holds of the runs that begin with
/// variables that the kinds fit.
pub proof fn lemma_settled_line_is_balanced(
    code: Seq<Instruction>,
    ram: Seq<AbstractType>,
    vars: Seq<ValueModel>,
    unknowns: Seq<i64>,
)
    requires
        left_alone(code, ram),
        fit_table(ram, vars),
    ensures
        match run_spec(code, vars, unknowns) {
            Outcome::Finished { stack, vars: after } => stack.len() == 0 && fit_table(
                pass_from(code, 0, fresh(ram))->0.ram,
                after,
            ),
            _ => true,
        },
{
    assert(code.subrange(0, code.len() as int) =~= code);
    let none = Seq::<ValueModel>::empty();
    let left = lemma_settled_run(code, 0, code, 0, fresh(ram), none, vars, unknowns);
    lemma_run_step(code, code.len() as int, left.0, left.1, left.2);
}

/// A run of an optimized line that comes to the end of the line leaves
/// nothing on the stack, and the kinds that the optimizer returns fit the
/// variables behind it, if the kinds that the optimizer was given fit the
/// variables before it.
pub proof fn lemma_optimized_line_is_balanced(
    code: Seq<Instruction>,
    ram: Seq<AbstractType>,
    vars: Seq<ValueModel>,
    unknowns: Seq<i64>,
)
    requires
        optimize_spec(code, ram) is Some,
        fit_table(ram, vars),
    ensures
        ({
            let (out, kinds) = optimize_spec(code, ram)->0;
            match run_spec(out, vars, unknowns) {
                Outcome::Finished { stack, vars: after } => stack.len() == 0 && fit_table(
                    kinds,
                    after,
                ),
                _ => true,
            }
        }),
{
    lemma_optimized_line_is_settled(code, ram);
    let (out, kinds) = optimize_spec(code, ram)->0;
    lemma_settled_line_is_balanced(out, ram, vars, unknowns);
}

/// The optimizer returns as many kinds as it was given.
pub proof fn lemma_kinds_keep_length(code: Seq<Instruction>, ram: Seq<AbstractType>)
    requires
        optimize_spec(code, ram) is Some,
    ensures
        ({
            let (out, kinds) = optimize_spec(code, ram)->0;
            kinds.len() == ram.len()
        }),
    decreases code.len(), surplus(code), 1nat, 0nat,
{
    let end = pass_from(code, 0, fresh(ram))->0;
    if settled(end) {
        lemma_pass_keeps_length(code, 0, fresh(ram));
    } else {
        lemma_kinds_keep_length(without_orphans(end.out, end.stack), ram);
    }
}

/// A pass ends with as many kinds as it began with.
pub proof fn lemma_pass_keeps_length(code: Seq<Instruction>, c: int, state: Pass)
    requires
        0 <= c <= code.len(),
        pass_from(code, c, state) is Some,
    ensures
        pass_from(code, c, state)->0.ram.len() == state.ram.len(),
    decreases code.len(), surplus(code), 0nat, code.len() - c,
{
    lemma_pass_at_other(code, c, state);
    if c < code.len() {
        match code[c] {
            Instruction::JumpFalse(rel) => {
                lemma_pass_at_conditional(code, c, state);
                if state.stack.len() >= 1 {
                    let end = branch_end(code.len() as int, c, rel);
                    let with_else = closes_with_jump(code, c, end);
                    let last = else_end(code, c, end);
                    let first = code.subrange(c + 1, then_end(code, c, end));
                    let second = code.subrange(end, last);
                    let t = state.stack.last().1;
                    if t == AbstractType::Int(Truth::True) {
                        lemma_kinds_keep_length(first, state.ram);
                        let (branch, ram) = optimize_spec(first, state.ram)->0;
                        lemma_pass_keeps_length(
                            code,
                            last,
                            Pass { out: state.out + branch, ram, changed: true, ..state },
                        );
                    } else if !is_open(t) {
                        lemma_kinds_keep_length(second, state.ram);
                        let (branch, ram) = optimize_spec(second, state.ram)->0;
                        lemma_pass_keeps_length(
                            code,
                            last,
                            Pass { out: state.out + branch, ram, changed: true, ..state },
                        );
                    } else {
                        lemma_kinds_keep_length(first, state.ram);
                        lemma_kinds_keep_length(second, state.ram);
                        let (taken, one) = optimize_spec(first, state.ram)->0;
                        let (other, two) = optimize_spec(second, state.ram)->0;
                        lemma_pass_keeps_length(
                            code,
                            last,
                            Pass {
                                out: state.out + conditional(taken, other, with_else),
                                stack: state.stack.drop_last(),
                                ram: join_kinds(one, two),
                                flagged: false,
                                changed: state.changed || rewritten(code, c, end, taken, other),
                            },
                        );
                    }
                }
            },
            Instruction::Jump(rel) => {
                lemma_pass_keeps_length(
                    code,
                    branch_end(code.len() as int, c, rel),
                    Pass { changed: true, ..state },
                );
            },
            inst => {
                match effect(inst, state.out.len() as usize, state.stack, state.ram) {
                    Effect::Next { stack, ram } => {
                        lemma_pass_keeps_length(
                            code,
                            c + 1,
                            Pass { out: state.out.push(inst), stack, ram, ..state },
                        );
                    },
                    _ => {},
                }
            },
        }
    }
}

/// The empty line is left as it is.
pub proof fn lemma_empty_line_is_settled(ram: Seq<AbstractType>)
    ensures
        left_alone(Seq::empty(), ram),
{
    lemma_pass_at_other(Seq::empty(), 0, fresh(ram));
}

} // verus!
