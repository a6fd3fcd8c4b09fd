//! The stack machine that runs one line.
//!
//! What an instruction does is given by `step_spec`, a run of a line by
//! `run_from`. Power and the trigonometric operations are computed by
//! `yolol_devices` through functions whose precision the platform decides,
//! so their results are not a function of their operands: a run is described
//! with respect to the numbers that these operations gave, in the order in
//! which they were asked for.

use crate::instruction::Instruction;
use crate::instruction::Literal;
use crate::instruction::Shape;
use crate::instruction::shape;
use crate::instruction::shape_of;
use crate::value::Value;
use crate::value::ValueModel;
use crate::value::absolute;
use crate::value::absolute_value;
use crate::value::add_values;
use crate::value::and_values;
use crate::value::arccosine_value;
use crate::value::arcsine_value;
use crate::value::arctangent_value;
use crate::value::at_most;
use crate::value::before;
use crate::value::cosine_value;
use crate::value::decrement_value;
use crate::value::difference;
use crate::value::difference_defined;
use crate::value::divide_values;
use crate::value::factorial_defined;
use crate::value::factorial_of;
use crate::value::factorial_value;
use crate::value::flag;
use crate::value::increment_value;
use crate::value::make_flag;
use crate::value::models;
use crate::value::multiply_values;
use crate::value::negate_value;
use crate::value::negation;
use crate::value::or_values;
use crate::value::outcome;
use crate::value::power_values;
use crate::value::predecessor;
use crate::value::predecessor_defined;
use crate::value::product;
use crate::value::ratio;
use crate::value::remainder;
use crate::value::remainder_defined;
use crate::value::remainder_steps;
use crate::value::remainder_values;
use crate::value::root;
use crate::value::root_value;
use crate::value::same;
use crate::value::same_values;
use crate::value::sine_value;
use crate::value::subtract_values;
use crate::value::successor;
use crate::value::sum;
use crate::value::tangent_value;
use crate::value::toward_zero;
use crate::value::truth;
use crate::value::value_at_most;
use crate::value::value_before;
use crate::value::FACTORIAL_LIMIT;
use vstd::prelude::*;
use vstd::string::StringExecFnsIsAscii;

verus! {

/// The value that a literal stands for.
pub open spec fn literal_value(v: Literal) -> ValueModel {
    match v {
        Literal::Number(n) => ValueModel::Int(n),
        Literal::Text(s) => ValueModel::Text(s@),
    }
}

/// What an operation comes to.
pub enum Computed {
    /// The operation fails and the line ends.
    Failed,
    /// The operands fix the result.
    Exact(ValueModel),
    /// The result is a number that the operands do not fix.
    Unfixed,
}

pub open spec fn settle(r: Option<ValueModel>) -> Computed {
    match r {
        Some(v) => Computed::Exact(v),
        None => Computed::Failed,
    }
}

/// A binary operation on `a`, the left operand, and `b`, the right one. An
/// operation that `yolol_devices` cannot carry out safely on its operands
/// fails.
pub open spec fn binary_result(inst: Instruction, a: ValueModel, b: ValueModel) -> Computed {
    match inst {
        Instruction::Or => Computed::Exact(flag(truth(a) || truth(b))),
        Instruction::And => Computed::Exact(flag(truth(a) && truth(b))),
        Instruction::Eq => Computed::Exact(flag(same(a, b))),
        Instruction::Ne => Computed::Exact(flag(!same(a, b))),
        Instruction::Lt => Computed::Exact(flag(before(a, b))),
        Instruction::Gt => Computed::Exact(flag(before(b, a))),
        Instruction::Lte => Computed::Exact(flag(at_most(a, b))),
        Instruction::Gte => Computed::Exact(flag(at_most(b, a))),
        Instruction::Add => Computed::Exact(sum(a, b)),
        Instruction::Sub => if difference_defined(a, b) {
            settle(difference(a, b))
        } else {
            Computed::Failed
        },
        Instruction::Mul => settle(product(a, b)),
        Instruction::Div => settle(ratio(a, b)),
        Instruction::Mod => if remainder_defined(a, b) {
            settle(remainder(a, b))
        } else {
            Computed::Failed
        },
        Instruction::Exp => if a is Int && b is Int {
            Computed::Unfixed
        } else {
            Computed::Failed
        },
        _ => Computed::Failed,
    }
}

/// A unary operation on `a`.
pub open spec fn unary_result(inst: Instruction, a: ValueModel) -> Computed {
    match inst {
        Instruction::Abs => settle(absolute(a)),
        Instruction::Sqrt => settle(root(a)),
        Instruction::Sin
        | Instruction::Cos
        | Instruction::Tan
        | Instruction::Asin
        | Instruction::Acos
        | Instruction::Atan => if a is Int {
            Computed::Unfixed
        } else {
            Computed::Failed
        },
        Instruction::Fac => if factorial_defined(a) {
            settle(factorial_of(a))
        } else {
            Computed::Failed
        },
        Instruction::Not => Computed::Exact(negation(a)),
        Instruction::Inc => Computed::Exact(successor(a)),
        Instruction::Dec => if predecessor_defined(a) {
            Computed::Exact(predecessor(a))
        } else {
            Computed::Failed
        },
        _ => Computed::Failed,
    }
}

/// What one instruction does.
pub enum Move {
    /// The line ends here; the variables stay as they are.
    Abort,
    /// A `Goto` took its target off the stack.
    Jump { target: ValueModel, stack: Seq<ValueModel> },
    /// The run goes on behind the instruction and `skip` more.
    Next { skip: int, stack: Seq<ValueModel>, vars: Seq<ValueModel> },
}

/// The number put in for a result that the operands do not fix.
pub open spec fn settled(c: Computed, unknown: i64) -> Option<ValueModel> {
    match c {
        Computed::Failed => None,
        Computed::Exact(v) => Some(v),
        Computed::Unfixed => Some(ValueModel::Int(unknown)),
    }
}

/// One instruction on a stack and a variable table. `unknown` is the number
/// that the operation gave where its result is not fixed.
pub open spec fn step_spec(
    inst: Instruction,
    stack: Seq<ValueModel>,
    vars: Seq<ValueModel>,
    unknown: i64,
) -> Move {
    match shape(inst) {
        Shape::Binary => if stack.len() < 2 {
            Move::Abort
        } else {
            let b = stack[stack.len() - 1];
            let a = stack[stack.len() - 2];
            match settled(binary_result(inst, a, b), unknown) {
                Some(v) => Move::Next { skip: 0, stack: stack.drop_last().drop_last().push(v), vars },
                None => Move::Abort,
            }
        },
        Shape::Unary => if stack.len() < 1 {
            Move::Abort
        } else {
            match settled(unary_result(inst, stack.last()), unknown) {
                Some(v) => Move::Next { skip: 0, stack: stack.drop_last().push(v), vars },
                None => Move::Abort,
            }
        },
        Shape::Other => match inst {
            Instruction::Dup => if stack.len() < 1 {
                Move::Abort
            } else {
                Move::Next { skip: 0, stack: stack.push(stack.last()), vars }
            },
            Instruction::Pop => if stack.len() < 1 {
                Move::Next { skip: 0, stack, vars }
            } else {
                Move::Next { skip: 0, stack: stack.drop_last(), vars }
            },
            Instruction::PushValue(v) => Move::Next {
                skip: 0,
                stack: stack.push(literal_value(v)),
                vars,
            },
            Instruction::Push(a) => if a < vars.len() {
                Move::Next { skip: 0, stack: stack.push(vars[a as int]), vars }
            } else {
                Move::Abort
            },
            Instruction::Store(a) => if stack.len() < 1 || a >= vars.len() {
                Move::Abort
            } else {
                Move::Next {
                    skip: 0,
                    stack: stack.drop_last(),
                    vars: vars.update(a as int, stack.last()),
                }
            },
            Instruction::Goto => if stack.len() < 1 {
                Move::Abort
            } else {
                Move::Jump { target: stack.last(), stack: stack.drop_last() }
            },
            Instruction::Jump(n) => Move::Next { skip: n as int, stack, vars },
            Instruction::JumpFalse(n) => if stack.len() < 1 {
                Move::Abort
            } else if truth(stack.last()) {
                Move::Next { skip: 0, stack: stack.drop_last(), vars }
            } else {
                Move::Next { skip: n as int, stack: stack.drop_last(), vars }
            },
            _ => Move::Abort,
        },
    }
}

/// Whether the instruction, on this stack, asks for a number that its
/// operands do not fix.
pub open spec fn takes_unknown(inst: Instruction, stack: Seq<ValueModel>) -> bool {
    match shape(inst) {
        Shape::Binary => stack.len() >= 2 && binary_result(
            inst,
            stack[stack.len() - 2],
            stack[stack.len() - 1],
        ) is Unfixed,
        Shape::Unary => stack.len() >= 1 && unary_result(inst, stack.last()) is Unfixed,
        Shape::Other => false,
    }
}

/// An instruction that asks for no such number does the same whatever number
/// is offered.
pub proof fn lemma_unknown_unused(
    inst: Instruction,
    stack: Seq<ValueModel>,
    vars: Seq<ValueModel>,
    u1: i64,
    u2: i64,
)
    requires
        !takes_unknown(inst, stack),
    ensures
        step_spec(inst, stack, vars, u1) == step_spec(inst, stack, vars, u2),
{
}

/// How the run of a line ends.
pub enum Outcome {
    /// The run came to the end of the line.
    Finished { stack: Seq<ValueModel>, vars: Seq<ValueModel> },
    /// A `Goto` ended the run with its target.
    Jumped { target: ValueModel, stack: Seq<ValueModel>, vars: Seq<ValueModel> },
    /// An instruction failed. What was stored before stays stored.
    Aborted { vars: Seq<ValueModel> },
}

pub open spec fn first_unknown(unknowns: Seq<i64>) -> i64 {
    if unknowns.len() > 0 {
        unknowns[0]
    } else {
        0
    }
}

pub open spec fn later_unknowns(unknowns: Seq<i64>) -> Seq<i64> {
    if unknowns.len() > 0 {
        unknowns.drop_first()
    } else {
        unknowns
    }
}

/// Where a run goes on behind the instruction at `pc` and `skip` more: at
/// the end of the line if the jump leads further.
pub open spec fn landing(len: int, pc: int, skip: int) -> int {
    if pc + 1 + skip > len {
        len
    } else {
        pc + 1 + skip
    }
}

/// The run of `code` from instruction `pc` on. `unknowns` holds, in the order
/// in which they are asked for, the numbers of the operations whose result
/// is not fixed.
#[verifier::opaque]
pub open spec fn run_from(
    code: Seq<Instruction>,
    pc: int,
    stack: Seq<ValueModel>,
    vars: Seq<ValueModel>,
    unknowns: Seq<i64>,
) -> Outcome
    decreases code.len() - pc,
{
    if pc < 0 || pc >= code.len() {
        Outcome::Finished { stack, vars }
    } else {
        match step_spec(code[pc], stack, vars, first_unknown(unknowns)) {
            Move::Abort => Outcome::Aborted { vars },
            Move::Jump { target, stack } => Outcome::Jumped { target, stack, vars },
            Move::Next { skip, stack: next, vars } => if skip < 0 {
                Outcome::Aborted { vars }
            } else {
                run_from(
                    code,
                    landing(code.len() as int, pc, skip),
                    next,
                    vars,
                    if takes_unknown(code[pc], stack) {
                        later_unknowns(unknowns)
                    } else {
                        unknowns
                    },
                )
            },
        }
    }
}

/// A run taken one step further: the end of the line, the end that the
/// instruction at `pc` puts to the run, or the run that goes on behind it.
pub open spec fn run_on(
    code: Seq<Instruction>,
    pc: int,
    stack: Seq<ValueModel>,
    vars: Seq<ValueModel>,
    unknowns: Seq<i64>,
) -> Outcome {
    if pc < 0 || pc >= code.len() {
        Outcome::Finished { stack, vars }
    } else {
        match step_spec(code[pc], stack, vars, first_unknown(unknowns)) {
            Move::Abort => Outcome::Aborted { vars },
            Move::Jump { target, stack } => Outcome::Jumped { target, stack, vars },
            Move::Next { skip, stack: next, vars } => if skip < 0 {
                Outcome::Aborted { vars }
            } else {
                run_from(
                    code,
                    landing(code.len() as int, pc, skip),
                    next,
                    vars,
                    if takes_unknown(code[pc], stack) {
                        later_unknowns(unknowns)
                    } else {
                        unknowns
                    },
                )
            },
        }
    }
}

/// A run is its first step and the run behind it.
pub proof fn lemma_run_step(
    code: Seq<Instruction>,
    pc: int,
    stack: Seq<ValueModel>,
    vars: Seq<ValueModel>,
    unknowns: Seq<i64>,
)
    ensures
        run_from(code, pc, stack, vars, unknowns) == run_on(code, pc, stack, vars, unknowns),
{
    reveal(run_from);
}

/// The run of a line on an empty stack.
pub open spec fn run_spec(code: Seq<Instruction>, vars: Seq<ValueModel>, unknowns: Seq<i64>) -> Outcome {
    run_from(code, 0, Seq::empty(), vars, unknowns)
}

/// Whether a result, a stack and a variable table are what the outcome says.
pub open spec fn agrees(o: Outcome, r: Option<Value>, stack: Seq<Value>, vars: Seq<Value>) -> bool {
    match o {
        Outcome::Finished { stack: s, vars: v } => r is None && models(stack) == s && models(vars)
            == v,
        Outcome::Jumped { target, stack: s, vars: v } => outcome(r) == Some(target) && models(stack)
            == s && models(vars) == v,
        Outcome::Aborted { vars: v } => r is None && models(vars) == v,
    }
}

// ---------------------------------------------------------------------------
// The machine
// ---------------------------------------------------------------------------

pub proof fn lemma_models_push(values: Seq<Value>, v: Value)
    ensures
        models(values.push(v)) == models(values).push(v@),
{
    assert(models(values.push(v)) =~= models(values).push(v@));
}

pub proof fn lemma_models_drop_last(values: Seq<Value>)
    requires
        values.len() > 0,
    ensures
        models(values.drop_last()) == models(values).drop_last(),
        models(values).last() == values.last()@,
{
    assert(models(values.drop_last()) =~= models(values).drop_last());
}

pub proof fn lemma_models_update(values: Seq<Value>, i: int, v: Value)
    requires
        0 <= i < values.len(),
    ensures
        models(values.update(i, v)) == models(values).update(i, v@),
{
    assert(models(values.update(i, v)) =~= models(values).update(i, v@));
}

fn literal_to_value(v: &Literal) -> (r: Value)
    ensures
        r@ == literal_value(*v),
{
    match v {
        Literal::Number(n) => Value::number(*n),
        Literal::Text(s) => Value::text(s.as_str()),
    }
}

/// Whether a subtraction with this left operand is safe to ask for.
fn can_subtract(a: &Value, b: &Value) -> (r: bool)
    ensures
        r == difference_defined(a@, b@),
{
    match a.as_text() {
        Some(s) => s.is_ascii(),
        None => true,
    }
}

/// Whether a factorial of this operand is safe to ask for.
fn can_take_factorial(a: &Value) -> (r: bool)
    ensures
        r == factorial_defined(a@),
{
    match a.whole() {
        Some(w) => w <= FACTORIAL_LIMIT,
        None => true,
    }
}

/// Whether taking one from this operand is safe to ask for.
fn can_decrement(a: &Value) -> (r: bool)
    ensures
        r == predecessor_defined(a@),
{
    match a.as_text() {
        Some(s) => {
            let n = s.as_str().unicode_len();
            if n == 0 {
                true
            } else {
                let c = s.as_str().get_char(n - 1);
                c <= '\u{7f}'
            }
        },
        None => true,
    }
}

/// Whether the remainder of `x` by `y` stays in range at every step.
fn remainder_fits(x: i64, y: i64) -> (r: bool)
    requires
        y != 0,
    ensures
        r == remainder_defined(ValueModel::Int(x), ValueModel::Int(y)),
{
    let mx: i128 = if x < 0 {
        -(x as i128)
    } else {
        x as i128
    };
    let my: i128 = if y < 0 {
        -(y as i128)
    } else {
        y as i128
    };
    let q_abs: i128 = mx / my;
    assert(0 <= q_abs <= mx) by (nonlinear_arith)
        requires
            q_abs == mx / my,
            mx >= 0,
            my > 0,
    ;
    let q: i128 = if (x >= 0) == (y > 0) {
        q_abs
    } else {
        -q_abs
    };
    assert(q == toward_zero(x as int, y as int));
    let d: i128 = if x > 0 {
        q + 1
    } else {
        q
    };
    assert(d == remainder_steps(x, y));
    if q < -9223372036854775808 || q > 9223372036854775807 || d < -9223372036854775808 || d
        > 9223372036854775807 {
        return false;
    }
    assert(-0x4000_0000_0000_0000_0000_0000_0000_0000 <= (y as int) * (d as int)
        <= 0x4000_0000_0000_0000_0000_0000_0000_0000) by (nonlinear_arith)
        requires
            -0x8000_0000_0000_0000 <= y <= 0x8000_0000_0000_0000,
            -0x8000_0000_0000_0000 <= d <= 0x8000_0000_0000_0000,
    ;
    let p: i128 = (y as i128) * d;
    if p < -9223372036854775808 || p > 9223372036854775807 {
        return false;
    }
    let left: i128 = (x as i128) - p;
    -9223372036854775808 <= left && left <= 9223372036854775807
}

/// Whether a remainder of these operands is safe to ask for.
fn can_take_remainder(a: &Value, b: &Value) -> (r: bool)
    ensures
        r == remainder_defined(a@, b@),
{
    match a.raw() {
        Some(x) => match b.raw() {
            Some(y) => if y == 0 {
                true
            } else {
                remainder_fits(x, y)
            },
            None => true,
        },
        None => true,
    }
}

/// Whether what came back from an operation is what `c` says.
pub open spec fn answers(c: Computed, r: Option<Value>) -> bool {
    match c {
        Computed::Failed => r is None,
        Computed::Exact(m) => outcome(r) == Some(m),
        Computed::Unfixed => outcome(r) matches Some(ValueModel::Int(_)),
    }
}

/// Asks `yolol_devices` for a binary operation, where that is safe.
pub fn compute_binary(inst: &Instruction, a: &Value, b: &Value) -> (r: Option<Value>)
    ensures
        answers(binary_result(*inst, a@, b@), r),
{
    match inst {
        Instruction::Or => Some(or_values(a, b)),
        Instruction::And => Some(and_values(a, b)),
        Instruction::Eq => Some(make_flag(same_values(a, b))),
        Instruction::Ne => Some(make_flag(!same_values(a, b))),
        Instruction::Lt => Some(make_flag(value_before(a, b))),
        Instruction::Gt => Some(make_flag(value_before(b, a))),
        Instruction::Lte => Some(make_flag(value_at_most(a, b))),
        Instruction::Gte => Some(make_flag(value_at_most(b, a))),
        Instruction::Add => Some(add_values(a, b)),
        Instruction::Sub => if can_subtract(a, b) {
            subtract_values(a, b)
        } else {
            None
        },
        Instruction::Mul => multiply_values(a, b),
        Instruction::Div => divide_values(a, b),
        Instruction::Mod => if can_take_remainder(a, b) {
            remainder_values(a, b)
        } else {
            None
        },
        Instruction::Exp => power_values(a, b),
        _ => None,
    }
}

/// Asks `yolol_devices` for a unary operation, where that is safe.
pub fn compute_unary(inst: &Instruction, a: &Value) -> (r: Option<Value>)
    ensures
        answers(unary_result(*inst, a@), r),
{
    match inst {
        Instruction::Abs => absolute_value(a),
        Instruction::Sqrt => root_value(a),
        Instruction::Sin => sine_value(a),
        Instruction::Cos => cosine_value(a),
        Instruction::Tan => tangent_value(a),
        Instruction::Asin => arcsine_value(a),
        Instruction::Acos => arccosine_value(a),
        Instruction::Atan => arctangent_value(a),
        Instruction::Fac => if can_take_factorial(a) {
            factorial_value(a)
        } else {
            None
        },
        Instruction::Not => Some(negate_value(a)),
        Instruction::Inc => {
            let mut v = a.clone();
            increment_value(&mut v);
            Some(v)
        },
        Instruction::Dec => if can_decrement(a) {
            let mut v = a.clone();
            decrement_value(&mut v);
            Some(v)
        } else {
            None
        },
        _ => None,
    }
}

/// How an instruction went.
pub enum Moved {
    Abort,
    Jump(Value),
    Next(usize),
}

/// Whether a stack and a variable table after an instruction are what the
/// move says.
pub open spec fn follows(m: Move, r: Moved, stack: Seq<Value>, vars: Seq<Value>, before: Seq<Value>) -> bool {
    match m {
        Move::Abort => r is Abort && models(vars) == models(before),
        Move::Jump { target, stack: s } => r matches Moved::Jump(v) && v@ == target && models(stack)
            == s && models(vars) == models(before),
        Move::Next { skip, stack: s, vars: v } => r matches Moved::Next(k) && k == skip && models(stack)
            == s && models(vars) == v,
    }
}

/// The number that an operation gave where its operands do not fix it.
pub open spec fn given(c: Computed, r: Option<Value>) -> i64 {
    match (c, r) {
        (Computed::Unfixed, Some(v)) => match v@ {
            ValueModel::Int(x) => x,
            ValueModel::Text(_) => 0,
        },
        _ => 0,
    }
}

/// Takes what an operation gave: a value goes on the stack and the run goes
/// on, a failure ends the run.
pub fn conclude(stack: &mut Vec<Value>, r: Option<Value>) -> (m: Moved)
    ensures
        match r {
            Some(v) => m matches Moved::Next(skip) && skip == 0 && final(stack)@ == old(stack)@.push(v)
                && models(final(stack)@) == models(old(stack)@).push(v@),
            None => m is Abort && final(stack)@ == old(stack)@,
        },
{
    match r {
        Some(v) => {
            proof {
                lemma_models_push(stack@, v);
            }
            stack.push(v);
            Moved::Next(0)
        },
        None => Moved::Abort,
    }
}

/// Carries out one instruction. The second result is the number that went
/// into it from outside, where there is one.
pub fn step(inst: &Instruction, stack: &mut Vec<Value>, variables: &mut Vec<Value>) -> (r: (
    Moved,
    Ghost<i64>,
))
    ensures
        final(variables)@.len() == old(variables)@.len(),
        follows(
            step_spec(*inst, models(old(stack)@), models(old(variables)@), r.1@),
            r.0,
            final(stack)@,
            final(variables)@,
            old(variables)@,
        ),
{
    match shape_of(inst) {
        Shape::Binary => {
            let b = match stack.pop() {
                Some(b) => b,
                None => {
                    return (Moved::Abort, Ghost(0));
                },
            };
            let a = match stack.pop() {
                Some(a) => a,
                None => {
                    return (Moved::Abort, Ghost(0));
                },
            };
            proof {
                lemma_models_drop_last(old(stack)@);
                lemma_models_drop_last(old(stack)@.drop_last());
            }
            let r = compute_binary(inst, &a, &b);
            let ghost u = given(binary_result(*inst, a@, b@), r);
            (conclude(stack, r), Ghost(u))
        },
        Shape::Unary => {
            let a = match stack.pop() {
                Some(a) => a,
                None => {
                    return (Moved::Abort, Ghost(0));
                },
            };
            proof {
                lemma_models_drop_last(old(stack)@);
            }
            let r = compute_unary(inst, &a);
            let ghost u = given(unary_result(*inst, a@), r);
            (conclude(stack, r), Ghost(u))
        },
        Shape::Other => match inst {
            Instruction::Dup => {
                if stack.len() == 0 {
                    return (Moved::Abort, Ghost(0));
                }
                let top = stack[stack.len() - 1].clone();
                proof {
                    lemma_models_push(stack@, top);
                }
                stack.push(top);
                (Moved::Next(0), Ghost(0))
            },
            Instruction::Pop => {
                if stack.len() > 0 {
                    proof {
                        lemma_models_drop_last(stack@);
                    }
                    stack.pop();
                }
                (Moved::Next(0), Ghost(0))
            },
            Instruction::PushValue(v) => {
                let value = literal_to_value(v);
                proof {
                    lemma_models_push(stack@, value);
                }
                stack.push(value);
                (Moved::Next(0), Ghost(0))
            },
            Instruction::Push(a) => {
                if *a >= variables.len() {
                    return (Moved::Abort, Ghost(0));
                }
                let value = variables[*a].clone();
                proof {
                    lemma_models_push(stack@, value);
                }
                stack.push(value);
                (Moved::Next(0), Ghost(0))
            },
            Instruction::Store(a) => {
                if *a >= variables.len() {
                    return (Moved::Abort, Ghost(0));
                }
                match stack.pop() {
                    Some(value) => {
                        proof {
                            lemma_models_drop_last(old(stack)@);
                            lemma_models_update(variables@, *a as int, value);
                        }
                        variables.set(*a, value);
                        (Moved::Next(0), Ghost(0))
                    },
                    None => (Moved::Abort, Ghost(0)),
                }
            },
            Instruction::Goto => match stack.pop() {
                Some(value) => {
                    proof {
                        lemma_models_drop_last(old(stack)@);
                    }
                    (Moved::Jump(value), Ghost(0))
                },
                None => (Moved::Abort, Ghost(0)),
            },
            Instruction::Jump(n) => (Moved::Next(*n), Ghost(0)),
            Instruction::JumpFalse(n) => match stack.pop() {
                Some(value) => {
                    proof {
                        lemma_models_drop_last(old(stack)@);
                    }
                    if value.truthy() {
                        (Moved::Next(0), Ghost(0))
                    } else {
                        (Moved::Next(*n), Ghost(0))
                    }
                },
                None => (Moved::Abort, Ghost(0)),
            },
            _ => (Moved::Abort, Ghost(0)),
        },
    }
}


/// The stack machine: the operand stack, kept from one run to the next so
/// that it need not be allocated again, and the place in the line.
pub struct VM {
    pc: usize,
    stack: Vec<Value>,
}

impl VM {
    /// The stack as the last run left it.
    pub closed spec fn stack(&self) -> Seq<Value> {
        self.stack@
    }

    pub fn new() -> (r: VM)
        ensures
            r.stack().len() == 0,
    {
        VM { pc: 0, stack: Vec::with_capacity(32) }
    }

    /// The number of values that the last run left on the stack.
    pub fn depth(&self) -> (n: usize)
        ensures
            n == self.stack().len(),
    {
        self.stack.len()
    }

    /// Runs a line on an empty stack. The result is the target of the `Goto`
    /// that ended the run, if one did.
    ///
    /// Whatever numbers the operations with unfixed results gave, the run is
    /// `run_spec` for those numbers.
    pub fn execute(&mut self, code: &Vec<Instruction>, variables: &mut Vec<Value>) -> (r: Option<
        Value,
    >)
        ensures
            final(variables)@.len() == old(variables)@.len(),
            exists|unknowns: Seq<i64>|
                agrees(
                    #[trigger] run_spec(code@, models(old(variables)@), unknowns),
                    r,
                    final(self).stack(),
                    final(variables)@,
                ),
    {
        proof {
            reveal(run_from);
        }
        self.stack.clear();
        self.pc = 0;
        let ghost start = models(variables@);
        let ghost mut trace: Seq<i64> = Seq::empty();
        assert(models(self.stack@) =~= Seq::<ValueModel>::empty());
        assert forall|rest: Seq<i64>|
            run_from(code@, 0, Seq::empty(), start, #[trigger] (trace + rest)) == run_from(
                code@,
                0,
                models(self.stack@),
                models(variables@),
                rest,
            ) by {
            assert(trace + rest =~= rest);
        }
        while self.pc < code.len()
            invariant
                variables@.len() == old(variables)@.len(),
                start == models(old(variables)@),
                self.pc <= code@.len(),
                forall|rest: Seq<i64>|
                    run_from(code@, 0, Seq::empty(), start, #[trigger] (trace + rest)) == run_from(
                        code@,
                        self.pc as int,
                        models(self.stack@),
                        models(variables@),
                        rest,
                    ),
            decreases code@.len() - self.pc,
        {
            proof {
                reveal(run_from);
            }
            let ghost pc = self.pc as int;
            let ghost stack_before = models(self.stack@);
            let ghost vars_before = models(variables@);
            let ghost inst = code@[pc];
            let (moved, u) = step(&code[self.pc], &mut self.stack, variables);
            let ghost asks = takes_unknown(inst, stack_before);
            match moved {
                Moved::Abort => {
                    proof {
                        lemma_unknown_unused(inst, stack_before, vars_before, u@, 0);
                        assert(trace + Seq::<i64>::empty() =~= trace);
                        assert(run_from(code@, pc, stack_before, vars_before, Seq::empty())
                            == Outcome::Aborted { vars: vars_before });
                        assert(agrees(
                            run_spec(code@, start, trace + Seq::<i64>::empty()),
                            None,
                            self.stack(),
                            variables@,
                        ));
                    }
                    return None;
                },
                Moved::Jump(target) => {
                    proof {
                        lemma_unknown_unused(inst, stack_before, vars_before, u@, 0);
                        assert(trace + Seq::<i64>::empty() =~= trace);
                        assert(agrees(
                            run_spec(code@, start, trace + Seq::<i64>::empty()),
                            Some(target),
                            self.stack(),
                            variables@,
                        ));
                    }
                    return Some(target);
                },
                Moved::Next(skip) => {
                    let next = if skip >= code.len() - self.pc {
                        code.len()
                    } else {
                        self.pc + 1 + skip
                    };
                    proof {
                        let longer = if asks {
                            trace.push(u@)
                        } else {
                            trace
                        };
                        assert forall|rest: Seq<i64>|
                            run_from(
                                code@,
                                0,
                                Seq::empty(),
                                start,
                                #[trigger] (longer + rest),
                            ) == run_from(
                                code@,
                                next as int,
                                models(self.stack@),
                                models(variables@),
                                rest,
                            ) by {
                            if asks {
                                let full = seq![u@] + rest;
                                assert(trace + full =~= longer + rest);
                                assert(first_unknown(full) == u@);
                                assert(later_unknowns(full) =~= rest);
                            } else {
                                lemma_unknown_unused(
                                    inst,
                                    stack_before,
                                    vars_before,
                                    u@,
                                    first_unknown(rest),
                                );
                                assert(trace + rest == longer + rest);
                            }
                        }
                        trace = longer;
                    }
                    self.pc = next;
                },
            }
        }
        proof {
            assert(trace + Seq::<i64>::empty() =~= trace);
            assert(agrees(
                run_spec(code@, start, trace + Seq::<i64>::empty()),
                None,
                self.stack(),
                variables@,
            ));
        }
        None
    }
}

} // verus!
