//! What compiled code computes.
//!
//! `eval` gives the value of an expression and `exec` the effect of a
//! statement, both straight from the syntax tree. The code that the
//! compiler emits for a tree, run by the machine anywhere in a line, does
//! what the tree says and goes on behind the code; where an operation fails
//! the run ends there, and a `goto` ends it with its target.
//!
//! This is said of the code as the compiler emits it, before the optimizer
//! has gone over it.

use crate::ast::BinaryOp;
use crate::ast::Expr;
use crate::ast::Tree;
use crate::ast::UnaryOp;
use crate::compiler::binary_instruction;
use crate::compiler::compile;
use crate::compiler::compile_assignment;
use crate::compiler::compile_expr;
use crate::compiler::unary_code;
use crate::instruction::Instruction;
use crate::instruction::shape;
use crate::value::ValueModel;
use crate::value::predecessor;
use crate::value::predecessor_defined;
use crate::value::successor;
use crate::value::truth;
use crate::vm::Computed;
use crate::vm::Outcome;
use crate::vm::binary_result;
use crate::vm::first_unknown;
use crate::vm::landing;
use crate::vm::later_unknowns;
use crate::vm::literal_value;
use crate::vm::run_from;
use crate::vm::run_spec;
use crate::vm::unary_result;
use vstd::prelude::*;

verus! {

// ---------------------------------------------------------------------------
// Expressions
// ---------------------------------------------------------------------------

/// What the evaluation of an expression comes to.
pub enum Evaluated {
    /// The expression has a value. `vars` are the variables behind it and
    /// `unknowns` the numbers left for the operations behind it.
    Value { value: ValueModel, vars: Seq<ValueModel>, unknowns: Seq<i64> },
    /// An operation failed, or a variable has no place in the table. `vars`
    /// are the variables as they were then.
    Failed { vars: Seq<ValueModel> },
}

/// What an operation comes to, and the numbers that are left for the
/// operations behind it; `None` where it fails.
pub open spec fn taken(c: Computed, unknowns: Seq<i64>) -> Option<(ValueModel, Seq<i64>)> {
    match c {
        Computed::Failed => None,
        Computed::Exact(v) => Some((v, unknowns)),
        Computed::Unfixed => Some(
            (ValueModel::Int(first_unknown(unknowns)), later_unknowns(unknowns)),
        ),
    }
}

/// A unary operation on a value. A change of sign is a multiplication by
/// minus one.
pub open spec fn apply_unary(op: UnaryOp, a: ValueModel, unknowns: Seq<i64>) -> Option<
    (ValueModel, Seq<i64>),
> {
    match op {
        UnaryOp::Neg => taken(
            binary_result(Instruction::Mul, a, ValueModel::Int(-1000i64)),
            unknowns,
        ),
        _ => taken(unary_result(unary_code(op)[0], a), unknowns),
    }
}

/// `++v`, `--v`, `v++` and `v--`: the variable goes one up or down, and the
/// value is the new one where the sign stands in front and the old one
/// where it stands behind.
pub open spec fn step_variable(
    v: usize,
    up: bool,
    in_front: bool,
    vars: Seq<ValueModel>,
    unknowns: Seq<i64>,
) -> Evaluated {
    if v >= vars.len() {
        Evaluated::Failed { vars }
    } else if !up && !predecessor_defined(vars[v as int]) {
        Evaluated::Failed { vars }
    } else {
        let old = vars[v as int];
        let new = if up {
            successor(old)
        } else {
            predecessor(old)
        };
        Evaluated::Value {
            value: if in_front {
                new
            } else {
                old
            },
            vars: vars.update(v as int, new),
            unknowns,
        }
    }
}

/// The value of an expression. The left operand of a binary operation is
/// evaluated first.
pub open spec fn eval(e: Expr<String>, vars: Seq<ValueModel>, unknowns: Seq<i64>) -> Evaluated
    decreases e,
{
    match e {
        Expr::Numerical(n) => Evaluated::Value { value: ValueModel::Int(n), vars, unknowns },
        Expr::String(s) => Evaluated::Value { value: ValueModel::Text(s@), vars, unknowns },
        Expr::LocalVariable(v) | Expr::GlobalVariable(v) => if v < vars.len() {
            Evaluated::Value { value: vars[v as int], vars, unknowns }
        } else {
            Evaluated::Failed { vars }
        },
        Expr::Unary(op, inner) => match eval(*inner, vars, unknowns) {
            Evaluated::Value { value, vars, unknowns } => match apply_unary(op, value, unknowns) {
                Some((r, rest)) => Evaluated::Value { value: r, vars, unknowns: rest },
                None => Evaluated::Failed { vars },
            },
            Evaluated::Failed { vars } => Evaluated::Failed { vars },
        },
        Expr::Binary(op, l, r) => match eval(*l, vars, unknowns) {
            Evaluated::Value { value: a, vars, unknowns } => match eval(*r, vars, unknowns) {
                Evaluated::Value { value: b, vars, unknowns } => match taken(
                    binary_result(binary_instruction(op), a, b),
                    unknowns,
                ) {
                    Some((r, rest)) => Evaluated::Value { value: r, vars, unknowns: rest },
                    None => Evaluated::Failed { vars },
                },
                Evaluated::Failed { vars } => Evaluated::Failed { vars },
            },
            Evaluated::Failed { vars } => Evaluated::Failed { vars },
        },
        Expr::PreInc(v) => step_variable(v, true, true, vars, unknowns),
        Expr::PreDec(v) => step_variable(v, false, true, vars, unknowns),
        Expr::PostInc(v) => step_variable(v, true, false, vars, unknowns),
        Expr::PostDec(v) => step_variable(v, false, false, vars, unknowns),
    }
}

/// Whether an expression changes no variable: it holds no `++` and no `--`.
pub open spec fn pure(e: Expr<String>) -> bool
    decreases e,
{
    match e {
        Expr::Unary(_, inner) => pure(*inner),
        Expr::Binary(_, l, r) => pure(*l) && pure(*r),
        Expr::PreInc(_) | Expr::PreDec(_) | Expr::PostInc(_) | Expr::PostDec(_) => false,
        _ => true,
    }
}

/// An expression without `++` and `--` leaves the variables as they are.
pub proof fn lemma_pure_keeps_variables(
    e: Expr<String>,
    vars: Seq<ValueModel>,
    unknowns: Seq<i64>,
)
    requires
        pure(e),
    ensures
        match eval(e, vars, unknowns) {
            Evaluated::Value { vars: after, .. } => after == vars,
            Evaluated::Failed { vars: after } => after == vars,
        },
    decreases e,
{
    match e {
        Expr::Unary(_, inner) => {
            lemma_pure_keeps_variables(*inner, vars, unknowns);
        },
        Expr::Binary(_, l, r) => {
            lemma_pure_keeps_variables(*l, vars, unknowns);
            match eval(*l, vars, unknowns) {
                Evaluated::Value { unknowns: rest, .. } => {
                    lemma_pure_keeps_variables(*r, vars, rest);
                },
                _ => {},
            }
        },
        _ => {},
    }
}

/// Whether `code` holds `part` from `at` on.
pub open spec fn holds_at(code: Seq<Instruction>, at: int, part: Seq<Instruction>) -> bool {
    0 <= at && at + part.len() <= code.len() && code.subrange(at, at + part.len()) == part
}

/// A line that holds two parts in a row holds each at its place.
pub proof fn lemma_holds_at(
    code: Seq<Instruction>,
    at: int,
    first: Seq<Instruction>,
    second: Seq<Instruction>,
)
    requires
        holds_at(code, at, first + second),
    ensures
        holds_at(code, at, first),
        holds_at(code, at + first.len(), second),
{
    let part = first + second;
    assert(code.subrange(at, at + first.len()) =~= first) by {
        assert forall|i: int| 0 <= i < first.len() implies code.subrange(at, at + first.len())[i]
            == first[i] by {
            assert(code.subrange(at, at + part.len())[i] == part[i]);
        }
    }
    assert(code.subrange(at + first.len(), at + first.len() + second.len()) =~= second) by {
        assert forall|i: int| 0 <= i < second.len() implies code.subrange(
            at + first.len(),
            at + first.len() + second.len(),
        )[i] == second[i] by {
            assert(code.subrange(at, at + part.len())[first.len() + i] == part[first.len() + i]);
        }
    }
}

/// A line that holds a part holds each of its instructions.
pub proof fn lemma_holds_each(code: Seq<Instruction>, at: int, part: Seq<Instruction>, i: int)
    requires
        holds_at(code, at, part),
        0 <= i < part.len(),
    ensures
        0 <= at + i < code.len(),
        code[at + i] == part[i],
{
    assert(code.subrange(at, at + part.len())[i] == part[i]);
}

/// One instruction that takes the top of the stack and leaves what a unary
/// operation makes of it.
proof fn lemma_unary_step(
    code: Seq<Instruction>,
    at: int,
    inst: Instruction,
    a: ValueModel,
    stack: Seq<ValueModel>,
    vars: Seq<ValueModel>,
    unknowns: Seq<i64>,
)
    requires
        0 <= at < code.len(),
        code[at] == inst,
        shape(inst) is Unary,
    ensures
        run_from(code, at, stack.push(a), vars, unknowns) == match taken(
            unary_result(inst, a),
            unknowns,
        ) {
            Some((r, rest)) => run_from(code, at + 1, stack.push(r), vars, rest),
            None => Outcome::Aborted { vars },
        },
{
    reveal(run_from);
    assert(stack.push(a).drop_last() =~= stack);
}

/// One instruction that takes two values off the stack and leaves what a
/// binary operation makes of them.
proof fn lemma_binary_step(
    code: Seq<Instruction>,
    at: int,
    inst: Instruction,
    a: ValueModel,
    b: ValueModel,
    stack: Seq<ValueModel>,
    vars: Seq<ValueModel>,
    unknowns: Seq<i64>,
)
    requires
        0 <= at < code.len(),
        code[at] == inst,
        shape(inst) is Binary,
    ensures
        run_from(code, at, stack.push(a).push(b), vars, unknowns) == match taken(
            binary_result(inst, a, b),
            unknowns,
        ) {
            Some((r, rest)) => run_from(code, at + 1, stack.push(r), vars, rest),
            None => Outcome::Aborted { vars },
        },
{
    reveal(run_from);
    assert(stack.push(a).push(b).drop_last().drop_last() =~= stack);
}

/// An instruction that puts a value on the stack.
proof fn lemma_push_step(
    code: Seq<Instruction>,
    at: int,
    stack: Seq<ValueModel>,
    vars: Seq<ValueModel>,
    unknowns: Seq<i64>,
)
    requires
        0 <= at < code.len(),
        code[at] is PushValue || code[at] is Push || code[at] is Dup,
    ensures
        run_from(code, at, stack, vars, unknowns) == match code[at] {
            Instruction::PushValue(v) => run_from(
                code,
                at + 1,
                stack.push(literal_value(v)),
                vars,
                unknowns,
            ),
            Instruction::Push(v) => if v < vars.len() {
                run_from(code, at + 1, stack.push(vars[v as int]), vars, unknowns)
            } else {
                Outcome::Aborted { vars }
            },
            _ => if stack.len() > 0 {
                run_from(code, at + 1, stack.push(stack.last()), vars, unknowns)
            } else {
                Outcome::Aborted { vars }
            },
        },
{
    reveal(run_from);
}

/// A `Store` takes the top of the stack to its variable.
proof fn lemma_store_step(
    code: Seq<Instruction>,
    at: int,
    v: usize,
    a: ValueModel,
    stack: Seq<ValueModel>,
    vars: Seq<ValueModel>,
    unknowns: Seq<i64>,
)
    requires
        0 <= at < code.len(),
        code[at] == Instruction::Store(v),
    ensures
        run_from(code, at, stack.push(a), vars, unknowns) == if v < vars.len() {
            run_from(code, at + 1, stack, vars.update(v as int, a), unknowns)
        } else {
            Outcome::Aborted { vars }
        },
{
    reveal(run_from);
    assert(stack.push(a).drop_last() =~= stack);
}

/// A `JumpFalse` takes the top of the stack and skips unless it counts as
/// true; a `Jump` skips; a `Goto` ends the line with the top of the stack.
proof fn lemma_jump_step(
    code: Seq<Instruction>,
    at: int,
    a: ValueModel,
    stack: Seq<ValueModel>,
    vars: Seq<ValueModel>,
    unknowns: Seq<i64>,
)
    requires
        0 <= at < code.len(),
        code[at] is JumpFalse || code[at] is Jump || code[at] is Goto,
    ensures
        match code[at] {
            Instruction::JumpFalse(n) => run_from(code, at, stack.push(a), vars, unknowns)
                == run_from(
                code,
                if truth(a) {
                    at + 1
                } else {
                    landing(code.len() as int, at, n as int)
                },
                stack,
                vars,
                unknowns,
            ),
            Instruction::Jump(n) => run_from(code, at, stack, vars, unknowns) == run_from(
                code,
                landing(code.len() as int, at, n as int),
                stack,
                vars,
                unknowns,
            ),
            _ => run_from(code, at, stack.push(a), vars, unknowns) == Outcome::Jumped {
                target: a,
                stack,
                vars,
            },
        },
{
    reveal(run_from);
    assert(stack.push(a).drop_last() =~= stack);
}

/// The four instructions of `++v`, `--v`, `v++` and `v--` do what
/// `step_variable` says.
proof fn lemma_step_variable_runs(
    code: Seq<Instruction>,
    at: int,
    v: usize,
    up: bool,
    in_front: bool,
    stack: Seq<ValueModel>,
    vars: Seq<ValueModel>,
    unknowns: Seq<i64>,
)
    requires
        holds_at(code, at, step_code(v, up, in_front)),
    ensures
        run_from(code, at, stack, vars, unknowns) == match step_variable(
            v,
            up,
            in_front,
            vars,
            unknowns,
        ) {
            Evaluated::Value { value, vars: after, unknowns: rest } => run_from(
                code,
                at + 4,
                stack.push(value),
                after,
                rest,
            ),
            Evaluated::Failed { vars: after } => Outcome::Aborted { vars: after },
        },
{
    let part = step_code(v, up, in_front);
    let step = if up {
        Instruction::Inc
    } else {
        Instruction::Dec
    };
    lemma_holds_each(code, at, part, 0);
    lemma_holds_each(code, at, part, 1);
    lemma_holds_each(code, at, part, 2);
    lemma_holds_each(code, at, part, 3);
    lemma_push_step(code, at, stack, vars, unknowns);
    if v < vars.len() {
        let old = vars[v as int];
        let new = if up {
            successor(old)
        } else {
            predecessor(old)
        };
        let one = stack.push(old);
        if in_front {
            lemma_unary_step(code, at + 1, step, old, stack, vars, unknowns);
            lemma_push_step(code, at + 2, stack.push(new), vars, unknowns);
            lemma_store_step(code, at + 3, v, new, stack.push(new), vars, unknowns);
        } else {
            lemma_push_step(code, at + 1, one, vars, unknowns);
            lemma_unary_step(code, at + 2, step, old, one, vars, unknowns);
            lemma_store_step(code, at + 3, v, new, one, vars, unknowns);
        }
    }
}

/// The code of `++v`, `--v`, `v++` and `v--`.
pub open spec fn step_code(v: usize, up: bool, in_front: bool) -> Seq<Instruction> {
    let step = if up {
        Instruction::Inc
    } else {
        Instruction::Dec
    };
    seq![
        Instruction::Push(v),
        if in_front {
            step
        } else {
            Instruction::Dup
        },
        if in_front {
            Instruction::Dup
        } else {
            step
        },
        Instruction::Store(v),
    ]
}

/// The code of a unary operation makes of the top of the stack what
/// `apply_unary` says.
proof fn lemma_unary_runs(
    code: Seq<Instruction>,
    at: int,
    op: UnaryOp,
    a: ValueModel,
    stack: Seq<ValueModel>,
    vars: Seq<ValueModel>,
    unknowns: Seq<i64>,
)
    requires
        holds_at(code, at, unary_code(op)),
    ensures
        run_from(code, at, stack.push(a), vars, unknowns) == match apply_unary(op, a, unknowns) {
            Some((r, rest)) => run_from(
                code,
                at + unary_code(op).len(),
                stack.push(r),
                vars,
                rest,
            ),
            None => Outcome::Aborted { vars },
        },
{
    lemma_holds_each(code, at, unary_code(op), 0);
    match op {
        UnaryOp::Neg => {
            lemma_holds_each(code, at, unary_code(op), 1);
            lemma_push_step(code, at, stack.push(a), vars, unknowns);
            lemma_binary_step(
                code,
                at + 1,
                Instruction::Mul,
                a,
                ValueModel::Int(-1000i64),
                stack,
                vars,
                unknowns,
            );
        },
        _ => {
            lemma_unary_step(code, at, unary_code(op)[0], a, stack, vars, unknowns);
        },
    }
}

/// The code of an expression, run from its first instruction, puts the
/// value of the expression on the stack and goes on behind the code, with
/// the variables as the expression leaves them. Where the expression has no
/// value the run ends.
pub proof fn lemma_expression_runs(
    code: Seq<Instruction>,
    at: int,
    e: Expr<String>,
    stack: Seq<ValueModel>,
    vars: Seq<ValueModel>,
    unknowns: Seq<i64>,
)
    requires
        holds_at(code, at, compile_expr(e)),
    ensures
        run_from(code, at, stack, vars, unknowns) == match eval(e, vars, unknowns) {
            Evaluated::Value { value, vars: after, unknowns: rest } => run_from(
                code,
                at + compile_expr(e).len(),
                stack.push(value),
                after,
                rest,
            ),
            Evaluated::Failed { vars: after } => Outcome::Aborted { vars: after },
        },
    decreases e,
{
    match e {
        Expr::Numerical(_) | Expr::String(_) | Expr::LocalVariable(_) | Expr::GlobalVariable(
            _,
        ) => {
            lemma_holds_each(code, at, compile_expr(e), 0);
            lemma_push_step(code, at, stack, vars, unknowns);
        },
        Expr::Unary(op, inner) => {
            let first = compile_expr(*inner);
            lemma_holds_at(code, at, first, unary_code(op));
            lemma_expression_runs(code, at, *inner, stack, vars, unknowns);
            match eval(*inner, vars, unknowns) {
                Evaluated::Value { value: a, vars: after, unknowns: rest } => {
                    lemma_unary_runs(code, at + first.len(), op, a, stack, after, rest);
                },
                _ => {},
            }
        },
        Expr::Binary(op, l, r) => {
            let left = compile_expr(*l);
            let right = compile_expr(*r);
            let inst = binary_instruction(op);
            lemma_holds_at(code, at, left + right, seq![inst]);
            lemma_holds_at(code, at, left, right);
            lemma_holds_each(code, at + left.len() + right.len(), seq![inst], 0);
            lemma_expression_runs(code, at, *l, stack, vars, unknowns);
            match eval(*l, vars, unknowns) {
                Evaluated::Value { value: a, vars: after, unknowns: rest } => {
                    lemma_expression_runs(code, at + left.len(), *r, stack.push(a), after, rest);
                    match eval(*r, after, rest) {
                        Evaluated::Value { value: b, vars: last, unknowns: left_over } => {
                            lemma_binary_step(
                                code,
                                at + left.len() + right.len(),
                                inst,
                                a,
                                b,
                                stack,
                                last,
                                left_over,
                            );
                        },
                        _ => {},
                    }
                },
                _ => {},
            }
        },
        Expr::PreInc(v) => {
            assert(compile_expr(e) =~= step_code(v, true, true));
            lemma_step_variable_runs(code, at, v, true, true, stack, vars, unknowns);
        },
        Expr::PreDec(v) => {
            assert(compile_expr(e) =~= step_code(v, false, true));
            lemma_step_variable_runs(code, at, v, false, true, stack, vars, unknowns);
        },
        Expr::PostInc(v) => {
            assert(compile_expr(e) =~= step_code(v, true, false));
            lemma_step_variable_runs(code, at, v, true, false, stack, vars, unknowns);
        },
        Expr::PostDec(v) => {
            assert(compile_expr(e) =~= step_code(v, false, false));
            lemma_step_variable_runs(code, at, v, false, false, stack, vars, unknowns);
        },
    }
}

// ---------------------------------------------------------------------------
// Statements
// ---------------------------------------------------------------------------

/// What a statement comes to.
pub enum Executed {
    /// The statement is done and the next one follows.
    Next { stack: Seq<ValueModel>, vars: Seq<ValueModel>, unknowns: Seq<i64> },
    /// A `goto` ended the line.
    Jumped { target: ValueModel, stack: Seq<ValueModel>, vars: Seq<ValueModel> },
    /// An operation failed and ended the line.
    Aborted { vars: Seq<ValueModel> },
}

/// An assignment: `v = e` where `op` is `None`, `v op= e` otherwise. The
/// value of `e` is the left operand of the operation and the variable the
/// right one.
pub open spec fn assign(
    op: Option<BinaryOp>,
    v: usize,
    e: Expr<String>,
    stack: Seq<ValueModel>,
    vars: Seq<ValueModel>,
    unknowns: Seq<i64>,
) -> Executed {
    match eval(e, vars, unknowns) {
        Evaluated::Value { value, vars, unknowns } => if v >= vars.len() {
            Executed::Aborted { vars }
        } else {
            match op {
                None => Executed::Next { stack, vars: vars.update(v as int, value), unknowns },
                Some(op) => match taken(
                    binary_result(binary_instruction(op), value, vars[v as int]),
                    unknowns,
                ) {
                    Some((r, rest)) => Executed::Next {
                        stack,
                        vars: vars.update(v as int, r),
                        unknowns: rest,
                    },
                    None => Executed::Aborted { vars },
                },
            }
        },
        Evaluated::Failed { vars } => Executed::Aborted { vars },
    }
}

/// The effect of a statement, or of a list of statements, on the stack and
/// the variables. An expression that stands as a statement leaves its value
/// on the stack.
pub open spec fn exec(
    t: Tree<String>,
    stack: Seq<ValueModel>,
    vars: Seq<ValueModel>,
    unknowns: Seq<i64>,
) -> Executed
    decreases t,
{
    match t {
        Tree::Error | Tree::Empty | Tree::Comment => Executed::Next { stack, vars, unknowns },
        Tree::Expression(e) => match eval(e, vars, unknowns) {
            Evaluated::Value { value, vars, unknowns } => Executed::Next {
                stack: stack.push(value),
                vars,
                unknowns,
            },
            Evaluated::Failed { vars } => Executed::Aborted { vars },
        },
        Tree::Assign(v, e) => assign(None, v, e, stack, vars, unknowns),
        Tree::AssignOp(op, v, e) => assign(Some(op), v, e, stack, vars, unknowns),
        Tree::IfThen(p, t) => match eval(p, vars, unknowns) {
            Evaluated::Value { value, vars, unknowns } => if truth(value) {
                exec(*t, stack, vars, unknowns)
            } else {
                Executed::Next { stack, vars, unknowns }
            },
            Evaluated::Failed { vars } => Executed::Aborted { vars },
        },
        Tree::IfThenElse(p, t, f) => match eval(p, vars, unknowns) {
            Evaluated::Value { value, vars, unknowns } => if truth(value) {
                exec(*t, stack, vars, unknowns)
            } else {
                exec(*f, stack, vars, unknowns)
            },
            Evaluated::Failed { vars } => Executed::Aborted { vars },
        },
        Tree::Goto(e) => match eval(e, vars, unknowns) {
            Evaluated::Value { value, vars, .. } => Executed::Jumped { target: value, stack, vars },
            Evaluated::Failed { vars } => Executed::Aborted { vars },
        },
        Tree::Sequence(first, rest) => match exec(*first, stack, vars, unknowns) {
            Executed::Next { stack, vars, unknowns } => exec(*rest, stack, vars, unknowns),
            ended => ended,
        },
    }
}

/// The run that goes on at `at` behind a statement, or the end that the
/// statement put to the line.
pub open spec fn goes_on(code: Seq<Instruction>, at: int, done: Executed) -> Outcome {
    match done {
        Executed::Next { stack, vars, unknowns } => run_from(code, at, stack, vars, unknowns),
        Executed::Jumped { target, stack, vars } => Outcome::Jumped { target, stack, vars },
        Executed::Aborted { vars } => Outcome::Aborted { vars },
    }
}

/// The code of an assignment does what `assign` says.
proof fn lemma_assignment_runs(
    code: Seq<Instruction>,
    at: int,
    op: Option<BinaryOp>,
    v: usize,
    e: Expr<String>,
    stack: Seq<ValueModel>,
    vars: Seq<ValueModel>,
    unknowns: Seq<i64>,
)
    requires
        holds_at(code, at, compile_assignment(op, v, e)),
    ensures
        run_from(code, at, stack, vars, unknowns) == goes_on(
            code,
            at + compile_assignment(op, v, e).len(),
            assign(op, v, e, stack, vars, unknowns),
        ),
{
    let first = compile_expr(e);
    let last = match op {
        None => seq![Instruction::Store(v)],
        Some(op) => seq![Instruction::Push(v), binary_instruction(op), Instruction::Store(v)],
    };
    lemma_holds_at(code, at, first, last);
    lemma_expression_runs(code, at, e, stack, vars, unknowns);
    let here = at + first.len();
    match eval(e, vars, unknowns) {
        Evaluated::Value { value, vars: after, unknowns: rest } => {
            lemma_holds_each(code, here, last, 0);
            match op {
                None => {
                    lemma_store_step(code, here, v, value, stack, after, rest);
                },
                Some(op) => {
                    lemma_holds_each(code, here, last, 1);
                    lemma_holds_each(code, here, last, 2);
                    lemma_push_step(code, here, stack.push(value), after, rest);
                    if v < after.len() {
                        let inst = binary_instruction(op);
                        lemma_binary_step(
                            code,
                            here + 1,
                            inst,
                            value,
                            after[v as int],
                            stack,
                            after,
                            rest,
                        );
                        match taken(binary_result(inst, value, after[v as int]), rest) {
                            Some((r, left)) => {
                                lemma_store_step(code, here + 2, v, r, stack, after, left);
                            },
                            None => {},
                        }
                    }
                },
            }
        },
        _ => {},
    }
}

/// The code of a statement, run from its first instruction, does what the
/// statement says and goes on behind the code, or ends the line where the
/// statement does.
#[verifier::rlimit(100)]
#[verifier::spinoff_prover]
pub proof fn lemma_statement_runs(
    code: Seq<Instruction>,
    at: int,
    t: Tree<String>,
    stack: Seq<ValueModel>,
    vars: Seq<ValueModel>,
    unknowns: Seq<i64>,
)
    requires
        holds_at(code, at, compile(t)),
        code.len() <= usize::MAX,
    ensures
        run_from(code, at, stack, vars, unknowns) == goes_on(
            code,
            at + compile(t).len(),
            exec(t, stack, vars, unknowns),
        ),
    decreases t,
{
    match t {
        Tree::Error | Tree::Empty | Tree::Comment => {},
        Tree::Expression(e) => {
            lemma_expression_runs(code, at, e, stack, vars, unknowns);
        },
        Tree::Assign(v, e) => {
            lemma_assignment_runs(code, at, None, v, e, stack, vars, unknowns);
        },
        Tree::AssignOp(op, v, e) => {
            lemma_assignment_runs(code, at, Some(op), v, e, stack, vars, unknowns);
        },
        Tree::Goto(e) => {
            let first = compile_expr(e);
            lemma_holds_at(code, at, first, seq![Instruction::Goto]);
            lemma_holds_each(code, at + first.len(), seq![Instruction::Goto], 0);
            lemma_expression_runs(code, at, e, stack, vars, unknowns);
            match eval(e, vars, unknowns) {
                Evaluated::Value { value, vars: after, unknowns: rest } => {
                    lemma_jump_step(code, at + first.len(), value, stack, after, rest);
                },
                _ => {},
            }
        },
        Tree::IfThen(p, body) => {
            let first = compile_expr(p);
            let branch = compile(*body);
            let jump = seq![Instruction::JumpFalse(branch.len() as usize)];
            lemma_holds_at(code, at, first + jump, branch);
            lemma_holds_at(code, at, first, jump);
            lemma_holds_each(code, at + first.len(), jump, 0);
            lemma_expression_runs(code, at, p, stack, vars, unknowns);
            match eval(p, vars, unknowns) {
                Evaluated::Value { value, vars: after, unknowns: rest } => {
                    lemma_jump_step(code, at + first.len(), value, stack, after, rest);
                    if truth(value) {
                        lemma_statement_runs(code, at + first.len() + 1, *body, stack, after, rest);
                    }
                },
                _ => {},
            }
        },
        Tree::IfThenElse(p, body, other) => {
            let first = compile_expr(p);
            let second = compile(*other);
            let skip = seq![Instruction::Jump(second.len() as usize)];
            let branch = compile(*body) + skip;
            let jump = seq![Instruction::JumpFalse(branch.len() as usize)];
            let inside = at + first.len() + 1;
            lemma_holds_at(code, at, first + jump + branch, second);
            lemma_holds_at(code, at, first + jump, branch);
            lemma_holds_at(code, at, first, jump);
            lemma_holds_at(code, inside, compile(*body), skip);
            lemma_holds_each(code, at + first.len(), jump, 0);
            lemma_holds_each(code, inside + compile(*body).len(), skip, 0);
            lemma_expression_runs(code, at, p, stack, vars, unknowns);
            match eval(p, vars, unknowns) {
                Evaluated::Value { value, vars: after, unknowns: rest } => {
                    lemma_jump_step(code, at + first.len(), value, stack, after, rest);
                    if truth(value) {
                        lemma_statement_runs(code, inside, *body, stack, after, rest);
                        match exec(*body, stack, after, rest) {
                            Executed::Next { stack: s, vars: v, unknowns: u } => {
                                lemma_jump_step(
                                    code,
                                    inside + compile(*body).len(),
                                    value,
                                    s,
                                    v,
                                    u,
                                );
                            },
                            _ => {},
                        }
                    } else {
                        lemma_statement_runs(
                            code,
                            inside + branch.len(),
                            *other,
                            stack,
                            after,
                            rest,
                        );
                    }
                },
                _ => {},
            }
        },
        Tree::Sequence(one, two) => {
            lemma_holds_at(code, at, compile(*one), compile(*two));
            lemma_statement_runs(code, at, *one, stack, vars, unknowns);
            match exec(*one, stack, vars, unknowns) {
                Executed::Next { stack: s, vars: v, unknowns: u } => {
                    lemma_statement_runs(code, at + compile(*one).len(), *two, s, v, u);
                },
                _ => {},
            }
        },
    }
}

/// How a line ends whose last statement is done.
pub open spec fn line_outcome(done: Executed) -> Outcome {
    match done {
        Executed::Next { stack, vars, .. } => Outcome::Finished { stack, vars },
        Executed::Jumped { target, stack, vars } => Outcome::Jumped { target, stack, vars },
        Executed::Aborted { vars } => Outcome::Aborted { vars },
    }
}

/// A run of the code that the compiler emits for a line does what the
/// statements of the line say.
pub proof fn lemma_compiled_line_runs(
    t: Tree<String>,
    vars: Seq<ValueModel>,
    unknowns: Seq<i64>,
)
    requires
        compile(t).len() <= usize::MAX,
    ensures
        run_spec(compile(t), vars, unknowns) == line_outcome(
            exec(t, Seq::empty(), vars, unknowns),
        ),
{
    reveal(run_from);
    let code = compile(t);
    assert(code.subrange(0, code.len() as int) =~= code);
    lemma_statement_runs(code, 0, t, Seq::empty(), vars, unknowns);
}

// ---------------------------------------------------------------------------
// Compound assignments
// ---------------------------------------------------------------------------

/// `v op= e` does what `v = e op v` does.
pub proof fn lemma_compound_assignment_runs(
    op: BinaryOp,
    v: usize,
    e: Expr<String>,
    stack: Seq<ValueModel>,
    vars: Seq<ValueModel>,
    unknowns: Seq<i64>,
)
    ensures
        exec(Tree::AssignOp(op, v, e), stack, vars, unknowns) == exec(
            Tree::Assign(
                v,
                Expr::Binary(op, Box::new(e), Box::new(Expr::LocalVariable(v))),
            ),
            stack,
            vars,
            unknowns,
        ),
{
    let variable: Expr<String> = Expr::LocalVariable(v);
    match eval(e, vars, unknowns) {
        Evaluated::Value { vars: after, unknowns: rest, .. } => {
            assert(eval(variable, after, rest) == if v < after.len() {
                Evaluated::Value { value: after[v as int], vars: after, unknowns: rest }
            } else {
                Evaluated::Failed { vars: after }
            });
        },
        _ => {},
    }
}

/// `v op= e` does what `v = v op e` does wherever `e` holds no `++` and no
/// `--` and the operation gives the same for the value of `e` and the
/// variable in either order.
pub proof fn lemma_compound_assignment_of_commuting_operation(
    op: BinaryOp,
    v: usize,
    e: Expr<String>,
    stack: Seq<ValueModel>,
    vars: Seq<ValueModel>,
    unknowns: Seq<i64>,
)
    requires
        pure(e),
        v < vars.len(),
        eval(e, vars, unknowns) matches Evaluated::Value { value, .. } ==> binary_result(
            binary_instruction(op),
            value,
            vars[v as int],
        ) == binary_result(binary_instruction(op), vars[v as int], value),
    ensures
        exec(Tree::AssignOp(op, v, e), stack, vars, unknowns) == exec(
            Tree::Assign(
                v,
                Expr::Binary(op, Box::new(Expr::LocalVariable(v)), Box::new(e)),
            ),
            stack,
            vars,
            unknowns,
        ),
{
    let variable: Expr<String> = Expr::LocalVariable(v);
    lemma_pure_keeps_variables(e, vars, unknowns);
    assert(eval(variable, vars, unknowns) == Evaluated::Value {
        value: vars[v as int],
        vars,
        unknowns,
    });
}

/// The operations that give the same for their operands in either order:
/// `or`, `and`, `==` and `!=` on all values, `+` and `*` on numbers.
pub proof fn lemma_commuting_operations(a: ValueModel, b: ValueModel)
    ensures
        binary_result(Instruction::Or, a, b) == binary_result(Instruction::Or, b, a),
        binary_result(Instruction::And, a, b) == binary_result(Instruction::And, b, a),
        binary_result(Instruction::Eq, a, b) == binary_result(Instruction::Eq, b, a),
        binary_result(Instruction::Ne, a, b) == binary_result(Instruction::Ne, b, a),
        (a is Int && b is Int) ==> binary_result(Instruction::Add, a, b) == binary_result(
            Instruction::Add,
            b,
            a,
        ),
        (a is Int && b is Int) ==> binary_result(Instruction::Mul, a, b) == binary_result(
            Instruction::Mul,
            b,
            a,
        ),
{
    if a is Int && b is Int {
        let x = a->Int_0 as int;
        let y = b->Int_0 as int;
        assert(x * y == y * x) by (nonlinear_arith);
    }
}

} // verus!
