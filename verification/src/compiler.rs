//! From syntax trees to bytecode.
//!
//! An expression leaves its value on the stack, the left operand of a binary
//! operation below the right one. A conditional becomes a forward jump over
//! the instructions of its branch.

use crate::ast::BinaryOp;
use crate::ast::Expr;
use crate::ast::Tree;
use crate::ast::UnaryOp;
use crate::ast::expr_variables_below;
use crate::ast::tree_variables_below;
use crate::instruction::Instruction;
use crate::instruction::Literal;
use crate::instruction::jumps_land;
use crate::instruction::lemma_jumps_land_concat;
use crate::instruction::lemma_variables_below_concat;
use crate::instruction::variables_below;
use vstd::prelude::*;

verus! {

/// The instruction that carries out a binary operation.
pub open spec fn binary_instruction(op: BinaryOp) -> Instruction {
    match op {
        BinaryOp::Or => Instruction::Or,
        BinaryOp::And => Instruction::And,
        BinaryOp::Eq => Instruction::Eq,
        BinaryOp::Ne => Instruction::Ne,
        BinaryOp::Lt => Instruction::Lt,
        BinaryOp::Gt => Instruction::Gt,
        BinaryOp::Lte => Instruction::Lte,
        BinaryOp::Gte => Instruction::Gte,
        BinaryOp::Add => Instruction::Add,
        BinaryOp::Sub => Instruction::Sub,
        BinaryOp::Mul => Instruction::Mul,
        BinaryOp::Div => Instruction::Div,
        BinaryOp::Mod => Instruction::Mod,
        BinaryOp::Exp => Instruction::Exp,
    }
}

/// The instructions that carry out a unary operation on the top of the
/// stack. A change of sign is a multiplication by minus one.
pub open spec fn unary_code(op: UnaryOp) -> Seq<Instruction> {
    match op {
        UnaryOp::Not => seq![Instruction::Not],
        UnaryOp::Neg => seq![Instruction::PushValue(Literal::Number(-1000i64)), Instruction::Mul],
        UnaryOp::Abs => seq![Instruction::Abs],
        UnaryOp::Sqrt => seq![Instruction::Sqrt],
        UnaryOp::Sin => seq![Instruction::Sin],
        UnaryOp::Asin => seq![Instruction::Asin],
        UnaryOp::Cos => seq![Instruction::Cos],
        UnaryOp::Acos => seq![Instruction::Acos],
        UnaryOp::Tan => seq![Instruction::Tan],
        UnaryOp::Atan => seq![Instruction::Atan],
        UnaryOp::Fac => seq![Instruction::Fac],
    }
}

/// The bytecode of an expression.
pub open spec fn compile_expr(e: Expr<String>) -> Seq<Instruction>
    decreases e,
{
    match e {
        Expr::Numerical(n) => seq![Instruction::PushValue(Literal::Number(n))],
        Expr::String(s) => seq![Instruction::PushValue(Literal::Text(s))],
        Expr::LocalVariable(v) => seq![Instruction::Push(v)],
        Expr::GlobalVariable(v) => seq![Instruction::Push(v)],
        Expr::Unary(op, e) => compile_expr(*e) + unary_code(op),
        Expr::Binary(op, l, r) => compile_expr(*l) + compile_expr(*r) + seq![
            binary_instruction(op),
        ],
        Expr::PreInc(v) => seq![
            Instruction::Push(v),
            Instruction::Inc,
            Instruction::Dup,
            Instruction::Store(v),
        ],
        Expr::PreDec(v) => seq![
            Instruction::Push(v),
            Instruction::Dec,
            Instruction::Dup,
            Instruction::Store(v),
        ],
        Expr::PostInc(v) => seq![
            Instruction::Push(v),
            Instruction::Dup,
            Instruction::Inc,
            Instruction::Store(v),
        ],
        Expr::PostDec(v) => seq![
            Instruction::Push(v),
            Instruction::Dup,
            Instruction::Dec,
            Instruction::Store(v),
        ],
    }
}

/// The bytecode of an assignment: the value, then, for `v op= e`, the
/// variable and the operation, then the store.
pub open spec fn compile_assignment(op: Option<BinaryOp>, v: usize, e: Expr<String>) -> Seq<
    Instruction,
> {
    match op {
        None => compile_expr(e) + seq![Instruction::Store(v)],
        Some(op) => compile_expr(e) + seq![
            Instruction::Push(v),
            binary_instruction(op),
            Instruction::Store(v),
        ],
    }
}

/// The bytecode of a statement or of a list of statements.
pub open spec fn compile(t: Tree<String>) -> Seq<Instruction>
    decreases t,
{
    match t {
        Tree::Error => Seq::empty(),
        Tree::Empty => Seq::empty(),
        Tree::Comment => Seq::empty(),
        Tree::Expression(e) => compile_expr(e),
        Tree::Assign(v, e) => compile_assignment(None, v, e),
        Tree::AssignOp(op, v, e) => compile_assignment(Some(op), v, e),
        Tree::IfThen(p, t) => {
            let body = compile(*t);
            compile_expr(p) + seq![Instruction::JumpFalse(body.len() as usize)] + body
        },
        Tree::IfThenElse(p, t, f) => {
            let other = compile(*f);
            let body = compile(*t) + seq![Instruction::Jump(other.len() as usize)];
            compile_expr(p) + seq![Instruction::JumpFalse(body.len() as usize)] + body + other
        },
        Tree::Goto(e) => compile_expr(e) + seq![Instruction::Goto],
        Tree::Sequence(first, rest) => compile(*first) + compile(*rest),
    }
}

fn binary_instruction_of(op: BinaryOp) -> (r: Instruction)
    ensures
        r == binary_instruction(op),
{
    match op {
        BinaryOp::Or => Instruction::Or,
        BinaryOp::And => Instruction::And,
        BinaryOp::Eq => Instruction::Eq,
        BinaryOp::Ne => Instruction::Ne,
        BinaryOp::Lt => Instruction::Lt,
        BinaryOp::Gt => Instruction::Gt,
        BinaryOp::Lte => Instruction::Lte,
        BinaryOp::Gte => Instruction::Gte,
        BinaryOp::Add => Instruction::Add,
        BinaryOp::Sub => Instruction::Sub,
        BinaryOp::Mul => Instruction::Mul,
        BinaryOp::Div => Instruction::Div,
        BinaryOp::Mod => Instruction::Mod,
        BinaryOp::Exp => Instruction::Exp,
    }
}

fn unary_instruction_of(op: UnaryOp) -> (r: Instruction)
    requires
        op != UnaryOp::Neg,
    ensures
        seq![r] == unary_code(op),
{
    match op {
        UnaryOp::Not => Instruction::Not,
        UnaryOp::Neg => Instruction::Not,
        UnaryOp::Abs => Instruction::Abs,
        UnaryOp::Sqrt => Instruction::Sqrt,
        UnaryOp::Sin => Instruction::Sin,
        UnaryOp::Asin => Instruction::Asin,
        UnaryOp::Cos => Instruction::Cos,
        UnaryOp::Acos => Instruction::Acos,
        UnaryOp::Tan => Instruction::Tan,
        UnaryOp::Atan => Instruction::Atan,
        UnaryOp::Fac => Instruction::Fac,
    }
}

/// The four instructions of `++v`, `--v`, `v++` and `v--`.
fn step_variable(v: usize, second: Instruction, third: Instruction) -> (code: Vec<Instruction>)
    ensures
        code@ == seq![Instruction::Push(v), second, third, Instruction::Store(v)],
{
    let mut code: Vec<Instruction> = Vec::new();
    code.push(Instruction::Push(v));
    code.push(second);
    code.push(third);
    code.push(Instruction::Store(v));
    code
}

/// Compiles an expression.
pub fn process_expr(e: &Expr<String>) -> (code: Vec<Instruction>)
    ensures
        code@ == compile_expr(*e),
    decreases e,
{
    match e {
        Expr::Numerical(n) => {
            let mut code: Vec<Instruction> = Vec::new();
            code.push(Instruction::PushValue(Literal::Number(*n)));
            code
        },
        Expr::String(s) => {
            let mut code: Vec<Instruction> = Vec::new();
            code.push(Instruction::PushValue(Literal::Text(s.clone())));
            code
        },
        Expr::LocalVariable(v) => {
            let mut code: Vec<Instruction> = Vec::new();
            code.push(Instruction::Push(*v));
            code
        },
        Expr::GlobalVariable(v) => {
            let mut code: Vec<Instruction> = Vec::new();
            code.push(Instruction::Push(*v));
            code
        },
        Expr::Unary(op, inner) => {
            let mut code = process_expr(inner);
            match op {
                UnaryOp::Neg => {
                    code.push(Instruction::PushValue(Literal::Number(-1000)));
                    code.push(Instruction::Mul);
                },
                _ => {
                    code.push(unary_instruction_of(*op));
                },
            }
            code
        },
        Expr::Binary(op, l, r) => {
            let mut code = process_expr(l);
            let mut right = process_expr(r);
            code.append(&mut right);
            code.push(binary_instruction_of(*op));
            code
        },
        Expr::PreInc(v) => step_variable(*v, Instruction::Inc, Instruction::Dup),
        Expr::PreDec(v) => step_variable(*v, Instruction::Dec, Instruction::Dup),
        Expr::PostInc(v) => step_variable(*v, Instruction::Dup, Instruction::Inc),
        Expr::PostDec(v) => step_variable(*v, Instruction::Dup, Instruction::Dec),
    }
}

/// Compiles `v = e` (no operation) or `v op= e`.
pub fn process_assing(op: Option<BinaryOp>, v: usize, e: &Expr<String>) -> (code: Vec<Instruction>)
    ensures
        code@ == compile_assignment(op, v, *e),
{
    let mut code = process_expr(e);
    match op {
        None => {},
        Some(op) => {
            code.push(Instruction::Push(v));
            code.push(binary_instruction_of(op));
        },
    }
    code.push(Instruction::Store(v));
    code
}

/// Compiles a statement or a list of statements. Every jump of the code
/// lands inside it or just behind its last instruction, and every variable
/// of the code is one of the tree.
pub fn process(t: &Tree<String>) -> (code: Vec<Instruction>)
    ensures
        code@ == compile(*t),
        jumps_land(code@),
        forall|count: int| tree_variables_below(*t, count) ==> variables_below(code@, count),
    decreases t,
{
    let code = match t {
        Tree::Error => Vec::new(),
        Tree::Empty => Vec::new(),
        Tree::Comment => Vec::new(),
        Tree::Expression(e) => process_expr(e),
        Tree::Assign(v, e) => process_assing(None, *v, e),
        Tree::AssignOp(op, v, e) => process_assing(Some(*op), *v, e),
        Tree::IfThen(p, t) => {
            let mut code = process_expr(p);
            let mut body = process(t);
            code.push(Instruction::JumpFalse(body.len()));
            code.append(&mut body);
            code
        },
        Tree::IfThenElse(p, t, f) => {
            let mut code = process_expr(p);
            let mut body = process(t);
            let mut other = process(f);
            body.push(Instruction::Jump(other.len()));
            code.push(Instruction::JumpFalse(body.len()));
            code.append(&mut body);
            code.append(&mut other);
            code
        },
        Tree::Goto(e) => {
            let mut code = process_expr(e);
            code.push(Instruction::Goto);
            code
        },
        Tree::Sequence(first, rest) => {
            let mut code = process(first);
            let mut more = process(rest);
            code.append(&mut more);
            code
        },
    };
    proof {
        vstd::std_specs::vec::axiom_spec_len(&code);
        lemma_compiled_jumps_land(*t);
        assert(code@ == compile(*t));
        assert forall|count: int| tree_variables_below(*t, count) implies #[trigger] variables_below(
            code@,
            count,
        ) by {
            lemma_compiled_variables(*t, count);
        }
    }
    code
}

// ---------------------------------------------------------------------------
// What holds of all compiled code
// ---------------------------------------------------------------------------

/// An expression compiles to code without jumps.
pub open spec fn jump_free(code: Seq<Instruction>) -> bool {
    forall|i: int|
        0 <= i < code.len() ==> !(#[trigger] code[i] is Jump) && !(code[i] is JumpFalse)
}

pub proof fn lemma_jump_free_concat(a: Seq<Instruction>, b: Seq<Instruction>)
    requires
        jump_free(a),
        jump_free(b),
    ensures
        jump_free(a + b),
{
    assert forall|i: int| 0 <= i < (a + b).len() implies !(#[trigger] (a + b)[i] is Jump) && !((a
        + b)[i] is JumpFalse) by {
        if i < a.len() {
            assert((a + b)[i] == a[i]);
        } else {
            assert((a + b)[i] == b[i - a.len()]);
        }
    }
}

/// The code of an expression holds no jump.
pub proof fn lemma_expression_jump_free(e: Expr<String>)
    ensures
        jump_free(compile_expr(e)),
        jumps_land(compile_expr(e)),
    decreases e,
{
    match e {
        Expr::Unary(op, inner) => {
            lemma_expression_jump_free(*inner);
            lemma_jump_free_concat(compile_expr(*inner), unary_code(op));
        },
        Expr::Binary(op, l, r) => {
            lemma_expression_jump_free(*l);
            lemma_expression_jump_free(*r);
            lemma_jump_free_concat(compile_expr(*l), compile_expr(*r));
            lemma_jump_free_concat(
                compile_expr(*l) + compile_expr(*r),
                seq![binary_instruction(op)],
            );
        },
        _ => {},
    }
}

/// Every jump that the compiler emits lands inside the line or just behind
/// its last instruction, as long as the line's length is a `usize`.
pub proof fn lemma_compiled_jumps_land(t: Tree<String>)
    requires
        compile(t).len() <= usize::MAX,
    ensures
        jumps_land(compile(t)),
    decreases t,
{
    match t {
        Tree::Expression(e) => {
            lemma_expression_jump_free(e);
        },
        Tree::Assign(v, e) => {
            lemma_expression_jump_free(e);
            lemma_jumps_land_concat(compile_expr(e), seq![Instruction::Store(v)]);
        },
        Tree::AssignOp(op, v, e) => {
            lemma_expression_jump_free(e);
            lemma_jumps_land_concat(
                compile_expr(e),
                seq![Instruction::Push(v), binary_instruction(op), Instruction::Store(v)],
            );
        },
        Tree::IfThen(p, t) => {
            lemma_expression_jump_free(p);
            lemma_compiled_jumps_land(*t);
            let body = compile(*t);
            let jump = seq![Instruction::JumpFalse(body.len() as usize)];
            let head = compile_expr(p) + jump;
            let all = head + body;
            assert forall|i: int| 0 <= i < all.len() implies match #[trigger] all[i] {
                Instruction::Jump(n) => i + 1 + n <= all.len(),
                Instruction::JumpFalse(n) => i + 1 + n <= all.len(),
                _ => true,
            } by {
                if i < compile_expr(p).len() {
                    assert(all[i] == compile_expr(p)[i]);
                } else if i == compile_expr(p).len() {
                    assert(all[i] == jump[0]);
                } else {
                    assert(all[i] == body[i - head.len()]);
                }
            }
        },
        Tree::IfThenElse(p, t, f) => {
            lemma_expression_jump_free(p);
            lemma_compiled_jumps_land(*t);
            lemma_compiled_jumps_land(*f);
            let other = compile(*f);
            let skip = seq![Instruction::Jump(other.len() as usize)];
            let body = compile(*t) + skip;
            let jump = seq![Instruction::JumpFalse(body.len() as usize)];
            let head = compile_expr(p) + jump;
            let all = head + body + other;
            assert forall|i: int| 0 <= i < all.len() implies match #[trigger] all[i] {
                Instruction::Jump(n) => i + 1 + n <= all.len(),
                Instruction::JumpFalse(n) => i + 1 + n <= all.len(),
                _ => true,
            } by {
                if i < compile_expr(p).len() {
                    assert(all[i] == compile_expr(p)[i]);
                } else if i == compile_expr(p).len() {
                    assert(all[i] == jump[0]);
                } else if i < head.len() + compile(*t).len() {
                    assert(all[i] == compile(*t)[i - head.len()]);
                } else if i == head.len() + compile(*t).len() {
                    assert(all[i] == skip[0]);
                } else {
                    assert(all[i] == other[i - head.len() - body.len()]);
                }
            }
        },
        Tree::Goto(e) => {
            lemma_expression_jump_free(e);
            lemma_jumps_land_concat(compile_expr(e), seq![Instruction::Goto]);
        },
        Tree::Sequence(first, rest) => {
            lemma_compiled_jumps_land(*first);
            lemma_compiled_jumps_land(*rest);
            lemma_jumps_land_concat(compile(*first), compile(*rest));
        },
        _ => {},
    }
}

/// The code of an expression names no variable that the expression does not.
pub proof fn lemma_expression_variables(e: Expr<String>, count: int)
    requires
        expr_variables_below(e, count),
    ensures
        variables_below(compile_expr(e), count),
    decreases e,
{
    match e {
        Expr::Unary(op, inner) => {
            lemma_expression_variables(*inner, count);
            lemma_variables_below_concat(compile_expr(*inner), unary_code(op), count);
        },
        Expr::Binary(op, l, r) => {
            lemma_expression_variables(*l, count);
            lemma_expression_variables(*r, count);
            lemma_variables_below_concat(compile_expr(*l), compile_expr(*r), count);
            lemma_variables_below_concat(
                compile_expr(*l) + compile_expr(*r),
                seq![binary_instruction(op)],
                count,
            );
        },
        _ => {},
    }
}

/// Every `Push` and `Store` that the compiler emits has the index of a
/// variable of the source: where those lie below `count`, so do they.
pub proof fn lemma_compiled_variables(t: Tree<String>, count: int)
    requires
        tree_variables_below(t, count),
    ensures
        variables_below(compile(t), count),
    decreases t,
{
    match t {
        Tree::Expression(e) => {
            lemma_expression_variables(e, count);
        },
        Tree::Assign(v, e) => {
            lemma_expression_variables(e, count);
            lemma_variables_below_concat(compile_expr(e), seq![Instruction::Store(v)], count);
        },
        Tree::AssignOp(op, v, e) => {
            lemma_expression_variables(e, count);
            lemma_variables_below_concat(
                compile_expr(e),
                seq![Instruction::Push(v), binary_instruction(op), Instruction::Store(v)],
                count,
            );
        },
        Tree::IfThen(p, t) => {
            lemma_expression_variables(p, count);
            lemma_compiled_variables(*t, count);
            let body = compile(*t);
            let jump = seq![Instruction::JumpFalse(body.len() as usize)];
            lemma_variables_below_concat(compile_expr(p), jump, count);
            lemma_variables_below_concat(compile_expr(p) + jump, body, count);
        },
        Tree::IfThenElse(p, t, f) => {
            lemma_expression_variables(p, count);
            lemma_compiled_variables(*t, count);
            lemma_compiled_variables(*f, count);
            let other = compile(*f);
            let skip = seq![Instruction::Jump(other.len() as usize)];
            let body = compile(*t) + skip;
            let jump = seq![Instruction::JumpFalse(body.len() as usize)];
            lemma_variables_below_concat(compile(*t), skip, count);
            lemma_variables_below_concat(compile_expr(p), jump, count);
            lemma_variables_below_concat(compile_expr(p) + jump, body, count);
            lemma_variables_below_concat(compile_expr(p) + jump + body, other, count);
        },
        Tree::Goto(e) => {
            lemma_expression_variables(e, count);
            lemma_variables_below_concat(compile_expr(e), seq![Instruction::Goto], count);
        },
        Tree::Sequence(first, rest) => {
            lemma_compiled_variables(*first, count);
            lemma_compiled_variables(*rest, count);
            lemma_variables_below_concat(compile(*first), compile(*rest), count);
        },
        _ => {},
    }
}

/// `v op= e` compiles to the code of `v = e op v`: the value of `e` is the
/// left operand and the variable the right one.
pub proof fn lemma_compound_assignment(op: BinaryOp, v: usize, e: Expr<String>)
    ensures
        compile(Tree::AssignOp(op, v, e)) == compile(
            Tree::Assign(
                v,
                Expr::Binary(op, Box::new(e), Box::new(Expr::LocalVariable(v))),
            ),
        ),
{
    let left = compile_expr(e);
    let variable: Expr<String> = Expr::LocalVariable(v);
    let right = Expr::Binary(op, Box::new(e), Box::new(variable));
    assert(compile_expr(variable) == seq![Instruction::Push(v)]);
    assert(compile_expr(right) == left + compile_expr(variable) + seq![binary_instruction(op)]);
    assert(left + seq![Instruction::Push(v), binary_instruction(op), Instruction::Store(v)]
        =~= left + seq![Instruction::Push(v)] + seq![binary_instruction(op)] + seq![
        Instruction::Store(v),
    ]);
}

} // verus!
