//! The bytecode: what one line of a chip is compiled to.

use vstd::prelude::*;

verus! {

/// A constant of the source text: a number, as its count of thousandths, or
/// a text.
#[derive(Debug, PartialEq, Eq)]
pub enum Literal {
    Number(i64),
    Text(String),
}

impl Literal {
    pub fn duplicate(&self) -> (r: Literal)
        ensures
            r == *self,
    {
        match self {
            Literal::Number(n) => Literal::Number(*n),
            Literal::Text(s) => Literal::Text(s.clone()),
        }
    }
}

/// One step of the stack machine. Binary operations take the right operand
/// from the top of the stack and the left one from below it.
#[derive(Debug, PartialEq, Eq)]
pub enum Instruction {
    Dup,
    Pop,
    PushValue(Literal),
    Push(usize),
    Store(usize),
    Goto,
    /// Skips that many of the instructions that follow.
    Jump(usize),
    /// Takes a value off the stack and, unless it counts as true, skips that
    /// many of the instructions that follow.
    JumpFalse(usize),
    Or,
    And,
    Eq,
    Ne,
    Lt,
    Gt,
    Lte,
    Gte,
    Add,
    Sub,
    Mul,
    Div,
    Mod,
    Exp,
    Abs,
    Sqrt,
    Sin,
    Cos,
    Tan,
    Asin,
    Acos,
    Atan,
    Not,
    Fac,
    Inc,
    Dec,
}

impl Instruction {
    pub fn duplicate(&self) -> (r: Instruction)
        ensures
            r == *self,
    {
        match self {
            Instruction::Dup => Instruction::Dup,
            Instruction::Pop => Instruction::Pop,
            Instruction::PushValue(v) => Instruction::PushValue(v.duplicate()),
            Instruction::Push(i) => Instruction::Push(*i),
            Instruction::Store(i) => Instruction::Store(*i),
            Instruction::Goto => Instruction::Goto,
            Instruction::Jump(n) => Instruction::Jump(*n),
            Instruction::JumpFalse(n) => Instruction::JumpFalse(*n),
            Instruction::Or => Instruction::Or,
            Instruction::And => Instruction::And,
            Instruction::Eq => Instruction::Eq,
            Instruction::Ne => Instruction::Ne,
            Instruction::Lt => Instruction::Lt,
            Instruction::Gt => Instruction::Gt,
            Instruction::Lte => Instruction::Lte,
            Instruction::Gte => Instruction::Gte,
            Instruction::Add => Instruction::Add,
            Instruction::Sub => Instruction::Sub,
            Instruction::Mul => Instruction::Mul,
            Instruction::Div => Instruction::Div,
            Instruction::Mod => Instruction::Mod,
            Instruction::Exp => Instruction::Exp,
            Instruction::Abs => Instruction::Abs,
            Instruction::Sqrt => Instruction::Sqrt,
            Instruction::Sin => Instruction::Sin,
            Instruction::Cos => Instruction::Cos,
            Instruction::Tan => Instruction::Tan,
            Instruction::Asin => Instruction::Asin,
            Instruction::Acos => Instruction::Acos,
            Instruction::Atan => Instruction::Atan,
            Instruction::Not => Instruction::Not,
            Instruction::Fac => Instruction::Fac,
            Instruction::Inc => Instruction::Inc,
            Instruction::Dec => Instruction::Dec,
        }
    }
}

/// How an instruction uses the stack.
pub enum Shape {
    /// Takes two values and leaves one whose kind the two decide.
    Binary,
    /// Takes one value and leaves one.
    Unary,
    Other,
}

pub open spec fn shape(inst: Instruction) -> Shape {
    match inst {
        Instruction::Or
        | Instruction::And
        | Instruction::Eq
        | Instruction::Ne
        | Instruction::Lt
        | Instruction::Gt
        | Instruction::Lte
        | Instruction::Gte
        | Instruction::Add
        | Instruction::Sub
        | Instruction::Mul
        | Instruction::Div
        | Instruction::Mod
        | Instruction::Exp => Shape::Binary,
        Instruction::Abs
        | Instruction::Sqrt
        | Instruction::Sin
        | Instruction::Cos
        | Instruction::Tan
        | Instruction::Asin
        | Instruction::Acos
        | Instruction::Atan
        | Instruction::Fac
        | Instruction::Not
        | Instruction::Inc
        | Instruction::Dec => Shape::Unary,
        _ => Shape::Other,
    }
}

/// The shape of an instruction.
pub fn shape_of(inst: &Instruction) -> (s: Shape)
    ensures
        s == shape(*inst),
{
    match inst {
        Instruction::Or
        | Instruction::And
        | Instruction::Eq
        | Instruction::Ne
        | Instruction::Lt
        | Instruction::Gt
        | Instruction::Lte
        | Instruction::Gte
        | Instruction::Add
        | Instruction::Sub
        | Instruction::Mul
        | Instruction::Div
        | Instruction::Mod
        | Instruction::Exp => Shape::Binary,
        Instruction::Abs
        | Instruction::Sqrt
        | Instruction::Sin
        | Instruction::Cos
        | Instruction::Tan
        | Instruction::Asin
        | Instruction::Acos
        | Instruction::Atan
        | Instruction::Fac
        | Instruction::Not
        | Instruction::Inc
        | Instruction::Dec => Shape::Unary,
        _ => Shape::Other,
    }
}

/// Every jump of `code` lands inside it or just behind its last instruction.
pub open spec fn jumps_land(code: Seq<Instruction>) -> bool {
    forall|i: int|
        0 <= i < code.len() ==> match #[trigger] code[i] {
            Instruction::Jump(n) => i + 1 + n <= code.len(),
            Instruction::JumpFalse(n) => i + 1 + n <= code.len(),
            _ => true,
        }
}

/// Every variable that `code` reads or writes has an index below `count`.
pub open spec fn variables_below(code: Seq<Instruction>, count: int) -> bool {
    forall|i: int|
        0 <= i < code.len() ==> match #[trigger] code[i] {
            Instruction::Push(v) => v < count,
            Instruction::Store(v) => v < count,
            _ => true,
        }
}

pub proof fn lemma_jumps_land_concat(a: Seq<Instruction>, b: Seq<Instruction>)
    requires
        jumps_land(a),
        jumps_land(b),
    ensures
        jumps_land(a + b),
{
    assert forall|i: int| 0 <= i < (a + b).len() implies match #[trigger] (a + b)[i] {
        Instruction::Jump(n) => i + 1 + n <= (a + b).len(),
        Instruction::JumpFalse(n) => i + 1 + n <= (a + b).len(),
        _ => true,
    } by {
        if i < a.len() {
            assert((a + b)[i] == a[i]);
        } else {
            assert((a + b)[i] == b[i - a.len()]);
        }
    }
}

pub proof fn lemma_variables_below_concat(a: Seq<Instruction>, b: Seq<Instruction>, count: int)
    requires
        variables_below(a, count),
        variables_below(b, count),
    ensures
        variables_below(a + b, count),
{
    assert forall|i: int| 0 <= i < (a + b).len() implies match #[trigger] (a + b)[i] {
        Instruction::Push(v) => v < count,
        Instruction::Store(v) => v < count,
        _ => true,
    } by {
        if i < a.len() {
            assert((a + b)[i] == a[i]);
        } else {
            assert((a + b)[i] == b[i - a.len()]);
        }
    }
}

} // verus!
