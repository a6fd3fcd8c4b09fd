//! The syntax tree of one source line.
//!
//! The trees are generic in the type that holds the text of a string
//! literal: `String` in the trees that the parser builds, `Seq<char>` in
//! their models.

use vstd::prelude::*;

verus! {

#[derive(Debug, Clone, Copy, PartialEq, Eq, Structural)]
pub enum UnaryOp {
    Not,
    Neg,
    Abs,
    Sqrt,
    Sin,
    Asin,
    Cos,
    Acos,
    Tan,
    Atan,
    Fac,
}

#[derive(Debug, Clone, Copy, PartialEq, Eq, Structural)]
pub enum BinaryOp {
    Or,
    And,
    Eq,
    Ne,
    Lt,
    Gt,
    Lte,
    Gte,
    Add,
    Sub,
    Mul,
    Div,
    Mod,
    Exp,
}

/// An expression. Variables are held by their index in the variable table.
#[derive(Debug, PartialEq, Eq)]
pub enum Expr<T> {
    Numerical(i64),
    String(T),
    LocalVariable(usize),
    GlobalVariable(usize),
    Unary(UnaryOp, Box<Expr<T>>),
    Binary(BinaryOp, Box<Expr<T>>, Box<Expr<T>>),
    PreInc(usize),
    PreDec(usize),
    PostInc(usize),
    PostDec(usize),
}

/// A statement, or the statements of a line or of a branch in their order:
/// `Sequence(first, rest)`, closed by `Empty`.
#[derive(Debug, PartialEq, Eq)]
pub enum Tree<T> {
    Error,
    Empty,
    Comment,
    Expression(Expr<T>),
    Assign(usize, Expr<T>),
    /// `v op= e`
    AssignOp(BinaryOp, usize, Expr<T>),
    IfThen(Expr<T>, Box<Tree<T>>),
    IfThenElse(Expr<T>, Box<Tree<T>>, Box<Tree<T>>),
    Goto(Expr<T>),
    Sequence(Box<Tree<T>>, Box<Tree<T>>),
}

/// The expression with each text by its characters.
pub open spec fn expr_model(e: Expr<String>) -> Expr<Seq<char>>
    decreases e,
{
    match e {
        Expr::Numerical(n) => Expr::Numerical(n),
        Expr::String(s) => Expr::String(s@),
        Expr::LocalVariable(i) => Expr::LocalVariable(i),
        Expr::GlobalVariable(i) => Expr::GlobalVariable(i),
        Expr::Unary(op, e) => Expr::Unary(op, Box::new(expr_model(*e))),
        Expr::Binary(op, l, r) => Expr::Binary(
            op,
            Box::new(expr_model(*l)),
            Box::new(expr_model(*r)),
        ),
        Expr::PreInc(i) => Expr::PreInc(i),
        Expr::PreDec(i) => Expr::PreDec(i),
        Expr::PostInc(i) => Expr::PostInc(i),
        Expr::PostDec(i) => Expr::PostDec(i),
    }
}

/// The tree with each text by its characters.
pub open spec fn tree_model(t: Tree<String>) -> Tree<Seq<char>>
    decreases t,
{
    match t {
        Tree::Error => Tree::Error,
        Tree::Empty => Tree::Empty,
        Tree::Comment => Tree::Comment,
        Tree::Expression(e) => Tree::Expression(expr_model(e)),
        Tree::Assign(v, e) => Tree::Assign(v, expr_model(e)),
        Tree::AssignOp(op, v, e) => Tree::AssignOp(op, v, expr_model(e)),
        Tree::IfThen(p, t) => Tree::IfThen(expr_model(p), Box::new(tree_model(*t))),
        Tree::IfThenElse(p, t, f) => Tree::IfThenElse(
            expr_model(p),
            Box::new(tree_model(*t)),
            Box::new(tree_model(*f)),
        ),
        Tree::Goto(e) => Tree::Goto(expr_model(e)),
        Tree::Sequence(first, rest) => Tree::Sequence(
            Box::new(tree_model(*first)),
            Box::new(tree_model(*rest)),
        ),
    }
}

impl View for Expr<String> {
    type V = Expr<Seq<char>>;

    open spec fn view(&self) -> Expr<Seq<char>> {
        expr_model(*self)
    }
}

impl View for Tree<String> {
    type V = Tree<Seq<char>>;

    open spec fn view(&self) -> Tree<Seq<char>> {
        tree_model(*self)
    }
}

/// Every variable of the expression has an index below `count`.
pub open spec fn expr_variables_below<T>(e: Expr<T>, count: int) -> bool
    decreases e,
{
    match e {
        Expr::Numerical(_) => true,
        Expr::String(_) => true,
        Expr::LocalVariable(i) => i < count,
        Expr::GlobalVariable(i) => i < count,
        Expr::Unary(_, e) => expr_variables_below(*e, count),
        Expr::Binary(_, l, r) => expr_variables_below(*l, count) && expr_variables_below(
            *r,
            count,
        ),
        Expr::PreInc(i) => i < count,
        Expr::PreDec(i) => i < count,
        Expr::PostInc(i) => i < count,
        Expr::PostDec(i) => i < count,
    }
}

/// Every variable of the tree has an index below `count`.
pub open spec fn tree_variables_below<T>(t: Tree<T>, count: int) -> bool
    decreases t,
{
    match t {
        Tree::Error => true,
        Tree::Empty => true,
        Tree::Comment => true,
        Tree::Expression(e) => expr_variables_below(e, count),
        Tree::Assign(v, e) => v < count && expr_variables_below(e, count),
        Tree::AssignOp(_, v, e) => v < count && expr_variables_below(e, count),
        Tree::IfThen(p, t) => expr_variables_below(p, count) && tree_variables_below(*t, count),
        Tree::IfThenElse(p, t, f) => expr_variables_below(p, count) && tree_variables_below(
            *t,
            count,
        ) && tree_variables_below(*f, count),
        Tree::Goto(e) => expr_variables_below(e, count),
        Tree::Sequence(first, rest) => tree_variables_below(*first, count)
            && tree_variables_below(*rest, count),
    }
}

/// Indices below `count` are below every larger count.
pub proof fn lemma_expr_variables_grow<T>(e: Expr<T>, count: int, more: int)
    requires
        expr_variables_below(e, count),
        count <= more,
    ensures
        expr_variables_below(e, more),
    decreases e,
{
    match e {
        Expr::Unary(_, inner) => {
            lemma_expr_variables_grow(*inner, count, more);
        },
        Expr::Binary(_, l, r) => {
            lemma_expr_variables_grow(*l, count, more);
            lemma_expr_variables_grow(*r, count, more);
        },
        _ => {},
    }
}

/// Indices below `count` are below every larger count.
pub proof fn lemma_tree_variables_grow<T>(t: Tree<T>, count: int, more: int)
    requires
        tree_variables_below(t, count),
        count <= more,
    ensures
        tree_variables_below(t, more),
    decreases t,
{
    match t {
        Tree::Expression(e) => {
            lemma_expr_variables_grow(e, count, more);
        },
        Tree::Assign(_, e) => {
            lemma_expr_variables_grow(e, count, more);
        },
        Tree::AssignOp(_, _, e) => {
            lemma_expr_variables_grow(e, count, more);
        },
        Tree::IfThen(p, t) => {
            lemma_expr_variables_grow(p, count, more);
            lemma_tree_variables_grow(*t, count, more);
        },
        Tree::IfThenElse(p, t, f) => {
            lemma_expr_variables_grow(p, count, more);
            lemma_tree_variables_grow(*t, count, more);
            lemma_tree_variables_grow(*f, count, more);
        },
        Tree::Goto(e) => {
            lemma_expr_variables_grow(e, count, more);
        },
        Tree::Sequence(first, rest) => {
            lemma_tree_variables_grow(*first, count, more);
            lemma_tree_variables_grow(*rest, count, more);
        },
        _ => {},
    }
}

} // verus!
