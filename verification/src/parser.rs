//! From the tokens of a line to its syntax tree.
//!
//! Operators bind by level, the loosest first:
//!
//! 1. `and`, `or`
//! 2. `not`
//! 3. `+`, `-`
//! 4. `==`, `!=`, `<`, `>`, `<=`, `>=`
//! 5. `*`, `/`, `%`
//! 6. `^`
//! 7. `abs`, `sqrt`, `sin`, `asin`, `cos`, `acos`, `tan`, `atan`
//! 8. a sign, `++` and `--` before a variable
//! 9. `++` and `--` behind a variable, `!`
//!
//! Numbers, texts, variables and expressions in parentheses may stand
//! wherever an operand may.
//!
//! Binary operators group to the left, but for `^`, which groups to the
//! right. Every variable that the parser meets is asked for in the table of
//! names, in the order of the text, also where the line turns out not to
//! parse.

use crate::ast::BinaryOp;
use crate::ast::Expr;
use crate::ast::Tree;
use crate::ast::UnaryOp;
use crate::ast::expr_variables_below;
use crate::ast::lemma_expr_variables_grow;
use crate::ast::lemma_tree_variables_grow;
use crate::ast::tree_variables_below;
use crate::interner::Interner;
use crate::interner::Names;
use crate::interner::get_global;
use crate::interner::get_local;
use crate::interner::distinct;
use crate::interner::lemma_intern;
use crate::interner::lemma_intern_grows;
use crate::interner::intern;
use crate::interner::lowercase;
use crate::lexer::Token;
use crate::lexer::TokenKind;
use crate::lexer::lex;
use crate::lexer::to_chars;
use crate::lexer::tokenize;
use crate::lexer::well_placed;
use vstd::prelude::*;

verus! {

/// What a parsing step found, if anything, with the place behind it; and the
/// table of names after the step.
pub struct Parsed<T> {
    pub found: Option<(T, int)>,
    pub names: Names,
}

pub open spec fn kind_at(tokens: Seq<Token>, p: int) -> Option<TokenKind> {
    if 0 <= p < tokens.len() {
        Some(tokens[p].kind)
    } else {
        None
    }
}

/// The number that the token at `p` writes, if it is one.
pub open spec fn number_at(tokens: Seq<Token>, p: int) -> Option<u64> {
    match kind_at(tokens, p) {
        Some(TokenKind::Number(m)) => Some(m),
        _ => None,
    }
}

/// The number of a literal without a sign, held to the largest number.
pub open spec fn positive(m: u64) -> i64 {
    if m > i64::MAX {
        i64::MAX
    } else {
        m as i64
    }
}

/// The number of a literal with a minus sign, held to the smallest number.
pub open spec fn negative(m: u64) -> i64 {
    if m > 0x8000_0000_0000_0000 {
        i64::MIN
    } else {
        (-(m as int)) as i64
    }
}

/// The characters between the quotes of a text.
pub open spec fn text_inside(src: Seq<char>, token: Token) -> Seq<char> {
    src.subrange(token.start + 1, token.end - 1)
}

/// The name that a token writes: without the colon for a global.
pub open spec fn name_inside(src: Seq<char>, token: Token) -> Seq<char> {
    if token.kind is Global {
        src.subrange(token.start + 1, token.end as int)
    } else {
        src.subrange(token.start as int, token.end as int)
    }
}

/// Whether a token can name a variable: a name, or a word with a meaning of
/// its own other than `if`, `else`, `end` and `goto`.
pub open spec fn is_variable(kind: Option<TokenKind>) -> bool {
    match kind {
        Some(TokenKind::Local) | Some(TokenKind::Global) | Some(TokenKind::Then) | Some(
            TokenKind::Not,
        ) | Some(TokenKind::And) | Some(TokenKind::Or) | Some(TokenKind::Abs) | Some(
            TokenKind::Sqrt,
        ) | Some(TokenKind::Sin) | Some(TokenKind::Cos) | Some(TokenKind::Tan) | Some(
            TokenKind::Asin,
        ) | Some(TokenKind::Acos) | Some(TokenKind::Atan) => true,
        _ => false,
    }
}

/// The table after the variable of a token was asked for, and its index.
pub open spec fn variable_at(src: Seq<char>, token: Token, names: Names) -> (Names, int) {
    intern(names, lowercase(name_inside(src, token)), token.kind is Global)
}

pub open spec fn variable_expr<T>(token: Token, index: int) -> Expr<T> {
    if token.kind is Global {
        Expr::GlobalVariable(index as usize)
    } else {
        Expr::LocalVariable(index as usize)
    }
}

/// A binary operator, its level, and whether it groups to the right.
pub open spec fn binary_operator(kind: Option<TokenKind>) -> Option<(BinaryOp, int, bool)> {
    match kind {
        Some(TokenKind::And) => Some((BinaryOp::And, 1int, false)),
        Some(TokenKind::Or) => Some((BinaryOp::Or, 1int, false)),
        Some(TokenKind::Plus) => Some((BinaryOp::Add, 3int, false)),
        Some(TokenKind::Minus) => Some((BinaryOp::Sub, 3int, false)),
        Some(TokenKind::Equal) => Some((BinaryOp::Eq, 4int, false)),
        Some(TokenKind::NotEqual) => Some((BinaryOp::Ne, 4int, false)),
        Some(TokenKind::Less) => Some((BinaryOp::Lt, 4int, false)),
        Some(TokenKind::Greater) => Some((BinaryOp::Gt, 4int, false)),
        Some(TokenKind::LessEqual) => Some((BinaryOp::Lte, 4int, false)),
        Some(TokenKind::GreaterEqual) => Some((BinaryOp::Gte, 4int, false)),
        Some(TokenKind::Star) => Some((BinaryOp::Mul, 5int, false)),
        Some(TokenKind::Slash) => Some((BinaryOp::Div, 5int, false)),
        Some(TokenKind::Percent) => Some((BinaryOp::Mod, 5int, false)),
        Some(TokenKind::Caret) => Some((BinaryOp::Exp, 6int, true)),
        _ => None,
    }
}

/// A unary operator that is written as a word before its operand, and its
/// level.
pub open spec fn word_operator(kind: Option<TokenKind>) -> Option<(UnaryOp, int)> {
    match kind {
        Some(TokenKind::Not) => Some((UnaryOp::Not, 2int)),
        Some(TokenKind::Abs) => Some((UnaryOp::Abs, 7int)),
        Some(TokenKind::Sqrt) => Some((UnaryOp::Sqrt, 7int)),
        Some(TokenKind::Sin) => Some((UnaryOp::Sin, 7int)),
        Some(TokenKind::Asin) => Some((UnaryOp::Asin, 7int)),
        Some(TokenKind::Cos) => Some((UnaryOp::Cos, 7int)),
        Some(TokenKind::Acos) => Some((UnaryOp::Acos, 7int)),
        Some(TokenKind::Tan) => Some((UnaryOp::Tan, 7int)),
        Some(TokenKind::Atan) => Some((UnaryOp::Atan, 7int)),
        _ => None,
    }
}

/// The operation of an assignment: `None` for `=`.
pub open spec fn assignment_operator(kind: Option<TokenKind>) -> Option<Option<BinaryOp>> {
    match kind {
        Some(TokenKind::Assign) => Some(None),
        Some(TokenKind::PlusAssign) => Some(Some(BinaryOp::Add)),
        Some(TokenKind::MinusAssign) => Some(Some(BinaryOp::Sub)),
        Some(TokenKind::StarAssign) => Some(Some(BinaryOp::Mul)),
        Some(TokenKind::SlashAssign) => Some(Some(BinaryOp::Div)),
        Some(TokenKind::PercentAssign) => Some(Some(BinaryOp::Mod)),
        Some(TokenKind::CaretAssign) => Some(Some(BinaryOp::Exp)),
        _ => None,
    }
}

pub open spec fn nothing<T>(names: Names) -> Parsed<T> {
    Parsed { found: None, names }
}

/// `e` with every `!` that follows it.
pub open spec fn parse_factorials(
    tokens: Seq<Token>,
    p: int,
    e: Expr<Seq<char>>,
) -> (Expr<Seq<char>>, int)
    decreases tokens.len() - p,
{
    if kind_at(tokens, p) == Some(TokenKind::Bang) {
        parse_factorials(tokens, p + 1, Expr::Unary(UnaryOp::Fac, Box::new(e)))
    } else {
        (e, p)
    }
}

/// A variable with a `++` or `--` behind it, if there is one.
pub open spec fn stepped(token: Token, index: int, next: Option<TokenKind>) -> Option<
    Expr<Seq<char>>,
> {
    if next == Some(TokenKind::Increment) {
        Some(Expr::PostInc(index as usize))
    } else if next == Some(TokenKind::Decrement) {
        Some(Expr::PostDec(index as usize))
    } else {
        None
    }
}

/// A variable as an operand, with the `++` or `--` and the `!` that may
/// stand behind it.
pub open spec fn parse_name(src: Seq<char>, tokens: Seq<Token>, p: int, names: Names) -> Parsed<
    Expr<Seq<char>>,
> {
    let (after, index) = variable_at(src, tokens[p], names);
    match stepped(tokens[p], index, kind_at(tokens, p + 1)) {
        Some(e) => Parsed { found: Some(parse_factorials(tokens, p + 2, e)), names: after },
        None => Parsed {
            found: Some(parse_factorials(tokens, p + 1, variable_expr(tokens[p], index))),
            names: after,
        },
    }
}

/// An operand: what stands where an expression of level `min` or above may
/// begin. A word that is an operator is read as one where an operand
/// follows it, and as a variable otherwise.
pub open spec fn parse_operand(
    src: Seq<char>,
    tokens: Seq<Token>,
    p: int,
    min: int,
    names: Names,
) -> Parsed<Expr<Seq<char>>>
    decreases tokens.len() - p, 1nat,
{
    let kind = kind_at(tokens, p);
    if kind is None {
        nothing(names)
    } else if word_operator(kind) is Some {
        let (op, level) = word_operator(kind)->0;
        if min <= level {
            let inner = parse_expr(src, tokens, p + 1, level, names);
            match inner.found {
                Some((e, q)) => Parsed {
                    found: Some((Expr::Unary(op, Box::new(e)), q)),
                    names: inner.names,
                },
                None => parse_name(src, tokens, p, inner.names),
            }
        } else {
            parse_name(src, tokens, p, names)
        }
    } else if number_at(tokens, p) is Some {
        Parsed {
            found: Some(
                parse_factorials(tokens, p + 1, Expr::Numerical(positive(number_at(tokens, p)->0))),
            ),
            names,
        }
    } else if kind == Some(TokenKind::Text) {
        Parsed {
            found: Some(parse_factorials(tokens, p + 1, Expr::String(text_inside(src, tokens[p])))),
            names,
        }
    } else if kind == Some(TokenKind::Minus) {
        if min > 8 {
            nothing(names)
        } else if number_at(tokens, p + 1) is Some && tokens[p].end == tokens[p + 1].start {
            Parsed {
                found: Some(
                    parse_factorials(
                        tokens,
                        p + 2,
                        Expr::Numerical(negative(number_at(tokens, p + 1)->0)),
                    ),
                ),
                names,
            }
        } else {
            let inner = parse_expr(src, tokens, p + 1, 9, names);
            match inner.found {
                Some((e, q)) => Parsed {
                    found: Some((Expr::Unary(UnaryOp::Neg, Box::new(e)), q)),
                    names: inner.names,
                },
                None => nothing(inner.names),
            }
        }
    } else if kind == Some(TokenKind::Increment) || kind == Some(TokenKind::Decrement) {
        if min <= 8 && is_variable(kind_at(tokens, p + 1)) {
            let (after, index) = variable_at(src, tokens[p + 1], names);
            Parsed {
                found: Some(
                    (
                        if kind == Some(TokenKind::Increment) {
                            Expr::PreInc(index as usize)
                        } else {
                            Expr::PreDec(index as usize)
                        },
                        p + 2,
                    ),
                ),
                names: after,
            }
        } else {
            nothing(names)
        }
    } else if kind == Some(TokenKind::LeftParen) {
        let inner = parse_expr(src, tokens, p + 1, 1, names);
        match inner.found {
            Some((e, q)) => if kind_at(tokens, q) == Some(TokenKind::RightParen) {
                let (all, end) = parse_factorials(tokens, q + 1, e);
                Parsed { found: Some((all, end)), names: inner.names }
            } else {
                nothing(inner.names)
            },
            None => nothing(inner.names),
        }
    } else if is_variable(kind) {
        parse_name(src, tokens, p, names)
    } else {
        nothing(names)
    }
}

/// An expression whose operators are of level `min` or above.
pub open spec fn parse_expr(
    src: Seq<char>,
    tokens: Seq<Token>,
    p: int,
    min: int,
    names: Names,
) -> Parsed<Expr<Seq<char>>>
    decreases tokens.len() - p, 2nat,
{
    let first = parse_operand(src, tokens, p, min, names);
    match first.found {
        Some((left, q)) => if p < q <= tokens.len() {
            parse_infix(src, tokens, q, min, left, first.names)
        } else {
            nothing(first.names)
        },
        None => nothing(first.names),
    }
}

/// `left` with the binary operators of level `min` or above that follow it,
/// and their right operands.
pub open spec fn parse_infix(
    src: Seq<char>,
    tokens: Seq<Token>,
    p: int,
    min: int,
    left: Expr<Seq<char>>,
    names: Names,
) -> Parsed<Expr<Seq<char>>>
    decreases tokens.len() - p, 0nat,
{
    match binary_operator(kind_at(tokens, p)) {
        Some((op, level, right)) => if level >= min && 0 <= p < tokens.len() {
            let side = parse_expr(
                src,
                tokens,
                p + 1,
                if right {
                    level
                } else {
                    level + 1
                },
                names,
            );
            match side.found {
                Some((e, q)) => if p < q <= tokens.len() {
                    parse_infix(
                        src,
                        tokens,
                        q,
                        min,
                        Expr::Binary(op, Box::new(left), Box::new(e)),
                        side.names,
                    )
                } else {
                    nothing(side.names)
                },
                None => nothing(side.names),
            }
        } else {
            Parsed { found: Some((left, p)), names }
        },
        None => Parsed { found: Some((left, p)), names },
    }
}

/// Whether a list of statements ends before the token at `p`: at the end of
/// the line, at `else` and at `end`.
pub open spec fn closes_block(kind: Option<TokenKind>) -> bool {
    kind is None || kind == Some(TokenKind::Else) || kind == Some(TokenKind::End)
}

/// One statement.
pub open spec fn parse_statement(
    src: Seq<char>,
    tokens: Seq<Token>,
    p: int,
    names: Names,
) -> Parsed<Tree<Seq<char>>>
    decreases tokens.len() - p, 3nat,
{
    let kind = kind_at(tokens, p);
    if kind is None {
        nothing(names)
    } else if kind == Some(TokenKind::Goto) {
        let target = parse_expr(src, tokens, p + 1, 1, names);
        match target.found {
            Some((e, q)) => Parsed { found: Some((Tree::Goto(e), q)), names: target.names },
            None => nothing(target.names),
        }
    } else if kind == Some(TokenKind::If) {
        let condition = parse_expr(src, tokens, p + 1, 1, names);
        match condition.found {
            Some((c, q)) => if p < q < tokens.len() && kind_at(tokens, q) == Some(TokenKind::Then) {
                let branch = parse_block(src, tokens, q + 1, condition.names);
                match branch.found {
                    Some((t, r)) => if kind_at(tokens, r) == Some(TokenKind::End) {
                        Parsed {
                            found: Some((Tree::IfThen(c, Box::new(t)), r + 1)),
                            names: branch.names,
                        }
                    } else if q < r < tokens.len() && kind_at(tokens, r) == Some(TokenKind::Else) {
                        let other = parse_block(src, tokens, r + 1, branch.names);
                        match other.found {
                            Some((f, s)) => if kind_at(tokens, s) == Some(TokenKind::End) {
                                Parsed {
                                    found: Some(
                                        (Tree::IfThenElse(c, Box::new(t), Box::new(f)), s + 1),
                                    ),
                                    names: other.names,
                                }
                            } else {
                                nothing(other.names)
                            },
                            None => nothing(other.names),
                        }
                    } else {
                        nothing(branch.names)
                    },
                    None => nothing(branch.names),
                }
            } else {
                nothing(condition.names)
            },
            None => nothing(condition.names),
        }
    } else if kind == Some(TokenKind::Comment) {
        Parsed { found: Some((Tree::Comment, p + 1)), names }
    } else if is_variable(kind) && assignment_operator(kind_at(tokens, p + 1)) is Some {
        let (after, index) = variable_at(src, tokens[p], names);
        let value = parse_expr(src, tokens, p + 2, 1, after);
        match value.found {
            Some((e, q)) => Parsed {
                found: Some(
                    (
                        match assignment_operator(kind_at(tokens, p + 1))->0 {
                            None => Tree::Assign(index as usize, e),
                            Some(op) => Tree::AssignOp(op, index as usize, e),
                        },
                        q,
                    ),
                ),
                names: value.names,
            },
            None => nothing(value.names),
        }
    } else {
        let value = parse_expr(src, tokens, p, 1, names);
        match value.found {
            Some((e, q)) => Parsed { found: Some((Tree::Expression(e), q)), names: value.names },
            None => nothing(value.names),
        }
    }
}

/// The statements from `p` up to the end of the line, an `else` or an `end`.
pub open spec fn parse_block(
    src: Seq<char>,
    tokens: Seq<Token>,
    p: int,
    names: Names,
) -> Parsed<Tree<Seq<char>>>
    decreases tokens.len() - p, 4nat,
{
    if closes_block(kind_at(tokens, p)) {
        Parsed { found: Some((Tree::Empty, p)), names }
    } else {
        let first = parse_statement(src, tokens, p, names);
        match first.found {
            Some((t, q)) => if p < q <= tokens.len() {
                let rest = parse_block(src, tokens, q, first.names);
                match rest.found {
                    Some((more, r)) => Parsed {
                        found: Some((Tree::Sequence(Box::new(t), Box::new(more)), r)),
                        names: rest.names,
                    },
                    None => nothing(rest.names),
                }
            } else {
                nothing(first.names)
            },
            None => nothing(first.names),
        }
    }
}

/// The tree of a line and the table of names after it. A line that does not
/// parse is `Tree::Error`.
pub open spec fn parse_line(src: Seq<char>, names: Names) -> (Tree<Seq<char>>, Names) {
    match lex(src) {
        None => (Tree::Error, names),
        Some(tokens) => {
            let all = parse_block(src, tokens, 0, names);
            match all.found {
                Some((t, p)) => if p == tokens.len() {
                    (t, all.names)
                } else {
                    (Tree::Error, all.names)
                },
                None => (Tree::Error, all.names),
            }
        },
    }
}

// ---------------------------------------------------------------------------
// The parser, executed
// ---------------------------------------------------------------------------

fn token_kind(tokens: &Vec<Token>, p: usize) -> (r: Option<TokenKind>)
    ensures
        r == kind_at(tokens@, p as int),
{
    if p < tokens.len() {
        Some(tokens[p].kind)
    } else {
        None
    }
}

fn positive_of(m: u64) -> (r: i64)
    ensures
        r == positive(m),
{
    if m > 0x7fff_ffff_ffff_ffff {
        i64::MAX
    } else {
        m as i64
    }
}

fn negative_of(m: u64) -> (r: i64)
    ensures
        r == negative(m),
{
    if m >= 0x8000_0000_0000_0000 {
        i64::MIN
    } else {
        -(m as i64)
    }
}

fn binary_operator_of(kind: Option<TokenKind>) -> (r: Option<(BinaryOp, u8, bool)>)
    ensures
        match r {
            Some((op, level, right)) => binary_operator(kind) == Some((op, level as int, right))
                && level <= 6,
            None => binary_operator(kind) is None,
        },
{
    match kind {
        Some(TokenKind::And) => Some((BinaryOp::And, 1, false)),
        Some(TokenKind::Or) => Some((BinaryOp::Or, 1, false)),
        Some(TokenKind::Plus) => Some((BinaryOp::Add, 3, false)),
        Some(TokenKind::Minus) => Some((BinaryOp::Sub, 3, false)),
        Some(TokenKind::Equal) => Some((BinaryOp::Eq, 4, false)),
        Some(TokenKind::NotEqual) => Some((BinaryOp::Ne, 4, false)),
        Some(TokenKind::Less) => Some((BinaryOp::Lt, 4, false)),
        Some(TokenKind::Greater) => Some((BinaryOp::Gt, 4, false)),
        Some(TokenKind::LessEqual) => Some((BinaryOp::Lte, 4, false)),
        Some(TokenKind::GreaterEqual) => Some((BinaryOp::Gte, 4, false)),
        Some(TokenKind::Star) => Some((BinaryOp::Mul, 5, false)),
        Some(TokenKind::Slash) => Some((BinaryOp::Div, 5, false)),
        Some(TokenKind::Percent) => Some((BinaryOp::Mod, 5, false)),
        Some(TokenKind::Caret) => Some((BinaryOp::Exp, 6, true)),
        _ => None,
    }
}

fn word_operator_of(kind: Option<TokenKind>) -> (r: Option<(UnaryOp, u8)>)
    ensures
        match r {
            Some((op, level)) => word_operator(kind) == Some((op, level as int)),
            None => word_operator(kind) is None,
        },
{
    match kind {
        Some(TokenKind::Not) => Some((UnaryOp::Not, 2)),
        Some(TokenKind::Abs) => Some((UnaryOp::Abs, 7)),
        Some(TokenKind::Sqrt) => Some((UnaryOp::Sqrt, 7)),
        Some(TokenKind::Sin) => Some((UnaryOp::Sin, 7)),
        Some(TokenKind::Asin) => Some((UnaryOp::Asin, 7)),
        Some(TokenKind::Cos) => Some((UnaryOp::Cos, 7)),
        Some(TokenKind::Acos) => Some((UnaryOp::Acos, 7)),
        Some(TokenKind::Tan) => Some((UnaryOp::Tan, 7)),
        Some(TokenKind::Atan) => Some((UnaryOp::Atan, 7)),
        _ => None,
    }
}

fn assignment_operator_of(kind: Option<TokenKind>) -> (r: Option<Option<BinaryOp>>)
    ensures
        r == assignment_operator(kind),
{
    match kind {
        Some(TokenKind::Assign) => Some(None),
        Some(TokenKind::PlusAssign) => Some(Some(BinaryOp::Add)),
        Some(TokenKind::MinusAssign) => Some(Some(BinaryOp::Sub)),
        Some(TokenKind::StarAssign) => Some(Some(BinaryOp::Mul)),
        Some(TokenKind::SlashAssign) => Some(Some(BinaryOp::Div)),
        Some(TokenKind::PercentAssign) => Some(Some(BinaryOp::Mod)),
        Some(TokenKind::CaretAssign) => Some(Some(BinaryOp::Exp)),
        _ => None,
    }
}

fn is_variable_kind(kind: Option<TokenKind>) -> (r: bool)
    ensures
        r == is_variable(kind),
{
    match kind {
        Some(TokenKind::Local) | Some(TokenKind::Global) | Some(TokenKind::Then) | Some(
            TokenKind::Not,
        ) | Some(TokenKind::And) | Some(TokenKind::Or) | Some(TokenKind::Abs) | Some(
            TokenKind::Sqrt,
        ) | Some(TokenKind::Sin) | Some(TokenKind::Cos) | Some(TokenKind::Tan) | Some(
            TokenKind::Asin,
        ) | Some(TokenKind::Acos) | Some(TokenKind::Atan) => true,
        _ => false,
    }
}

/// Asks the table for the variable that a token names.
fn variable(text: &str, token: Token, names: &mut Interner) -> (index: usize)
    requires
        token.start < token.end <= text@.len(),
    ensures
        (final(names)@, index as int) == variable_at(text@, token, old(names)@),
        index < final(names)@.len(),
        old(names)@.len() <= final(names)@.len(),
        distinct(old(names)@) ==> distinct(final(names)@),
{
    proof {
        lemma_intern_grows(
            names@,
            lowercase(name_inside(text@, token)),
            token.kind is Global,
        );
        if distinct(names@) {
            lemma_intern(names@, lowercase(name_inside(text@, token)), token.kind is Global);
        }
    }
    match token.kind {
        TokenKind::Global => get_global(names, text.substring_char(token.start + 1, token.end)),
        _ => get_local(names, text.substring_char(token.start, token.end)),
    }
}

fn variable_expr_of(token: Token, index: usize) -> (e: Expr<String>)
    ensures
        e@ == variable_expr::<Seq<char>>(token, index as int),
        expr_variables_below(e, index + 1),
{
    match token.kind {
        TokenKind::Global => Expr::GlobalVariable(index),
        _ => Expr::LocalVariable(index),
    }
}

fn factorials(tokens: &Vec<Token>, p: usize, e: Expr<String>, Ghost(count): Ghost<int>) -> (r: (
    Expr<String>,
    usize,
))
    requires
        p <= tokens@.len(),
        expr_variables_below(e, count),
    ensures
        (r.0@, r.1 as int) == parse_factorials(tokens@, p as int, e@),
        p <= r.1 <= tokens@.len(),
        expr_variables_below(r.0, count),
    decreases tokens@.len() - p,
{
    let n = tokens.len();
    match token_kind(tokens, p) {
        Some(TokenKind::Bang) => factorials(
            tokens,
            p + 1,
            Expr::Unary(UnaryOp::Fac, Box::new(e)),
            Ghost(count),
        ),
        _ => (e, p),
    }
}

/// Whether what a step of the parser returned, and the table it left, are
/// what the grammar says.
pub open spec fn found_expr(
    r: Option<(Expr<String>, usize)>,
    names: Names,
    parsed: Parsed<Expr<Seq<char>>>,
) -> bool {
    names == parsed.names && match r {
        Some((e, q)) => parsed.found == Some((e@, q as int)),
        None => parsed.found is None,
    }
}

pub open spec fn found_tree(
    r: Option<(Tree<String>, usize)>,
    names: Names,
    parsed: Parsed<Tree<Seq<char>>>,
) -> bool {
    names == parsed.names && match r {
        Some((t, q)) => parsed.found == Some((t@, q as int)),
        None => parsed.found is None,
    }
}

/// An operand that begins with `not` or with the name of a function.
fn operand_word(
    text: &str,
    tokens: &Vec<Token>,
    p: usize,
    min: u8,
    names: &mut Interner,
    op: UnaryOp,
    level: u8,
) -> (r: Option<(Expr<String>, usize)>)
    requires
        well_placed(tokens@, text@.len() as int),
        p < tokens@.len(),
        word_operator(kind_at(tokens@, p as int)) == Some((op, level as int)),
    ensures
        found_expr(r, final(names)@, parse_operand(text@, tokens@, p as int, min as int, old(names)@)),
        old(names)@.len() <= final(names)@.len(),
        distinct(old(names)@) ==> distinct(final(names)@),
        r matches Some((e, q)) ==> p < q <= tokens@.len() && expr_variables_below(
            e,
            final(names)@.len() as int,
        ),
    decreases tokens@.len() - p, 1nat,
{
    let n = tokens.len();
    if min <= level {
        match expr(text, tokens, p + 1, level, names) {
            Some((e, q)) => Some((Expr::Unary(op, Box::new(e)), q)),
            None => operand_name(text, tokens, p, names),
        }
    } else {
        operand_name(text, tokens, p, names)
    }
}

/// An operand that begins with a minus sign: a negative number, or the
/// change of sign of what follows.
fn operand_minus(text: &str, tokens: &Vec<Token>, p: usize, min: u8, names: &mut Interner) -> (r:
    Option<(Expr<String>, usize)>)
    requires
        well_placed(tokens@, text@.len() as int),
        p < tokens@.len(),
        kind_at(tokens@, p as int) == Some(TokenKind::Minus),
    ensures
        found_expr(r, final(names)@, parse_operand(text@, tokens@, p as int, min as int, old(names)@)),
        old(names)@.len() <= final(names)@.len(),
        distinct(old(names)@) ==> distinct(final(names)@),
        r matches Some((e, q)) ==> p < q <= tokens@.len() && expr_variables_below(
            e,
            final(names)@.len() as int,
        ),
    decreases tokens@.len() - p, 1nat,
{
    let n = tokens.len();
    if min > 8 {
        return None;
    }
    if let Some(TokenKind::Number(m)) = token_kind(tokens, p + 1) {
        if tokens[p].end == tokens[p + 1].start {
            return Some(
                factorials(tokens, p + 2, Expr::Numerical(negative_of(m)), Ghost(names@.len() as int)),
            );
        }
    }
    match expr(text, tokens, p + 1, 9, names) {
        Some((e, q)) => Some((Expr::Unary(UnaryOp::Neg, Box::new(e)), q)),
        None => None,
    }
}

/// An operand that begins with `++` or `--`.
fn operand_step(text: &str, tokens: &Vec<Token>, p: usize, min: u8, names: &mut Interner) -> (r:
    Option<(Expr<String>, usize)>)
    requires
        well_placed(tokens@, text@.len() as int),
        p < tokens@.len(),
        kind_at(tokens@, p as int) == Some(TokenKind::Increment) || kind_at(tokens@, p as int)
            == Some(TokenKind::Decrement),
    ensures
        found_expr(r, final(names)@, parse_operand(text@, tokens@, p as int, min as int, old(names)@)),
        old(names)@.len() <= final(names)@.len(),
        distinct(old(names)@) ==> distinct(final(names)@),
        r matches Some((e, q)) ==> p < q <= tokens@.len() && expr_variables_below(
            e,
            final(names)@.len() as int,
        ),
{
    let n = tokens.len();
    if min <= 8 && is_variable_kind(token_kind(tokens, p + 1)) {
        let index = variable(text, tokens[p + 1], names);
        match tokens[p].kind {
            TokenKind::Increment => Some((Expr::PreInc(index), p + 2)),
            _ => Some((Expr::PreDec(index), p + 2)),
        }
    } else {
        None
    }
}

/// An operand in parentheses.
fn operand_group(text: &str, tokens: &Vec<Token>, p: usize, min: u8, names: &mut Interner) -> (r:
    Option<(Expr<String>, usize)>)
    requires
        well_placed(tokens@, text@.len() as int),
        p < tokens@.len(),
        kind_at(tokens@, p as int) == Some(TokenKind::LeftParen),
    ensures
        found_expr(r, final(names)@, parse_operand(text@, tokens@, p as int, min as int, old(names)@)),
        old(names)@.len() <= final(names)@.len(),
        distinct(old(names)@) ==> distinct(final(names)@),
        r matches Some((e, q)) ==> p < q <= tokens@.len() && expr_variables_below(
            e,
            final(names)@.len() as int,
        ),
    decreases tokens@.len() - p, 1nat,
{
    let n = tokens.len();
    match expr(text, tokens, p + 1, 1, names) {
        Some((e, q)) => match token_kind(tokens, q) {
            Some(TokenKind::RightParen) => Some(
                factorials(tokens, q + 1, e, Ghost(names@.len() as int)),
            ),
            _ => None,
        },
        None => None,
    }
}

/// An operand that is a variable, with what may stand behind it.
fn operand_name(text: &str, tokens: &Vec<Token>, p: usize, names: &mut Interner) -> (r: Option<
    (Expr<String>, usize),
>)
    requires
        well_placed(tokens@, text@.len() as int),
        p < tokens@.len(),
        is_variable(kind_at(tokens@, p as int)),
    ensures
        found_expr(r, final(names)@, parse_name(text@, tokens@, p as int, old(names)@)),
        old(names)@.len() <= final(names)@.len(),
        distinct(old(names)@) ==> distinct(final(names)@),
        r matches Some((e, q)) ==> p < q <= tokens@.len() && expr_variables_below(
            e,
            final(names)@.len() as int,
        ),
{
    let n = tokens.len();
    let token = tokens[p];
    let index = variable(text, token, names);
    match token_kind(tokens, p + 1) {
        Some(TokenKind::Increment) => Some(
            factorials(tokens, p + 2, Expr::PostInc(index), Ghost(names@.len() as int)),
        ),
        Some(TokenKind::Decrement) => Some(
            factorials(tokens, p + 2, Expr::PostDec(index), Ghost(names@.len() as int)),
        ),
        _ => {
            let e = variable_expr_of(token, index);
            proof {
                lemma_expr_variables_grow(e, index + 1, names@.len() as int);
            }
            Some(factorials(tokens, p + 1, e, Ghost(names@.len() as int)))
        },
    }
}

fn operand(text: &str, tokens: &Vec<Token>, p: usize, min: u8, names: &mut Interner) -> (r: Option<
    (Expr<String>, usize),
>)
    requires
        well_placed(tokens@, text@.len() as int),
        p <= tokens@.len(),
    ensures
        found_expr(r, final(names)@, parse_operand(text@, tokens@, p as int, min as int, old(names)@)),
        old(names)@.len() <= final(names)@.len(),
        distinct(old(names)@) ==> distinct(final(names)@),
        r matches Some((e, q)) ==> p < q <= tokens@.len() && expr_variables_below(
            e,
            final(names)@.len() as int,
        ),
    decreases tokens@.len() - p, 2nat,
{
    let n = tokens.len();
    let kind = token_kind(tokens, p);
    if kind.is_none() {
        return None;
    }
    let token = tokens[p];
    if let Some((op, level)) = word_operator_of(kind) {
        operand_word(text, tokens, p, min, names, op, level)
    } else if let Some(TokenKind::Number(m)) = kind {
        Some(factorials(tokens, p + 1, Expr::Numerical(positive_of(m)), Ghost(names@.len() as int)))
    } else if let Some(TokenKind::Text) = kind {
        let inside = text.substring_char(token.start + 1, token.end - 1);
        Some(
            factorials(tokens, p + 1, Expr::String(inside.to_owned()), Ghost(names@.len() as int)),
        )
    } else if let Some(TokenKind::Minus) = kind {
        operand_minus(text, tokens, p, min, names)
    } else if let Some(TokenKind::Increment) = kind {
        operand_step(text, tokens, p, min, names)
    } else if let Some(TokenKind::Decrement) = kind {
        operand_step(text, tokens, p, min, names)
    } else if let Some(TokenKind::LeftParen) = kind {
        operand_group(text, tokens, p, min, names)
    } else if is_variable_kind(kind) {
        operand_name(text, tokens, p, names)
    } else {
        None
    }
}

fn expr(text: &str, tokens: &Vec<Token>, p: usize, min: u8, names: &mut Interner) -> (r: Option<
    (Expr<String>, usize),
>)
    requires
        well_placed(tokens@, text@.len() as int),
        p <= tokens@.len(),
    ensures
        found_expr(r, final(names)@, parse_expr(text@, tokens@, p as int, min as int, old(names)@)),
        old(names)@.len() <= final(names)@.len(),
        distinct(old(names)@) ==> distinct(final(names)@),
        r matches Some((e, q)) ==> p < q <= tokens@.len() && expr_variables_below(
            e,
            final(names)@.len() as int,
        ),
    decreases tokens@.len() - p, 3nat,
{
    match operand(text, tokens, p, min, names) {
        Some((left, q)) => infix(text, tokens, q, min, left, names),
        None => None,
    }
}

fn infix(
    text: &str,
    tokens: &Vec<Token>,
    p: usize,
    min: u8,
    left: Expr<String>,
    names: &mut Interner,
) -> (r: Option<(Expr<String>, usize)>)
    requires
        well_placed(tokens@, text@.len() as int),
        p <= tokens@.len(),
        expr_variables_below(left, old(names)@.len() as int),
    ensures
        found_expr(
            r,
            final(names)@,
            parse_infix(text@, tokens@, p as int, min as int, left@, old(names)@),
        ),
        old(names)@.len() <= final(names)@.len(),
        distinct(old(names)@) ==> distinct(final(names)@),
        r matches Some((e, q)) ==> p <= q <= tokens@.len() && expr_variables_below(
            e,
            final(names)@.len() as int,
        ),
    decreases tokens@.len() - p, 0nat,
{
    let n = tokens.len();
    match binary_operator_of(token_kind(tokens, p)) {
        Some((op, level, right)) => {
            if level >= min {
                let ghost before = names@.len() as int;
                let side = expr(
                    text,
                    tokens,
                    p + 1,
                    if right {
                        level
                    } else {
                        level + 1
                    },
                    names,
                );
                match side {
                    Some((e, q)) => {
                        proof {
                            lemma_expr_variables_grow(left, before, names@.len() as int);
                        }
                        infix(
                            text,
                            tokens,
                            q,
                            min,
                            Expr::Binary(op, Box::new(left), Box::new(e)),
                            names,
                        )
                    },
                    None => None,
                }
            } else {
                Some((left, p))
            }
        },
        None => Some((left, p)),
    }
}

fn statement(text: &str, tokens: &Vec<Token>, p: usize, names: &mut Interner) -> (r: Option<
    (Tree<String>, usize),
>)
    requires
        well_placed(tokens@, text@.len() as int),
        p <= tokens@.len(),
    ensures
        found_tree(r, final(names)@, parse_statement(text@, tokens@, p as int, old(names)@)),
        old(names)@.len() <= final(names)@.len(),
        distinct(old(names)@) ==> distinct(final(names)@),
        r matches Some((t, q)) ==> p < q <= tokens@.len() && tree_variables_below(
            t,
            final(names)@.len() as int,
        ),
    decreases tokens@.len() - p, 4nat,
{
    let n = tokens.len();
    let kind = token_kind(tokens, p);
    if kind.is_none() {
        return None;
    }
    let token = tokens[p];
    if let Some(TokenKind::Goto) = kind {
        match expr(text, tokens, p + 1, 1, names) {
            Some((e, q)) => Some((Tree::Goto(e), q)),
            None => None,
        }
    } else if let Some(TokenKind::If) = kind {
        let (c, q) = match expr(text, tokens, p + 1, 1, names) {
            Some(found) => found,
            None => {
                return None;
            },
        };
        match token_kind(tokens, q) {
            Some(TokenKind::Then) => {},
            _ => {
                return None;
            },
        }
        let ghost first = names@.len() as int;
        let (t, r) = match block(text, tokens, q + 1, names) {
            Some(found) => found,
            None => {
                return None;
            },
        };
        proof {
            lemma_expr_variables_grow(c, first, names@.len() as int);
        }
        match token_kind(tokens, r) {
            Some(TokenKind::End) => Some((Tree::IfThen(c, Box::new(t)), r + 1)),
            Some(TokenKind::Else) => {
                let ghost second = names@.len() as int;
                let (f, s) = match block(text, tokens, r + 1, names) {
                    Some(found) => found,
                    None => {
                        return None;
                    },
                };
                proof {
                    lemma_expr_variables_grow(c, second, names@.len() as int);
                    lemma_tree_variables_grow(t, second, names@.len() as int);
                }
                match token_kind(tokens, s) {
                    Some(TokenKind::End) => Some(
                        (Tree::IfThenElse(c, Box::new(t), Box::new(f)), s + 1),
                    ),
                    _ => None,
                }
            },
            _ => None,
        }
    } else if let Some(TokenKind::Comment) = kind {
        Some((Tree::Comment, p + 1))
    } else {
        let assignment = if is_variable_kind(kind) {
            assignment_operator_of(token_kind(tokens, p + 1))
        } else {
            None
        };
        match assignment {
            Some(op) => {
                let index = variable(text, token, names);
                match expr(text, tokens, p + 2, 1, names) {
                    Some((e, q)) => match op {
                        None => Some((Tree::Assign(index, e), q)),
                        Some(op) => Some((Tree::AssignOp(op, index, e), q)),
                    },
                    None => None,
                }
            },
            None => match expr(text, tokens, p, 1, names) {
                Some((e, q)) => Some((Tree::Expression(e), q)),
                None => None,
            },
        }
    }
}

fn closes_block_kind(kind: Option<TokenKind>) -> (r: bool)
    ensures
        r == closes_block(kind),
{
    match kind {
        None => true,
        Some(TokenKind::Else) => true,
        Some(TokenKind::End) => true,
        _ => false,
    }
}

fn block(text: &str, tokens: &Vec<Token>, p: usize, names: &mut Interner) -> (r: Option<
    (Tree<String>, usize),
>)
    requires
        well_placed(tokens@, text@.len() as int),
        p <= tokens@.len(),
    ensures
        found_tree(r, final(names)@, parse_block(text@, tokens@, p as int, old(names)@)),
        old(names)@.len() <= final(names)@.len(),
        distinct(old(names)@) ==> distinct(final(names)@),
        r matches Some((t, q)) ==> p <= q <= tokens@.len() && tree_variables_below(
            t,
            final(names)@.len() as int,
        ),
    decreases tokens@.len() - p, 5nat,
{
    if closes_block_kind(token_kind(tokens, p)) {
        return Some((Tree::Empty, p));
    }
    let (t, q) = match statement(text, tokens, p, names) {
        Some(found) => found,
        None => {
            return None;
        },
    };
    let ghost first = names@.len() as int;
    match block(text, tokens, q, names) {
        Some((more, r)) => {
            proof {
                lemma_tree_variables_grow(t, first, names@.len() as int);
            }
            Some((Tree::Sequence(Box::new(t), Box::new(more)), r))
        },
        None => None,
    }
}

/// Parses one line. Its variables get their indices from `names`; a line
/// that does not parse gives `Tree::Error`.
pub fn parse(text: &str, names: &mut Interner) -> (tree: Tree<String>)
    ensures
        (tree@, final(names)@) == parse_line(text@, old(names)@),
        old(names)@.len() <= final(names)@.len(),
        distinct(old(names)@) ==> distinct(final(names)@),
        tree_variables_below(tree, final(names)@.len() as int),
{
    let chars = to_chars(text);
    let tokens = match tokenize(&chars) {
        Some(tokens) => tokens,
        None => {
            return Tree::Error;
        },
    };
    match block(text, &tokens, 0, names) {
        Some((t, p)) => if p == tokens.len() {
            t
        } else {
            Tree::Error
        },
        None => Tree::Error,
    }
}

} // verus!
