//! The optimizer: an abstract run of one line that follows the kind of every
//! value instead of the value.
//!
//! A pass walks the line once. It notes for each value on its stack the
//! instruction that produced it, stops at an operation that is bound to
//! fail, and takes every conditional as a whole: each branch is optimized by
//! itself, and the jumps around the branches are written anew with the
//! lengths that the branches then have. A conditional whose condition the
//! pass can decide gives way to the branch that is taken; its condition is
//! left on the stack.
//!
//! Values that are still on the stack at the end of a pass were produced for
//! nothing: their producers are taken out and the next pass runs on the
//! shorter line, with the kinds of the variables as they were at first. The
//! optimizer ends with the line that a pass leaves as it is.

use crate::instruction::Instruction;
use crate::instruction::Literal;
use crate::instruction::Shape;
use crate::instruction::shape;
use crate::instruction::shape_of;
use crate::instruction::jumps_land;
use crate::instruction::variables_below;
use vstd::prelude::*;

verus! {

/// What is known of a number's truth value.
#[derive(Debug, Clone, Copy, PartialEq, Eq, Structural)]
pub enum Truth {
    True,
    False,
    Unknown,
}

/// What is known of a value.
#[derive(Debug, Clone, Copy, PartialEq, Eq, Structural)]
pub enum AbstractType {
    /// A text.
    String,
    /// With `True`, a number other than zero; with `False`, zero; with
    /// `Unknown`, nothing is known of the value.
    Int(Truth),
    /// Nothing is known of the value.
    Unknown,
}

/// The abstract stack: for each value the place of its producer in the
/// pass's output, and its kind.
pub type AbstractStack = Seq<(usize, AbstractType)>;

/// The state of a pass.
pub struct Pass {
    /// The instructions kept so far.
    pub out: Seq<Instruction>,
    pub stack: AbstractStack,
    /// The kind of each variable.
    pub ram: Seq<AbstractType>,
    /// Whether the pass met an operation that is bound to fail.
    pub flagged: bool,
    /// Whether the pass wrote anything else than it read.
    pub changed: bool,
}

/// What one instruction other than `JumpFalse` does to the abstract state.
pub enum Effect {
    /// The instruction needs more values than the stack holds.
    Underflow,
    /// The instruction is bound to fail on the kinds it finds.
    Flagged { stack: AbstractStack },
    Next { stack: AbstractStack, ram: Seq<AbstractType> },
}

pub open spec fn literal_kind(v: Literal) -> AbstractType {
    match v {
        Literal::Text(_) => AbstractType::String,
        Literal::Number(n) => if n != 0 {
            AbstractType::Int(Truth::True)
        } else {
            AbstractType::Int(Truth::False)
        },
    }
}

/// Whether nothing is known of a value of this kind: it may be any number
/// or text, and a condition of this kind may go either way.
pub open spec fn is_open(t: AbstractType) -> bool {
    t == AbstractType::Int(Truth::Unknown) || t == AbstractType::Unknown
}

/// What is known of a value that has one of two kinds: the kind, where the
/// two are one, and nothing otherwise.
pub open spec fn join(a: AbstractType, b: AbstractType) -> AbstractType {
    if a == b {
        a
    } else {
        AbstractType::Int(Truth::Unknown)
    }
}

/// The kinds of the variables behind a conditional, from the kinds behind
/// its two branches.
pub open spec fn join_kinds(a: Seq<AbstractType>, b: Seq<AbstractType>) -> Seq<AbstractType> {
    Seq::new(a.len(), |i: int| join(a[i], b[i]))
}

pub open spec fn counts_as_false(t: AbstractType) -> bool {
    t == AbstractType::String || t == AbstractType::Int(Truth::False)
}

pub open spec fn kind_or(a: AbstractType, b: AbstractType) -> AbstractType {
    if is_open(a) || is_open(b) {
        AbstractType::Int(Truth::Unknown)
    } else if counts_as_false(a) && counts_as_false(b) {
        AbstractType::Int(Truth::False)
    } else {
        AbstractType::Int(Truth::True)
    }
}

pub open spec fn kind_and(a: AbstractType, b: AbstractType) -> AbstractType {
    if is_open(a) || is_open(b) {
        AbstractType::Int(Truth::Unknown)
    } else if counts_as_false(a) || counts_as_false(b) {
        AbstractType::Int(Truth::False)
    } else {
        AbstractType::Int(Truth::True)
    }
}

pub open spec fn kind_not(t: AbstractType) -> AbstractType {
    if t == AbstractType::String {
        AbstractType::Int(Truth::False)
    } else if t == AbstractType::Int(Truth::False) {
        AbstractType::Int(Truth::True)
    } else if t == AbstractType::Int(Truth::True) {
        AbstractType::Int(Truth::False)
    } else {
        AbstractType::Int(Truth::Unknown)
    }
}

/// The kind that a binary operation leaves, or `None` where it is bound to
/// fail. `a` is the kind on top of the stack, `b` the one below.
pub open spec fn binary_kind(inst: Instruction, a: AbstractType, b: AbstractType) -> Option<
    AbstractType,
> {
    match inst {
        Instruction::Or => Some(kind_or(a, b)),
        Instruction::And => Some(kind_and(a, b)),
        Instruction::Add | Instruction::Sub => if a == AbstractType::String || b
            == AbstractType::String {
            Some(AbstractType::String)
        } else {
            Some(AbstractType::Int(Truth::Unknown))
        },
        Instruction::Mul | Instruction::Div | Instruction::Mod | Instruction::Exp => if a
            == AbstractType::String || b == AbstractType::String {
            None
        } else {
            Some(AbstractType::Int(Truth::Unknown))
        },
        _ => Some(AbstractType::Int(Truth::Unknown)),
    }
}

/// The kind that a unary operation leaves, or `None` where it is bound to
/// fail.
pub open spec fn unary_kind(inst: Instruction, t: AbstractType) -> Option<AbstractType> {
    match inst {
        Instruction::Not => Some(kind_not(t)),
        Instruction::Inc | Instruction::Dec => Some(AbstractType::Int(Truth::Unknown)),
        _ => if t == AbstractType::String {
            None
        } else {
            Some(AbstractType::Int(Truth::Unknown))
        },
    }
}

/// What an instruction other than `JumpFalse` does to the abstract stack and
/// to the kinds of the variables, when it will stand at `position` in the
/// output.
pub open spec fn effect(
    inst: Instruction,
    position: usize,
    stack: AbstractStack,
    ram: Seq<AbstractType>,
) -> Effect {
    match shape(inst) {
        Shape::Binary => if stack.len() < 2 {
            Effect::Underflow
        } else {
            let a = stack[stack.len() - 1].1;
            let b = stack[stack.len() - 2].1;
            let rest = stack.drop_last().drop_last();
            match binary_kind(inst, a, b) {
                Some(t) => Effect::Next { stack: rest.push((position, t)), ram },
                None => Effect::Flagged { stack: rest },
            }
        },
        Shape::Unary => if stack.len() < 1 {
            Effect::Underflow
        } else {
            let rest = stack.drop_last();
            match unary_kind(inst, stack.last().1) {
                Some(t) => Effect::Next { stack: rest.push((position, t)), ram },
                None => Effect::Flagged { stack: rest },
            }
        },
        Shape::Other => match inst {
            Instruction::Dup => if stack.len() < 1 {
                Effect::Underflow
            } else {
                let top = stack.last();
                Effect::Next { stack: stack.drop_last().push((position, top.1)).push(top), ram }
            },
            Instruction::Pop => if stack.len() < 1 {
                Effect::Underflow
            } else {
                Effect::Next { stack: stack.drop_last(), ram }
            },
            Instruction::PushValue(v) => Effect::Next {
                stack: stack.push((position, literal_kind(v))),
                ram,
            },
            Instruction::Push(a) => Effect::Next { stack: stack.push((position, ram[a as int])), ram },
            Instruction::Store(a) => if stack.len() < 1 {
                Effect::Underflow
            } else {
                Effect::Next {
                    stack: stack.drop_last(),
                    ram: if a < ram.len() {
                        ram.update(a as int, stack.last().1)
                    } else {
                        ram
                    },
                }
            },
            Instruction::Goto => if stack.len() < 1 {
                Effect::Underflow
            } else {
                Effect::Next { stack: stack.drop_last(), ram }
            },
            _ => Effect::Next { stack, ram },
        },
    }
}

/// Where the branch of a `JumpFalse` at `c` ends: behind the instructions it
/// skips, or at the end of the line if that comes first. The same holds of
/// what a `Jump` skips.
pub open spec fn branch_end(len: int, c: int, rel: usize) -> int {
    if c + 1 + rel > len {
        len
    } else {
        c + 1 + rel
    }
}

/// Whether the branch of the `JumpFalse` at `c`, which ends at `end`, closes
/// with a `Jump`: then what that `Jump` skips is the other branch.
pub open spec fn closes_with_jump(code: Seq<Instruction>, c: int, end: int) -> bool {
    c + 1 < end <= code.len() && code[end - 1] is Jump
}

/// Where the branch that is taken on a true condition ends.
pub open spec fn then_end(code: Seq<Instruction>, c: int, end: int) -> int {
    if closes_with_jump(code, c, end) {
        end - 1
    } else {
        end
    }
}

/// Where the whole conditional ends: behind the other branch, if there is
/// one.
pub open spec fn else_end(code: Seq<Instruction>, c: int, end: int) -> int {
    if closes_with_jump(code, c, end) {
        branch_end(code.len() as int, end - 1, code[end - 1]->Jump_0)
    } else {
        end
    }
}

/// A conditional written anew around its two branches.
pub open spec fn conditional(
    first: Seq<Instruction>,
    second: Seq<Instruction>,
    with_else: bool,
) -> Seq<Instruction> {
    if with_else {
        seq![Instruction::JumpFalse((first.len() + 1) as usize)] + first + seq![
            Instruction::Jump(second.len() as usize),
        ] + second
    } else {
        seq![Instruction::JumpFalse(first.len() as usize)] + first + second
    }
}

/// Whether the conditional at `c` differs from the one that is written anew
/// around these branches: a branch changed, or a jump did not have the
/// length of what it skips.
pub open spec fn rewritten(
    code: Seq<Instruction>,
    c: int,
    end: int,
    taken: Seq<Instruction>,
    other: Seq<Instruction>,
) -> bool {
    let with_else = closes_with_jump(code, c, end);
    ||| taken != code.subrange(c + 1, then_end(code, c, end))
    ||| other != code.subrange(end, else_end(code, c, end))
    ||| code[c]->JumpFalse_0 != end - (c + 1)
    ||| (with_else && code[end - 1]->Jump_0 != other.len())
}

/// How far a jump leads.
pub open spec fn distance(inst: Instruction) -> nat {
    match inst {
        Instruction::Jump(n) => n as nat,
        Instruction::JumpFalse(n) => n as nat,
        _ => 0,
    }
}

/// The distances of all jumps of a line together.
pub open spec fn surplus(code: Seq<Instruction>) -> nat
    decreases code.len(),
{
    if code.len() == 0 {
        0
    } else {
        surplus(code.drop_last()) + distance(code.last())
    }
}

/// Whether a value on the stack was produced by the instruction at
/// `position`.
pub open spec fn is_orphan(stack: AbstractStack, position: int) -> bool {
    exists|k: int| 0 <= k < stack.len() && (#[trigger] stack[k]).0 == position
}

/// `out` without the instructions whose places the stack holds.
pub open spec fn without_orphans(out: Seq<Instruction>, stack: AbstractStack) -> Seq<Instruction>
    decreases out.len(),
{
    if out.len() == 0 {
        Seq::empty()
    } else {
        let rest = without_orphans(out.drop_last(), stack);
        if is_orphan(stack, out.len() - 1) {
            rest
        } else {
            rest.push(out.last())
        }
    }
}

/// The pass from instruction `c` on. It ends at an operation that is bound
/// to fail on the kinds it finds, and at an instruction that needs more
/// values than the stack of the pass holds.
///
/// At a `JumpFalse` the two branches of the conditional are optimized by
/// themselves, each with the kinds of the variables as they are then.
/// - Where the condition may go either way, it is taken off the stack and
///   the conditional is written anew around what is left of the branches.
///   Behind it a variable has the kind that it has behind both branches,
///   if that is one kind, and nothing is known of it otherwise.
/// - Where the condition is known, only the branch that is taken is kept, in
///   place of the conditional. The condition stays on the stack, where
///   nothing takes it any more.
///
/// A `Jump` that closes no branch skips what can never run: neither is kept.
#[verifier::opaque]
pub open spec fn pass_from(code: Seq<Instruction>, c: int, state: Pass) -> Option<Pass>
    decreases code.len(), surplus(code), 0nat, code.len() - c,
{
    if c < 0 || c >= code.len() {
        Some(state)
    } else {
        match code[c] {
            Instruction::JumpFalse(rel) => if state.stack.len() < 1 {
                Some(Pass { flagged: true, ..state })
            } else {
                let t = state.stack.last().1;
                let end = branch_end(code.len() as int, c, rel);
                let with_else = closes_with_jump(code, c, end);
                let last = else_end(code, c, end);
                let first = code.subrange(c + 1, then_end(code, c, end));
                let second = code.subrange(end, last);
                if t == AbstractType::Int(Truth::True) {
                    match optimize_spec(first, state.ram) {
                        None => None,
                        Some((branch, ram)) => pass_from(
                            code,
                            last,
                            Pass { out: state.out + branch, ram, changed: true, ..state },
                        ),
                    }
                } else if !is_open(t) {
                    match optimize_spec(second, state.ram) {
                        None => None,
                        Some((branch, ram)) => pass_from(
                            code,
                            last,
                            Pass { out: state.out + branch, ram, changed: true, ..state },
                        ),
                    }
                } else {
                    match optimize_spec(first, state.ram) {
                        None => None,
                        Some((taken, one)) => match optimize_spec(second, state.ram) {
                            None => None,
                            Some((other, two)) => pass_from(
                                code,
                                last,
                                Pass {
                                    out: state.out + conditional(taken, other, with_else),
                                    stack: state.stack.drop_last(),
                                    ram: join_kinds(one, two),
                                    flagged: false,
                                    changed: state.changed || rewritten(code, c, end, taken, other),
                                },
                            ),
                        },
                    }
                }
            },
            Instruction::Jump(rel) => pass_from(
                code,
                branch_end(code.len() as int, c, rel),
                Pass { changed: true, ..state },
            ),
            inst => match effect(inst, state.out.len() as usize, state.stack, state.ram) {
                Effect::Underflow => Some(Pass { flagged: true, ..state }),
                Effect::Flagged { stack } => Some(Pass { stack, flagged: true, ..state }),
                Effect::Next { stack, ram } => pass_from(
                    code,
                    c + 1,
                    Pass { out: state.out.push(inst), stack, ram, ..state },
                ),
            },
        }
    }
}

/// The state in which a pass begins.
pub open spec fn fresh(ram: Seq<AbstractType>) -> Pass {
    Pass { out: Seq::empty(), stack: Seq::empty(), ram, flagged: false, changed: false }
}

/// Whether a pass found nothing to do: it flagged nothing, changed nothing
/// and left nothing on its stack.
pub open spec fn settled(end: Pass) -> bool {
    !end.flagged && !end.changed && end.stack.len() == 0
}

/// Whether a line comes before another in the order in which the
/// optimizer goes down: it is shorter, or as long with shorter jumps.
pub open spec fn smaller(rest: Seq<Instruction>, code: Seq<Instruction>) -> bool {
    rest.len() < code.len() || (rest.len() == code.len() && surplus(rest) < surplus(code))
}

/// The optimized line and the kinds of the variables behind it: the line
/// that a pass leaves as it is, reached by passes that each make the line
/// shorter or, at the same length, its jumps. That every pass does so is
/// what `lemma_optimizer_ends` proves: the result is never `None`.
pub open spec fn optimize_spec(code: Seq<Instruction>, ram: Seq<AbstractType>) -> Option<
    (Seq<Instruction>, Seq<AbstractType>),
>
    decreases code.len(), surplus(code), 1nat, 0nat,
{
    match pass_from(code, 0, fresh(ram)) {
        None => None,
        Some(end) => if settled(end) {
            Some((end.out, end.ram))
        } else {
            let rest = without_orphans(end.out, end.stack);
            if smaller(rest, code) {
                optimize_spec(rest, ram)
            } else {
                None
            }
        },
    }
}

// ---------------------------------------------------------------------------
// The pass, executed
// ---------------------------------------------------------------------------

fn kind_of_literal(v: &Literal) -> (t: AbstractType)
    ensures
        t == literal_kind(*v),
{
    match v {
        Literal::Text(_) => AbstractType::String,
        Literal::Number(n) => if *n != 0 {
            AbstractType::Int(Truth::True)
        } else {
            AbstractType::Int(Truth::False)
        },
    }
}

fn open_kind(t: AbstractType) -> (r: bool)
    ensures
        r == is_open(t),
{
    t == AbstractType::Int(Truth::Unknown) || t == AbstractType::Unknown
}

fn is_false_kind(t: AbstractType) -> (r: bool)
    ensures
        r == counts_as_false(t),
{
    t == AbstractType::String || t == AbstractType::Int(Truth::False)
}

fn binary_kind_of(inst: &Instruction, a: AbstractType, b: AbstractType) -> (r: Option<
    AbstractType,
>)
    ensures
        r == binary_kind(*inst, a, b),
{
    let unknown = AbstractType::Int(Truth::Unknown);
    match inst {
        Instruction::Or => if open_kind(a) || open_kind(b) {
            Some(unknown)
        } else if is_false_kind(a) && is_false_kind(b) {
            Some(AbstractType::Int(Truth::False))
        } else {
            Some(AbstractType::Int(Truth::True))
        },
        Instruction::And => if open_kind(a) || open_kind(b) {
            Some(unknown)
        } else if is_false_kind(a) || is_false_kind(b) {
            Some(AbstractType::Int(Truth::False))
        } else {
            Some(AbstractType::Int(Truth::True))
        },
        Instruction::Add | Instruction::Sub => if a == AbstractType::String || b
            == AbstractType::String {
            Some(AbstractType::String)
        } else {
            Some(unknown)
        },
        Instruction::Mul | Instruction::Div | Instruction::Mod | Instruction::Exp => if a
            == AbstractType::String || b == AbstractType::String {
            None
        } else {
            Some(unknown)
        },
        _ => Some(unknown),
    }
}

fn unary_kind_of(inst: &Instruction, t: AbstractType) -> (r: Option<AbstractType>)
    ensures
        r == unary_kind(*inst, t),
{
    match inst {
        Instruction::Not => if t == AbstractType::String {
            Some(AbstractType::Int(Truth::False))
        } else if t == AbstractType::Int(Truth::False) {
            Some(AbstractType::Int(Truth::True))
        } else if t == AbstractType::Int(Truth::True) {
            Some(AbstractType::Int(Truth::False))
        } else {
            Some(AbstractType::Int(Truth::Unknown))
        },
        Instruction::Inc | Instruction::Dec => Some(AbstractType::Int(Truth::Unknown)),
        _ => if t == AbstractType::String {
            None
        } else {
            Some(AbstractType::Int(Truth::Unknown))
        },
    }
}

/// How an instruction went in the abstract run.
enum Applied {
    Underflow,
    Flagged,
    Next,
}

/// Carries out `effect` on the stack and the kinds of the variables.
fn apply(
    inst: &Instruction,
    position: usize,
    stack: &mut Vec<(usize, AbstractType)>,
    ram: &mut Vec<AbstractType>,
) -> (r: Applied)
    requires
        !(inst is JumpFalse),
        inst matches Instruction::Push(a) ==> a < old(ram)@.len(),
        inst matches Instruction::Store(a) ==> a < old(ram)@.len(),
    ensures
        final(ram)@.len() == old(ram)@.len(),
        match effect(*inst, position, old(stack)@, old(ram)@) {
            Effect::Underflow => r is Underflow && final(stack)@ == old(stack)@ && final(ram)@
                == old(ram)@,
            Effect::Flagged { stack: s } => r is Flagged && final(stack)@ == s && final(ram)@
                == old(ram)@,
            Effect::Next { stack: s, ram: m } => r is Next && final(stack)@ == s && final(ram)@
                == m,
        },
{
    match shape_of(inst) {
        Shape::Binary => {
            if stack.len() < 2 {
                return Applied::Underflow;
            }
            let a = match stack.pop() {
                Some(x) => x.1,
                None => {
                    return Applied::Underflow;
                },
            };
            let b = match stack.pop() {
                Some(x) => x.1,
                None => {
                    return Applied::Underflow;
                },
            };
            match binary_kind_of(inst, a, b) {
                Some(t) => {
                    stack.push((position, t));
                    Applied::Next
                },
                None => Applied::Flagged,
            }
        },
        Shape::Unary => {
            let t = match stack.pop() {
                Some(x) => x.1,
                None => {
                    return Applied::Underflow;
                },
            };
            match unary_kind_of(inst, t) {
                Some(t) => {
                    stack.push((position, t));
                    Applied::Next
                },
                None => Applied::Flagged,
            }
        },
        Shape::Other => match inst {
            Instruction::Dup => {
                let top = match stack.pop() {
                    Some(x) => x,
                    None => {
                        return Applied::Underflow;
                    },
                };
                stack.push((position, top.1));
                stack.push(top);
                Applied::Next
            },
            Instruction::Pop => match stack.pop() {
                Some(_) => Applied::Next,
                None => Applied::Underflow,
            },
            Instruction::PushValue(v) => {
                stack.push((position, kind_of_literal(v)));
                Applied::Next
            },
            Instruction::Push(a) => {
                stack.push((position, ram[*a]));
                Applied::Next
            },
            Instruction::Store(a) => match stack.pop() {
                Some(x) => {
                    ram.set(*a, x.1);
                    Applied::Next
                },
                None => Applied::Underflow,
            },
            Instruction::Goto => match stack.pop() {
                Some(_) => Applied::Next,
                None => Applied::Underflow,
            },
            _ => Applied::Next,
        },
    }
}

pub proof fn lemma_variables_below_subrange(
    code: Seq<Instruction>,
    from: int,
    to: int,
    count: int,
)
    requires
        variables_below(code, count),
        0 <= from <= to <= code.len(),
    ensures
        variables_below(code.subrange(from, to), count),
{
    assert forall|i: int| 0 <= i < to - from implies match #[trigger] code.subrange(from, to)[i] {
        Instruction::Push(v) => v < count,
        Instruction::Store(v) => v < count,
        _ => true,
    } by {
        assert(code.subrange(from, to)[i] == code[from + i]);
    }
}

/// A copy of the instructions from `from` up to `to`.
pub fn copy_range(code: &Vec<Instruction>, from: usize, to: usize) -> (r: Vec<Instruction>)
    requires
        from <= to <= code@.len(),
    ensures
        r@ == code@.subrange(from as int, to as int),
{
    let mut r: Vec<Instruction> = Vec::new();
    let mut i = from;
    while i < to
        invariant
            from <= i <= to <= code@.len(),
            r@ == code@.subrange(from as int, i as int),
        decreases to - i,
    {
        r.push(code[i].duplicate());
        assert(r@ =~= code@.subrange(from as int, i + 1));
        i += 1;
    }
    r
}

/// Taking the orphans out makes the line no longer, and shorter where there
/// is one; it adds no variable.
pub proof fn lemma_without_orphans(out: Seq<Instruction>, stack: AbstractStack, count: int)
    ensures
        without_orphans(out, stack).len() <= out.len(),
        (exists|k: int| 0 <= k < stack.len() && (#[trigger] stack[k]).0 < out.len())
            ==> without_orphans(out, stack).len() < out.len(),
        variables_below(out, count) ==> variables_below(without_orphans(out, stack), count),
    decreases out.len(),
{
    if out.len() > 0 {
        let shorter = out.drop_last();
        lemma_without_orphans(shorter, stack, count);
        if exists|k: int| 0 <= k < stack.len() && (#[trigger] stack[k]).0 < out.len() {
            let k = choose|k: int| 0 <= k < stack.len() && (#[trigger] stack[k]).0 < out.len();
            if stack[k].0 == out.len() - 1 {
                assert(is_orphan(stack, out.len() - 1));
            } else {
                assert(stack[k].0 < shorter.len());
            }
        }
        if variables_below(out, count) {
            assert forall|i: int| 0 <= i < shorter.len() implies match #[trigger] shorter[i] {
                Instruction::Push(v) => v < count,
                Instruction::Store(v) => v < count,
                _ => true,
            } by {
                assert(shorter[i] == out[i]);
            }
            let rest = without_orphans(shorter, stack);
            let all = without_orphans(out, stack);
            assert forall|i: int| 0 <= i < all.len() implies match #[trigger] all[i] {
                Instruction::Push(v) => v < count,
                Instruction::Store(v) => v < count,
                _ => true,
            } by {
                if i < rest.len() {
                    assert(all[i] == rest[i]);
                } else {
                    assert(all[i] == out[out.len() - 1]);
                }
            }
        }
    }
}

fn recorded(stack: &Vec<(usize, AbstractType)>, position: usize) -> (r: bool)
    ensures
        r == is_orphan(stack@, position as int),
{
    let mut k: usize = 0;
    while k < stack.len()
        invariant
            k <= stack@.len(),
            forall|j: int| 0 <= j < k ==> (#[trigger] stack@[j]).0 != position,
        decreases stack.len() - k,
    {
        if stack[k].0 == position {
            return true;
        }
        k += 1;
    }
    false
}

/// The line without the producers of the values that were left over.
fn remove_orphans(out: &Vec<Instruction>, stack: &Vec<(usize, AbstractType)>) -> (r: Vec<
    Instruction,
>)
    ensures
        r@ == without_orphans(out@, stack@),
{
    let mut r: Vec<Instruction> = Vec::new();
    let mut i: usize = 0;
    while i < out.len()
        invariant
            i <= out@.len(),
            r@ == without_orphans(out@.take(i as int), stack@),
        decreases out.len() - i,
    {
        assert(out@.take(i + 1).drop_last() =~= out@.take(i as int));
        if !recorded(stack, i) {
            r.push(out[i].duplicate());
        }
        i += 1;
    }
    assert(out@.take(out@.len() as int) =~= out@);
    r
}

/// A conditional that is written anew around branches whose jumps land has
/// jumps that land.
pub proof fn lemma_conditional_lands(
    first: Seq<Instruction>,
    second: Seq<Instruction>,
    with_else: bool,
)
    requires
        jumps_land(first),
        jumps_land(second),
        first.len() + 1 <= usize::MAX,
        second.len() <= usize::MAX,
    ensures
        jumps_land(conditional(first, second, with_else)),
{
    let all = conditional(first, second, with_else);
    assert forall|i: int| 0 <= i < all.len() implies match #[trigger] all[i] {
        Instruction::Jump(n) => i + 1 + n <= all.len(),
        Instruction::JumpFalse(n) => i + 1 + n <= all.len(),
        _ => true,
    } by {
        if i == 0 {
        } else if i <= first.len() {
            assert(all[i] == first[i - 1]);
        } else if with_else && i == first.len() + 1 {
        } else if with_else {
            assert(all[i] == second[i - first.len() - 2]);
        } else {
            assert(all[i] == second[i - first.len() - 1]);
        }
    }
}

/// A conditional that is written anew names no variable that its branches
/// do not.
pub proof fn lemma_conditional_variables(
    first: Seq<Instruction>,
    second: Seq<Instruction>,
    with_else: bool,
    count: int,
)
    requires
        variables_below(first, count),
        variables_below(second, count),
    ensures
        variables_below(conditional(first, second, with_else), count),
{
    let all = conditional(first, second, with_else);
    assert forall|i: int| 0 <= i < all.len() implies match #[trigger] all[i] {
        Instruction::Push(v) => v < count,
        Instruction::Store(v) => v < count,
        _ => true,
    } by {
        if i == 0 {
        } else if i <= first.len() {
            assert(all[i] == first[i - 1]);
        } else if with_else && i == first.len() + 1 {
        } else if with_else {
            assert(all[i] == second[i - first.len() - 2]);
        } else {
            assert(all[i] == second[i - first.len() - 1]);
        }
    }
}

/// Joins the kinds of `other` into those of `ram`.
fn join_into(ram: &mut Vec<AbstractType>, other: &Vec<AbstractType>)
    requires
        old(ram)@.len() == other@.len(),
    ensures
        final(ram)@ == join_kinds(old(ram)@, other@),
{
    let mut i: usize = 0;
    while i < ram.len()
        invariant
            i <= ram@.len(),
            ram@.len() == old(ram)@.len(),
            other@.len() == ram@.len(),
            forall|j: int| 0 <= j < i ==> #[trigger] ram@[j] == join(old(ram)@[j], other@[j]),
            forall|j: int| i <= j < ram@.len() ==> #[trigger] ram@[j] == old(ram)@[j],
        decreases ram@.len() - i,
    {
        if ram[i] != other[i] {
            ram.set(i, AbstractType::Int(Truth::Unknown));
        }
        i += 1;
    }
    assert(ram@ =~= join_kinds(old(ram)@, other@));
}

fn copy_kinds(ram: &Vec<AbstractType>) -> (r: Vec<AbstractType>)
    ensures
        r@ == ram@,
{
    let mut r: Vec<AbstractType> = Vec::new();
    let mut i: usize = 0;
    while i < ram.len()
        invariant
            i <= ram@.len(),
            r@ == ram@.take(i as int),
        decreases ram@.len() - i,
    {
        r.push(ram[i]);
        assert(r@ =~= ram@.take(i + 1));
        i += 1;
    }
    assert(ram@.take(ram@.len() as int) =~= ram@);
    r
}

/// What a pass does behind the last instruction, at a `Jump` and at any
/// instruction that is no jump.
pub proof fn lemma_pass_at_other(code: Seq<Instruction>, c: int, state: Pass)
    ensures
        (c < 0 || c >= code.len()) ==> pass_from(code, c, state) == Some(state),
        (0 <= c < code.len() && code[c] is Jump) ==> pass_from(code, c, state) == pass_from(
            code,
            branch_end(code.len() as int, c, code[c]->Jump_0),
            Pass { changed: true, ..state },
        ),
        (0 <= c < code.len() && !(code[c] is Jump) && !(code[c] is JumpFalse)) ==> pass_from(
            code,
            c,
            state,
        ) == match effect(code[c], state.out.len() as usize, state.stack, state.ram) {
            Effect::Underflow => Some(Pass { flagged: true, ..state }),
            Effect::Flagged { stack } => Some(Pass { stack, flagged: true, ..state }),
            Effect::Next { stack, ram } => pass_from(
                code,
                c + 1,
                Pass { out: state.out.push(code[c]), stack, ram, ..state },
            ),
        },
{
    reveal(pass_from);
}

/// What a pass does at a conditional, case by case.
pub proof fn lemma_pass_at_conditional(code: Seq<Instruction>, c: int, state: Pass)
    requires
        0 <= c < code.len(),
        code[c] is JumpFalse,
    ensures
        ({
            let end = branch_end(code.len() as int, c, code[c]->JumpFalse_0);
            let with_else = closes_with_jump(code, c, end);
            let last = else_end(code, c, end);
            let first = code.subrange(c + 1, then_end(code, c, end));
            let second = code.subrange(end, last);
            let whole = pass_from(code, c, state);
            if state.stack.len() < 1 {
                whole == Some(Pass { flagged: true, ..state })
            } else if state.stack.last().1 == AbstractType::Int(Truth::True) {
                match optimize_spec(first, state.ram) {
                    None => whole is None,
                    Some((branch, ram)) => whole == pass_from(
                        code,
                        last,
                        Pass { out: state.out + branch, ram, changed: true, ..state },
                    ),
                }
            } else if !is_open(state.stack.last().1) {
                match optimize_spec(second, state.ram) {
                    None => whole is None,
                    Some((branch, ram)) => whole == pass_from(
                        code,
                        last,
                        Pass { out: state.out + branch, ram, changed: true, ..state },
                    ),
                }
            } else {
                match optimize_spec(first, state.ram) {
                    None => whole is None,
                    Some((taken, one)) => match optimize_spec(second, state.ram) {
                        None => whole is None,
                        Some((other, two)) => whole == pass_from(
                            code,
                            last,
                            Pass {
                                out: state.out + conditional(taken, other, with_else),
                                stack: state.stack.drop_last(),
                                ram: join_kinds(one, two),
                                flagged: false,
                                changed: state.changed || rewritten(code, c, end, taken, other),
                            },
                        ),
                    },
                }
            }
        }),
{
    reveal(pass_from);
}

/// Takes the conditional at `c` as `pass_from` says: optimizes its branches
/// and writes what is kept of it to `out`. Gives the place behind the
/// conditional and whether the pass has changed anything so far.
#[verifier::rlimit(100)]
#[verifier::spinoff_prover]
fn rewrite(
    code: &Vec<Instruction>,
    c: usize,
    stack: &mut Vec<(usize, AbstractType)>,
    out: &mut Vec<Instruction>,
    ram: &mut Vec<AbstractType>,
    changed: bool,
) -> (r: (usize, bool))
    requires
        c < code@.len(),
        code@.len() <= usize::MAX,
        code@[c as int] is JumpFalse,
        old(stack)@.len() > 0,
        variables_below(code@, old(ram)@.len() as int),
        variables_below(old(out)@, old(ram)@.len() as int),
        jumps_land(old(out)@),
        old(out)@.len() <= c,
    ensures
        final(ram)@.len() == old(ram)@.len(),
        c < r.0 <= code@.len(),
        final(out)@.len() <= r.0,
        jumps_land(final(out)@),
        variables_below(final(out)@, old(ram)@.len() as int),
        pass_from(
            code@,
            c as int,
            Pass { out: old(out)@, stack: old(stack)@, ram: old(ram)@, flagged: false, changed },
        ) == pass_from(
            code@,
            r.0 as int,
            Pass {
                out: final(out)@,
                stack: final(stack)@,
                ram: final(ram)@,
                flagged: false,
                changed: r.1,
            },
        ),
    decreases code@.len(), 0nat,
{
    let ghost count = ram@.len() as int;
    let ghost kept = stack@;
    proof {
        lemma_pass_at_conditional(
            code@,
            c as int,
            Pass { out: out@, stack: stack@, ram: ram@, flagged: false, changed },
        );
    }
    let n = code.len();
    let rel = match &code[c] {
        Instruction::JumpFalse(rel) => *rel,
        _ => 0,
    };
    let t = stack[stack.len() - 1].1;
    let end = if rel > n - c - 1 {
        n
    } else {
        c + 1 + rel
    };
    let (with_else, stop, last, skipped) = if c + 1 < end {
        match &code[end - 1] {
            Instruction::Jump(skip) => (
                true,
                end - 1,
                if *skip > n - end {
                    n
                } else {
                    end + *skip
                },
                *skip,
            ),
            _ => (false, end, end, 0),
        }
    } else {
        (false, end, end, 0)
    };
    assert(end == branch_end(n as int, c as int, rel));
    assert(with_else == closes_with_jump(code@, c as int, end as int));
    assert(stop == then_end(code@, c as int, end as int));
    assert(last == else_end(code@, c as int, end as int));
    proof {
        lemma_variables_below_subrange(code@, c + 1, stop as int, count);
        lemma_variables_below_subrange(code@, end as int, last as int, count);
    }
    if t == AbstractType::Int(Truth::True) {
        let first = copy_range(code, c + 1, stop);
        let mut branch = refine(first, ram).0;
        proof {
            crate::instruction::lemma_variables_below_concat(out@, branch@, count);
            crate::instruction::lemma_jumps_land_concat(out@, branch@);
        }
        out.append(&mut branch);
        (last, true)
    } else if !(t == AbstractType::Int(Truth::Unknown) || t == AbstractType::Unknown) {
        let second = copy_range(code, end, last);
        let mut branch = refine(second, ram).0;
        proof {
            crate::instruction::lemma_variables_below_concat(out@, branch@, count);
            crate::instruction::lemma_jumps_land_concat(out@, branch@);
        }
        out.append(&mut branch);
        (last, true)
    } else {
        stack.pop();
        let mut elsewhere = copy_kinds(ram);
        let first = copy_range(code, c + 1, stop);
        let (mut taken, same_taken) = refine(first, ram);
        let second = copy_range(code, end, last);
        let (mut other, same_other) = refine(second, &mut elsewhere);
        join_into(ram, &elsewhere);
        let different = changed || !same_taken || !same_other || rel != end - (c + 1) || (
        with_else && skipped != other.len());
        let ghost block = conditional(taken@, other@, with_else);
        let ghost before = out@;
        proof {
            lemma_conditional_lands(taken@, other@, with_else);
            lemma_conditional_variables(taken@, other@, with_else, count);
            crate::instruction::lemma_variables_below_concat(out@, block, count);
            crate::instruction::lemma_jumps_land_concat(out@, block);
        }
        if with_else {
            out.push(Instruction::JumpFalse(taken.len() + 1));
            out.append(&mut taken);
            out.push(Instruction::Jump(other.len()));
        } else {
            out.push(Instruction::JumpFalse(taken.len()));
            out.append(&mut taken);
        }
        out.append(&mut other);
        assert(out@ =~= before + block);
        (last, different)
    }
}

/// Optimizes one line. `ram` holds the kind of each variable before the line
/// and, behind the call, after it. The result is never `None`. It is a line
/// that a pass leaves as it is, whose jumps land and that names no variable
/// that the given line does not.
pub fn optimize(insts: Vec<Instruction>, ram: &mut Vec<AbstractType>) -> (r: Option<
    Vec<Instruction>,
>)
    requires
        variables_below(insts@, old(ram)@.len() as int),
    ensures
        final(ram)@.len() == old(ram)@.len(),
        r matches Some(v) && optimize_spec(insts@, old(ram)@) == Some((v@, final(ram)@)) && v@.len()
            <= insts@.len() && jumps_land(v@) && variables_below(v@, old(ram)@.len() as int)
            && crate::balance::left_alone(v@, old(ram)@),
{
    proof {
        vstd::std_specs::vec::axiom_spec_len(&insts);
        crate::progress::lemma_optimizer_ends(insts@, ram@);
        crate::balance::lemma_optimized_line_is_settled(insts@, ram@);
    }
    Some(refine(insts, ram).0)
}

/// Optimizes one line, and says whether the line was left as it is.
fn refine(insts: Vec<Instruction>, ram: &mut Vec<AbstractType>) -> (r: (Vec<Instruction>, bool))
    requires
        variables_below(insts@, old(ram)@.len() as int),
    ensures
        final(ram)@.len() == old(ram)@.len(),
        optimize_spec(insts@, old(ram)@) == Some((r.0@, final(ram)@)),
        r.1 == (r.0@ == insts@),
        r.0@.len() <= insts@.len(),
        jumps_land(r.0@),
        variables_below(r.0@, old(ram)@.len() as int),
    decreases insts@.len(), 1nat,
{
    let ghost count = ram@.len() as int;
    let start = copy_kinds(ram);
    let ghost given = insts@;
    proof {
        vstd::std_specs::vec::axiom_spec_len(&insts);
    }
    let mut code = insts;
    let mut first = true;
    loop
        invariant
            given == insts@,
            given.len() <= usize::MAX,
            first ==> code@ == given,
            !first ==> smaller(code@, given),
            ram@.len() == count,
            count == old(ram)@.len(),
            start@ == old(ram)@,
            variables_below(code@, count),
            code@.len() <= given.len(),
            optimize_spec(given, start@) == optimize_spec(code@, start@),
        decreases code@.len(), surplus(code@),
    {
        *ram = copy_kinds(&start);
        proof {
            reveal(pass_from);
        }
        let n = code.len();
        let mut stack: Vec<(usize, AbstractType)> = Vec::new();
        let mut out: Vec<Instruction> = Vec::new();
        let mut flagged = false;
        let mut changed = false;
        let mut c: usize = 0;
        while c < n && !flagged
            invariant
                given == insts@,
                n == code@.len(),
                c <= n,
                ram@.len() == count,
                count == old(ram)@.len(),
                start@ == old(ram)@,
                variables_below(code@, count),
                code@.len() <= given.len(),
                out@.len() <= c,
                jumps_land(out@),
                variables_below(out@, count),
                !flagged ==> pass_from(code@, 0, fresh(start@)) == pass_from(
                    code@,
                    c as int,
                    Pass { out: out@, stack: stack@, ram: ram@, flagged: false, changed },
                ),
                flagged ==> pass_from(code@, 0, fresh(start@)) == Some(
                    Pass { out: out@, stack: stack@, ram: ram@, flagged: true, changed },
                ),
                optimize_spec(given, start@) == optimize_spec(code@, start@),
            decreases
                    n - c + if flagged {
                        0int
                    } else {
                        1int
                    },
        {
            proof {
                reveal(pass_from);
            }
            match &code[c] {
                Instruction::JumpFalse(_) => if stack.len() == 0 {
                    flagged = true;
                } else {
                    let (last, different) = rewrite(&code, c, &mut stack, &mut out, ram, changed);
                    changed = different;
                    c = last;
                },
                Instruction::Jump(rel) => {
                    changed = true;
                    c = if *rel > n - c - 1 {
                        n
                    } else {
                        c + 1 + *rel
                    };
                },
                inst => {
                    match apply(inst, out.len(), &mut stack, ram) {
                        Applied::Underflow => {
                            flagged = true;
                        },
                        Applied::Flagged => {
                            flagged = true;
                        },
                        Applied::Next => {
                            proof {
                                crate::instruction::lemma_jumps_land_concat(out@, seq![*inst]);
                                crate::instruction::lemma_variables_below_concat(
                                    out@,
                                    seq![*inst],
                                    count,
                                );
                                assert(out@.push(*inst) =~= out@ + seq![*inst]);
                            }
                            out.push(inst.duplicate());
                            c += 1;
                        },
                    }
                },
            }
        }
        proof {
            reveal(pass_from);
        }
        proof {
            crate::progress::lemma_pass_goes_down(code@, start@);
        }
        if !flagged && !changed && stack.len() == 0 {
            proof {
                crate::balance::lemma_pass_unchanged(code@, 0, fresh(start@));
                assert(fresh(start@).out + code@.subrange(0, code@.len() as int) =~= code@);
            }
            return (out, first);
        }
        let rest = remove_orphans(&out, &stack);
        proof {
            lemma_without_orphans(out@, stack@, count);
        }
        code = rest;
        first = false;
    }
}

} // verus!
