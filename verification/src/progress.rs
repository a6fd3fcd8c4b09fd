//! Why the optimizer comes to an end: every pass that does not leave the
//! line as it is makes it shorter or, at the same length, its jumps.

use crate::instruction::Instruction;
use crate::optimizer::AbstractStack;
use crate::optimizer::AbstractType;
use crate::optimizer::Effect;
use crate::optimizer::Pass;
use crate::optimizer::Truth;
use crate::optimizer::branch_end;
use crate::optimizer::closes_with_jump;
use crate::optimizer::conditional;
use crate::optimizer::distance;
use crate::optimizer::effect;
use crate::optimizer::else_end;
use crate::optimizer::fresh;
use crate::optimizer::is_open;
use crate::optimizer::is_orphan;
use crate::optimizer::join_kinds;
use crate::optimizer::lemma_pass_at_conditional;
use crate::optimizer::lemma_pass_at_other;
use crate::optimizer::lemma_without_orphans;
use crate::optimizer::optimize_spec;
use crate::optimizer::pass_from;
use crate::optimizer::rewritten;
use crate::optimizer::settled;
use crate::optimizer::smaller;
use crate::optimizer::surplus;
use crate::optimizer::then_end;
use crate::optimizer::without_orphans;
use vstd::prelude::*;

verus! {

/// The distances of two lines in a row are those of the one and of the
/// other.
pub proof fn lemma_surplus_concat(a: Seq<Instruction>, b: Seq<Instruction>)
    ensures
        surplus(a + b) == surplus(a) + surplus(b),
    decreases b.len(),
{
    if b.len() == 0 {
        assert(a + b =~= a);
    } else {
        lemma_surplus_concat(a, b.drop_last());
        assert((a + b).drop_last() =~= a + b.drop_last());
    }
}

pub proof fn lemma_surplus_one(inst: Instruction)
    ensures
        surplus(seq![inst]) == distance(inst),
{
    assert(seq![inst].drop_last() =~= Seq::<Instruction>::empty());
    assert(surplus(seq![inst].drop_last()) == 0);
}

/// The distances behind `c` are that of the instruction at `c` and those
/// behind it.
pub proof fn lemma_surplus_split(code: Seq<Instruction>, from: int, mid: int, to: int)
    requires
        0 <= from <= mid <= to <= code.len(),
    ensures
        surplus(code.subrange(from, to)) == surplus(code.subrange(from, mid)) + surplus(
            code.subrange(mid, to),
        ),
{
    assert(code.subrange(from, to) =~= code.subrange(from, mid) + code.subrange(mid, to));
    lemma_surplus_concat(code.subrange(from, mid), code.subrange(mid, to));
}

pub proof fn lemma_surplus_at(code: Seq<Instruction>, c: int)
    requires
        0 <= c < code.len(),
    ensures
        surplus(code.subrange(c, c + 1)) == distance(code[c]),
{
    assert(code.subrange(c, c + 1) =~= seq![code[c]]);
    lemma_surplus_one(code[c]);
}

/// The distances of a conditional that is written anew.
pub proof fn lemma_surplus_conditional(
    first: Seq<Instruction>,
    second: Seq<Instruction>,
    with_else: bool,
)
    requires
        first.len() + 1 <= usize::MAX,
        second.len() <= usize::MAX,
    ensures
        surplus(conditional(first, second, with_else)) == surplus(first) + surplus(second)
            + first.len() + if with_else {
            1 + second.len()
        } else {
            0
        },
{
    if with_else {
        let head = seq![Instruction::JumpFalse((first.len() + 1) as usize)];
        let skip = seq![Instruction::Jump(second.len() as usize)];
        lemma_surplus_one(head[0]);
        lemma_surplus_one(skip[0]);
        lemma_surplus_concat(head, first);
        lemma_surplus_concat(head + first, skip);
        lemma_surplus_concat(head + first + skip, second);
    } else {
        let head = seq![Instruction::JumpFalse(first.len() as usize)];
        lemma_surplus_one(head[0]);
        lemma_surplus_concat(head, first);
        lemma_surplus_concat(head + first, second);
    }
}

/// Every kind on the stack was produced by an instruction of the output.
pub open spec fn placed(state: Pass) -> bool {
    forall|k: int| 0 <= k < state.stack.len() ==> (#[trigger] state.stack[k]).0 < state.out.len()
}

/// What a pass has come to, against what it began with at `c`:
/// it keeps no more than it reads, and less where it flags anything; where
/// it keeps as much, its jumps lead no further, and less far where it
/// changed anything.
pub open spec fn goes_down(code: Seq<Instruction>, c: int, state: Pass, end: Pass) -> bool {
    let room = state.out.len() + code.len() - c;
    &&& placed(end)
    &&& end.out.len() <= room
    &&& end.flagged ==> end.out.len() < room
    &&& end.out.len() == room ==> {
        let most = surplus(state.out) + surplus(code.subrange(c, code.len() as int));
        &&& surplus(end.out) <= most
        &&& (end.changed && !state.changed) ==> surplus(end.out) < most
    }
}

/// Every pass comes to an end, and `goes_down`.
pub proof fn lemma_pass_ends(code: Seq<Instruction>, c: int, state: Pass)
    requires
        0 <= c <= code.len(),
        code.len() <= usize::MAX,
        !state.flagged,
        placed(state),
    ensures
        pass_from(code, c, state) is Some,
        goes_down(code, c, state, pass_from(code, c, state)->0),
    decreases code.len(), surplus(code), 0nat, 2 * (code.len() - c) + 1,
{
    lemma_pass_at_other(code, c, state);
    let len = code.len() as int;
    if c >= len {
        assert(code.subrange(c, len) =~= Seq::<Instruction>::empty());
        return ;
    }
    lemma_surplus_split(code, c, c + 1, len);
    lemma_surplus_at(code, c);
    match code[c] {
        Instruction::JumpFalse(rel) => {
            lemma_pass_at_conditional(code, c, state);
            if state.stack.len() >= 1 {
                lemma_conditional_ends(code, c, state);
            }
        },
        Instruction::Jump(rel) => {
            let to = branch_end(len, c, rel);
            lemma_pass_ends(code, to, Pass { changed: true, ..state });
            lemma_surplus_split(code, c + 1, to, len);
        },
        inst => {
            match effect(inst, state.out.len() as usize, state.stack, state.ram) {
                Effect::Next { stack, ram } => {
                    let next = Pass { out: state.out.push(inst), stack, ram, ..state };
                    assert(placed(next));
                    lemma_pass_ends(code, c + 1, next);
                    assert(state.out.push(inst) =~= state.out + seq![inst]);
                    lemma_surplus_concat(state.out, seq![inst]);
                    lemma_surplus_one(inst);
                },
                Effect::Flagged { stack } => {
                    assert(placed(Pass { stack, flagged: true, ..state }));
                },
                Effect::Underflow => {},
            }
        },
    }
}

/// The same at a conditional.
proof fn lemma_conditional_ends(code: Seq<Instruction>, c: int, state: Pass)
    requires
        0 <= c < code.len(),
        code.len() <= usize::MAX,
        code[c] is JumpFalse,
        state.stack.len() >= 1,
        !state.flagged,
        placed(state),
    ensures
        pass_from(code, c, state) is Some,
        goes_down(code, c, state, pass_from(code, c, state)->0),
    decreases code.len(), surplus(code), 0nat, 2 * (code.len() - c),
{
    lemma_pass_at_conditional(code, c, state);
    let len = code.len() as int;
    let rel = code[c]->JumpFalse_0;
    let end = branch_end(len, c, rel);
    let with_else = closes_with_jump(code, c, end);
    let stop = then_end(code, c, end);
    let last = else_end(code, c, end);
    let first = code.subrange(c + 1, stop);
    let second = code.subrange(end, last);
    let t = state.stack.last().1;
    lemma_optimizer_ends(first, state.ram);
    lemma_optimizer_ends(second, state.ram);
    lemma_surplus_split(code, c, c + 1, len);
    lemma_surplus_at(code, c);
    lemma_surplus_split(code, c + 1, stop, len);
    lemma_surplus_split(code, stop, end, len);
    lemma_surplus_split(code, end, last, len);
    if with_else {
        lemma_surplus_at(code, end - 1);
    } else {
        assert(code.subrange(stop, end) =~= Seq::<Instruction>::empty());
    }
    let (taken, one) = optimize_spec(first, state.ram)->0;
    let (other, two) = optimize_spec(second, state.ram)->0;
    if t == AbstractType::Int(Truth::True) || !is_open(t) {
        let branch = if t == AbstractType::Int(Truth::True) {
            taken
        } else {
            other
        };
        let ram = if t == AbstractType::Int(Truth::True) {
            one
        } else {
            two
        };
        let next = Pass { out: state.out + branch, ram, changed: true, ..state };
        assert(placed(next));
        lemma_pass_ends(code, last, next);
    } else {
        let block = conditional(taken, other, with_else);
        let next = Pass {
            out: state.out + block,
            stack: state.stack.drop_last(),
            ram: join_kinds(one, two),
            flagged: false,
            changed: state.changed || rewritten(code, c, end, taken, other),
        };
        assert(placed(next));
        lemma_pass_ends(code, last, next);
        lemma_surplus_conditional(taken, other, with_else);
        lemma_surplus_concat(state.out, block);
    }
}

/// Where nothing is on the stack, nothing is taken out.
pub proof fn lemma_no_orphans(out: Seq<Instruction>, stack: AbstractStack)
    requires
        stack.len() == 0,
    ensures
        without_orphans(out, stack) == out,
    decreases out.len(),
{
    if out.len() > 0 {
        lemma_no_orphans(out.drop_last(), stack);
        assert(!is_orphan(stack, out.len() - 1));
        assert(out.drop_last().push(out.last()) =~= out);
    }
}

/// A pass that does not leave a line as it is gives a line that comes
/// before it.
pub proof fn lemma_pass_goes_down(code: Seq<Instruction>, ram: Seq<AbstractType>)
    requires
        code.len() <= usize::MAX,
    ensures
        pass_from(code, 0, fresh(ram)) is Some,
        ({
            let end = pass_from(code, 0, fresh(ram))->0;
            &&& end.out.len() <= code.len()
            &&& (end.out.len() == code.len() ==> surplus(end.out) <= surplus(code))
            &&& (!settled(end) ==> smaller(without_orphans(end.out, end.stack), code))
        }),
    decreases code.len(), surplus(code), 1nat, 0nat,
{
    lemma_pass_ends(code, 0, fresh(ram));
    let end = pass_from(code, 0, fresh(ram))->0;
    assert(code.subrange(0, code.len() as int) =~= code);
    assert(surplus(fresh(ram).out) == 0);
    if end.stack.len() > 0 {
        assert(end.stack[0].0 < end.out.len());
        lemma_without_orphans(end.out, end.stack, 0);
    } else {
        lemma_no_orphans(end.out, end.stack);
    }
}

/// The optimizer comes to an end on every line: it returns a line, which is
/// no longer than the one it was given and, where it is as long, has jumps
/// that lead no further.
pub proof fn lemma_optimizer_ends(code: Seq<Instruction>, ram: Seq<AbstractType>)
    requires
        code.len() <= usize::MAX,
    ensures
        optimize_spec(code, ram) is Some,
        ({
            let (out, kinds) = optimize_spec(code, ram)->0;
            &&& out.len() <= code.len()
            &&& (out.len() == code.len() ==> surplus(out) <= surplus(code))
            &&& (out.len() == code.len() && out != code) ==> surplus(out) < surplus(code)
        }),
    decreases code.len(), surplus(code), 2nat, 0nat,
{
    lemma_pass_goes_down(code, ram);
    let end = pass_from(code, 0, fresh(ram))->0;
    if !settled(end) {
        lemma_optimizer_ends(without_orphans(end.out, end.stack), ram);
    } else {
        crate::balance::lemma_pass_unchanged(code, 0, fresh(ram));
        assert(fresh(ram).out + code.subrange(0, code.len() as int) =~= code);
    }
}

} // verus!
