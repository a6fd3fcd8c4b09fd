//! The chip: twenty lines of bytecode, the variables, and the line that is
//! run next.

use crate::ast::Tree;
use crate::ast::lemma_tree_variables_grow;
use crate::ast::tree_variables_below;
use crate::balance::left_alone;
use crate::balance::lemma_empty_line_is_settled;
use crate::balance::lemma_settled_line_is_balanced;
use crate::compiler::compile;
use crate::compiler::lemma_compiled_variables;
use crate::compiler::process;
use crate::instruction::Instruction;
use crate::instruction::jumps_land;
use crate::instruction::variables_below;
use crate::interner::Interner;
use crate::interner::Names;
use crate::interner::distinct;
use crate::interner::find;
use crate::interner::lowercase;
use crate::lexer::to_chars;
use crate::optimizer::AbstractType;
use crate::optimizer::Truth;
use crate::optimizer::copy_range;
use crate::optimizer::optimize;
use crate::optimizer::optimize_spec;
use crate::parser::parse;
use crate::parser::parse_line;
use crate::value::Value;
use crate::value::ValueModel;
use crate::value::models;
use crate::value::outcome;
use crate::value::toward_zero;
use crate::vm::Outcome;
use crate::vm::agrees;
use crate::vm::run_spec;
use crate::vm::VM;
use vstd::prelude::*;

verus! {

/// The number of lines of a chip.
pub const LINES: usize = 20;

/// A named value that the chip shares with the device network.
#[derive(Debug)]
pub struct Field {
    pub name: String,
    pub value: Value,
}

// ---------------------------------------------------------------------------
// The lines of a source text
// ---------------------------------------------------------------------------

/// The place of the next line feed at or after `p`, or the end of the text.
pub open spec fn line_end(src: Seq<char>, p: int) -> int
    decreases src.len() - p,
{
    if 0 <= p < src.len() && src[p] != '\n' {
        line_end(src, p + 1)
    } else {
        p
    }
}

pub proof fn lemma_line_end(src: Seq<char>, p: int)
    requires
        0 <= p <= src.len(),
    ensures
        p <= line_end(src, p) <= src.len(),
    decreases src.len() - p,
{
    if p < src.len() && src[p] != '\n' {
        lemma_line_end(src, p + 1);
    }
}

/// Where the text of the line that begins at `start` ends: before its line
/// feed, and before the carriage return in front of that, if there is one.
pub open spec fn line_cut(src: Seq<char>, start: int) -> int {
    let end = line_end(src, start);
    if start < end < src.len() && src[end - 1] == '\r' {
        end - 1
    } else {
        end
    }
}

/// The text of the line that begins at `start`.
pub open spec fn line_text(src: Seq<char>, start: int) -> Seq<char> {
    src.subrange(start, line_cut(src, start))
}

/// The trees of the lines from `start` on, `room` of them at most, and the
/// table of names behind them.
pub open spec fn parse_source(src: Seq<char>, start: int, names: Names, room: nat) -> (
    Seq<Tree<Seq<char>>>,
    Names,
)
    decreases room,
{
    if room == 0 || start < 0 || start > src.len() {
        (Seq::empty(), names)
    } else {
        let (tree, after) = parse_line(line_text(src, start), names);
        let rest = parse_source(src, line_end(src, start) + 1, after, (room - 1) as nat);
        (seq![tree] + rest.0, rest.1)
    }
}

/// The indices of the lines among the first `k` that did not parse.
pub open spec fn error_lines(trees: Seq<Tree<Seq<char>>>, k: int) -> Seq<usize>
    decreases k,
{
    if k <= 0 {
        Seq::empty()
    } else {
        let rest = error_lines(trees, k - 1);
        if trees[k - 1] is Error {
            rest.push((k - 1) as usize)
        } else {
            rest
        }
    }
}

/// The lines that did not parse depend on the lines before them only.
pub proof fn lemma_error_lines_prefix(
    trees: Seq<Tree<Seq<char>>>,
    more: Seq<Tree<Seq<char>>>,
    k: int,
)
    requires
        0 <= k <= trees.len() <= more.len(),
        more.subrange(0, trees.len() as int) == trees,
    ensures
        error_lines(more, k) == error_lines(trees, k),
    decreases k,
{
    if k > 0 {
        lemma_error_lines_prefix(trees, more, k - 1);
        assert(more.subrange(0, trees.len() as int)[k - 1] == more[k - 1]);
    }
}

/// The models of a sequence of trees.
pub open spec fn tree_models(trees: Seq<Tree<String>>) -> Seq<Tree<Seq<char>>> {
    Seq::new(trees.len(), |i: int| trees[i]@)
}

/// What the optimizer knows of the variables before a line: each is a
/// number.
pub open spec fn unknown_kinds(count: nat) -> Seq<AbstractType> {
    Seq::new(count, |i: int| AbstractType::Int(Truth::Unknown))
}

/// The bytecode of a line: its tree compiled and optimized.
pub open spec fn line_code(tree: Tree<String>, count: nat) -> Seq<Instruction> {
    match optimize_spec(compile(tree), unknown_kinds(count)) {
        Some((code, _)) => code,
        None => Seq::empty(),
    }
}

/// Whether `lines` are the lines of the chip with these trees: a line whose
/// tree is missing is empty.
pub open spec fn holds_program(
    lines: Seq<Seq<Instruction>>,
    trees: Seq<Tree<String>>,
    count: nat,
) -> bool {
    &&& lines.len() == LINES
    &&& forall|i: int|
        0 <= i < LINES ==> #[trigger] lines[i] == if i < trees.len() {
            line_code(trees[i], count)
        } else {
            Seq::empty()
        }
}

// ---------------------------------------------------------------------------
// Ticks and globals, as functions of the state
// ---------------------------------------------------------------------------

/// The line that a tick runs.
pub open spec fn line_of(pc: int) -> int {
    if pc == LINES {
        0
    } else {
        pc
    }
}

/// The line that follows when line `pc` ran with outcome `o`. A `Goto`
/// counts lines from one and is held to the lines of the chip; its target
/// must be a number.
pub open spec fn next_line(pc: int, o: Outcome) -> int {
    match o {
        Outcome::Jumped { target: ValueModel::Int(x), .. } => {
            let line = toward_zero(x as int, 1000) - 1;
            if line < 0 {
                0
            } else if line > LINES - 1 {
                LINES - 1
            } else {
                line
            }
        },
        _ => pc + 1,
    }
}

pub open spec fn variables_of(o: Outcome) -> Seq<ValueModel> {
    match o {
        Outcome::Finished { vars, .. } => vars,
        Outcome::Jumped { vars, .. } => vars,
        Outcome::Aborted { vars } => vars,
    }
}

/// The variables after a field came in: a field that names a global of the
/// table goes to its place; any other leaves them as they are.
pub open spec fn with_field(
    names: Names,
    vars: Seq<ValueModel>,
    name: Seq<char>,
    value: ValueModel,
) -> Seq<ValueModel> {
    match find(names, lowercase(name), true) {
        Some(i) => if i < vars.len() {
            vars.update(i, value)
        } else {
            vars
        },
        None => vars,
    }
}

pub open spec fn field_model(f: Field) -> (Seq<char>, ValueModel) {
    (f.name@, f.value@)
}

/// The variables after the first `k` fields came in, one after the other.
pub open spec fn with_fields(names: Names, vars: Seq<ValueModel>, fields: Seq<Field>, k: int) -> Seq<
    ValueModel,
>
    decreases k,
{
    if k <= 0 {
        vars
    } else {
        with_field(
            names,
            with_fields(names, vars, fields, k - 1),
            fields[k - 1].name@,
            fields[k - 1].value@,
        )
    }
}

/// The globals among the first `k` names, in the order of their indices,
/// each with its value; zero for one that the variable table does not hold.
pub open spec fn globals_upto(names: Names, vars: Seq<ValueModel>, k: int) -> Seq<
    (Seq<char>, ValueModel),
>
    decreases k,
{
    if k <= 0 {
        Seq::empty()
    } else {
        let rest = globals_upto(names, vars, k - 1);
        if names[k - 1].1 {
            rest.push(
                (
                    names[k - 1].0,
                    if k - 1 < vars.len() {
                        vars[k - 1]
                    } else {
                        ValueModel::Int(0)
                    },
                ),
            )
        } else {
            rest
        }
    }
}

pub open spec fn field_models(fields: Seq<Field>) -> Seq<(Seq<char>, ValueModel)> {
    Seq::new(fields.len(), |i: int| field_model(fields[i]))
}

// ---------------------------------------------------------------------------
// The chip
// ---------------------------------------------------------------------------

/// A chip. `compile` fills it from a source text, `step` runs one line.
pub struct YololRunner {
    lines: Vec<Vec<Instruction>>,
    pc: usize,
    vm: VM,
    variables: Vec<Value>,
    names: Interner,
    errors: Vec<usize>,
}

fn find_line_end(chars: &Vec<char>, p: usize) -> (end: usize)
    requires
        p <= chars@.len(),
    ensures
        end == line_end(chars@, p as int),
        p <= end <= chars@.len(),
{
    let mut end = p;
    while end < chars.len() && chars[end] != '\n'
        invariant
            p <= end <= chars@.len(),
            line_end(chars@, p as int) == line_end(chars@, end as int),
        decreases chars@.len() - end,
    {
        end += 1;
    }
    end
}

fn empty_lines() -> (lines: Vec<Vec<Instruction>>)
    ensures
        lines@.len() == LINES,
        forall|i: int| 0 <= i < LINES ==> (#[trigger] lines@[i])@ == Seq::<Instruction>::empty(),
{
    let mut lines: Vec<Vec<Instruction>> = Vec::new();
    while lines.len() < LINES
        invariant
            lines@.len() <= LINES,
            forall|i: int| 0 <= i < lines@.len() ==> (#[trigger] lines@[i])@ == Seq::<
                Instruction,
            >::empty(),
        decreases LINES - lines@.len(),
    {
        lines.push(Vec::new());
    }
    lines
}

fn unknown_ram(count: usize) -> (ram: Vec<AbstractType>)
    ensures
        ram@ == unknown_kinds(count as nat),
{
    let mut ram: Vec<AbstractType> = Vec::new();
    while ram.len() < count
        invariant
            ram@.len() <= count,
            forall|i: int| 0 <= i < ram@.len() ==> #[trigger] ram@[i] == AbstractType::Int(
                Truth::Unknown,
            ),
        decreases count - ram@.len(),
    {
        ram.push(AbstractType::Int(Truth::Unknown));
    }
    assert(ram@ =~= unknown_kinds(count as nat));
    ram
}

/// A variable table of `count` zeros.
pub open spec fn zeros(count: nat) -> Seq<ValueModel> {
    Seq::new(count, |i: int| ValueModel::Int(0))
}

fn zero_variables(count: usize) -> (variables: Vec<Value>)
    ensures
        models(variables@) == zeros(count as nat),
        variables@.len() == count,
{
    let mut variables: Vec<Value> = Vec::new();
    while variables.len() < count
        invariant
            variables@.len() <= count,
            forall|i: int| 0 <= i < variables@.len() ==> (#[trigger] variables@[i])@
                == ValueModel::Int(0),
        decreases count - variables@.len(),
    {
        variables.push(Value::default());
    }
    assert(models(variables@) =~= zeros(count as nat));
    variables
}

impl YololRunner {
    /// The bytecode of each line.
    pub closed spec fn lines(&self) -> Seq<Seq<Instruction>> {
        Seq::new(self.lines@.len(), |i: int| self.lines@[i]@)
    }

    /// The index of the line that the next tick runs; `LINES` stands for
    /// the first line again.
    pub closed spec fn counter(&self) -> int {
        self.pc as int
    }

    pub closed spec fn variables(&self) -> Seq<Value> {
        self.variables@
    }

    pub closed spec fn names(&self) -> Names {
        self.names@
    }

    /// The stack as the last run left it.
    pub closed spec fn stack(&self) -> Seq<Value> {
        self.vm.stack()
    }

    /// The indices of the lines of the source that did not parse.
    pub closed spec fn errors(&self) -> Seq<usize> {
        self.errors@
    }

    /// A chip has its twenty lines and a counter on one of them or just
    /// behind the last. Its names are distinct and each has its place in the
    /// variable table. Every variable of the bytecode is one of them, every
    /// jump lands in its line or just behind it, and every line is one that
    /// the optimizer leaves as it is.
    pub open spec fn wf(&self) -> bool {
        &&& self.lines().len() == LINES
        &&& 0 <= self.counter() <= LINES
        &&& self.variables().len() == self.names().len()
        &&& distinct(self.names())
        &&& forall|i: int|
            0 <= i < LINES ==> variables_below(
                #[trigger] self.lines()[i],
                self.variables().len() as int,
            ) && jumps_land(self.lines()[i]) && left_alone(
                self.lines()[i],
                unknown_kinds(self.variables().len()),
            )
    }

    /// A chip without a program.
    pub fn new() -> (r: YololRunner)
        ensures
            r.wf(),
            r.counter() == 0,
            r.variables().len() == 0,
            r.names().len() == 0,
            r.errors().len() == 0,
            forall|i: int| 0 <= i < LINES ==> #[trigger] r.lines()[i] == Seq::<Instruction>::empty(),
    {
        proof {
            lemma_empty_line_is_settled(unknown_kinds(0));
        }
        YololRunner {
            lines: empty_lines(),
            pc: 0,
            vm: VM::new(),
            variables: Vec::new(),
            names: Interner::new(),
            errors: Vec::new(),
        }
    }

    /// The number of values that the last run left on the stack.
    pub fn stack_depth(&self) -> (n: usize)
        ensures
            n == self.stack().len(),
    {
        self.vm.depth()
    }

    /// The indices of the lines of the source that did not parse, in their
    /// order.
    pub fn syntax_errors(&self) -> (lines: Vec<usize>)
        ensures
            lines@ == self.errors(),
    {
        self.errors.clone()
    }

    /// The number of variables of the chip.
    pub fn variable_count(&self) -> (n: usize)
        ensures
            n == self.variables().len(),
    {
        self.variables.len()
    }

    /// The index of the line that the next tick runs.
    pub fn pc(&self) -> (pc: usize)
        ensures
            pc == self.counter(),
    {
        self.pc
    }

    /// A copy of the bytecode of a line.
    pub fn line(&self, index: usize) -> (code: Vec<Instruction>)
        requires
            index < self.lines().len(),
        ensures
            code@ == self.lines()[index as int],
    {
        let code = copy_range(&self.lines[index], 0, self.lines[index].len());
        assert(code@ =~= self.lines@[index as int]@);
        code
    }

    /// The value of the variable of that name and kind; `None` where the
    /// chip has no such variable.
    pub fn variable(&self, name: &str, global: bool) -> (r: Option<Value>)
        ensures
            match find(self.names(), lowercase(name@), global) {
                Some(i) => if i < self.variables().len() {
                    outcome(r) == Some(self.variables()[i]@)
                } else {
                    r is None
                },
                None => r is None,
            },
    {
        match self.names.lookup(name, global) {
            Some(i) => if i < self.variables.len() {
                Some(self.variables[i].clone())
            } else {
                None
            },
            None => None,
        }
    }

    /// Compiles a chip from its source text: the first twenty lines, each
    /// parsed, compiled and optimized. A line that does not parse is empty.
    /// The variables start as zeros, one for each name of the text, and the
    /// counter on the first line.
    pub fn compile(&mut self, source: &str)
        ensures
            final(self).wf(),
            final(self).counter() == 0,
            final(self).names() == parse_source(source@, 0, Seq::empty(), LINES as nat).1,
            models(final(self).variables()) == zeros(final(self).names().len()),
            final(self).errors() == error_lines(
                parse_source(source@, 0, Seq::empty(), LINES as nat).0,
                parse_source(source@, 0, Seq::empty(), LINES as nat).0.len() as int,
            ),
            exists|trees: Seq<Tree<String>>|
                {
                    &&& #[trigger] tree_models(trees) == parse_source(
                        source@,
                        0,
                        Seq::empty(),
                        LINES as nat,
                    ).0
                    &&& holds_program(final(self).lines(), trees, final(self).names().len())
                },
    {
        let mut names = Interner::new();
        let chars = to_chars(source);
        let n = chars.len();
        let mut compiled: Vec<Vec<Instruction>> = Vec::new();
        let mut errors: Vec<usize> = Vec::new();
        let ghost mut trees: Seq<Tree<String>> = Seq::empty();
        let mut start: usize = 0;
        let mut more = true;
        let ghost total = parse_source(source@, 0, Seq::empty(), LINES as nat);
        assert(tree_models(trees) + total.0 =~= total.0);
        while more && compiled.len() < LINES
            invariant
                chars@ == source@,
                n == chars@.len(),
                start <= n,
                compiled@.len() == trees.len(),
                trees.len() <= LINES,
                errors@ == error_lines(tree_models(trees), trees.len() as int),
                distinct(names@),
                forall|i: int|
                    0 <= i < trees.len() ==> (#[trigger] compiled@[i])@ == compile(trees[i])
                        && jumps_land(compiled@[i]@) && tree_variables_below(
                        trees[i],
                        names@.len() as int,
                    ),
                total.0 == tree_models(trees) + parse_source(
                    source@,
                    if more {
                        start as int
                    } else {
                        n + 1
                    },
                    names@,
                    (LINES - trees.len()) as nat,
                ).0,
                total.1 == parse_source(
                    source@,
                    if more {
                        start as int
                    } else {
                        n + 1
                    },
                    names@,
                    (LINES - trees.len()) as nat,
                ).1,
            decreases LINES - compiled@.len(),
        {
            let end = find_line_end(&chars, start);
            let cut = if start < end && end < n && chars[end - 1] == '\r' {
                end - 1
            } else {
                end
            };
            let text = source.substring_char(start, cut);
            let ghost before = names@;
            let ghost rest = parse_source(
                source@,
                end + 1,
                parse_line(text@, before).1,
                (LINES - trees.len() - 1) as nat,
            );
            let tree = parse(text, &mut names);
            let code = process(&tree);
            match &tree {
                Tree::Error => {
                    errors.push(compiled.len());
                },
                _ => {},
            }
            proof {
                assert(tree_models(trees.push(tree)).subrange(0, trees.len() as int)
                    =~= tree_models(trees));
                lemma_error_lines_prefix(
                    tree_models(trees),
                    tree_models(trees.push(tree)),
                    trees.len() as int,
                );
                assert forall|i: int| 0 <= i < trees.len() implies tree_variables_below(
                    #[trigger] trees[i],
                    names@.len() as int,
                ) by {
                    assert(compiled@[i]@ == compile(trees[i]));
                    lemma_tree_variables_grow(trees[i], before.len() as int, names@.len() as int);
                }
                assert(tree_models(trees.push(tree)) =~= tree_models(trees).push(tree@));
                assert(tree_models(trees) + (seq![tree@] + rest.0) =~= tree_models(trees).push(
                    tree@,
                ) + rest.0);
                trees = trees.push(tree);
            }
            compiled.push(code);
            if end < n {
                start = end + 1;
            } else {
                more = false;
            }
        }
        assert(total.0 =~= tree_models(trees));
        let count = names.count();
        let mut lines: Vec<Vec<Instruction>> = Vec::new();
        let mut i: usize = 0;
        while i < LINES
            invariant
                i <= LINES,
                lines@.len() == i,
                count == names@.len(),
                compiled@.len() == trees.len(),
                trees.len() <= LINES,
                forall|j: int|
                    0 <= j < trees.len() ==> (#[trigger] compiled@[j])@ == compile(trees[j])
                        && jumps_land(compiled@[j]@) && tree_variables_below(
                        trees[j],
                        count as int,
                    ),
                forall|j: int|
                    0 <= j < i ==> variables_below((#[trigger] lines@[j])@, count as int)
                        && jumps_land(lines@[j]@) && left_alone(
                        lines@[j]@,
                        unknown_kinds(count as nat),
                    ) && lines@[j]@ == if j < trees.len() {
                        line_code(trees[j], count as nat)
                    } else {
                        Seq::empty()
                    },
            decreases LINES - i,
        {
            if i < compiled.len() {
                let mut ram = unknown_ram(count);
                let code = copy_range(&compiled[i], 0, compiled[i].len());
                proof {
                    assert(code@ =~= compiled@[i as int]@);
                    lemma_compiled_variables(trees[i as int], count as int);
                }
                match optimize(code, &mut ram) {
                    Some(optimized) => {
                        lines.push(optimized);
                    },
                    None => {
                        lines.push(Vec::new());
                    },
                }
            } else {
                proof {
                    lemma_empty_line_is_settled(unknown_kinds(count as nat));
                }
                lines.push(Vec::new());
            }
            i += 1;
        }
        self.lines = lines;
        self.pc = 0;
        self.variables = zero_variables(count);
        self.names = names;
        self.errors = errors;
        proof {
            assert(self.lines().len() == LINES);
            assert forall|j: int| 0 <= j < LINES implies #[trigger] self.lines()[j] == if j
                < trees.len() {
                line_code(trees[j], count as nat)
            } else {
                Seq::empty()
            } && variables_below(self.lines()[j], count as int) && jumps_land(
                self.lines()[j],
            ) && left_alone(self.lines()[j], unknown_kinds(count as nat)) by {
                assert(self.lines()[j] == self.lines@[j]@);
            }
            assert(holds_program(self.lines(), trees, count as nat));
            assert(tree_models(trees) == total.0);
        }
    }

    /// Runs the line under the counter on an empty stack. The result is the
    /// target of the `Goto` that ended the run, if one did. A run that comes
    /// to the end of the line leaves nothing on the stack.
    pub fn run(&mut self) -> (r: Option<Value>)
        requires
            old(self).wf(),
            old(self).counter() < LINES,
        ensures
            final(self).wf(),
            final(self).lines() == old(self).lines(),
            final(self).names() == old(self).names(),
            final(self).counter() == old(self).counter(),
            final(self).variables().len() == old(self).variables().len(),
            exists|unknowns: Seq<i64>|
                agrees(
                    #[trigger] run_spec(
                        old(self).lines()[old(self).counter()],
                        models(old(self).variables()),
                        unknowns,
                    ),
                    r,
                    final(self).stack(),
                    final(self).variables(),
                ) && (run_spec(
                    old(self).lines()[old(self).counter()],
                    models(old(self).variables()),
                    unknowns,
                ) is Finished ==> final(self).stack().len() == 0),
    {
        let ghost code = self.lines@[self.pc as int]@;
        assert(code == self.lines()[self.pc as int]);
        let r = self.vm.execute(&self.lines[self.pc], &mut self.variables);
        assert(self.lines() =~= old(self).lines());
        proof {
            let unknowns = choose|unknowns: Seq<i64>|
                agrees(
                    #[trigger] run_spec(code, models(old(self).variables@), unknowns),
                    r,
                    self.vm.stack(),
                    self.variables@,
                );
            assert(agrees(
                run_spec(
                    old(self).lines()[old(self).counter()],
                    models(old(self).variables()),
                    unknowns,
                ),
                r,
                self.stack(),
                self.variables(),
            ));
            lemma_settled_line_is_balanced(
                code,
                unknown_kinds(old(self).variables().len()),
                models(old(self).variables()),
                unknowns,
            );
            assert(models(self.stack()).len() == self.stack().len());
        }
        r
    }

    /// One tick: runs the line under the counter and moves the counter on,
    /// to the line that a `Goto` named or else to the next one. An empty
    /// line only moves the counter.
    pub fn step(&mut self)
        requires
            old(self).wf(),
        ensures
            final(self).wf(),
            final(self).lines() == old(self).lines(),
            final(self).names() == old(self).names(),
            final(self).variables().len() == old(self).variables().len(),
            ({
                let pc = line_of(old(self).counter());
                if old(self).lines()[pc].len() == 0 {
                    final(self).counter() == pc + 1 && final(self).variables() == old(self).variables()
                } else {
                    exists|unknowns: Seq<i64>|
                        {
                            let o = #[trigger] run_spec(
                                old(self).lines()[pc],
                                models(old(self).variables()),
                                unknowns,
                            );
                            models(final(self).variables()) == variables_of(o)
                                && final(self).counter() == next_line(pc, o)
                        }
                }
            }),
    {
        if self.pc == LINES {
            self.pc = 0;
        }
        let ghost pc = self.pc as int;
        let ghost code = self.lines()[pc];
        let ghost before = models(self.variables@);
        assert(self.lines() =~= old(self).lines());
        if self.lines[self.pc].len() == 0 {
            self.pc += 1;
            assert(self.lines() =~= old(self).lines());
            return ;
        }
        let r = self.run();
        let ghost unknowns = choose|unknowns: Seq<i64>|
            agrees(
                #[trigger] run_spec(code, before, unknowns),
                r,
                self.stack(),
                self.variables(),
            );
        let ghost o = run_spec(code, before, unknowns);
        let target = match r {
            Some(v) => v.whole(),
            None => None,
        };
        match target {
            Some(w) => {
                proof {
                    crate::value::lemma_toward_zero(r->0@->Int_0 as int, 1000);
                }
                let line = w - 1;
                self.pc = if line < 0 {
                    0
                } else if line > 19 {
                    19
                } else {
                    line as usize
                };
            },
            None => {
                self.pc += 1;
            },
        }
        assert(self.lines() =~= old(self).lines());
        assert(models(self.variables()) == variables_of(o) && self.counter() == next_line(pc, o));
    }

    /// Writes the fields that name a global of the chip into its variables.
    /// A field of another name is passed over.
    pub fn update_globals(&mut self, globals: Vec<Field>)
        requires
            old(self).wf(),
        ensures
            final(self).wf(),
            final(self).lines() == old(self).lines(),
            final(self).names() == old(self).names(),
            final(self).counter() == old(self).counter(),
            models(final(self).variables()) == with_fields(
                old(self).names(),
                models(old(self).variables()),
                globals@,
                globals@.len() as int,
            ),
    {
        let mut k: usize = 0;
        while k < globals.len()
            invariant
                k <= globals@.len(),
                self.wf(),
                self.lines() == old(self).lines(),
                self.names() == old(self).names(),
                self.counter() == old(self).counter(),
                self.variables().len() == old(self).variables().len(),
                models(self.variables()) == with_fields(
                    old(self).names(),
                    models(old(self).variables()),
                    globals@,
                    k as int,
                ),
            decreases globals@.len() - k,
        {
            let field = &globals[k];
            match self.names.lookup(field.name.as_str(), true) {
                Some(i) => {
                    if i < self.variables.len() {
                        let value = field.value.clone();
                        proof {
                            crate::vm::lemma_models_update(self.variables@, i as int, value);
                        }
                        self.variables.set(i, value);
                    }
                },
                None => {},
            }
            assert(self.lines() =~= old(self).lines());
            k += 1;
        }
    }

    /// The globals of the chip with their values, in the order of their
    /// indices.
    pub fn get_global(&self) -> (fields: Vec<Field>)
        ensures
            field_models(fields@) == globals_upto(
                self.names(),
                models(self.variables()),
                self.names().len() as int,
            ),
    {
        let mut fields: Vec<Field> = Vec::new();
        let count = self.names.count();
        let mut k: usize = 0;
        while k < count
            invariant
                k <= count,
                count == self.names@.len(),
                field_models(fields@) == globals_upto(
                    self.names@,
                    models(self.variables@),
                    k as int,
                ),
            decreases count - k,
        {
            if self.names.is_global(k) {
                let value = if k < self.variables.len() {
                    self.variables[k].clone()
                } else {
                    Value::default()
                };
                let field = Field { name: self.names.name(k), value };
                assert(field_models(fields@.push(field)) =~= field_models(fields@).push(
                    field_model(field),
                ));
                fields.push(field);
            }
            k += 1;
        }
        fields
    }
}

impl Default for YololRunner {
    /// A chip without a program.
    fn default() -> (r: Self)
        ensures
            r.wf(),
            r.counter() == 0,
            r.variables().len() == 0,
            r.names().len() == 0,
            r.errors().len() == 0,
            forall|i: int| 0 <= i < LINES ==> #[trigger] r.lines()[i] == Seq::<Instruction>::empty(),
    {
        YololRunner::new()
    }
}

} // verus!
