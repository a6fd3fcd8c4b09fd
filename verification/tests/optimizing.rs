use yolol_runner::compiler::process;
use yolol_runner::instruction::Instruction;
use yolol_runner::instruction::Literal;
use yolol_runner::interner::Interner;
use yolol_runner::optimizer::optimize;
use yolol_runner::optimizer::AbstractType;
use yolol_runner::optimizer::Truth;
use yolol_runner::parser::parse;

const NUMBER: AbstractType = AbstractType::Int(Truth::Unknown);

fn push(raw: i64) -> Instruction {
    Instruction::PushValue(Literal::Number(raw))
}

fn text(s: &str) -> Instruction {
    Instruction::PushValue(Literal::Text(s.to_string()))
}

fn copy(code: &[Instruction]) -> Vec<Instruction> {
    code.iter().map(|i| i.duplicate()).collect()
}

/// The optimized code of a source line, and the kinds of its variables.
fn optimized(source: &str) -> (Vec<Instruction>, Vec<AbstractType>) {
    let mut names = Interner::new();
    let code = process(&parse(source, &mut names));
    let mut ram = vec![NUMBER; names.count()];
    let code = optimize(code, &mut ram).expect("optimized");
    (code, ram)
}

#[test]
fn settled_code_is_kept() {
    let (code, ram) = optimized("a = b + 1");
    assert_eq!(code, vec![Instruction::Push(1), push(1000), Instruction::Add, Instruction::Store(0)]);
    assert_eq!(ram, vec![NUMBER, NUMBER]);
}

#[test]
fn empty_line_is_kept() {
    let mut ram = vec![];
    assert_eq!(optimize(vec![], &mut ram), Some(vec![]));
}

#[test]
fn kinds_of_literals_reach_the_variables() {
    let (_, ram) = optimized("a = 0 b = 3 c = \"x\" d = a e = b == c f = c + 1 g = 1 - 1");
    assert_eq!(
        ram,
        vec![
            AbstractType::Int(Truth::False),
            AbstractType::Int(Truth::True),
            AbstractType::String,
            AbstractType::Int(Truth::False),
            NUMBER,
            AbstractType::String,
            NUMBER,
        ]
    );
}

#[test]
fn kinds_of_truth_operations() {
    let (_, ram) = optimized(
        "a = 0 or 0 b = 0 or 1 c = 1 and 1 d = 1 and \"x\" e = not 0 f = not 1 g = not \"x\" h = x or 1 i = not x j = 0 and x",
    );
    assert_eq!(
        &ram[..8],
        &[
            AbstractType::Int(Truth::False),
            AbstractType::Int(Truth::True),
            AbstractType::Int(Truth::True),
            AbstractType::Int(Truth::False),
            AbstractType::Int(Truth::True),
            AbstractType::Int(Truth::False),
            AbstractType::Int(Truth::False),
            NUMBER,
        ]
    );
    assert_eq!(ram[9], NUMBER);
    assert_eq!(ram[10], NUMBER);
}

#[test]
fn value_left_on_the_stack_loses_its_producer() {
    assert_eq!(optimized("1").0, vec![]);
    assert_eq!(optimized("a").0, vec![]);
    assert_eq!(optimized("a + 1").0, vec![]);
    assert_eq!(optimized("a = 1 2 b = 3").0, vec![
        push(1000),
        Instruction::Store(0),
        push(3000),
        Instruction::Store(1),
    ]);
}

#[test]
fn step_of_a_variable_as_a_statement_keeps_the_store() {
    let plain = vec![Instruction::Push(0), Instruction::Inc, Instruction::Store(0)];
    assert_eq!(optimized("a++").0, plain);
    assert_eq!(optimized("++a").0, plain);
    assert_eq!(optimized("a--").0, vec![Instruction::Push(0), Instruction::Dec, Instruction::Store(0)]);
    assert_eq!(
        optimized("b = a++").0,
        vec![
            Instruction::Push(1),
            Instruction::Dup,
            Instruction::Inc,
            Instruction::Store(1),
            Instruction::Store(0),
        ]
    );
}

#[test]
fn branch_of_a_false_condition_is_dropped_with_its_condition() {
    let (code, _) = optimized("if 0 then x=1 end x=2");
    assert_eq!(code, vec![push(2000), Instruction::Store(0)]);
    assert_eq!(optimized("if \"x\" then x=1 end").0, vec![]);
    assert_eq!(
        optimized("if 0 then x=1 else x=2 end x=3").0,
        vec![push(2000), Instruction::Store(0), push(3000), Instruction::Store(0)]
    );
    assert_eq!(optimized("if 1 - 1 then x=1 end").0.len(), 6);
    assert_eq!(optimized("if not 1 then x=1 end").0, vec![]);
}

#[test]
fn branch_of_a_true_condition_takes_the_place_of_the_conditional() {
    assert_eq!(
        optimized("if 1 then x=1 end x=2").0,
        vec![push(1000), Instruction::Store(0), push(2000), Instruction::Store(0)]
    );
    assert_eq!(
        optimized("if 1 then x=1 else x=2 end").0,
        vec![push(1000), Instruction::Store(0)]
    );
    assert_eq!(
        optimized("if 1 and not 0 then x=1 end").0,
        vec![push(1000), Instruction::Store(0)]
    );
}

#[test]
fn branch_of_an_open_condition_is_kept_behind_its_jump() {
    assert_eq!(
        optimized("if a then b=1 end").0,
        vec![Instruction::Push(0), Instruction::JumpFalse(2), push(1000), Instruction::Store(1)]
    );
}

#[test]
fn jump_is_as_long_as_what_is_left_of_its_branch() {
    assert_eq!(
        optimized("if a then 5 end").0,
        vec![Instruction::Push(0), Instruction::JumpFalse(0)]
    );
    assert_eq!(
        optimized("if a then 5 b=1 end c=2").0,
        vec![
            Instruction::Push(0),
            Instruction::JumpFalse(2),
            push(1000),
            Instruction::Store(1),
            push(2000),
            Instruction::Store(2),
        ]
    );
    assert_eq!(
        optimized("if a then b++ else 7 c=1 end d=2").0,
        vec![
            Instruction::Push(0),
            Instruction::JumpFalse(4),
            Instruction::Push(1),
            Instruction::Inc,
            Instruction::Store(1),
            Instruction::Jump(2),
            push(1000),
            Instruction::Store(2),
            push(2000),
            Instruction::Store(3),
        ]
    );
}

#[test]
fn value_left_in_front_of_a_conditional_is_taken_out() {
    assert_eq!(
        optimized("5 if a then 6 end b=1").0,
        vec![Instruction::Push(0), Instruction::JumpFalse(0), push(1000), Instruction::Store(1)]
    );
}

#[test]
fn kinds_behind_a_conditional_are_those_of_both_branches() {
    let (_, ram) = optimized("if a then b = \"x\" end c = b");
    assert_eq!(ram, vec![NUMBER, NUMBER, NUMBER]);
    let (_, ram) = optimized("if a then b = \"x\" else b = \"y\" end c = b");
    assert_eq!(ram, vec![NUMBER, AbstractType::String, AbstractType::String]);
    let (_, ram) = optimized("if a then b = 1 else b = 2 end");
    assert_eq!(ram, vec![NUMBER, AbstractType::Int(Truth::True)]);
    let (_, ram) = optimized("if a then b = 1 else b = 0 end");
    assert_eq!(ram, vec![NUMBER, NUMBER]);
    let (code, _) = optimized("b = 1 if a then b = \"x\" end c = b * 2");
    assert_eq!(code.len(), 10);
}

#[test]
fn operation_bound_to_fail_cuts_the_line() {
    assert_eq!(optimized("a = 1 b = \"x\" * 2 c = 3").0, vec![push(1000), Instruction::Store(0)]);
    assert_eq!(optimized("a = \"x\" b = abs a").0, vec![text("x"), Instruction::Store(0)]);
    assert_eq!(
        optimized("a = 1 goto \"x\"").0,
        vec![push(1000), Instruction::Store(0), text("x"), Instruction::Goto]
    );
    for source in ["a = \"x\" / 2", "a = 2 % \"x\"", "a = \"x\" ^ 2", "a = sqrt \"x\"", "a = \"x\"!"] {
        assert_eq!(optimized(source).0, vec![], "{}", source);
    }
}

#[test]
fn text_addition_and_subtraction_do_not_cut_the_line() {
    let (code, ram) = optimized("a = \"x\" + 1 b = \"x\" - 1");
    assert_eq!(code.len(), 8);
    assert_eq!(ram, vec![AbstractType::String, AbstractType::String]);
}

#[test]
fn every_pass_begins_with_the_kinds_given() {
    assert_eq!(optimized("b = a * 2 a = \"x\" 1").0.len(), 6);
    assert_eq!(optimized("b = a * 2 a = \"x\"").0.len(), 6);
    assert_eq!(optimized("a = \"x\" 1 b = a * 2").0, vec![text("x"), Instruction::Store(0)]);
}

#[test]
fn line_is_cut_at_an_instruction_without_its_operands() {
    for code in [
        vec![Instruction::Add],
        vec![push(1000), Instruction::Add],
        vec![Instruction::Store(0)],
        vec![Instruction::Not],
        vec![Instruction::Dup],
        vec![Instruction::Pop],
        vec![Instruction::Goto],
        vec![Instruction::JumpFalse(0)],
    ] {
        let mut ram = vec![NUMBER];
        assert_eq!(optimize(copy(&code), &mut ram), Some(vec![]), "{:?}", code);
    }
    let mut ram = vec![NUMBER];
    assert_eq!(
        optimize(
            vec![push(1000), Instruction::Store(0), Instruction::Add, push(2000), Instruction::Store(0)],
            &mut ram
        ),
        Some(vec![push(1000), Instruction::Store(0)])
    );
    let mut ram = vec![NUMBER];
    assert_eq!(
        optimize(vec![Instruction::Push(0), Instruction::JumpFalse(1), Instruction::Inc], &mut ram),
        Some(vec![Instruction::Push(0), Instruction::JumpFalse(0)])
    );
}

#[test]
fn jump_past_the_end_of_the_line_is_made_to_fit() {
    let mut ram = vec![NUMBER];
    assert_eq!(
        optimize(vec![Instruction::Push(0), Instruction::JumpFalse(9), push(1000), Instruction::Store(0)], &mut ram),
        Some(vec![Instruction::Push(0), Instruction::JumpFalse(2), push(1000), Instruction::Store(0)])
    );
    let mut ram = vec![NUMBER];
    assert_eq!(
        optimize(
            vec![
                Instruction::Push(0),
                Instruction::JumpFalse(3),
                push(1000),
                Instruction::Store(0),
                Instruction::Jump(usize::MAX),
                push(2000),
                Instruction::Store(0),
            ],
            &mut ram
        ),
        Some(vec![
            Instruction::Push(0),
            Instruction::JumpFalse(3),
            push(1000),
            Instruction::Store(0),
            Instruction::Jump(2),
            push(2000),
            Instruction::Store(0),
        ])
    );
}

#[test]
fn optimizer_returns_a_line_for_every_compiled_line() {
    for source in [
        "",
        "a",
        "5 if a then 6 end b=1",
        "if a then if b then 1 end 2 else 3 if c then 4 else 5 end end 6",
        "a++ b-- ++c --d a = b++ * --c",
        "goto a + 1 b = 2",
        "if \"x\" * 2 then a = 1 end",
        "a = 1 / 0 if a then goto 3 else goto \"x\" end",
    ] {
        let mut names = Interner::new();
        let code = process(&parse(source, &mut names));
        let mut ram = vec![NUMBER; names.count()];
        assert!(optimize(code, &mut ram).is_some(), "{}", source);
    }
}

#[test]
fn jump_that_closes_no_branch_goes_with_what_it_skips() {
    let mut ram = vec![NUMBER];
    assert_eq!(
        optimize(
            vec![push(1000), Instruction::Store(0), Instruction::Jump(2), push(2000), Instruction::Store(0)],
            &mut ram
        ),
        Some(vec![push(1000), Instruction::Store(0)])
    );
}

#[test]
fn orphans_are_taken_out_at_their_places() {
    let mut ram = vec![NUMBER];
    assert_eq!(optimize(vec![Instruction::Push(0), Instruction::Dup], &mut ram), Some(vec![]));
    let mut ram = vec![NUMBER];
    assert_eq!(
        optimize(vec![push(1000), push(2000), Instruction::Pop, push(3000), Instruction::Store(0)], &mut ram),
        Some(vec![push(2000), Instruction::Pop, push(3000), Instruction::Store(0)])
    );
}

#[test]
fn optimizer_never_lengthens_a_line_and_adds_no_variable() {
    for source in [
        "a = b + 1",
        "a++ b-- c = a + b 5 \"x\"",
        "if a then b = 1 else b = 2 end",
        "if 0 then a = 1 end b = 2",
        "if 1 then a = 1 end b = 2",
        "a = \"x\" * 2",
        "if a then 1 2 3 end 4",
    ] {
        let mut names = Interner::new();
        let code = process(&parse(source, &mut names));
        let before = code.len();
        let mut ram = vec![NUMBER; names.count()];
        let after = optimize(code, &mut ram).expect("optimized");
        assert!(after.len() <= before, "{}", source);
        assert_eq!(ram.len(), names.count());
        assert!(after.iter().all(|i| match i {
            Instruction::Push(v) | Instruction::Store(v) => *v < names.count(),
            _ => true,
        }));
    }
}

#[test]
fn line_that_a_pass_leaves_alone_is_returned_as_it_is() {
    for source in ["a = b + 1", "a++", "if a then b = 1 else b = 2 end", "a = 1 goto a"] {
        let (once, _) = optimized(source);
        let mut ram = vec![NUMBER; 8];
        let twice = optimize(copy(&once), &mut ram).expect("optimized");
        assert_eq!(twice, once, "{}", source);
    }
}

#[test]
fn second_run_returns_the_line_of_the_first() {
    for source in [
        "if 0 then x=1 end x=2",
        "if 1 then x=1 else x=2 end",
        "if a then 5 b=1 end c=2",
        "if a then b++ else 7 c=1 end d=2",
        "5 if a then 6 end b=1",
        "if a then if b then 1 else c=1 end 2 else if 0 then d=1 end end e++",
        "a = \"x\" * 2",
        "x = a++ + --b goto x",
    ] {
        let mut names = Interner::new();
        let code = process(&parse(source, &mut names));
        let mut ram = vec![NUMBER; names.count()];
        let once = optimize(code, &mut ram).expect("optimized");
        let mut again = vec![NUMBER; names.count()];
        let twice = optimize(copy(&once), &mut again).expect("optimized");
        assert_eq!(twice, once, "{}", source);
        assert_eq!(again, ram, "{}", source);
    }
}

#[test]
fn every_jump_of_an_optimized_line_lands_in_the_line() {
    for source in [
        "if a then 5 end",
        "if a then 5 b=1 end c=2",
        "if a then b++ else 7 c=1 end d=2",
        "if a then if b then 1 else c=1 end 2 else if 0 then d=1 end end e++",
        "if a then b = \"x\" * 2 c = 1 end d = 2",
    ] {
        let (code, _) = optimized(source);
        for (i, inst) in code.iter().enumerate() {
            match inst {
                Instruction::Jump(n) | Instruction::JumpFalse(n) => assert!(i + 1 + n <= code.len()),
                _ => {},
            }
        }
    }
}
