use yolol_runner::instruction::Instruction;
use yolol_runner::instruction::Literal;
use yolol_runner::value::Value;
use yolol_runner::vm::VM;

fn push(raw: i64) -> Instruction {
    Instruction::PushValue(Literal::Number(raw))
}

fn text(s: &str) -> Instruction {
    Instruction::PushValue(Literal::Text(s.to_string()))
}

/// Runs `code` on `count` zeros; gives the result, the variables and the
/// depth of the stack behind the run.
fn run(code: Vec<Instruction>, count: usize) -> (Option<i64>, Vec<Option<i64>>, usize) {
    let mut vm = VM::new();
    let mut variables: Vec<Value> = (0..count).map(|_| Value::default()).collect();
    let result = vm.execute(&code, &mut variables);
    (
        result.map(|v| v.raw().expect("number")),
        variables.iter().map(|v| v.raw()).collect(),
        vm.depth(),
    )
}

#[test]
fn store_takes_the_top_of_the_stack() {
    let (result, variables, depth) = run(vec![push(1000), push(2000), Instruction::Store(1)], 2);
    assert_eq!(result, None);
    assert_eq!(variables, vec![Some(0), Some(2000)]);
    assert_eq!(depth, 1);
}

#[test]
fn push_reads_a_variable() {
    let (_, variables, depth) = run(
        vec![push(5000), Instruction::Store(0), Instruction::Push(0), Instruction::Store(1)],
        2,
    );
    assert_eq!(variables, vec![Some(5000), Some(5000)]);
    assert_eq!(depth, 0);
}

#[test]
fn text_literal_becomes_a_text() {
    let mut vm = VM::new();
    let mut variables = vec![Value::default()];
    vm.execute(&vec![text("hi"), Instruction::Store(0)], &mut variables);
    assert_eq!(variables[0].as_text(), Some("hi".to_string()));
}

#[test]
fn binary_operation_takes_right_from_the_top() {
    let (_, variables, depth) = run(
        vec![push(7000), push(2000), Instruction::Sub, Instruction::Store(0)],
        1,
    );
    assert_eq!(variables, vec![Some(5000)]);
    assert_eq!(depth, 0);
    let (_, variables, _) = run(vec![push(1000), push(2000), Instruction::Lt, Instruction::Store(0)], 1);
    assert_eq!(variables, vec![Some(1000)]);
    let (_, variables, _) = run(vec![push(1000), push(2000), Instruction::Gt, Instruction::Store(0)], 1);
    assert_eq!(variables, vec![Some(0)]);
}

#[test]
fn dup_and_pop() {
    let (_, variables, depth) = run(
        vec![push(3000), Instruction::Dup, Instruction::Store(0), Instruction::Store(1)],
        2,
    );
    assert_eq!(variables, vec![Some(3000), Some(3000)]);
    assert_eq!(depth, 0);
    let (_, variables, depth) = run(
        vec![push(1000), push(2000), Instruction::Pop, Instruction::Store(0), Instruction::Pop],
        1,
    );
    assert_eq!(variables, vec![Some(1000)]);
    assert_eq!(depth, 0);
}

#[test]
fn goto_ends_the_run_with_its_target() {
    let (result, variables, depth) = run(
        vec![push(1000), Instruction::Store(0), push(7000), Instruction::Goto, push(2000), Instruction::Store(0)],
        1,
    );
    assert_eq!(result, Some(7000));
    assert_eq!(variables, vec![Some(1000)]);
    assert_eq!(depth, 0);
}

#[test]
fn jump_skips_what_follows() {
    let (_, variables, _) = run(
        vec![
            Instruction::Jump(2),
            push(1000),
            Instruction::Store(0),
            push(2000),
            Instruction::Store(1),
        ],
        2,
    );
    assert_eq!(variables, vec![Some(0), Some(2000)]);
    let (result, variables, depth) = run(vec![Instruction::Jump(usize::MAX), push(1000), Instruction::Store(0)], 1);
    assert_eq!((result, variables, depth), (None, vec![Some(0)], 0));
}

#[test]
fn jump_false_skips_unless_the_value_is_true() {
    let branch = |condition: Instruction| {
        run(vec![condition, Instruction::JumpFalse(2), push(1000), Instruction::Store(0)], 1).1
    };
    assert_eq!(branch(push(0)), vec![Some(0)]);
    assert_eq!(branch(push(1)), vec![Some(1000)]);
    assert_eq!(branch(push(-5000)), vec![Some(1000)]);
    assert_eq!(branch(text("yes")), vec![Some(0)]);
}

#[test]
fn failed_operation_ends_the_run_and_keeps_earlier_stores() {
    let (result, variables, _) = run(
        vec![
            push(1000),
            Instruction::Store(0),
            push(1000),
            push(0),
            Instruction::Div,
            Instruction::Store(1),
            push(3000),
            Instruction::Store(2),
        ],
        3,
    );
    assert_eq!(result, None);
    assert_eq!(variables, vec![Some(1000), Some(0), Some(0)]);
}

#[test]
fn instruction_without_its_operands_ends_the_run() {
    for code in [
        vec![Instruction::Store(0)],
        vec![Instruction::Add],
        vec![push(1000), Instruction::Add],
        vec![Instruction::Not],
        vec![Instruction::Dup],
        vec![Instruction::Goto],
        vec![Instruction::JumpFalse(0)],
        vec![Instruction::Inc],
    ] {
        let mut all = code;
        all.push(push(9000));
        all.push(Instruction::Store(0));
        let (result, variables, _) = run(all, 1);
        assert_eq!(result, None);
        assert_eq!(variables, vec![Some(0)]);
    }
}

#[test]
fn variable_outside_the_table_ends_the_run() {
    let (_, variables, _) = run(vec![Instruction::Push(1), Instruction::Store(0)], 1);
    assert_eq!(variables, vec![Some(0)]);
    let (_, variables, _) = run(vec![push(1000), Instruction::Store(1), push(1000), Instruction::Store(0)], 1);
    assert_eq!(variables, vec![Some(0)]);
}

#[test]
fn pop_on_an_empty_stack_goes_on() {
    let (_, variables, _) = run(vec![Instruction::Pop, push(1000), Instruction::Store(0)], 1);
    assert_eq!(variables, vec![Some(1000)]);
}

#[test]
fn stack_is_cleared_before_a_run() {
    let mut vm = VM::new();
    let mut variables = vec![Value::default()];
    vm.execute(&vec![push(1000), push(2000)], &mut variables);
    assert_eq!(vm.depth(), 2);
    vm.execute(&vec![Instruction::Store(0)], &mut variables);
    assert_eq!(variables[0].raw(), Some(0));
    assert_eq!(vm.depth(), 0);
}

#[test]
fn increment_and_decrement_on_the_stack() {
    let (_, variables, _) = run(
        vec![push(1000), Instruction::Inc, Instruction::Store(0), push(1000), Instruction::Dec, Instruction::Store(1)],
        2,
    );
    assert_eq!(variables, vec![Some(2000), Some(0)]);
}
