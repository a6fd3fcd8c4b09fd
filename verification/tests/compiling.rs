use yolol_runner::ast::BinaryOp;
use yolol_runner::ast::Expr;
use yolol_runner::ast::Tree;
use yolol_runner::ast::UnaryOp;
use yolol_runner::compiler::process;
use yolol_runner::compiler::process_assing;
use yolol_runner::compiler::process_expr;
use yolol_runner::instruction::Instruction;
use yolol_runner::instruction::Literal;
use yolol_runner::interner::Interner;
use yolol_runner::parser::parse;

fn code(text: &str) -> Vec<Instruction> {
    process(&parse(text, &mut Interner::new()))
}

fn push(raw: i64) -> Instruction {
    Instruction::PushValue(Literal::Number(raw))
}

fn jumps_land(code: &[Instruction]) -> bool {
    code.iter().enumerate().all(|(i, inst)| match inst {
        Instruction::Jump(n) | Instruction::JumpFalse(n) => i + 1 + n <= code.len(),
        _ => true,
    })
}

fn variables_below(code: &[Instruction], count: usize) -> bool {
    code.iter().all(|inst| match inst {
        Instruction::Push(v) | Instruction::Store(v) => *v < count,
        _ => true,
    })
}

#[test]
fn literals_and_variables_are_pushed() {
    assert_eq!(process_expr(&Expr::Numerical(1500)), vec![push(1500)]);
    assert_eq!(
        process_expr(&Expr::String("hi".to_string())),
        vec![Instruction::PushValue(Literal::Text("hi".to_string()))]
    );
    assert_eq!(process_expr(&Expr::<String>::LocalVariable(3)), vec![Instruction::Push(3)]);
    assert_eq!(process_expr(&Expr::<String>::GlobalVariable(4)), vec![Instruction::Push(4)]);
}

#[test]
fn left_operand_is_compiled_first() {
    assert_eq!(code("1 - 2"), vec![push(1000), push(2000), Instruction::Sub]);
    assert_eq!(
        code("a < b + 1"),
        vec![
            Instruction::Push(0),
            Instruction::Push(1),
            Instruction::Lt,
            push(1000),
            Instruction::Add,
        ]
    );
}

#[test]
fn every_binary_operator_has_its_instruction() {
    for (op, inst) in [
        (BinaryOp::Or, Instruction::Or),
        (BinaryOp::And, Instruction::And),
        (BinaryOp::Eq, Instruction::Eq),
        (BinaryOp::Ne, Instruction::Ne),
        (BinaryOp::Lt, Instruction::Lt),
        (BinaryOp::Gt, Instruction::Gt),
        (BinaryOp::Lte, Instruction::Lte),
        (BinaryOp::Gte, Instruction::Gte),
        (BinaryOp::Add, Instruction::Add),
        (BinaryOp::Sub, Instruction::Sub),
        (BinaryOp::Mul, Instruction::Mul),
        (BinaryOp::Div, Instruction::Div),
        (BinaryOp::Mod, Instruction::Mod),
        (BinaryOp::Exp, Instruction::Exp),
    ] {
        let e: Expr<String> =
            Expr::Binary(op, Box::new(Expr::LocalVariable(0)), Box::new(Expr::LocalVariable(1)));
        assert_eq!(process_expr(&e), vec![Instruction::Push(0), Instruction::Push(1), inst]);
    }
}

#[test]
fn every_unary_operator_has_its_instruction() {
    for (op, inst) in [
        (UnaryOp::Not, Instruction::Not),
        (UnaryOp::Abs, Instruction::Abs),
        (UnaryOp::Sqrt, Instruction::Sqrt),
        (UnaryOp::Sin, Instruction::Sin),
        (UnaryOp::Asin, Instruction::Asin),
        (UnaryOp::Cos, Instruction::Cos),
        (UnaryOp::Acos, Instruction::Acos),
        (UnaryOp::Tan, Instruction::Tan),
        (UnaryOp::Atan, Instruction::Atan),
        (UnaryOp::Fac, Instruction::Fac),
    ] {
        let e: Expr<String> = Expr::Unary(op, Box::new(Expr::LocalVariable(0)));
        assert_eq!(process_expr(&e), vec![Instruction::Push(0), inst]);
    }
}

#[test]
fn change_of_sign_multiplies_by_minus_one() {
    assert_eq!(code("-a"), vec![Instruction::Push(0), push(-1000), Instruction::Mul]);
}

#[test]
fn steps_of_a_variable_compile_to_four_instructions() {
    let step = |second: Instruction, third: Instruction| {
        vec![Instruction::Push(0), second, third, Instruction::Store(0)]
    };
    assert_eq!(code("++a"), step(Instruction::Inc, Instruction::Dup));
    assert_eq!(code("--a"), step(Instruction::Dec, Instruction::Dup));
    assert_eq!(code("a++"), step(Instruction::Dup, Instruction::Inc));
    assert_eq!(code("a--"), step(Instruction::Dup, Instruction::Dec));
}

#[test]
fn assignments_store_the_value() {
    assert_eq!(code("a = 1"), vec![push(1000), Instruction::Store(0)]);
    assert_eq!(
        process_assing(None, 7, &Expr::<String>::LocalVariable(2)),
        vec![Instruction::Push(2), Instruction::Store(7)]
    );
    assert_eq!(
        process_assing(Some(BinaryOp::Div), 7, &Expr::<String>::Numerical(2000)),
        vec![push(2000), Instruction::Push(7), Instruction::Div, Instruction::Store(7)]
    );
}

#[test]
fn compound_assignment_is_the_assignment_of_value_op_variable() {
    for (compound, plain) in [
        ("a += 2", "a = 2 + a"),
        ("a -= 2", "a = 2 - a"),
        ("a *= b + 1", "a = (b + 1) * a"),
        ("a /= 2", "a = 2 / a"),
        ("a %= 2", "a = 2 % a"),
        ("a ^= 2", "a = 2 ^ a"),
    ] {
        assert_eq!(code(compound), code(plain), "{}", compound);
    }
    assert_eq!(
        code("a -= 2"),
        vec![push(2000), Instruction::Push(0), Instruction::Sub, Instruction::Store(0)]
    );
}

#[test]
fn goto_leaves_its_target_on_the_stack() {
    assert_eq!(code("goto 5"), vec![push(5000), Instruction::Goto]);
}

#[test]
fn conditional_jumps_over_its_branch() {
    assert_eq!(
        code("if a then b=1 end"),
        vec![Instruction::Push(0), Instruction::JumpFalse(2), push(1000), Instruction::Store(1)]
    );
    assert_eq!(
        code("if a then b=1 else b=2 c=3 end"),
        vec![
            Instruction::Push(0),
            Instruction::JumpFalse(3),
            push(1000),
            Instruction::Store(1),
            Instruction::Jump(4),
            push(2000),
            Instruction::Store(1),
            push(3000),
            Instruction::Store(2),
        ]
    );
    assert_eq!(code("if a then end"), vec![Instruction::Push(0), Instruction::JumpFalse(0)]);
}

#[test]
fn what_has_no_code() {
    assert_eq!(code(""), vec![]);
    assert_eq!(code("// nothing"), vec![]);
    assert_eq!(code("a = = 1"), vec![]);
    assert_eq!(process(&Tree::<String>::Error), vec![]);
    assert_eq!(process(&Tree::<String>::Empty), vec![]);
    assert_eq!(process(&Tree::<String>::Comment), vec![]);
}

#[test]
fn statements_are_compiled_in_their_order() {
    assert_eq!(
        code("a=1 b=2"),
        vec![push(1000), Instruction::Store(0), push(2000), Instruction::Store(1)]
    );
}

#[test]
fn every_jump_of_compiled_code_lands_in_the_line() {
    for text in [
        "if a then b=1 end",
        "if a then b=1 else b=2 end",
        "if a then if b then c=1 else c=2 end d=3 else if e then f=1 end end g=1",
        "if a then end if b then else end",
        "a=1 if a then goto 3 end b=2",
    ] {
        let code = code(text);
        assert!(!code.is_empty());
        assert!(jumps_land(&code), "{}", text);
    }
}

#[test]
fn every_variable_of_compiled_code_is_in_the_table() {
    let mut names = Interner::new();
    let tree = parse("if a then :b = c++ + d else e *= -f end goto g", &mut names);
    assert_eq!(names.count(), 7);
    let code = process(&tree);
    assert!(variables_below(&code, 7));
    assert!(!variables_below(&code, 6));
}
