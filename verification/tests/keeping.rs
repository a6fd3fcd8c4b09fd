use yolol_runner::compiler::process;
use yolol_runner::instruction::Instruction;
use yolol_runner::interner::Interner;
use yolol_runner::optimizer::optimize;
use yolol_runner::optimizer::AbstractType;
use yolol_runner::optimizer::Truth;
use yolol_runner::parser::parse;
use yolol_runner::value::Value;
use yolol_runner::vm::VM;

/// What a value shows of itself.
fn seen(v: &Value) -> (Option<i64>, Option<String>) {
    (v.raw(), v.as_text())
}

/// Runs a line on a table; gives the target and the variables behind it.
fn run(code: &Vec<Instruction>, table: &[Value]) -> (Option<(Option<i64>, Option<String>)>, Vec<(Option<i64>, Option<String>)>, usize) {
    let mut vm = VM::new();
    let mut variables: Vec<Value> = table.iter().map(|v| v.clone()).collect();
    let result = vm.execute(code, &mut variables);
    (result.map(|v| seen(&v)), variables.iter().map(seen).collect(), vm.depth())
}

const LINES: [&str; 30] = [
    "a = b + 1",
    "a++ b-- ++c --d",
    "a = b++ + --c 5 \"x\"",
    "if a then b = 1 end c = 2",
    "if a then 5 b = 1 end c = 2",
    "if a then b = 1 else 1 end c = 2",
    "if a then b++ else 7 c = 1 end d = 2",
    "if 0 then a = 1 end b = 2",
    "if 1 then a = 1 else a = 2 end b = a",
    "if 1 and not 0 then a = 1 end",
    "if \"x\" then a = 1 else a = 2 end",
    "5 if a then 6 end b = 1",
    "if a then if b then c = 1 else c = 2 end d = 3 else if c then d = 4 end end a = d",
    "a = 1 if a then goto 3 end b = 2",
    "if a then goto b end c = 1",
    "a = \"x\" b = a + 1 c = b + a",
    "a = not \"x\" b = a + 2",
    "b = 1 if a then b = \"x\" end c = b + 2",
    "if a then b = \"x\" else b = \"y\" end c = b + b",
    "a = b == c d = b != c e = b < c f = b >= c",
    "a = b and c d = b or c e = not b",
    "a = -b c = b - d",
    "goto \"x\" a = 1",
    "goto a + 1",
    "a = 1 b = a 2 c = b a++",
    "if a then end if b then else end c = 1",
    "if a then 1 else 2 end 3 if b then 4 end",
    "a = b++ b = a-- c = ++a + b++",
    "if a == b then c = \"same\" else c = \"other\" end d = c + a",
    "x = 1 if x then y = x + 1 if y then z = y + 1 end end",
];

#[test]
fn optimized_line_acts_as_the_compiled_one() {
    for source in LINES {
        let mut names = Interner::new();
        let compiled = process(&parse(source, &mut names));
        assert!(!compiled.is_empty(), "{}", source);
        let count = names.count();
        let copy: Vec<Instruction> = compiled.iter().map(|i| i.duplicate()).collect();
        let mut ram = vec![AbstractType::Int(Truth::Unknown); count];
        let optimized = optimize(copy, &mut ram).expect("optimized");
        let tables: Vec<Vec<Value>> = vec![
            (0..count).map(|_| Value::number(0)).collect(),
            (0..count).map(|i| Value::number(1000 * (i as i64 + 1))).collect(),
            (0..count).map(|i| Value::number(if i % 2 == 0 { -2500 } else { 0 })).collect(),
            (0..count).map(|i| if i % 2 == 0 { Value::text("t") } else { Value::number(3000) }).collect(),
            (0..count).map(|i| if i % 3 == 0 { Value::number(7000) } else { Value::text("") }).collect(),
        ];
        for table in tables.iter() {
            let (target, variables, _) = run(&compiled, table);
            let (kept_target, kept_variables, depth) = run(&optimized, table);
            assert_eq!(kept_variables, variables, "{}", source);
            assert_eq!(kept_target, target, "{}", source);
            if kept_target.is_none() {
                assert_eq!(depth, 0, "{}", source);
            }
        }
    }
}

/// Whether a kind says nothing false of a value.
fn fits(kind: AbstractType, v: &Value) -> bool {
    match kind {
        AbstractType::String => v.is_text(),
        AbstractType::Int(Truth::True) => v.raw().map(|x| x != 0).unwrap_or(false),
        AbstractType::Int(Truth::False) => v.raw() == Some(0),
        _ => true,
    }
}

#[test]
fn kinds_behind_the_optimizer_fit_the_variables_behind_a_run() {
    let mut names = Interner::new();
    let compiled = process(&parse("a = \"x\" b = 0 c = 5 d = a + b e = not a", &mut names));
    let mut ram = vec![AbstractType::Int(Truth::Unknown); names.count()];
    let optimized = optimize(compiled, &mut ram).expect("optimized");
    let mut vm = VM::new();
    let mut variables: Vec<Value> = (0..names.count()).map(|_| Value::number(9000)).collect();
    assert!(vm.execute(&optimized, &mut variables).is_none());
    assert_eq!(vm.depth(), 0);
    for (kind, value) in ram.iter().zip(variables.iter()) {
        assert!(fits(*kind, value));
    }
    assert_eq!(ram[0], AbstractType::String);
    assert_eq!(ram[1], AbstractType::Int(Truth::False));
    assert_eq!(ram[2], AbstractType::Int(Truth::True));
    assert_eq!(ram[3], AbstractType::String);
    assert_eq!(ram[4], AbstractType::Int(Truth::False));
}
