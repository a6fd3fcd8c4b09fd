use yolol_runner::instruction::Instruction;
use yolol_runner::instruction::Literal;
use yolol_runner::runner::Field;
use yolol_runner::runner::YololRunner;
use yolol_runner::value::Value;

fn chip(source: &str) -> YololRunner {
    let mut runner = YololRunner::new();
    runner.compile(source);
    runner
}

fn number(runner: &YololRunner, name: &str) -> i64 {
    runner.variable(name, false).expect("variable").raw().expect("number")
}

fn field(name: &str, value: Value) -> Field {
    Field { name: name.to_string(), value }
}

#[test]
fn new_chip_is_empty() {
    let runner = YololRunner::new();
    assert_eq!(runner.pc(), 0);
    assert_eq!(runner.variable_count(), 0);
    for i in 0..20 {
        assert_eq!(runner.line(i), vec![]);
    }
    assert!(runner.get_global().is_empty());
    let runner = YololRunner::default();
    assert_eq!(runner.pc(), 0);
}

#[test]
fn counter() {
    let mut runner = chip("n=n+1");
    runner.step();
    assert_eq!(number(&runner, "n"), 1000);
    assert_eq!(runner.pc(), 1);
    for _ in 1..20 {
        runner.step();
    }
    assert_eq!(number(&runner, "n"), 1000);
    assert_eq!(runner.pc(), 20);
    runner.step();
    assert_eq!(number(&runner, "n"), 2000);
    assert_eq!(runner.pc(), 1);
    for _ in 21..1000 {
        runner.step();
    }
    assert_eq!(number(&runner, "n"), 50_000);
}

#[test]
fn conditional_goto() {
    let mut runner = chip("n++ if n>=5 then goto 1 end");
    for _ in 0..3 {
        runner.step();
    }
    assert_eq!(number(&runner, "n"), 1000);
    assert_eq!(runner.pc(), 3);
    for _ in 3..80 {
        runner.step();
    }
    assert_eq!(number(&runner, "n"), 4000);
    assert_eq!(runner.pc(), 20);
    runner.step();
    assert_eq!(number(&runner, "n"), 5000);
    assert_eq!(runner.pc(), 0);
    runner.step();
    assert_eq!(number(&runner, "n"), 6000);
    assert_eq!(runner.pc(), 0);
}

#[test]
fn compound_op() {
    let mut runner = chip(":out = \"hi\" + \" there\"");
    runner.step();
    let fields = runner.get_global();
    assert_eq!(fields.len(), 1);
    assert_eq!(fields[0].name, "out");
    assert_eq!(fields[0].value.as_text(), Some("hi there".to_string()));
}

#[test]
fn if_else() {
    let mut runner = chip("if a then b=1 else b=2 end");
    runner.step();
    assert_eq!(number(&runner, "b"), 2000);
    let mut runner = chip("a=1\nif a then b=1 else b=2 end");
    runner.step();
    runner.step();
    assert_eq!(number(&runner, "b"), 1000);
}

#[test]
fn runtime_failure() {
    let mut runner = chip("a=1/0 b=2");
    runner.step();
    assert_eq!(number(&runner, "a"), 0);
    assert_eq!(number(&runner, "b"), 0);
    assert_eq!(runner.pc(), 1);
}

#[test]
fn store_before_a_failure_is_kept() {
    let mut runner = chip("a=1 b=1/0 c=3");
    runner.step();
    assert_eq!(number(&runner, "a"), 1000);
    assert_eq!(number(&runner, "b"), 0);
    assert_eq!(number(&runner, "c"), 0);
}

#[test]
fn optimizer_pruning() {
    let mut runner = chip("if 0 then x=1 end x=2");
    assert_eq!(
        runner.line(0),
        vec![Instruction::PushValue(Literal::Number(2000)), Instruction::Store(0)]
    );
    runner.step();
    assert_eq!(number(&runner, "x"), 2000);
}

#[test]
fn empty_line_compiles_to_empty_vector() {
    let runner = chip("\n   \n// only a comment\na=1");
    assert_eq!(runner.line(0), vec![]);
    assert_eq!(runner.line(1), vec![]);
    assert_eq!(runner.line(2), vec![]);
    assert_eq!(runner.line(3).len(), 2);
    assert_eq!(runner.line(4), vec![]);
}

#[test]
fn empty_line_only_moves_the_counter() {
    let mut runner = chip("\na=1");
    runner.step();
    assert_eq!(runner.pc(), 1);
    assert_eq!(number(&runner, "a"), 0);
    runner.step();
    assert_eq!(runner.pc(), 2);
    assert_eq!(number(&runner, "a"), 1000);
}

#[test]
fn twenty_lines_run_and_the_next_is_ignored() {
    let mut source = String::new();
    for _ in 0..20 {
        source.push_str("n++\n");
    }
    source.push_str("n = 100 m = 1\n");
    let mut runner = chip(&source);
    assert!(runner.variable("m", false).is_none());
    assert_eq!(runner.variable_count(), 1);
    for i in 0..20 {
        assert_eq!(runner.line(i).len(), 3);
    }
    for _ in 0..20 {
        runner.step();
    }
    assert_eq!(number(&runner, "n"), 20_000);
    assert_eq!(runner.pc(), 20);
    runner.step();
    assert_eq!(number(&runner, "n"), 21_000);
    assert_eq!(runner.pc(), 1);
}

#[test]
fn goto_is_held_to_the_lines_of_the_chip() {
    for (target, line) in [
        ("-5", 0),
        ("0", 0),
        ("1", 0),
        ("2", 1),
        ("2.999", 1),
        ("20", 19),
        ("21", 19),
        ("999", 19),
        ("0.5", 0),
    ] {
        let mut runner = chip(&format!("goto {}", target));
        runner.step();
        assert_eq!(runner.pc(), line, "goto {}", target);
    }
}

#[test]
fn goto_to_a_text_falls_through() {
    let mut runner = chip("a = \"x\"\ngoto a");
    runner.step();
    runner.step();
    assert_eq!(runner.pc(), 2);
}

#[test]
fn line_endings() {
    let mut runner = chip("a=1\r\nb=2\rc=3\n\r\nd=4\r");
    assert_eq!(runner.line(0).len(), 2);
    assert_eq!(runner.line(1), vec![]);
    assert_eq!(runner.line(2), vec![]);
    assert_eq!(runner.line(3), vec![]);
    runner.step();
    assert_eq!(number(&runner, "a"), 1000);
    let runner = chip("a=1\r\nb=2\r\n");
    assert_eq!(runner.line(0).len(), 2);
    assert_eq!(runner.line(1).len(), 2);
    assert_eq!(runner.line(2), vec![]);
}

#[test]
fn line_that_does_not_parse_is_empty_and_the_others_run() {
    let mut runner = chip("a=1\nb = = 2\nc=3");
    assert_eq!(runner.line(1), vec![]);
    for _ in 0..3 {
        runner.step();
    }
    assert_eq!(number(&runner, "a"), 1000);
    assert_eq!(number(&runner, "b"), 0);
    assert_eq!(number(&runner, "c"), 3000);
}

#[test]
fn variables_start_as_zeros_one_for_each_name() {
    let runner = chip("a = b\n:c = d + a");
    assert_eq!(runner.variable_count(), 4);
    for name in ["a", "b", "d"] {
        assert_eq!(number(&runner, name), 0);
    }
    assert_eq!(runner.variable("c", true).expect("global").raw(), Some(0));
    assert!(runner.variable("c", false).is_none());
    assert!(runner.variable("e", false).is_none());
}

#[test]
fn compiling_again_starts_over() {
    let mut runner = chip("a=1\nb=2");
    runner.step();
    runner.step();
    runner.compile("c=3");
    assert_eq!(runner.pc(), 0);
    assert_eq!(runner.variable_count(), 1);
    assert!(runner.variable("a", false).is_none());
    assert_eq!(number(&runner, "c"), 0);
    assert_eq!(runner.line(1), vec![]);
}

#[test]
fn every_variable_of_a_compiled_chip_is_in_the_table() {
    let runner = chip("a = b + :c\nif d then e++ else :f -= g end\ngoto h");
    let count = runner.variable_count();
    assert_eq!(count, 8);
    for i in 0..20 {
        for inst in runner.line(i) {
            match inst {
                Instruction::Push(v) | Instruction::Store(v) => assert!(v < count),
                _ => {},
            }
        }
    }
}

#[test]
fn stack_is_empty_after_a_line_without_conditions() {
    let mut runner = chip("a = 1 a++ b = a * 2 5 --b \"x\" c = a + b");
    runner.step();
    assert_eq!(runner.stack_depth(), 0);
    assert_eq!(number(&runner, "c"), 5000);
}

#[test]
fn stack_is_empty_after_a_line_with_conditions() {
    for source in [
        "if 0 then x=1 end x=2",
        "if 1 then x=1 else x=2 end 5",
        "a = 1 if a then 5 b=1 end c=2",
        "if a then 5 b++ else 7 c=1 end d=2 8",
        "5 if a then 6 end b=1",
    ] {
        let mut runner = chip(source);
        runner.step();
        assert_eq!(runner.stack_depth(), 0, "{}", source);
    }
}

#[test]
fn optimized_line_does_what_the_source_says() {
    let mut runner = chip("if a then 5 b=1 end c=2");
    runner.step();
    assert_eq!(number(&runner, "b"), 0);
    assert_eq!(number(&runner, "c"), 2000);
    let mut runner = chip("a = 1 if a then 5 b=1 end c=2");
    runner.step();
    assert_eq!(number(&runner, "b"), 1000);
    assert_eq!(number(&runner, "c"), 2000);
    let mut runner = chip("if a then x=1 else 1 end y=2\na=1 if a then x=1 else 1 end z=3");
    runner.step();
    assert_eq!(number(&runner, "x"), 0);
    assert_eq!(number(&runner, "y"), 2000);
    runner.step();
    assert_eq!(number(&runner, "x"), 1000);
    assert_eq!(number(&runner, "z"), 3000);
    let mut runner = chip("if a then n++ end b=1\n5 if a then 6 end c=1");
    runner.step();
    runner.step();
    assert_eq!(number(&runner, "n"), 0);
    assert_eq!(number(&runner, "b"), 1000);
    assert_eq!(number(&runner, "c"), 1000);
}

#[test]
fn compound_assignment_has_the_value_on_the_left() {
    let mut runner = chip("a = 5 a -= 1\nb = 5 b = 1 - b\nc = 5 c += 2\nd = 5 d = d + 2\ne = \"x\" e += \"y\"");
    for _ in 0..5 {
        runner.step();
    }
    assert_eq!(number(&runner, "a"), -4000);
    assert_eq!(number(&runner, "b"), -4000);
    assert_eq!(number(&runner, "c"), 7000);
    assert_eq!(number(&runner, "d"), 7000);
    assert_eq!(runner.variable("e", false).expect("variable").as_text(), Some("yx".to_string()));
}

#[test]
fn run_gives_the_target_of_a_goto() {
    let mut runner = chip("a = 3 goto a + 1");
    let target = runner.run().expect("target");
    assert_eq!(target.raw(), Some(4000));
    assert_eq!(runner.pc(), 0);
    assert_eq!(number(&runner, "a"), 3000);
    let mut runner = chip("a = 3");
    assert!(runner.run().is_none());
}

#[test]
fn globals_come_in_by_their_names() {
    let mut runner = chip("a = :x + :y\nb = :X");
    runner.update_globals(vec![
        field("x", Value::number(1000)),
        field("Y", Value::number(2000)),
        field("z", Value::number(9000)),
        field("a", Value::number(9000)),
    ]);
    runner.step();
    runner.step();
    assert_eq!(number(&runner, "a"), 3000);
    assert_eq!(number(&runner, "b"), 1000);
    assert_eq!(runner.variable_count(), 4);
    assert!(runner.variable("z", true).is_none());
}

#[test]
fn later_field_of_a_name_wins() {
    let mut runner = chip("a = :x");
    runner.update_globals(vec![field("x", Value::number(1000)), field("x", Value::text("t"))]);
    runner.step();
    assert_eq!(runner.variable("a", false).expect("variable").as_text(), Some("t".to_string()));
}

#[test]
fn globals_go_out_in_the_order_of_their_indices() {
    let mut runner = chip(":b = 1 a = 2 :A = \"x\" :c = :b");
    runner.step();
    let fields = runner.get_global();
    let names: Vec<&str> = fields.iter().map(|f| f.name.as_str()).collect();
    assert_eq!(names, vec!["b", "a", "c"]);
    assert_eq!(fields[0].value.raw(), Some(1000));
    assert_eq!(fields[1].value.as_text(), Some("x".to_string()));
    assert_eq!(fields[2].value.raw(), Some(1000));
}

#[test]
fn statements_do_what_their_trees_say() {
    let mut runner = chip("x = (1 + 2) * 3 - 4 / 2 y = x++ + --x z = -x if x > 5 then w = x % 4 else w = 1 end");
    runner.step();
    assert_eq!(number(&runner, "x"), 7000);
    assert_eq!(number(&runner, "y"), 14000);
    assert_eq!(number(&runner, "z"), -7000);
    assert_eq!(number(&runner, "w"), -1000);
}
