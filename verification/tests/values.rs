use yolol_runner::instruction::Instruction;
use yolol_runner::value::Value;
use yolol_runner::vm::compute_binary;
use yolol_runner::vm::compute_unary;

fn n(raw: i64) -> Value {
    Value::number(raw)
}

fn t(s: &str) -> Value {
    Value::text(s)
}

fn raw(v: Option<Value>) -> Option<i64> {
    v.expect("a value").raw()
}

fn text(v: Option<Value>) -> Option<String> {
    v.expect("a value").as_text()
}

fn binary(inst: Instruction, a: Value, b: Value) -> Option<Value> {
    compute_binary(&inst, &a, &b)
}

fn unary(inst: Instruction, a: Value) -> Option<Value> {
    compute_unary(&inst, &a)
}

#[test]
fn numbers_keep_their_thousandths() {
    for x in [0, 1, -1, 999, -999, 1000, 1234567, -1234567, i64::MAX, i64::MIN, i64::MIN + 1] {
        assert_eq!(n(x).raw(), Some(x));
        assert!(!n(x).is_text());
        assert_eq!(n(x).as_text(), None);
    }
}

#[test]
fn texts_keep_their_characters() {
    assert_eq!(t("hi there").as_text(), Some("hi there".to_string()));
    assert_eq!(t("").as_text(), Some(String::new()));
    assert_eq!(t("é").as_text(), Some("é".to_string()));
    assert!(t("x").is_text());
    assert_eq!(t("x").raw(), None);
    assert_eq!(t("x").whole(), None);
}

#[test]
fn default_value_is_zero() {
    assert_eq!(Value::default().raw(), Some(0));
}

#[test]
fn clone_copies_the_value() {
    assert_eq!(n(4321).clone().raw(), Some(4321));
    assert_eq!(t("abc").clone().as_text(), Some("abc".to_string()));
}

#[test]
fn whole_part_rounds_toward_zero() {
    assert_eq!(n(2999).whole(), Some(2));
    assert_eq!(n(-2999).whole(), Some(-2));
    assert_eq!(n(999).whole(), Some(0));
    assert_eq!(n(-999).whole(), Some(0));
    assert_eq!(n(i64::MIN).whole(), Some(-9_223_372_036_854_775));
}

#[test]
fn truth_is_a_number_other_than_zero() {
    assert!(n(1).truthy());
    assert!(n(-1000).truthy());
    assert!(!n(0).truthy());
    assert!(!t("true").truthy());
    assert!(!t("").truthy());
}

#[test]
fn or_and_take_truth_values() {
    assert_eq!(raw(binary(Instruction::Or, n(0), n(5))), Some(1000));
    assert_eq!(raw(binary(Instruction::Or, n(0), t("x"))), Some(0));
    assert_eq!(raw(binary(Instruction::And, n(3), n(5))), Some(1000));
    assert_eq!(raw(binary(Instruction::And, n(3), n(0))), Some(0));
    assert_eq!(raw(binary(Instruction::And, n(3), t("x"))), Some(0));
}

#[test]
fn equality_never_holds_between_number_and_text() {
    assert_eq!(raw(binary(Instruction::Eq, n(5000), n(5000))), Some(1000));
    assert_eq!(raw(binary(Instruction::Eq, n(5000), n(5001))), Some(0));
    assert_eq!(raw(binary(Instruction::Eq, t("a"), t("a"))), Some(1000));
    assert_eq!(raw(binary(Instruction::Eq, t("a"), t("b"))), Some(0));
    assert_eq!(raw(binary(Instruction::Eq, n(5000), t("5"))), Some(0));
    assert_eq!(raw(binary(Instruction::Ne, n(5000), t("5"))), Some(1000));
    assert_eq!(raw(binary(Instruction::Ne, n(5000), n(5000))), Some(0));
}

#[test]
fn order_of_numbers_and_of_texts() {
    assert_eq!(raw(binary(Instruction::Lt, n(1), n(2))), Some(1000));
    assert_eq!(raw(binary(Instruction::Lt, n(2), n(1))), Some(0));
    assert_eq!(raw(binary(Instruction::Lt, n(2), n(2))), Some(0));
    assert_eq!(raw(binary(Instruction::Gt, n(2), n(1))), Some(1000));
    assert_eq!(raw(binary(Instruction::Gt, n(1), n(2))), Some(0));
    assert_eq!(raw(binary(Instruction::Lte, n(2), n(2))), Some(1000));
    assert_eq!(raw(binary(Instruction::Lte, n(3), n(2))), Some(0));
    assert_eq!(raw(binary(Instruction::Gte, n(2), n(2))), Some(1000));
    assert_eq!(raw(binary(Instruction::Gte, n(1), n(2))), Some(0));
    assert_eq!(raw(binary(Instruction::Lt, t("abc"), t("abd"))), Some(1000));
    assert_eq!(raw(binary(Instruction::Lt, t("ab"), t("abc"))), Some(1000));
    assert_eq!(raw(binary(Instruction::Lt, t("b"), t("abc"))), Some(0));
    assert_eq!(raw(binary(Instruction::Lt, t("z"), t("é"))), Some(1000));
    assert_eq!(raw(binary(Instruction::Gt, t("b"), t("abc"))), Some(1000));
    assert_eq!(raw(binary(Instruction::Lte, t("abc"), t("abc"))), Some(1000));
    assert_eq!(raw(binary(Instruction::Gte, t("abc"), t("abd"))), Some(0));
}

#[test]
fn a_number_is_ordered_with_a_text_as_a_text() {
    assert_eq!(raw(binary(Instruction::Lt, n(1000), t("a"))), Some(1000));
    assert_eq!(raw(binary(Instruction::Lt, t("a"), n(1000))), Some(0));
    assert_eq!(raw(binary(Instruction::Lte, n(5000), t("5"))), Some(1000));
    assert_eq!(raw(binary(Instruction::Gte, n(5000), t("5"))), Some(1000));
}

#[test]
fn addition_stays_in_range_and_joins_texts() {
    assert_eq!(raw(binary(Instruction::Add, n(1500), n(2250))), Some(3750));
    assert_eq!(raw(binary(Instruction::Add, n(i64::MAX), n(1))), Some(i64::MAX));
    assert_eq!(raw(binary(Instruction::Add, n(i64::MIN), n(-1))), Some(i64::MIN));
    assert_eq!(text(binary(Instruction::Add, t("hi"), t(" there"))), Some("hi there".to_string()));
    assert_eq!(text(binary(Instruction::Add, n(1500), t("x"))), Some("1.5x".to_string()));
    assert_eq!(text(binary(Instruction::Add, t("x"), n(-2000))), Some("x-2".to_string()));
}

#[test]
fn subtraction_stays_in_range_and_cuts_texts() {
    assert_eq!(raw(binary(Instruction::Sub, n(1500), n(2250))), Some(-750));
    assert_eq!(raw(binary(Instruction::Sub, n(i64::MIN), n(1))), Some(i64::MIN));
    assert_eq!(raw(binary(Instruction::Sub, n(i64::MAX), n(-1))), Some(i64::MAX));
    assert_eq!(text(binary(Instruction::Sub, t("abcb"), t("b"))), Some("abc".to_string()));
    assert_eq!(text(binary(Instruction::Sub, t("abc"), t("abc"))), Some(String::new()));
    assert_eq!(text(binary(Instruction::Sub, t("abc"), t("x"))), Some("abc".to_string()));
    assert_eq!(text(binary(Instruction::Sub, n(5000), t("5"))), Some(String::new()));
    assert!(binary(Instruction::Sub, t("a"), t("abc")).is_none());
}

#[test]
fn subtraction_from_a_text_of_wide_characters_fails() {
    assert!(binary(Instruction::Sub, t("naïve"), t("e")).is_none());
    assert!(binary(Instruction::Sub, t("日本"), t("本")).is_none());
}

#[test]
fn multiplication_divides_the_wrapped_product() {
    assert_eq!(raw(binary(Instruction::Mul, n(3000), n(2500))), Some(7500));
    assert_eq!(raw(binary(Instruction::Mul, n(-3000), n(2500))), Some(-7500));
    assert_eq!(raw(binary(Instruction::Mul, n(1), n(999))), Some(0));
    assert_eq!(raw(binary(Instruction::Mul, n(-1), n(999))), Some(0));
    assert_eq!(
        raw(binary(Instruction::Mul, n(i64::MAX), n(2000))),
        Some(i64::MAX.wrapping_mul(2000) / 1000)
    );
    assert!(binary(Instruction::Mul, t("a"), n(2000)).is_none());
    assert!(binary(Instruction::Mul, n(2000), t("a")).is_none());
}

#[test]
fn division_fails_on_zero_and_on_texts() {
    assert_eq!(raw(binary(Instruction::Div, n(10000), n(4000))), Some(2500));
    assert_eq!(raw(binary(Instruction::Div, n(-10000), n(4000))), Some(-2500));
    assert_eq!(raw(binary(Instruction::Div, n(1000), n(3000))), Some(333));
    assert!(binary(Instruction::Div, n(1000), n(0)).is_none());
    assert!(binary(Instruction::Div, t("a"), n(1000)).is_none());
    assert!(binary(Instruction::Div, n(1000), t("a")).is_none());
}

#[test]
fn remainder_takes_one_step_more_from_a_positive_number() {
    assert_eq!(raw(binary(Instruction::Mod, n(7000), n(3000))), Some(-2000));
    assert_eq!(raw(binary(Instruction::Mod, n(-7000), n(3000))), Some(-1000));
    assert_eq!(raw(binary(Instruction::Mod, n(7000), n(-3000))), Some(4000));
    assert_eq!(raw(binary(Instruction::Mod, n(0), n(3000))), Some(0));
    assert!(binary(Instruction::Mod, n(7000), n(0)).is_none());
    assert!(binary(Instruction::Mod, t("a"), n(3000)).is_none());
    assert!(binary(Instruction::Mod, n(3000), t("a")).is_none());
}

#[test]
fn remainder_that_would_leave_the_range_fails() {
    assert!(binary(Instruction::Mod, n(i64::MIN), n(-1)).is_none());
    assert!(binary(Instruction::Mod, n(i64::MAX), n(1)).is_none());
    assert!(binary(Instruction::Mod, n(i64::MAX), n(i64::MAX - 1)).is_none());
    assert_eq!(raw(binary(Instruction::Mod, n(i64::MIN), n(1))), Some(0));
    assert_eq!(raw(binary(Instruction::Mod, n(i64::MIN), n(i64::MIN))), Some(0));
}

#[test]
fn power_gives_a_number_for_numbers() {
    assert_eq!(raw(binary(Instruction::Exp, n(2000), n(3000))), Some(8000));
    assert!(binary(Instruction::Exp, t("a"), n(2000)).is_none());
    assert!(binary(Instruction::Exp, n(2000), t("a")).is_none());
}

#[test]
fn an_instruction_that_is_no_operation_computes_nothing() {
    assert!(binary(Instruction::Dup, n(1), n(2)).is_none());
    assert!(binary(Instruction::Not, n(1), n(2)).is_none());
    assert!(unary(Instruction::Add, n(1)).is_none());
    assert!(unary(Instruction::Goto, n(1)).is_none());
}

#[test]
fn absolute_value_and_square_root() {
    assert_eq!(raw(unary(Instruction::Abs, n(-3000))), Some(3000));
    assert_eq!(raw(unary(Instruction::Abs, n(3500))), Some(3500));
    assert_eq!(raw(unary(Instruction::Sqrt, n(16000))), Some(4000));
    assert_eq!(raw(unary(Instruction::Sqrt, n(2000))), Some(1414));
    assert_eq!(raw(unary(Instruction::Sqrt, n(-1000))), Some(i64::MIN));
    assert!(unary(Instruction::Abs, t("a")).is_none());
    assert!(unary(Instruction::Sqrt, t("a")).is_none());
}

#[test]
fn trigonometry_gives_a_number_for_a_number() {
    assert_eq!(raw(unary(Instruction::Sin, n(90000))), Some(1000));
    assert_eq!(raw(unary(Instruction::Cos, n(0))), Some(1000));
    assert_eq!(raw(unary(Instruction::Tan, n(45000))), Some(1000));
    assert_eq!(raw(unary(Instruction::Asin, n(1000))), Some(90000));
    assert_eq!(raw(unary(Instruction::Acos, n(1000))), Some(0));
    assert_eq!(raw(unary(Instruction::Atan, n(1000))), Some(45000));
    for inst in [
        Instruction::Sin,
        Instruction::Cos,
        Instruction::Tan,
        Instruction::Asin,
        Instruction::Acos,
        Instruction::Atan,
    ] {
        assert!(unary(inst, t("a")).is_none());
    }
}

#[test]
fn factorial_of_the_whole_part() {
    assert_eq!(raw(unary(Instruction::Fac, n(0))), Some(1000));
    assert_eq!(raw(unary(Instruction::Fac, n(1000))), Some(1000));
    assert_eq!(raw(unary(Instruction::Fac, n(5000))), Some(120_000));
    assert_eq!(raw(unary(Instruction::Fac, n(5999))), Some(120_000));
    assert_eq!(raw(unary(Instruction::Fac, n(18000))), Some(6_402_373_705_728_000_000));
    assert_eq!(raw(unary(Instruction::Fac, n(-1000))), Some(i64::MIN));
    assert_eq!(raw(unary(Instruction::Fac, n(-999))), Some(1000));
    assert!(unary(Instruction::Fac, n(19000)).is_none());
    assert!(unary(Instruction::Fac, n(i64::MAX)).is_none());
    assert!(unary(Instruction::Fac, t("a")).is_none());
}

#[test]
fn not_is_one_for_zero_only() {
    assert_eq!(raw(unary(Instruction::Not, n(0))), Some(1000));
    assert_eq!(raw(unary(Instruction::Not, n(7))), Some(0));
    assert_eq!(raw(unary(Instruction::Not, t(""))), Some(0));
    assert_eq!(raw(unary(Instruction::Not, t("a"))), Some(0));
}

#[test]
fn increment_adds_one_or_a_blank() {
    assert_eq!(raw(unary(Instruction::Inc, n(1500))), Some(2500));
    assert_eq!(raw(unary(Instruction::Inc, n(i64::MAX))), Some(i64::MAX));
    assert_eq!(text(unary(Instruction::Inc, t("a"))), Some("a ".to_string()));
}

#[test]
fn decrement_takes_one_or_the_last_character() {
    assert_eq!(raw(unary(Instruction::Dec, n(1500))), Some(500));
    assert_eq!(raw(unary(Instruction::Dec, n(i64::MIN))), Some(i64::MIN));
    assert_eq!(text(unary(Instruction::Dec, t("abc"))), Some("ab".to_string()));
    assert_eq!(text(unary(Instruction::Dec, t(""))), Some(String::new()));
    assert_eq!(text(unary(Instruction::Dec, t("éa"))), Some("é".to_string()));
    assert!(unary(Instruction::Dec, t("aé")).is_none());
}
