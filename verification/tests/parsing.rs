use yolol_runner::ast::BinaryOp;
use yolol_runner::ast::Expr;
use yolol_runner::ast::Tree;
use yolol_runner::ast::UnaryOp;
use yolol_runner::interner::get_global;
use yolol_runner::interner::get_local;
use yolol_runner::interner::Interner;
use yolol_runner::lexer::to_chars;
use yolol_runner::lexer::tokenize;
use yolol_runner::lexer::Token;
use yolol_runner::lexer::TokenKind;
use yolol_runner::parser::parse;

type E = Expr<String>;
type T = Tree<String>;

fn line(text: &str) -> T {
    parse(text, &mut Interner::new())
}

/// The only statement of a line that holds one.
fn only(text: &str) -> T {
    match line(text) {
        Tree::Sequence(first, rest) => {
            assert_eq!(*rest, Tree::Empty);
            *first
        },
        other => panic!("not one statement: {:?}", other),
    }
}

fn expression(text: &str) -> E {
    match only(text) {
        Tree::Expression(e) => e,
        other => panic!("not an expression: {:?}", other),
    }
}

fn num(raw: i64) -> Box<E> {
    Box::new(Expr::Numerical(raw))
}

fn var(index: usize) -> Box<E> {
    Box::new(Expr::LocalVariable(index))
}

fn bin(op: BinaryOp, l: Box<E>, r: Box<E>) -> Box<E> {
    Box::new(Expr::Binary(op, l, r))
}

fn un(op: UnaryOp, e: Box<E>) -> Box<E> {
    Box::new(Expr::Unary(op, e))
}

fn kinds(text: &str) -> Option<Vec<TokenKind>> {
    tokenize(&to_chars(text)).map(|tokens| tokens.iter().map(|t| t.kind).collect())
}

#[test]
fn interner_gives_indices_in_the_order_of_first_sight() {
    let mut names = Interner::new();
    assert_eq!(names.count(), 0);
    assert_eq!(get_local(&mut names, "a"), 0);
    assert_eq!(get_local(&mut names, "b"), 1);
    assert_eq!(get_local(&mut names, "a"), 0);
    assert_eq!(names.count(), 2);
}

#[test]
fn interner_folds_case() {
    let mut names = Interner::new();
    assert_eq!(get_local(&mut names, "Speed"), 0);
    assert_eq!(get_local(&mut names, "SPEED"), 0);
    assert_eq!(get_local(&mut names, "speed"), 0);
    assert_eq!(names.name(0), "speed");
    assert_eq!(names.lookup("sPeEd", false), Some(0));
}

#[test]
fn interner_keeps_locals_and_globals_apart() {
    let mut names = Interner::new();
    assert_eq!(get_local(&mut names, "a"), 0);
    assert_eq!(get_global(&mut names, "a"), 1);
    assert_eq!(get_local(&mut names, "a"), 0);
    assert_eq!(get_global(&mut names, "A"), 1);
    assert!(!names.is_global(0));
    assert!(names.is_global(1));
    assert_eq!(names.lookup("a", true), Some(1));
    assert_eq!(names.lookup("a", false), Some(0));
    assert_eq!(names.lookup("b", true), None);
}

#[test]
fn lexer_takes_the_longest_operator() {
    assert_eq!(
        kinds("a+=b++ - --c"),
        Some(vec![
            TokenKind::Local,
            TokenKind::PlusAssign,
            TokenKind::Local,
            TokenKind::Increment,
            TokenKind::Minus,
            TokenKind::Decrement,
            TokenKind::Local,
        ])
    );
    assert_eq!(
        kinds("<= < >= > == = != ! ( ) * / % ^ *= /= %= ^= -="),
        Some(vec![
            TokenKind::LessEqual,
            TokenKind::Less,
            TokenKind::GreaterEqual,
            TokenKind::Greater,
            TokenKind::Equal,
            TokenKind::Assign,
            TokenKind::NotEqual,
            TokenKind::Bang,
            TokenKind::LeftParen,
            TokenKind::RightParen,
            TokenKind::Star,
            TokenKind::Slash,
            TokenKind::Percent,
            TokenKind::Caret,
            TokenKind::StarAssign,
            TokenKind::SlashAssign,
            TokenKind::PercentAssign,
            TokenKind::CaretAssign,
            TokenKind::MinusAssign,
        ])
    );
}

#[test]
fn lexer_knows_the_reserved_words() {
    assert_eq!(
        kinds("if then else end goto not and or abs sqrt sin cos tan asin acos atan"),
        Some(vec![
            TokenKind::If,
            TokenKind::Then,
            TokenKind::Else,
            TokenKind::End,
            TokenKind::Goto,
            TokenKind::Not,
            TokenKind::And,
            TokenKind::Or,
            TokenKind::Abs,
            TokenKind::Sqrt,
            TokenKind::Sin,
            TokenKind::Cos,
            TokenKind::Tan,
            TokenKind::Asin,
            TokenKind::Acos,
            TokenKind::Atan,
        ])
    );
    assert_eq!(
        kinds("iffy ending IF _if :if a1 :"),
        Some(vec![
            TokenKind::Local,
            TokenKind::Local,
            TokenKind::Local,
            TokenKind::Local,
            TokenKind::Global,
            TokenKind::Local,
            TokenKind::Global,
        ])
    );
}

#[test]
fn lexer_places_its_tokens() {
    assert_eq!(
        tokenize(&to_chars("  ab \"c d\"\t:e//x y")),
        Some(vec![
            Token { kind: TokenKind::Local, start: 2, end: 4 },
            Token { kind: TokenKind::Text, start: 5, end: 10 },
            Token { kind: TokenKind::Global, start: 11, end: 13 },
            Token { kind: TokenKind::Comment, start: 13, end: 18 },
        ])
    );
    assert_eq!(tokenize(&to_chars("")), Some(vec![]));
    assert_eq!(tokenize(&to_chars("   ")), Some(vec![]));
}

#[test]
fn lexer_reads_numbers_in_thousandths() {
    assert_eq!(kinds("1"), Some(vec![TokenKind::Number(1000)]));
    assert_eq!(kinds("1.5"), Some(vec![TokenKind::Number(1500)]));
    assert_eq!(kinds("1.05"), Some(vec![TokenKind::Number(1050)]));
    assert_eq!(kinds("1.005"), Some(vec![TokenKind::Number(1005)]));
    assert_eq!(kinds("1.0059"), Some(vec![TokenKind::Number(1005)]));
    assert_eq!(kinds(".5"), Some(vec![TokenKind::Number(500)]));
    assert_eq!(kinds("007"), Some(vec![TokenKind::Number(7000)]));
    assert_eq!(kinds("0"), Some(vec![TokenKind::Number(0)]));
}

#[test]
fn lexer_rejects_what_begins_no_token() {
    assert_eq!(kinds("a # b"), None);
    assert_eq!(kinds("a = \"open"), None);
    assert_eq!(kinds("1."), None);
    assert_eq!(kinds("a.b"), None);
    assert_eq!(kinds("é"), None);
}

#[test]
fn numeric_literal_at_the_edge_of_the_range() {
    assert_eq!(expression("9223372036854.775"), Expr::Numerical(9_223_372_036_854_775));
    assert_eq!(expression("9999999999999.999"), Expr::Numerical(9_999_999_999_999_999));
    assert_eq!(expression("9223372036854775.807"), Expr::Numerical(i64::MAX));
    assert_eq!(expression("9223372036854775.808"), Expr::Numerical(i64::MAX));
    assert_eq!(expression("9223372036854775.999"), Expr::Numerical(i64::MAX));
    assert_eq!(expression("9223372036854775.806"), Expr::Numerical(i64::MAX - 1));
    assert_eq!(expression("9223372036854775"), Expr::Numerical(9_223_372_036_854_775_000));
    assert_eq!(expression("99999999999999999999999999"), Expr::Numerical(i64::MAX));
    assert_eq!(expression("99999999999999999999999999.5"), Expr::Numerical(i64::MAX));
    assert_eq!(expression("-9223372036854775.807"), Expr::Numerical(i64::MIN + 1));
    assert_eq!(expression("-9223372036854775.808"), Expr::Numerical(i64::MIN));
    assert_eq!(expression("-99999999999999999999999999"), Expr::Numerical(i64::MIN));
    assert_eq!(expression("9223372036854776"), Expr::Numerical(i64::MAX));
    assert_eq!(expression("-9223372036854776"), Expr::Numerical(i64::MIN));
    assert_eq!(expression("-9223372036854775"), Expr::Numerical(-9_223_372_036_854_775_000));
}

#[test]
fn literals_and_variables() {
    assert_eq!(expression("42"), Expr::Numerical(42000));
    assert_eq!(expression("-1.5"), Expr::Numerical(-1500));
    assert_eq!(expression("\"a b\""), Expr::String("a b".to_string()));
    assert_eq!(expression("\"\""), Expr::String(String::new()));
    assert_eq!(expression("x"), Expr::LocalVariable(0));
    assert_eq!(expression(":x"), Expr::GlobalVariable(0));
    assert_eq!(expression("(x)"), Expr::LocalVariable(0));
}

#[test]
fn precedence_from_loose_to_tight() {
    assert_eq!(
        expression("a or b + c == d * e ^ f"),
        *bin(BinaryOp::Or, var(0), bin(BinaryOp::Add, var(1), bin(BinaryOp::Eq, var(2), bin(BinaryOp::Mul, var(3), bin(BinaryOp::Exp, var(4), var(5))))))
    );
    assert_eq!(
        expression("a ^ b * c == d + e and f"),
        *bin(
            BinaryOp::And,
            bin(BinaryOp::Add, bin(BinaryOp::Eq, bin(BinaryOp::Mul, bin(BinaryOp::Exp, var(0), var(1)), var(2)), var(3)), var(4)),
            var(5)
        )
    );
    assert_eq!(expression("1 + 2 * 3"), *bin(BinaryOp::Add, num(1000), bin(BinaryOp::Mul, num(2000), num(3000))));
    assert_eq!(expression("(1 + 2) * 3"), *bin(BinaryOp::Mul, bin(BinaryOp::Add, num(1000), num(2000)), num(3000)));
    assert_eq!(expression("1 < 2 + 3"), *bin(BinaryOp::Add, bin(BinaryOp::Lt, num(1000), num(2000)), num(3000)));
}

#[test]
fn binary_operators_group_to_the_left_but_power() {
    assert_eq!(expression("1 - 2 - 3"), *bin(BinaryOp::Sub, bin(BinaryOp::Sub, num(1000), num(2000)), num(3000)));
    assert_eq!(expression("1 / 2 % 3"), *bin(BinaryOp::Mod, bin(BinaryOp::Div, num(1000), num(2000)), num(3000)));
    assert_eq!(expression("a and b or c"), *bin(BinaryOp::Or, bin(BinaryOp::And, var(0), var(1)), var(2)));
    assert_eq!(expression("a < b >= c"), *bin(BinaryOp::Gte, bin(BinaryOp::Lt, var(0), var(1)), var(2)));
    assert_eq!(expression("2 ^ 3 ^ 4"), *bin(BinaryOp::Exp, num(2000), bin(BinaryOp::Exp, num(3000), num(4000))));
}

#[test]
fn every_binary_operator() {
    for (text, op) in [
        ("a and b", BinaryOp::And),
        ("a or b", BinaryOp::Or),
        ("a + b", BinaryOp::Add),
        ("a - b", BinaryOp::Sub),
        ("a == b", BinaryOp::Eq),
        ("a != b", BinaryOp::Ne),
        ("a < b", BinaryOp::Lt),
        ("a > b", BinaryOp::Gt),
        ("a <= b", BinaryOp::Lte),
        ("a >= b", BinaryOp::Gte),
        ("a * b", BinaryOp::Mul),
        ("a / b", BinaryOp::Div),
        ("a % b", BinaryOp::Mod),
        ("a ^ b", BinaryOp::Exp),
    ] {
        assert_eq!(expression(text), *bin(op, var(0), var(1)));
    }
}

#[test]
fn unary_operators() {
    for (text, op) in [
        ("not a", UnaryOp::Not),
        ("abs a", UnaryOp::Abs),
        ("sqrt a", UnaryOp::Sqrt),
        ("sin a", UnaryOp::Sin),
        ("asin a", UnaryOp::Asin),
        ("cos a", UnaryOp::Cos),
        ("acos a", UnaryOp::Acos),
        ("tan a", UnaryOp::Tan),
        ("atan a", UnaryOp::Atan),
        ("-a", UnaryOp::Neg),
        ("a!", UnaryOp::Fac),
    ] {
        assert_eq!(expression(text), *un(op, var(0)));
    }
    assert_eq!(expression("not a + b"), *un(UnaryOp::Not, bin(BinaryOp::Add, var(0), var(1))));
    assert_eq!(expression("not a and b"), *bin(BinaryOp::And, un(UnaryOp::Not, var(0)), var(1)));
    assert_eq!(expression("abs a + b"), *bin(BinaryOp::Add, un(UnaryOp::Abs, var(0)), var(1)));
    assert_eq!(expression("abs a ^ b"), *bin(BinaryOp::Exp, un(UnaryOp::Abs, var(0)), var(1)));
    assert_eq!(expression("abs sqrt a"), *un(UnaryOp::Abs, un(UnaryOp::Sqrt, var(0))));
    assert_eq!(expression("abs -3"), *un(UnaryOp::Abs, num(-3000)));
    assert_eq!(expression("-a!"), *un(UnaryOp::Neg, un(UnaryOp::Fac, var(0))));
    assert_eq!(expression("5!"), *un(UnaryOp::Fac, num(5000)));
    assert_eq!(expression("(a + 1)!!"), *un(UnaryOp::Fac, un(UnaryOp::Fac, bin(BinaryOp::Add, var(0), num(1000)))));
    assert_eq!(expression("a - -3"), *bin(BinaryOp::Sub, var(0), num(-3000)));
    assert_eq!(expression("a-3"), *bin(BinaryOp::Sub, var(0), num(3000)));
    assert_eq!(expression("-(3)"), *un(UnaryOp::Neg, num(3000)));
    assert_eq!(expression("- 3"), *un(UnaryOp::Neg, num(3000)));
}

#[test]
fn steps_of_a_variable() {
    assert_eq!(expression("++a"), Expr::PreInc(0));
    assert_eq!(expression("--a"), Expr::PreDec(0));
    assert_eq!(expression("a++"), Expr::PostInc(0));
    assert_eq!(expression("a--"), Expr::PostDec(0));
    assert_eq!(expression("++ :a"), Expr::PreInc(0));
    assert_eq!(expression("a ++"), Expr::PostInc(0));
    assert_eq!(
        expression("a++ + ++b"),
        Expr::Binary(BinaryOp::Add, Box::new(Expr::PostInc(0)), Box::new(Expr::PreInc(1)))
    );
}

#[test]
fn statements() {
    assert_eq!(only("a = 1"), Tree::Assign(0, Expr::Numerical(1000)));
    assert_eq!(only(":a=b"), Tree::Assign(0, Expr::LocalVariable(1)));
    for (text, op) in [
        ("a += 1", BinaryOp::Add),
        ("a -= 1", BinaryOp::Sub),
        ("a *= 1", BinaryOp::Mul),
        ("a /= 1", BinaryOp::Div),
        ("a %= 1", BinaryOp::Mod),
        ("a ^= 1", BinaryOp::Exp),
    ] {
        assert_eq!(only(text), Tree::AssignOp(op, 0, Expr::Numerical(1000)));
    }
    assert_eq!(only("goto a + 1"), Tree::Goto(*bin(BinaryOp::Add, var(0), num(1000))));
    assert_eq!(only("// a = 1"), Tree::Comment);
    assert_eq!(only("a == 1"), Tree::Expression(*bin(BinaryOp::Eq, var(0), num(1000))));
}

#[test]
fn statements_follow_one_another() {
    let one: T = Tree::Assign(0, Expr::Numerical(1000));
    let two: T = Tree::Assign(1, Expr::Numerical(2000));
    let both = Tree::Sequence(
        Box::new(one),
        Box::new(Tree::Sequence(Box::new(two), Box::new(Tree::Empty))),
    );
    assert_eq!(line("a=1 b=2"), both);
    assert_eq!(line("a=1b=2"), both);
    assert_eq!(line("  a = 1\tb = 2  "), both);
    assert_eq!(
        line("a=1 // b=2"),
        Tree::Sequence(
            Box::new(Tree::Assign(0, Expr::Numerical(1000))),
            Box::new(Tree::Sequence(Box::new(Tree::Comment), Box::new(Tree::Empty))),
        )
    );
}

#[test]
fn empty_line_is_empty() {
    assert_eq!(line(""), Tree::Empty);
    assert_eq!(line("   "), Tree::Empty);
}

#[test]
fn conditionals() {
    let set = |v: usize, n: i64| -> Box<T> {
        Box::new(Tree::Sequence(
            Box::new(Tree::Assign(v, Expr::Numerical(n))),
            Box::new(Tree::Empty),
        ))
    };
    assert_eq!(only("if a then b=1 end"), Tree::IfThen(Expr::LocalVariable(0), set(1, 1000)));
    assert_eq!(
        only("if a then b=1 else b=2 end"),
        Tree::IfThenElse(Expr::LocalVariable(0), set(1, 1000), set(1, 2000))
    );
    assert_eq!(only("if a then end"), Tree::IfThen(Expr::LocalVariable(0), Box::new(Tree::Empty)));
    assert_eq!(
        only("if a then if b then c=1 end else c=2 end"),
        Tree::IfThenElse(
            Expr::LocalVariable(0),
            Box::new(Tree::Sequence(
                Box::new(Tree::IfThen(Expr::LocalVariable(1), set(2, 1000))),
                Box::new(Tree::Empty),
            )),
            set(2, 2000),
        )
    );
}

#[test]
fn a_line_that_does_not_parse_is_an_error() {
    for text in [
        "a = ",
        "a + ",
        "= 1",
        "if a then b=1",
        "if a b=1 end",
        "end",
        "else",
        "a = (1",
        "a = 1)",
        "goto",
        "\"b\"++",
        "++1",
        "a = 1 $ 2",
        "a = \"open",
        "if = 1",
    ] {
        assert_eq!(line(text), Tree::Error, "{}", text);
    }
}

#[test]
fn variables_of_a_failed_line_keep_their_indices() {
    let mut names = Interner::new();
    assert_eq!(parse("a = b +", &mut names), Tree::Error);
    assert_eq!(names.count(), 2);
    assert_eq!(parse("b = c", &mut names), Tree::Sequence(
        Box::new(Tree::Assign(1, Expr::LocalVariable(2))),
        Box::new(Tree::Empty),
    ));
}

#[test]
fn variables_are_numbered_in_the_order_of_the_text() {
    let mut names = Interner::new();
    parse("c = a + :b * A", &mut names);
    assert_eq!(names.count(), 3);
    assert_eq!(names.lookup("c", false), Some(0));
    assert_eq!(names.lookup("a", false), Some(1));
    assert_eq!(names.lookup("b", true), Some(2));
}

#[test]
fn words_other_than_the_four_can_name_variables() {
    assert_eq!(only("then = 1"), Tree::Assign(0, Expr::Numerical(1000)));
    assert_eq!(only("abs = 3"), Tree::Assign(0, Expr::Numerical(3000)));
    assert_eq!(only("not += 1"), Tree::AssignOp(BinaryOp::Add, 0, Expr::Numerical(1000)));
    assert_eq!(only("x = and + or"), Tree::Assign(0, *bin(BinaryOp::Add, var(1), var(2))));
    assert_eq!(only("x = sin + 1"), Tree::Assign(0, *bin(BinaryOp::Add, var(1), num(1000))));
    assert_eq!(only("x = sin sin"), Tree::Assign(0, *un(UnaryOp::Sin, var(1))));
    assert_eq!(expression("sqrt++"), Expr::PostInc(0));
    assert_eq!(expression("++tan"), Expr::PreInc(0));
    assert_eq!(
        only("if then then then = 1 end"),
        Tree::IfThen(
            Expr::LocalVariable(0),
            Box::new(Tree::Sequence(
                Box::new(Tree::Assign(0, Expr::Numerical(1000))),
                Box::new(Tree::Empty),
            )),
        )
    );
    assert_eq!(
        line("a = 1 * not b"),
        Tree::Sequence(
            Box::new(Tree::Assign(0, *bin(BinaryOp::Mul, num(1000), var(1)))),
            Box::new(Tree::Sequence(
                Box::new(Tree::Expression(Expr::LocalVariable(2))),
                Box::new(Tree::Empty),
            )),
        )
    );
    for text in ["if = 1", "else = 1", "end = 1", "goto = 1", "x = if", "x = end + 1"] {
        assert_eq!(line(text), Tree::Error, "{}", text);
    }
}
