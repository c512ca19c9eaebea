use craft::numeral::{divide, parse_int};
use craft::{
    ASTNodeType, ErrorKind, SimpleASTNode, SimpleParser, SimpleScript, TraceEvent,
};

fn value_of(code: &str) -> i32 {
    let mut script = SimpleScript::new(false);
    match script.run(code) {
        Ok(value) => value,
        Err(e) => panic!("{} failed: {}", code, e.message()),
    }
}

fn error_of(code: &str) -> (ErrorKind, String) {
    let mut script = SimpleScript::new(false);
    match script.run(code) {
        Ok(value) => panic!("{} yields {}", code, value),
        Err(e) => (e.kind(), e.message().to_string()),
    }
}

#[test]
fn a_literal_statement_has_the_value_of_the_literal() {
    assert_eq!(value_of("0;"), 0);
    assert_eq!(value_of("7;"), 7);
    assert_eq!(value_of("45;"), 45);
    assert_eq!(value_of("007;"), 7);
    assert_eq!(value_of("2147483647;"), 2147483647);
}

#[test]
fn a_literal_too_large_is_an_error() {
    assert_eq!(
        error_of("2147483648;"),
        (ErrorKind::InvalidLiteral, "invalid integer literal 2147483648".to_string())
    );
    assert_eq!(error_of("99999999999999999999;").0, ErrorKind::InvalidLiteral);
}

#[test]
fn sums_group_from_the_left() {
    assert_eq!(value_of("1+2-3;"), 0);
    assert_eq!(value_of("10-4-3;"), 3);
    assert_eq!(value_of("2-1-5*3;"), -14);
    assert_eq!(value_of("1+2+3+4+5*6+8+9+10;"), 67);
}

#[test]
fn precedence_and_parentheses() {
    assert_eq!(value_of("2+3*4;"), 14);
    assert_eq!(value_of("(2+3)*4;"), 20);
    assert_eq!(value_of("2*(3+4)*5;"), 70);
    assert_eq!(value_of("2+3*5;"), 17);
}

#[test]
fn a_declared_variable_can_be_used() {
    assert_eq!(value_of("int a = 5; a+1;"), 6);
    let mut script = SimpleScript::new(false);
    assert_eq!(script.run("int a = 5;").unwrap(), 5);
    assert_eq!(script.get("a"), Some(5));
    assert_eq!(script.run("a+1;").unwrap(), 6);
}

#[test]
fn an_assignment_replaces_the_value() {
    assert_eq!(value_of("int a = 1; a = 2; a;"), 2);
    let mut script = SimpleScript::new(false);
    assert_eq!(script.run("int a = 1;").unwrap(), 1);
    assert_eq!(script.run("a = 2;").unwrap(), 2);
    assert_eq!(script.run("a;").unwrap(), 2);
    assert_eq!(script.get("a"), Some(2));
}

#[test]
fn an_assignment_to_an_undeclared_variable_fails() {
    let mut script = SimpleScript::new(false);
    let error = script.run("b = 1;").unwrap_err();
    assert_eq!(error.kind(), ErrorKind::UndefinedVariable);
    assert_eq!(error.message(), "you dont define variable b");
    assert_eq!(script.get("b"), None);
}

#[test]
fn an_error_keeps_what_earlier_statements_did() {
    let mut script = SimpleScript::new(false);
    let error = script.run("int a = 3; b = 1; a = 4;").unwrap_err();
    assert_eq!(error.kind(), ErrorKind::UndefinedVariable);
    assert_eq!(script.get("a"), Some(3));
    assert_eq!(script.get("b"), None);
}

#[test]
fn a_text_that_is_no_program_is_not_evaluated() {
    let mut script = SimpleScript::new(true);
    let error = script.run("int a = 3; +2;").unwrap_err();
    assert_eq!(error.kind(), ErrorKind::InvalidInput);
    assert_eq!(error.message(), "unknown statement");
    assert_eq!(script.get("a"), None);
    assert!(script.trace().is_empty());
}

#[test]
fn sessions_share_nothing() {
    let mut first = SimpleScript::new(false);
    let mut second = SimpleScript::new(false);
    assert_eq!(first.run("int a = 5; a;").unwrap(), 5);
    assert_eq!(second.get("a"), None);
    assert_eq!(second.run("int a = 5; a;").unwrap(), 5);
    assert_eq!(first.run("a = 9;").unwrap(), 9);
    assert_eq!(second.get("a"), Some(5));
}

#[test]
fn a_declaration_without_a_value_defines_zero() {
    let mut script = SimpleScript::new(false);
    assert_eq!(script.run("int x;").unwrap(), 0);
    assert_eq!(script.get("x"), Some(0));
}

#[test]
fn a_declaration_may_be_repeated() {
    let mut script = SimpleScript::new(false);
    assert_eq!(script.run("int x = 1; int x = 2; x;").unwrap(), 2);
    assert_eq!(script.get("x"), Some(2));
}

#[test]
fn an_unknown_variable_counts_as_zero_and_is_reported() {
    let mut script = SimpleScript::new(false);
    assert_eq!(script.run("int a = b+3;").unwrap(), 3);
    assert_eq!(script.get("a"), Some(3));
    assert_eq!(script.get("b"), None);
    assert_eq!(script.trace(), &vec![TraceEvent::UnknownVariable("b".to_string())]);
    script.clear_trace();
    assert!(script.trace().is_empty());
    assert_eq!(script.get("a"), Some(3));
}

#[test]
fn the_value_of_a_program_is_that_of_its_last_statement() {
    assert_eq!(value_of("1; 2; 3;"), 3);
    assert_eq!(value_of(""), 0);
    assert_eq!(value_of("int age = 45+2; age= 20; age+10*2;"), 40);
}

#[test]
fn a_quotient_is_rounded_toward_zero() {
    assert_eq!(value_of("7/2;"), 3);
    assert_eq!(value_of("(0-7)/2;"), -3);
    assert_eq!(value_of("7/(0-2);"), -3);
    assert_eq!(value_of("(0-7)/(0-2);"), 3);
    assert_eq!(value_of("8/4/2;"), 1);
    assert_eq!(divide(7, 2), 3);
    assert_eq!(divide(-7, 2), -3);
    assert_eq!(divide(7, -2), -3);
    assert_eq!(divide(-7, -2), 3);
    assert_eq!(divide(i32::MIN, 1), i32::MIN);
    assert_eq!(divide(i32::MIN, 2), -1073741824);
    assert_eq!(divide(i32::MAX, -1), -2147483647);
    assert_eq!(divide(0, -5), 0);
}

#[test]
fn a_division_by_zero_is_an_error() {
    assert_eq!(
        error_of("1/0;"),
        (ErrorKind::DivisionByZero, "attempt to divide by zero".to_string())
    );
    assert_eq!(error_of("int a; 5/a;").0, ErrorKind::DivisionByZero);
}

#[test]
fn a_result_that_does_not_fit_is_an_error() {
    assert_eq!(
        error_of("2147483647+1;"),
        (ErrorKind::Overflow, "arithmetic overflow".to_string())
    );
    assert_eq!(error_of("0-2147483647-2;").0, ErrorKind::Overflow);
    assert_eq!(error_of("65536*32768;").0, ErrorKind::Overflow);
    assert_eq!(error_of("(0-2147483647-1)/(0-1);").0, ErrorKind::Overflow);
    assert_eq!(value_of("0-2147483647-1;"), i32::MIN);
    assert_eq!(value_of("65536*32767;"), 2147418112);
}

#[test]
fn a_verbose_session_reports_each_step() {
    let mut script = SimpleScript::new(true);
    assert!(script.verbose());
    assert_eq!(script.run("1+2;").unwrap(), 3);
    assert_eq!(
        script.trace(),
        &vec![
            TraceEvent::Calculating(ASTNodeType::Program),
            TraceEvent::Calculating(ASTNodeType::Additive),
            TraceEvent::Calculating(ASTNodeType::IntLiteral),
            TraceEvent::Result(1),
            TraceEvent::Calculating(ASTNodeType::IntLiteral),
            TraceEvent::Result(2),
            TraceEvent::Result(3),
            TraceEvent::Result(3),
        ]
    );
}

#[test]
fn a_verbose_session_reports_no_result_for_what_failed() {
    let mut script = SimpleScript::new(true);
    assert!(script.run("1/0;").is_err());
    assert_eq!(
        script.trace(),
        &vec![
            TraceEvent::Calculating(ASTNodeType::Program),
            TraceEvent::Calculating(ASTNodeType::Multiplicative),
            TraceEvent::Calculating(ASTNodeType::IntLiteral),
            TraceEvent::Result(1),
            TraceEvent::Calculating(ASTNodeType::IntLiteral),
            TraceEvent::Result(0),
        ]
    );
}

#[test]
fn a_quiet_session_reports_no_steps() {
    let mut script = SimpleScript::new(false);
    assert!(!script.verbose());
    assert_eq!(script.run("int a = 1+2; a*2;").unwrap(), 6);
    assert!(script.trace().is_empty());
}

fn literal(text: &str) -> SimpleASTNode {
    SimpleASTNode::new(ASTNodeType::IntLiteral, text)
}

fn binary(kind: ASTNodeType, op: &str, left: SimpleASTNode, right: SimpleASTNode) -> SimpleASTNode {
    let mut node = SimpleASTNode::new(kind, op);
    node.add_child(left);
    node.add_child(right);
    node
}

#[test]
fn evaluate_walks_a_tree_built_by_hand() {
    let mut script = SimpleScript::new(false);
    let tree = binary(
        ASTNodeType::Additive,
        "-",
        literal("10"),
        binary(ASTNodeType::Multiplicative, "*", literal("2"), literal("3")),
    );
    assert_eq!(script.evaluate(&tree).unwrap(), 4);
}

#[test]
fn evaluate_takes_the_tree_of_the_parser() {
    let root = SimpleParser::new().parse("int a = 2; a*a*a;").unwrap();
    let mut script = SimpleScript::new(false);
    assert_eq!(script.evaluate(&root).unwrap(), 8);
    assert_eq!(script.get("a"), Some(2));
}

#[test]
fn an_operator_that_is_none_counts_as_zero_and_is_reported() {
    let mut script = SimpleScript::new(false);
    let tree = binary(ASTNodeType::Additive, "%", literal("7"), literal("2"));
    assert_eq!(script.evaluate(&tree).unwrap(), 0);
    assert_eq!(script.trace(), &vec![TraceEvent::UnsupportedOperator("%".to_string())]);
    let tree = binary(ASTNodeType::Multiplicative, "**", literal("7"), literal("2"));
    assert_eq!(script.evaluate(&tree).unwrap(), 0);
}

#[test]
fn a_literal_node_may_carry_a_sign() {
    let mut script = SimpleScript::new(false);
    assert_eq!(script.evaluate(&literal("-12")).unwrap(), -12);
    assert_eq!(script.evaluate(&literal("+12")).unwrap(), 12);
    assert_eq!(script.evaluate(&literal("-2147483648")).unwrap(), i32::MIN);
    let error = script.evaluate(&literal("12a")).unwrap_err();
    assert_eq!(error.kind(), ErrorKind::InvalidLiteral);
    assert_eq!(error.message(), "invalid integer literal 12a");
}

#[test]
fn nodes_of_other_kinds_have_the_value_zero() {
    let mut script = SimpleScript::new(false);
    let mut node = SimpleASTNode::new(ASTNodeType::Primary, "x");
    node.add_child(literal("5"));
    assert_eq!(script.evaluate(&node).unwrap(), 0);
    let node = SimpleASTNode::new(ASTNodeType::ExpressionStmt, "");
    assert_eq!(script.evaluate(&node).unwrap(), 0);
}

#[test]
fn parse_int_reads_what_rust_reads() {
    for text in [
        "", "+", "-", "0", "-0", "+0", "1", "-1", "+1", "0012", "12a", "a12", "1 2", " 1", "--1",
        "+-1", "2147483647", "2147483648", "-2147483648", "-2147483649", "4294967296",
        "99999999999999999999999999", "-99999999999999999999999999", "１２",
    ] {
        assert_eq!(parse_int(text), text.parse::<i32>().ok(), "{:?}", text);
    }
    assert_eq!(parse_int("2147483647"), Some(2147483647));
    assert_eq!(parse_int("-2147483648"), Some(-2147483648));
    assert_eq!(parse_int("2147483648"), None);
    assert_eq!(parse_int(""), None);
}
