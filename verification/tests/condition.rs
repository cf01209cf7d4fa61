use templus::compiler::ast::{Expression, IfExpr, Op};
use templus::compiler::error::{RenderFault, TemplusError};
use templus::text::{parse_i64, same_bytes, same_text};
use templus::value::Value;

fn ctx() -> Value {
    Value::Object(vec![
        ("t".to_string(), Value::Bool(true)),
        ("f".to_string(), Value::Bool(false)),
        ("zero".to_string(), Value::Number(0)),
        ("n".to_string(), Value::Number(7)),
        ("big".to_string(), Value::OtherNumber),
        ("s".to_string(), Value::String("abc".to_string())),
        ("empty".to_string(), Value::String(String::new())),
        ("list".to_string(), Value::Array(vec![Value::Null])),
        ("none".to_string(), Value::Array(vec![])),
        ("obj".to_string(), Value::Object(vec![])),
        ("null".to_string(), Value::Null),
        ("n".to_string(), Value::Number(8)),
    ])
}

fn unary(left: Expression) -> IfExpr {
    IfExpr { left: Box::new(left), right: None, op: None }
}

fn binary(left: Expression, op: Op, right: Expression) -> IfExpr {
    IfExpr { left: Box::new(left), right: Some(Box::new(right)), op: Some(op) }
}

fn v(name: &str) -> Expression {
    Expression::Variable(name.to_string())
}

fn l(text: &str) -> Expression {
    Expression::Literal(text.to_string())
}

fn fault(f: RenderFault) -> Result<bool, TemplusError> {
    Err(TemplusError::RenderError(f))
}

#[test]
fn truthiness_table() {
    let c = ctx();
    assert_eq!(unary(v("t")).eval(&c), Ok(true));
    assert_eq!(unary(v("f")).eval(&c), Ok(false));
    assert_eq!(unary(v("zero")).eval(&c), Ok(false));
    assert_eq!(unary(v("n")).eval(&c), Ok(true));
    assert_eq!(unary(v("s")).eval(&c), Ok(true));
    assert_eq!(unary(v("empty")).eval(&c), Ok(false));
    assert_eq!(unary(v("list")).eval(&c), Ok(true));
    assert_eq!(unary(v("none")).eval(&c), Ok(false));
    assert_eq!(unary(v("obj")).eval(&c), Ok(true));
    assert_eq!(unary(v("null")).eval(&c), Ok(false));
    assert_eq!(unary(v("absent")).eval(&c), Ok(false));
    assert_eq!(unary(l("")).eval(&c), Ok(true));
    assert_eq!(unary(v("big")).eval(&c), fault(RenderFault::NotAnInteger));
    assert_eq!(
        unary(Expression::If(unary(l("x")), vec![])).eval(&c),
        fault(RenderFault::MalformedCondition)
    );
    assert_eq!(unary(v("t")).eval(&Value::Null), Ok(false));
}

#[test]
fn number_comparisons() {
    let c = ctx();
    assert_eq!(binary(v("n"), Op::Eq, l("7")).eval(&c), Ok(true));
    assert_eq!(binary(v("n"), Op::Neq, l("7")).eval(&c), Ok(false));
    assert_eq!(binary(v("n"), Op::Gt, l("7")).eval(&c), Ok(false));
    assert_eq!(binary(v("n"), Op::Gte, l("7")).eval(&c), Ok(true));
    assert_eq!(binary(v("n"), Op::Lt, l("8")).eval(&c), Ok(true));
    assert_eq!(binary(v("n"), Op::Lte, l("6")).eval(&c), Ok(false));
    assert_eq!(binary(v("n"), Op::Gt, l("-1")).eval(&c), Ok(true));
    assert_eq!(binary(v("n"), Op::Gt, v("zero")).eval(&c), Ok(true));
    assert_eq!(binary(v("n"), Op::Eq, l("seven")).eval(&c), fault(RenderFault::TypeMismatch));
    assert_eq!(binary(v("n"), Op::Eq, l("true")).eval(&c), fault(RenderFault::TypeMismatch));
    assert_eq!(binary(v("n"), Op::Eq, v("big")).eval(&c), fault(RenderFault::NotAnInteger));
    assert_eq!(binary(v("big"), Op::Eq, l("1")).eval(&c), fault(RenderFault::NotAnInteger));
}

#[test]
fn bool_comparisons() {
    let c = ctx();
    assert_eq!(binary(v("t"), Op::Eq, l("true")).eval(&c), Ok(true));
    assert_eq!(binary(v("t"), Op::Neq, l("true")).eval(&c), Ok(false));
    assert_eq!(binary(v("t"), Op::Eq, v("f")).eval(&c), Ok(false));
    assert_eq!(binary(v("f"), Op::Eq, l("false")).eval(&c), Ok(true));
    assert_eq!(binary(v("t"), Op::Gt, l("false")).eval(&c), fault(RenderFault::UnsupportedOperator));
    assert_eq!(binary(v("t"), Op::Eq, l("1")).eval(&c), fault(RenderFault::TypeMismatch));
    assert_eq!(binary(v("t"), Op::Gt, l("1")).eval(&c), fault(RenderFault::TypeMismatch));
}

#[test]
fn string_comparisons() {
    let c = ctx();
    assert_eq!(binary(v("s"), Op::Eq, l("abc")).eval(&c), Ok(true));
    assert_eq!(binary(v("s"), Op::Neq, l("abc")).eval(&c), Ok(false));
    assert_eq!(binary(v("s"), Op::Eq, l("abd")).eval(&c), Ok(false));
    assert_eq!(binary(v("s"), Op::Eq, v("empty")).eval(&c), Ok(false));
    assert_eq!(binary(v("s"), Op::Lt, l("abd")).eval(&c), fault(RenderFault::UnsupportedOperator));
    assert_eq!(binary(v("s"), Op::Eq, l("12")).eval(&c), fault(RenderFault::TypeMismatch));
    assert_eq!(binary(v("s"), Op::Eq, l("false")).eval(&c), fault(RenderFault::TypeMismatch));
}

#[test]
fn comparisons_that_cannot_be_made() {
    let c = ctx();
    assert_eq!(binary(v("list"), Op::Eq, l("1")).eval(&c), fault(RenderFault::NotComparable));
    assert_eq!(binary(v("obj"), Op::Eq, l("1")).eval(&c), fault(RenderFault::NotComparable));
    assert_eq!(binary(v("null"), Op::Eq, l("1")).eval(&c), fault(RenderFault::NotComparable));
    assert_eq!(binary(v("absent"), Op::Eq, l("1")).eval(&c), fault(RenderFault::MissingKey));
    assert_eq!(binary(v("n"), Op::Eq, v("absent")).eval(&c), fault(RenderFault::MissingKey));
    assert_eq!(binary(l("1"), Op::Eq, l("1")).eval(&c), fault(RenderFault::MalformedCondition));
    assert_eq!(
        IfExpr { left: Box::new(v("n")), right: None, op: Some(Op::Eq) }.eval(&c),
        fault(RenderFault::MalformedCondition)
    );
    assert_eq!(
        binary(v("n"), Op::Eq, Expression::Range(Box::new(l("1")), vec![])).eval(&c),
        fault(RenderFault::MalformedCondition)
    );
}

#[test]
fn the_three_comparers() {
    assert_eq!(IfExpr::eval_number(3, &Op::Lte, &Value::Number(3)), Ok(true));
    assert_eq!(IfExpr::eval_number(3, &Op::Lt, &Value::Number(3)), Ok(false));
    assert_eq!(
        IfExpr::eval_number(3, &Op::Eq, &Value::Bool(true)),
        fault(RenderFault::TypeMismatch)
    );
    assert_eq!(IfExpr::eval_bool(&true, &Op::Neq, &Value::Bool(false)), Ok(true));
    assert_eq!(
        IfExpr::eval_bool(&true, &Op::Lte, &Value::Bool(false)),
        fault(RenderFault::UnsupportedOperator)
    );
    assert_eq!(IfExpr::eval_string("a", &Op::Eq, &Value::String("a".to_string())), Ok(true));
    assert_eq!(
        IfExpr::eval_string("a", &Op::Eq, &Value::Number(1)),
        fault(RenderFault::TypeMismatch)
    );
}

#[test]
fn first_field_of_a_name_counts() {
    let c = ctx();
    assert_eq!(c.get("n"), Some(&Value::Number(7)));
    assert_eq!(c.get("absent"), None);
    assert_eq!(Value::Array(vec![]).get("n"), None);
    assert_eq!(Value::String("n".to_string()).get("n"), None);
}

#[test]
fn integers_in_base_ten() {
    assert_eq!(parse_i64("0"), Some(0));
    assert_eq!(parse_i64("100"), Some(100));
    assert_eq!(parse_i64("-100"), Some(-100));
    assert_eq!(parse_i64("+7"), Some(7));
    assert_eq!(parse_i64("-0"), Some(0));
    assert_eq!(parse_i64("0000000000000000000000012"), Some(12));
    assert_eq!(parse_i64("9223372036854775807"), Some(i64::MAX));
    assert_eq!(parse_i64("9223372036854775808"), None);
    assert_eq!(parse_i64("-9223372036854775808"), Some(i64::MIN));
    assert_eq!(parse_i64("-9223372036854775809"), None);
    assert_eq!(parse_i64("99999999999999999999999"), None);
    assert_eq!(parse_i64(""), None);
    assert_eq!(parse_i64("-"), None);
    assert_eq!(parse_i64("+"), None);
    assert_eq!(parse_i64("--1"), None);
    assert_eq!(parse_i64("1 "), None);
    assert_eq!(parse_i64(" 1"), None);
    assert_eq!(parse_i64("1.5"), None);
    assert_eq!(parse_i64("12a"), None);
    assert_eq!(parse_i64("\u{663}"), None);
    assert_eq!(parse_i64("1\u{e9}"), None);
}

#[test]
fn integers_as_std_reads_them() {
    for text in ["0", "-0", "+0", "17", "-17", "+17", "", "-", "1-", "0x10", "9223372036854775807",
        "-9223372036854775808", "9223372036854775808", "00000000000000000000000"] {
        assert_eq!(parse_i64(text), text.parse::<i64>().ok());
    }
}

#[test]
fn equal_texts_and_bytes() {
    assert!(same_text("abc", "abc"));
    assert!(!same_text("abc", "abd"));
    assert!(!same_text("abc", "ab"));
    assert!(same_text("", ""));
    assert!(same_text("h\u{e9}", "h\u{e9}"));
    assert!(same_bytes(b"ab", b"ab"));
    assert!(!same_bytes(b"ab", b"ba"));
}
