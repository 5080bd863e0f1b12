use tokenizer::chars::is_valid_identifier;
use tokenizer::parser::{evaluate, ExprParser};
use tokenizer::session::{assign, StatementError};
use tokenizer::table::Variables;
use tokenizer::value::{ParseError, Value};

fn eval(text: &str) -> Result<Value, ParseError> {
    evaluate(text, &Variables::new())
}

fn table(pairs: &[(&str, Value)]) -> Variables {
    let mut t = Variables::new();
    for (name, value) in pairs {
        t.insert(name.to_string(), value.clone());
    }
    t
}

#[test]
fn zero_literal() {
    assert_eq!(eval("0"), Ok(Value::Int(0)));
}

#[test]
fn leading_zeros_rejected() {
    assert_eq!(eval("00"), Err(ParseError::LeadingZero));
    assert_eq!(eval("007"), Err(ParseError::LeadingZero));
}

#[test]
fn consecutive_binary_operators() {
    assert_eq!(eval("1++1"), Err(ParseError::ConsecutiveOperator));
    assert_eq!(eval("2**3"), Err(ParseError::ConsecutiveOperator));
    assert_eq!(eval("1-+1"), Err(ParseError::ConsecutiveOperator));
}

#[test]
fn repeated_unary_operators() {
    assert_eq!(eval("--1"), Err(ParseError::RepeatedUnaryOperator));
    assert_eq!(eval("- +1"), Err(ParseError::RepeatedUnaryOperator));
}

#[test]
fn unary_signs() {
    assert_eq!(eval("-1"), Ok(Value::Int(-1)));
    assert_eq!(eval("1 - -2"), Ok(Value::Int(3)));
    assert_eq!(eval("-1 + -2"), Ok(Value::Int(-3)));
    assert_eq!(eval("+4"), Ok(Value::Int(4)));
    assert_eq!(eval("-(-5)"), Ok(Value::Int(5)));
}

#[test]
fn parentheses() {
    assert_eq!(eval("(1+2"), Err(ParseError::UnmatchedParenthesis));
    assert_eq!(eval("(1+2)*3"), Ok(Value::Int(9)));
    assert_eq!(eval(" ( ( 7 ) ) "), Ok(Value::Int(7)));
}

#[test]
fn precedence_and_associativity() {
    assert_eq!(eval("2+3*4"), Ok(Value::Int(14)));
    assert_eq!(eval("10-4-3"), Ok(Value::Int(3)));
    assert_eq!(eval("2*3*4-1"), Ok(Value::Int(23)));
    assert_eq!(eval("10 - (4 - 3)"), Ok(Value::Int(9)));
}

#[test]
fn variables_in_arithmetic() {
    let vars = table(&[("a", Value::Int(2)), ("b", Value::Int(3))]);
    assert_eq!(evaluate("a*b+1", &vars), Ok(Value::Int(7)));
}

#[test]
fn string_variable_in_arithmetic() {
    let vars = table(&[("s", Value::Str("hi".to_string()))]);
    assert_eq!(evaluate("s+1", &vars), Err(ParseError::TypeMismatch));
}

#[test]
fn string_literal() {
    let vars = table(&[("a", Value::Int(2))]);
    assert_eq!(evaluate("\"hello\"", &vars), Ok(Value::Str("hello".to_string())));
    assert_eq!(eval("\"hello\""), Ok(Value::Str("hello".to_string())));
    assert_eq!(eval("  \"a b\"  "), Ok(Value::Str("a b".to_string())));
    assert_eq!(eval("\"\""), Ok(Value::Str(String::new())));
}

#[test]
fn undefined_variable() {
    assert_eq!(eval("z"), Err(ParseError::UndefinedVariable));
}

#[test]
fn unterminated_string() {
    assert_eq!(eval("\"abc"), Err(ParseError::UnterminatedString));
}

#[test]
fn trailing_input() {
    assert_eq!(eval("1 2"), Err(ParseError::TrailingInput));
    assert_eq!(eval("\"a\" 1"), Err(ParseError::TrailingInput));
    assert_eq!(eval("(1))"), Err(ParseError::TrailingInput));
}

#[test]
fn invalid_tokens() {
    assert_eq!(eval(""), Err(ParseError::InvalidToken));
    assert_eq!(eval("1 +"), Err(ParseError::InvalidToken));
    assert_eq!(eval("* 2"), Err(ParseError::InvalidToken));
    assert_eq!(eval("1 + \"a\""), Err(ParseError::InvalidToken));
}

#[test]
fn number_bounds() {
    assert_eq!(eval("2147483647"), Ok(Value::Int(2147483647)));
    assert_eq!(eval("2147483648"), Err(ParseError::NumberOverflow));
    assert_eq!(eval("-2147483647 - 1"), Ok(Value::Int(-2147483648)));
    assert_eq!(eval("99999999999999999999"), Err(ParseError::NumberOverflow));
}

#[test]
fn arithmetic_overflow_rejected() {
    assert_eq!(eval("2147483647 + 1"), Err(ParseError::NumberOverflow));
    assert_eq!(eval("65536 * 65536"), Err(ParseError::NumberOverflow));
    assert_eq!(eval("-2147483647 - 2"), Err(ParseError::NumberOverflow));
    assert_eq!(eval("-(-2147483647 - 1)"), Err(ParseError::NumberOverflow));
}

#[test]
fn assignment_round_trip() {
    let mut vars = Variables::new();
    vars.insert("x".to_string(), Value::Int(5));
    assert_eq!(evaluate("x", &vars), Ok(Value::Int(5)));
    assert_eq!(evaluate("x * 2 + x", &vars), Ok(Value::Int(15)));
}

#[test]
fn reassignment_last_write_wins() {
    let mut vars = Variables::new();
    vars.insert("x".to_string(), Value::Int(5));
    vars.insert("x".to_string(), Value::Str("t".to_string()));
    vars.insert("x".to_string(), Value::Int(8));
    assert_eq!(vars.len(), 1);
    assert_eq!(vars.get(&"x".to_string()), Some(&Value::Int(8)));
    assert_eq!(evaluate("x+1", &vars), Ok(Value::Int(9)));
}

#[test]
fn names_are_case_sensitive() {
    let vars = table(&[("Ab_1", Value::Int(4))]);
    assert_eq!(evaluate("Ab_1", &vars), Ok(Value::Int(4)));
    assert_eq!(evaluate("ab_1", &vars), Err(ParseError::UndefinedVariable));
}

#[test]
fn evaluation_is_repeatable() {
    let vars = table(&[("a", Value::Int(6))]);
    let first = evaluate("a * (a - 1)", &vars);
    let second = evaluate("a * (a - 1)", &vars);
    assert_eq!(first, Ok(Value::Int(30)));
    assert_eq!(first, second);
}

#[test]
fn parser_object_reads_whole_text() {
    let vars = table(&[("n", Value::Int(3))]);
    let mut parser = ExprParser::new(" n * 3 ", &vars);
    assert_eq!(parser.parse(), Ok(Value::Int(9)));
}

#[test]
fn error_messages_are_nonempty() {
    assert!(!ParseError::TypeMismatch.message().is_empty());
    assert!(!ParseError::LeadingZero.message().is_empty());
}

#[test]
fn assignment_statements() {
    let mut vars = Variables::new();
    assert_eq!(assign(&mut vars, "x", "5"), Ok(()));
    assert_eq!(assign(&mut vars, "y", "x * 2 + 1"), Ok(()));
    assert_eq!(vars.get(&"y".to_string()), Some(&Value::Int(11)));
    assert_eq!(assign(&mut vars, "1x", "3"), Err(StatementError::InvalidIdentifier));
    assert_eq!(
        assign(&mut vars, "x", "x +"),
        Err(StatementError::Evaluation(ParseError::InvalidToken))
    );
    assert_eq!(vars.get(&"x".to_string()), Some(&Value::Int(5)));
    assert_eq!(vars.len(), 2);
}

#[test]
fn identifier_rules() {
    assert!(is_valid_identifier("_a1"));
    assert!(is_valid_identifier("Zz"));
    assert!(!is_valid_identifier(""));
    assert!(!is_valid_identifier("9a"));
    assert!(!is_valid_identifier("a-b"));
}
