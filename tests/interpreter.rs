use jrlox::ast::{Expression, Literal};
use jrlox::error::Error;
use jrlox::evaluator::{eval, not, Evaluator, ExpressionValue};
use jrlox::parser::Parser;
use jrlox::printer::PrefixPrinter;
use jrlox::scanner::Scanner;

fn parse(source: &str) -> Result<Expression, Error> {
    let result = Scanner::new(source.to_string()).scan_tokens();
    assert_eq!(result.errors.size(), 0);
    Parser::new(result.tokens).parse()
}

fn run(source: &str) -> Result<String, String> {
    let expression = parse(source).expect("parses");
    eval(&expression).map(|v| v.to_string())
}

#[test]
fn multiplication_binds_tighter_than_addition() {
    assert_eq!(run("1 + 2 * 3"), Ok("7".to_string()));
}

#[test]
fn strings_concatenate() {
    assert_eq!(run("\"a\" + \"b\""), Ok("ab".to_string()));
}

#[test]
fn unterminated_grouping_fails_after_last_token() {
    let error = parse("(1 + 2").err().expect("fails");
    assert_eq!(error.section.start.offset, 6);
    assert_eq!(error.section.start.column, 7);
    assert_eq!(error.message, "Expecting to find 'RightParen' found '' instead");
    assert_eq!(
        error.to_string(),
        "Expecting to find 'RightParen' found '' instead at line: 1, column: 7"
    );
}

#[test]
fn unexpected_token_is_reported() {
    let error = parse("1 + )").err().expect("fails");
    assert_eq!(error.message, "Unexpected token ')'");
    assert_eq!(error.section.start.offset, 4);
}

#[test]
fn subtraction_associates_to_the_left() {
    assert_eq!(run("8 - 3 - 2"), Ok("3".to_string()));
    let expression = parse("8 - 3 - 2").unwrap();
    assert_eq!(PrefixPrinter::new().print(&expression), "(- (- 8 3) 2)");
}

#[test]
fn unary_is_right_associative() {
    let expression = parse("!!true").unwrap();
    assert_eq!(PrefixPrinter::new().print(&expression), "(! (! true))");
    assert_eq!(run("- -4"), Ok("4".to_string()));
}

#[test]
fn only_false_and_nil_are_falsy() {
    assert_eq!(run("!nil"), Ok("true".to_string()));
    assert_eq!(run("!0"), Ok("false".to_string()));
    assert_eq!(run("!false"), Ok("true".to_string()));
    assert_eq!(run("!\"\""), Ok("false".to_string()));
    assert!(matches!(not(&ExpressionValue::Nil), ExpressionValue::True));
    assert!(matches!(not(&ExpressionValue::True), ExpressionValue::False));
}

#[test]
fn explicit_grouping_keeps_the_value() {
    assert_eq!(run("1 + 2 * 3"), run("(1 + (2 * 3))"));
    assert_eq!(run("8 - 3 - 2"), run("((8 - 3) - 2)"));
    let expression = parse("(1 + 2) * 3").unwrap();
    assert_eq!(PrefixPrinter::new().print(&expression), "(* (grouping (+ 1 2)) 3)");
    assert_eq!(run("(1 + 2) * 3"), Ok("9".to_string()));
}

#[test]
fn tokens_after_the_expression_are_left_unread() {
    assert_eq!(run("1 2"), Ok("1".to_string()));
}

#[test]
fn division_is_exact() {
    assert_eq!(run("1 / 4"), Ok("0.25".to_string()));
    assert_eq!(run("1 / 3"), Ok("0.33333333333333333".to_string()));
    assert_eq!(run("0.1 + 0.2"), Ok("0.3".to_string()));
    assert_eq!(run("-6 / -4"), Ok("1.5".to_string()));
}

#[test]
fn division_by_zero_gives_an_infinity_or_nan() {
    assert_eq!(run("1 / 0"), Ok("inf".to_string()));
    assert_eq!(run("-1 / 0"), Ok("-inf".to_string()));
    assert_eq!(run("0 / 0"), Ok("NaN".to_string()));
}

#[test]
fn infinities_and_nan_follow_float_rules() {
    assert_eq!(run("(1 / 0) - (1 / 0)"), Ok("NaN".to_string()));
    assert_eq!(run("(1 / 0) + (1 / 0)"), Ok("inf".to_string()));
    assert_eq!(run("0 * (1 / 0)"), Ok("NaN".to_string()));
    assert_eq!(run("-2 * (1 / 0)"), Ok("-inf".to_string()));
    assert_eq!(run("1 / (1 / 0)"), Ok("0".to_string()));
    assert_eq!(run("-(1 / 0)"), Ok("-inf".to_string()));
    assert_eq!(run("(0 / 0) + 1"), Ok("NaN".to_string()));
    assert_eq!(run("(1 / 0) / -3"), Ok("-inf".to_string()));
    assert_eq!(run("!(0 / 0)"), Ok("false".to_string()));
}

#[test]
fn fractions_stay_in_lowest_terms() {
    assert_eq!(
        run("0.5 + 0.25 + 0.125 + 0.0625 + 0.03125 + 0.015625 + 0.0078125 + 0.00390625 + 0.001953125"),
        Ok("0.998046875".to_string())
    );
    let factors = vec!["1.5"; 33].join(" * ");
    assert_eq!(run(&factors), Ok("647159.82491098379250615".to_string()));
    assert_eq!(run("2.50 * 4"), Ok("10".to_string()));
}

#[test]
fn arithmetic_on_non_numbers_is_an_error() {
    assert_eq!(
        run("1 - \"a\""),
        Err("Binary operator '-' expects two numbers, instead got: left='1' right='\"a\"'".to_string())
    );
    assert_eq!(
        run("true + 1"),
        Err("Binary operator '+' expects two numbers or two strings, instead got: left='true' right='1'"
            .to_string())
    );
    assert_eq!(
        run("-\"a\""),
        Err("Unary operator '-' expects a number, instead got: '\"a\"'".to_string())
    );
}

#[test]
fn comparisons_are_not_evaluated() {
    assert_eq!(run("1 < 2"), Err("Binary operator < not supported".to_string()));
    assert_eq!(run("1 == 1"), Err("Binary operator == not supported".to_string()));
}

#[test]
fn results_past_the_bounds_are_infinite() {
    assert_eq!(run("100000000000000000000 * 100000000000000000000"), Ok("inf".to_string()));
    assert_eq!(run("-100000000000000000000 * 100000000000000000000"), Ok("-inf".to_string()));
    assert_eq!(
        run("170141183460469231731687303715884105727 + 170141183460469231731687303715884105727"),
        Ok("inf".to_string())
    );
    assert_eq!(
        run("(0.1 / 3 + 170141183460469231731687303715884105727) - 170141183460469231731687303715884105727"),
        Ok("inf".to_string())
    );
}

#[test]
fn left_operand_error_comes_first() {
    assert_eq!(
        run("(\"a\" - 1) + (1 - nil)"),
        Err("Binary operator '-' expects two numbers, instead got: left='\"a\"' right='1'".to_string())
    );
}

#[test]
fn evaluator_object_gives_the_same_values() {
    let expression = parse("2 * (3 + 4)").unwrap();
    let value = Evaluator::new().eval(&expression).unwrap();
    assert_eq!(value.to_string(), "14");
    assert!(matches!(value, ExpressionValue::Number(_)));
}

fn token(kind: jrlox::token::TokenKind, lexeme: &str) -> Box<jrlox::token::Token> {
    Box::new(jrlox::token::Token { kind, lexeme: lexeme.into(), section: Default::default() })
}

#[test]
fn unsupported_unary_operator_is_an_error() {
    let expression = Expression::Unary(jrlox::ast::Unary {
        operator: token(jrlox::token::TokenKind::Plus, "+"),
        expression: Box::new(Expression::Literal(Literal::Nil)),
    });
    assert_eq!(
        eval(&expression).map(|v| v.to_string()),
        Err("Unary operator + not supported".to_string())
    );
}

#[test]
fn negating_the_smallest_number_is_infinite() {
    assert_eq!(
        run("-(0 - 170141183460469231731687303715884105727 - 1)"),
        Ok("inf".to_string())
    );
}

#[test]
fn synchronize_skips_to_a_statement_keyword() {
    let result = Scanner::new("a b var c".to_string()).scan_tokens();
    let mut parser = Parser::new(result.tokens);
    parser.synchronize();
    let error = parser.parse().err().expect("fails at the keyword");
    assert_eq!(error.message, "Unexpected token 'var'");
    assert_eq!(error.section.start.offset, 4);
}

#[test]
fn synchronize_stops_at_eof() {
    let result = Scanner::new("1 + 2".to_string()).scan_tokens();
    let mut parser = Parser::new(result.tokens);
    parser.synchronize();
    let error = parser.parse().err().expect("nothing left");
    assert_eq!(error.message, "Unexpected token ''");
    assert_eq!(error.section.start.offset, 5);
}

#[test]
fn overlong_number_literals_read_as_infinity_or_cut_fraction() {
    assert_eq!(run("1234567890123456789012345678901234567890 + 1"), Ok("inf".to_string()));
    assert_eq!(
        run("170141183460469231731687303715884105727"),
        Ok("170141183460469231731687303715884105727".to_string())
    );
    assert_eq!(run("0.00000000000000000000000000000000000000001"), Ok("0".to_string()));
    assert_eq!(run("1.0000000000000000000000000000000000000000001"), Ok("1".to_string()));
    assert_eq!(run("2.5000000000000000000000000000000000000000009 * 2"), Ok("5".to_string()));
}

#[test]
fn a_number_then_a_point_reads_the_number() {
    let expression = parse("1.").unwrap();
    assert_eq!(PrefixPrinter::new().print(&expression), "1");
}
