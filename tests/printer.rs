use jrlox::ast::{Binary, Expression, Grouping, Literal, Unary};
use jrlox::number::Numeral;
use jrlox::printer::PrefixPrinter;
use jrlox::token::{Token, TokenKind};

fn operator(kind: TokenKind, lexeme: &str) -> Box<Token> {
    Box::new(Token { kind, lexeme: lexeme.into(), section: Default::default() })
}

#[test]
fn pretty_print_renders_correct_tree() {
    let expression = Expression::Binary(Binary {
        left: Box::new(Expression::Unary(Unary {
            operator: operator(TokenKind::Minus, "-"),
            expression: Box::new(Expression::Binary(Binary {
                left: Box::new(Expression::Literal(Literal::True)),
                operator: operator(TokenKind::Slash, "/"),
                right: Box::new(Expression::Literal(Literal::Number(Numeral::new("123").unwrap()))),
            })),
        })),
        operator: operator(TokenKind::Star, "*"),
        right: Box::new(Expression::Grouping(Grouping {
            expression: Box::new(Expression::Binary(Binary {
                left: Box::new(Expression::Literal(Literal::Nil)),
                operator: operator(TokenKind::Plus, "+"),
                right: Box::new(Expression::Literal(Literal::Number(
                    Numeral::new("45.67").unwrap(),
                ))),
            })),
        })),
    });

    assert_eq!(
        "(* (- (/ true 123)) (grouping (+ nil 45.67)))",
        PrefixPrinter::new().print(&expression),
    );
}

#[test]
fn literal_strings_print_in_quotes() {
    assert_eq!(Literal::String("ab".to_string()).to_string(), "\"ab\"");
    assert_eq!(Literal::False.to_string(), "false");
    assert_eq!(Literal::Number(Numeral::new("0.250").unwrap()).to_string(), "0.250");
    assert!(Numeral::new("1e5").is_none());
}
