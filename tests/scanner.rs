use jrlox::scanner::{ScanResult, Scanner};
use jrlox::token::{Token, TokenKind};

fn scan(source: &str) -> ScanResult {
    Scanner::new(source.to_string()).scan_tokens()
}

fn tags(tokens: &[Token]) -> Vec<u8> {
    tokens.iter().map(|t| t.kind.tag()).collect()
}

fn number_text(kind: &TokenKind) -> String {
    match kind {
        TokenKind::Number(n) => n.to_string(),
        _ => panic!("not a number"),
    }
}

fn numeral(text: &str) -> TokenKind {
    TokenKind::Number(jrlox::number::Numeral::new(text).unwrap())
}

#[test]
fn scans_arithmetic_tokens() {
    let result = scan("1 + 2 * 3");
    assert_eq!(result.errors.size(), 0);
    let expected = [
        numeral("1"),
        TokenKind::Plus,
        numeral("2"),
        TokenKind::Star,
        numeral("3"),
        TokenKind::Eof,
    ];
    let kinds: Vec<TokenKind> = result.tokens.iter().map(|t| t.kind.clone()).collect();
    assert!(kinds == expected);
    assert!(kinds[0] != numeral("2"));
    assert_eq!(number_text(&result.tokens[0].kind), "1");
    assert_eq!(number_text(&result.tokens[2].kind), "2");
    assert_eq!(number_text(&result.tokens[4].kind), "3");
    assert_eq!(result.tokens[2].lexeme, "2");
    assert_eq!(result.tokens[2].section.start.offset, 4);
    assert_eq!(result.tokens[2].section.end.offset, 5);
    assert_eq!(result.tokens[2].section.start.column, 5);
}

#[test]
fn last_token_is_eof_and_sections_lie_in_the_source() {
    let source = "(a >= 12.5) // note\n\"s\" != nil /* c */ and";
    let result = scan(source);
    let chars: Vec<char> = source.chars().collect();
    let last = result.tokens.last().unwrap();
    assert!(last.kind.same_kind(&TokenKind::Eof));
    assert_eq!(last.section.start.offset, chars.len());
    for token in &result.tokens[..result.tokens.len() - 1] {
        let (a, b) = (token.section.start.offset, token.section.end.offset);
        assert!(a < b && b <= chars.len());
        let slice: String = chars[a..b].iter().collect();
        assert_eq!(slice, token.lexeme);
    }
    assert_eq!(result.errors.size(), 0);
    assert_eq!(result.tokens.len(), 10);
}

#[test]
fn empty_source_gives_only_eof() {
    let result = scan("");
    assert_eq!(result.tokens.len(), 1);
    assert!(result.tokens[0].kind.same_kind(&TokenKind::Eof));
    assert_eq!(result.tokens[0].lexeme, "");
}

#[test]
fn unterminated_string_is_one_error_at_the_quote() {
    let result = scan("\"unterminated");
    assert_eq!(result.errors.size(), 1);
    let error = &result.errors.as_slice()[0];
    assert_eq!(error.message, "Unterminated string.");
    assert_eq!(error.section.start.offset, 0);
    assert_eq!(error.section.start.line, 1);
    assert_eq!(error.section.start.column, 1);
    assert_eq!(error.section.end.offset, 13);
    assert_eq!(result.tokens.len(), 1);
}

#[test]
fn unexpected_character_is_reported_and_scanning_goes_on() {
    let result = scan("1 @ 2");
    assert_eq!(result.errors.size(), 1);
    assert_eq!(result.errors.as_slice()[0].message, "Unexpected character '@'");
    assert_eq!(result.errors.as_slice()[0].section.start.offset, 2);
    assert_eq!(result.tokens.len(), 3);
}

#[test]
fn unterminated_comment_is_reported_at_its_start() {
    let result = scan("1 /* open");
    assert_eq!(result.errors.size(), 1);
    assert_eq!(result.errors.as_slice()[0].message, "Unterminated comment.");
    assert_eq!(result.errors.as_slice()[0].section.start.offset, 2);
    assert_eq!(result.tokens.len(), 2);
}

#[test]
fn block_comment_closes_at_first_star_slash() {
    let result = scan("/* a **/ 1 /* b */");
    assert_eq!(result.errors.size(), 0);
    assert_eq!(result.tokens.len(), 2);
    assert_eq!(result.tokens[0].lexeme, "1");
}

#[test]
fn line_comment_runs_to_the_newline() {
    let result = scan("// all of this\n+");
    assert_eq!(result.tokens.len(), 2);
    assert!(result.tokens[0].kind.same_kind(&TokenKind::Plus));
    assert_eq!(result.tokens[0].section.start.line, 2);
    assert_eq!(result.tokens[0].section.start.column, 1);
}

#[test]
fn trailing_equal_widens_operators() {
    let result = scan("! != = == < <= > >= /");
    let expected = [
        TokenKind::Bang,
        TokenKind::BangEqual,
        TokenKind::Equal,
        TokenKind::EqualEqual,
        TokenKind::Less,
        TokenKind::LessEqual,
        TokenKind::Greater,
        TokenKind::GreaterEqual,
        TokenKind::Slash,
        TokenKind::Eof,
    ];
    assert_eq!(tags(&result.tokens), expected.iter().map(|k| k.tag()).collect::<Vec<_>>());
}

#[test]
fn words_are_keywords_or_identifiers() {
    let result = scan("while whiles _x1 nil");
    assert!(result.tokens[0].kind.same_kind(&TokenKind::While));
    match &result.tokens[1].kind {
        TokenKind::Identifier(name) => assert_eq!(name, "whiles"),
        _ => panic!("expected an identifier"),
    }
    match &result.tokens[2].kind {
        TokenKind::Identifier(name) => assert_eq!(name, "_x1"),
        _ => panic!("expected an identifier"),
    }
    assert!(result.tokens[3].kind.same_kind(&TokenKind::Nil));
}

#[test]
fn string_literal_excludes_quotes() {
    let result = scan("\"a b\"");
    match &result.tokens[0].kind {
        TokenKind::String(text) => assert_eq!(text, "a b"),
        _ => panic!("expected a string"),
    }
    assert_eq!(result.tokens[0].lexeme, "\"a b\"");
}

#[test]
fn numbers_read_exactly() {
    let result = scan("12.5 7. 0.125");
    assert_eq!(number_text(&result.tokens[0].kind), "12.5");
    assert_eq!(result.tokens[1].lexeme, "7");
    assert_eq!(number_text(&result.tokens[1].kind), "7");
    assert!(result.tokens[2].kind == TokenKind::Dot);
    assert_eq!(result.tokens[2].lexeme, ".");
    assert_eq!(number_text(&result.tokens[3].kind), "0.125");
}

#[test]
fn a_point_without_digits_after_it_is_not_read_into_the_number() {
    let result = scan("1.");
    let kinds: Vec<TokenKind> = result.tokens.iter().map(|t| t.kind.clone()).collect();
    assert!(kinds == vec![numeral("1"), TokenKind::Dot, TokenKind::Eof]);
    let result = scan("1.x");
    assert_eq!(result.tokens[0].lexeme, "1");
    assert!(result.tokens[1].kind == TokenKind::Dot);
}

#[test]
fn overlong_number_literal_scans_without_error() {
    let digits = "1234567890123456789012345678901234567890";
    let result = scan(digits);
    assert_eq!(result.errors.size(), 0);
    assert_eq!(result.tokens.len(), 2);
    assert_eq!(number_text(&result.tokens[0].kind), digits);
}

#[test]
fn rescanning_a_lexeme_gives_the_same_kind() {
    let result = scan("(x <= 3.25) != \"q\" * while - !");
    for token in &result.tokens[..result.tokens.len() - 1] {
        let again = scan(&token.lexeme);
        assert_eq!(again.errors.size(), 0);
        assert_eq!(again.tokens.len(), 2);
        assert_eq!(again.tokens[0].kind.tag(), token.kind.tag());
        assert_eq!(again.tokens[0].lexeme, token.lexeme);
    }
}
