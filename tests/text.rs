use jrlox::cursor::{TextCursor, TextSection};
use jrlox::error::{ErrorBuilder, ErrorList};
use jrlox::number::Number;
use jrlox::position::Position;
use jrlox::scanner::is_digit;

#[test]
fn position_steps() {
    let mut p = Position::new();
    assert_eq!((p.line, p.column, p.offset), (1, 1, 0));
    p.advance();
    assert_eq!((p.line, p.column, p.offset), (1, 2, 1));
    p.new_line();
    assert_eq!((p.line, p.column, p.offset), (2, 1, 2));
}

#[test]
fn cursor_reads_and_tracks_lines() {
    let mut c = TextCursor::new("ab\ncd");
    assert_eq!(c.current(), Some('a'));
    assert_eq!(c.next(), Some('a'));
    c.new_section();
    c.consume_until_match('c');
    assert_eq!(c.section_slice(), &['b', '\n']);
    let s = c.section();
    assert_eq!((s.start.offset, s.end.offset), (1, 3));
    assert_eq!((s.end.line, s.end.column), (2, 1));
    assert!(c.match_next('c'));
    c.consume_while(|ch: &char| ch.is_alphabetic());
    assert!(c.is_done());
    assert_eq!(c.next(), None);
    c.consume();
    assert!(c.is_done());
}

#[test]
fn cursor_consume_while_stops_at_first_failure() {
    let mut c = TextCursor::new("123x");
    c.consume_while(is_digit);
    assert_eq!(c.current(), Some('x'));
}

#[test]
fn builder_defaults_and_fields() {
    let e = ErrorBuilder::new().build();
    assert_eq!(e.message, "");
    assert_eq!(e.location, "");
    assert_eq!(e.section, TextSection::default());
    let section = TextSection { start: Position::new(), end: Position::new() };
    let e = ErrorBuilder::new()
        .message("m".to_string())
        .location("here".to_string())
        .section(section)
        .build();
    assert_eq!(e.message, "m");
    assert_eq!(e.location, "here");
    assert_eq!(e.section, section);
    let e = ErrorBuilder::new().section(section).line(4).build();
    assert_eq!(e.section.start.line, 4);
    assert_eq!(e.section.start.column, 1);
    assert_eq!(e.section.end, section.end);
    let e = ErrorBuilder::new().line(2).build();
    assert_eq!((e.section.start.line, e.section.start.column), (2, 0));
}

#[test]
fn error_list_keeps_order() {
    let mut list = ErrorList::default();
    assert_eq!(list.size(), 0);
    list.add(ErrorBuilder::new().message("first".to_string()).build());
    list.add(ErrorBuilder::new().message("second".to_string()).build());
    assert_eq!(list.size(), 2);
    assert_eq!(list.as_slice()[0].message, "first");
    assert_eq!(list.as_slice()[1].message, "second");
}

#[test]
fn number_arithmetic_is_exact_in_lowest_terms() {
    let a = Number::from_ratio(1, 2).unwrap();
    let b = Number::from_ratio(1, 3).unwrap();
    let text = |n: Number| String::from_iter(n.to_text());
    assert_eq!(text(a.add(&b)), "0.83333333333333333");
    assert_eq!(text(a.subtract(&b)), "0.16666666666666666");
    assert_eq!(text(a.multiply(&b)), "0.16666666666666666");
    assert_eq!(text(a.divide(&b)), "1.5");
    assert_eq!(text(a.negate()), "-0.5");
    assert!(a.add(&a) == Number::from_integer(1));
    assert!(Number::from_ratio(5, 10).unwrap() == a);
    assert!(Number::from_ratio(-6, 4).unwrap() == Number::from_ratio(-3, 2).unwrap());
    assert!(Number::from_ratio(1, 0).is_none());
    let big = Number::from_ratio(i128::MAX, 1).unwrap();
    assert_eq!(text(big.add(&Number::from_integer(1))), "inf");
    assert_eq!(text(Number::from_ratio(i128::MIN, 1).unwrap().negate()), "inf");
    assert_eq!(text(Number::from_ratio(i128::MIN, 1).unwrap().subtract(&big)), "-inf");
    assert!(Number::from_integer(0).is_zero());
    assert!(!Number::nan().is_zero());
    assert_eq!(text(Number::infinity()), "inf");
    assert_eq!(text(Number::negative_infinity()), "-inf");
    assert_eq!(text(Number::nan()), "NaN");
    assert_eq!(text(Number::from_integer(0).divide(&Number::from_integer(0))), "NaN");
    assert_eq!(text(Number::infinity().add(&Number::negative_infinity())), "NaN");
}

#[test]
fn numerals_read_as_ratios() {
    let n = Number::from_numeral(&['4', '5', '.', '6', '7']).unwrap();
    assert_eq!(n, Number::from_ratio(4567, 100).unwrap());
    assert_eq!(Number::from_numeral(&['2', '.', '5', '0']).unwrap(), Number::from_ratio(5, 2).unwrap());
    assert!(Number::from_numeral(&['9'; 40]).is_none());
}
