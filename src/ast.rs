use crate::number::{Num, Numeral};
use crate::token::Token;
use vstd::prelude::*;

verus! {

/// An expression of the language. Children are owned by their parent.
#[derive(Debug)]
pub enum Expression {
    Binary(Binary),
    Unary(Unary),
    Grouping(Grouping),
    Literal(Literal),
}

/// `left operator right`; the operator keeps its whole token.
#[derive(Debug)]
pub struct Binary {
    pub left: Box<Expression>,
    pub operator: Box<Token>,
    pub right: Box<Expression>,
}

/// `operator expression`.
#[derive(Debug)]
pub struct Unary {
    pub operator: Box<Token>,
    pub expression: Box<Expression>,
}

/// A parenthesized expression.
#[derive(Debug)]
pub struct Grouping {
    pub expression: Box<Expression>,
}

/// A value written in the source.
#[derive(Clone, Debug)]
pub enum Literal {
    Number(Numeral),
    String(String),
    True,
    False,
    Nil,
}

/// A value of the language as mathematics: an exact number, or the text of
/// a string rather than the string.
pub enum Value {
    Number(Num),
    Text(Seq<char>),
    True,
    False,
    Nil,
}

} // verus!
