//! A front end for a small expression language. The scanner turns source
//! text into tokens and lexical errors, the parser reads one expression
//! from the tokens by recursive descent over an operator-precedence
//! grammar, and the evaluator computes the expression's value.
//!
//! Each stage is specified by a mathematical model of its input: the
//! scanner by `scanner::scan_from` over the characters, the parser by
//! `parser::parse_at` over the tokens, the evaluator by
//! `evaluator::value_of` over the tree. A number literal keeps its digits
//! as written (`number::Numeral`), of any length; evaluation reads it as an
//! exact fraction in lowest terms (`number::Number`). A literal past the
//! bounds of `i128` is a runtime error; an arithmetic result past them is
//! an infinity, and division by zero gives an infinity or NaN.

pub mod position;
pub mod cursor;
pub mod number;
pub mod text;
pub mod token;
pub mod error;
pub mod scanner;
pub mod ast;
pub mod parser;
pub mod evaluator;
pub mod printer;
