use crate::ast::{Binary, Expression, Grouping, Literal, Unary, Value};
use crate::number::{
    is_numeral_text, negation_num, number_text, numeral_num, product_num, quotient_num, sum_num,
    Number,
};
use crate::text::{chars_of, push_chars, push_str, string_of};
use crate::token::{Token, TokenKind};
use vstd::prelude::*;

verus! {

/// How a value reads in a diagnostic: strings in quotes.
pub open spec fn shown(v: Value) -> Seq<char> {
    match v {
        Value::Number(n) => number_text(n),
        Value::Text(s) => seq!['"'] + s + seq!['"'],
        Value::True => "true"@,
        Value::False => "false"@,
        Value::Nil => "nil"@,
    }
}

/// How a value reads as a result: strings as they are.
pub open spec fn displayed(v: Value) -> Seq<char> {
    match v {
        Value::Text(s) => s,
        _ => shown(v),
    }
}

/// Only `false` and `nil` are falsy.
pub open spec fn is_truthy(v: Value) -> bool {
    !(v is False || v is Nil)
}

pub open spec fn expects_numbers(op: Token, l: Value, r: Value) -> Seq<char> {
    "Binary operator '"@ + op.lexeme@ + "' expects two numbers, instead got: left='"@ + shown(l)
        + "' right='"@ + shown(r) + "'"@
}

pub open spec fn expects_numbers_or_strings(op: Token, l: Value, r: Value) -> Seq<char> {
    "Binary operator '"@ + op.lexeme@ + "' expects two numbers or two strings, instead got: left='"@
        + shown(l) + "' right='"@ + shown(r) + "'"@
}

pub open spec fn binary_not_supported(op: Token) -> Seq<char> {
    "Binary operator "@ + op.lexeme@ + " not supported"@
}

pub open spec fn expects_number(op: Token, v: Value) -> Seq<char> {
    "Unary operator '"@ + op.lexeme@ + "' expects a number, instead got: '"@ + shown(v) + "'"@
}

pub open spec fn unary_not_supported(op: Token) -> Seq<char> {
    "Unary operator "@ + op.lexeme@ + " not supported"@
}

/// What `op` makes of the values `l` and `r`.
pub open spec fn binary_value(op: Token, l: Value, r: Value) -> Result<Value, Seq<char>> {
    match op.kind {
        TokenKind::Plus => match (l, r) {
            (Value::Number(a), Value::Number(b)) => Ok(Value::Number(sum_num(a, b, false))),
            (Value::Text(a), Value::Text(b)) => Ok(Value::Text(a + b)),
            _ => Err(expects_numbers_or_strings(op, l, r)),
        },
        TokenKind::Minus => match (l, r) {
            (Value::Number(a), Value::Number(b)) => Ok(Value::Number(sum_num(a, b, true))),
            _ => Err(expects_numbers(op, l, r)),
        },
        TokenKind::Star => match (l, r) {
            (Value::Number(a), Value::Number(b)) => Ok(Value::Number(product_num(a, b))),
            _ => Err(expects_numbers(op, l, r)),
        },
        TokenKind::Slash => match (l, r) {
            (Value::Number(a), Value::Number(b)) => Ok(Value::Number(quotient_num(a, b))),
            _ => Err(expects_numbers(op, l, r)),
        },
        _ => Err(binary_not_supported(op)),
    }
}

/// What `op` makes of the value `v`.
pub open spec fn unary_value(op: Token, v: Value) -> Result<Value, Seq<char>> {
    match op.kind {
        TokenKind::Minus => match v {
            Value::Number(n) => Ok(Value::Number(negation_num(n))),
            _ => Err(expects_number(op, v)),
        },
        TokenKind::Bang => Ok(
            if is_truthy(v) {
                Value::False
            } else {
                Value::True
            },
        ),
        _ => Err(unary_not_supported(op)),
    }
}

/// Truthiness: `!` gives `true` exactly for `false` and `nil`, and `false`
/// for every other value: every number (zero included), every string, and
/// `true`.
pub proof fn lemma_negation_truthiness(op: Token, v: Value)
    requires
        op.kind is Bang,
    ensures
        unary_value(op, v) == Ok::<Value, Seq<char>>(
            if v is False || v is Nil {
                Value::True
            } else {
                Value::False
            },
        ),
        v is Number ==> unary_value(op, v) == Ok::<Value, Seq<char>>(Value::False),
{
}

/// The value of a literal; a numeral reads as `numeral_num` says.
pub open spec fn literal_value(l: Literal) -> Result<Value, Seq<char>> {
    match l {
        Literal::Number(numeral) => if is_numeral_text(numeral.text()) {
            Ok(Value::Number(numeral_num(numeral.text())))
        } else {
            Err(malformed_number())
        },
        Literal::String(s) => Ok(Value::Text(s@)),
        Literal::True => Ok(Value::True),
        Literal::False => Ok(Value::False),
        Literal::Nil => Ok(Value::Nil),
    }
}

pub open spec fn malformed_number() -> Seq<char> {
    "Malformed number literal."@
}

/// The value of an expression: the left operand before the right, the
/// first error stopping evaluation.
pub open spec fn value_of(e: Expression) -> Result<Value, Seq<char>>
    decreases e,
{
    match e {
        Expression::Literal(l) => literal_value(l),
        Expression::Grouping(g) => value_of(*g.expression),
        Expression::Unary(u) => match value_of(*u.expression) {
            Ok(v) => unary_value(*u.operator, v),
            Err(m) => Err(m),
        },
        Expression::Binary(b) => match value_of(*b.left) {
            Ok(l) => match value_of(*b.right) {
                Ok(r) => binary_value(*b.operator, l, r),
                Err(m) => Err(m),
            },
            Err(m) => Err(m),
        },
    }
}

/// `r` is what `expected` says.
pub open spec fn value_agrees(r: Result<ExpressionValue, String>, expected: Result<Value, Seq<char>>) -> bool {
    match expected {
        Ok(v) => r matches Ok(x) && x.value() == v,
        Err(m) => r matches Err(s) && s@ == m,
    }
}

/// The value an expression evaluates to: a number, a string, or one of
/// the three atoms.
#[derive(Clone, Debug)]
pub enum ExpressionValue {
    Number(Number),
    String(String),
    True,
    False,
    Nil,
}

impl ExpressionValue {
    pub open spec fn value(self) -> Value {
        match self {
            ExpressionValue::Number(n) => Value::Number(n.model()),
            ExpressionValue::String(s) => Value::Text(s@),
            ExpressionValue::True => Value::True,
            ExpressionValue::False => Value::False,
            ExpressionValue::Nil => Value::Nil,
        }
    }

    /// The value as text: numbers in decimal, strings as they are, and
    /// `true`, `false`, `nil`.
    pub fn to_string(&self) -> (r: String)
        ensures
            r@ == displayed(self.value()),
    {
        let text = match self {
            ExpressionValue::String(s) => chars_of(s.as_str()),
            other => show(other),
        };
        string_of(text)
    }
}

/// How a value reads in a diagnostic.
pub fn show(l: &ExpressionValue) -> (r: Vec<char>)
    ensures
        r@ == shown(l.value()),
{
    match l {
        ExpressionValue::Number(n) => n.to_text(),
        ExpressionValue::String(s) => {
            let mut out: Vec<char> = Vec::new();
            out.push('"');
            push_str(&mut out, s.as_str());
            out.push('"');
            out
        },
        ExpressionValue::True => chars_of("true"),
        ExpressionValue::False => chars_of("false"),
        ExpressionValue::Nil => chars_of("nil"),
    }
}

/// The truthiness complement of `literal`: `true` for `false` and `nil`,
/// `false` for everything else.
pub fn not(literal: &ExpressionValue) -> (r: ExpressionValue)
    ensures
        r.value() == (if is_truthy(literal.value()) {
            Value::False
        } else {
            Value::True
        }),
{
    match literal {
        ExpressionValue::False | ExpressionValue::Nil => ExpressionValue::True,
        _ => ExpressionValue::False,
    }
}

/// Walks an expression tree and computes its value.
pub struct Evaluator {}

impl Default for Evaluator {
    fn default() -> (r: Self)
        ensures
            r == (Evaluator {  }),
    {
        Evaluator {  }
    }
}

impl Evaluator {
    /// An evaluator; it holds no state.
    pub fn new() -> (r: Self) {
        Evaluator {  }
    }

    /// The value of `expression`, or the message of the first runtime error.
    pub fn eval(&mut self, expression: &Expression) -> (r: Result<ExpressionValue, String>)
        ensures
            value_agrees(r, value_of(*expression)),
    {
        self.visit_expression(expression)
    }

    fn visit_expression(&mut self, arg: &Expression) -> (r: Result<ExpressionValue, String>)
        ensures
            value_agrees(r, value_of(*arg)),
        decreases arg,
    {
        match arg {
            Expression::Binary(binary) => self.visit_binary(binary),
            Expression::Unary(unary) => self.visit_unary(unary),
            Expression::Grouping(grouping) => self.visit_grouping(grouping),
            Expression::Literal(literal) => self.visit_literal(literal),
        }
    }

    fn visit_grouping(&mut self, grouping: &Grouping) -> (r: Result<ExpressionValue, String>)
        ensures
            value_agrees(r, value_of(*grouping.expression)),
        decreases grouping,
    {
        self.visit_expression(&grouping.expression)
    }

    fn visit_literal(&mut self, literal: &Literal) -> (r: Result<ExpressionValue, String>)
        ensures
            value_agrees(r, literal_value(*literal)),
    {
        match literal {
            Literal::Number(numeral) => match numeral.value() {
                Some(n) => Ok(ExpressionValue::Number(n)),
                None => Err(string_of(chars_of("Malformed number literal."))),
            },
            Literal::String(s) => Ok(ExpressionValue::String(s.clone())),
            Literal::True => Ok(ExpressionValue::True),
            Literal::False => Ok(ExpressionValue::False),
            Literal::Nil => Ok(ExpressionValue::Nil),
        }
    }

    fn visit_unary(&mut self, unary: &Unary) -> (r: Result<ExpressionValue, String>)
        ensures
            value_agrees(
                r,
                match value_of(*unary.expression) {
                    Ok(v) => unary_value(*unary.operator, v),
                    Err(m) => Err(m),
                },
            ),
        decreases unary,
    {
        let value = match self.visit_expression(&unary.expression) {
            Ok(v) => v,
            Err(m) => {
                return Err(m);
            },
        };
        let op = &unary.operator;
        match op.kind {
            TokenKind::Minus => match &value {
                ExpressionValue::Number(n) => Ok(ExpressionValue::Number(n.negate())),
                _ => {
                    let mut text = chars_of("Unary operator '");
                    push_str(&mut text, op.lexeme.as_str());
                    push_str(&mut text, "' expects a number, instead got: '");
                    push_chars(&mut text, show(&value).as_slice());
                    push_str(&mut text, "'");
                    Err(string_of(text))
                },
            },
            TokenKind::Bang => Ok(not(&value)),
            _ => {
                let mut text = chars_of("Unary operator ");
                push_str(&mut text, op.lexeme.as_str());
                push_str(&mut text, " not supported");
                Err(string_of(text))
            },
        }
    }

    /// The type error of `op` on `left` and `right`.
    fn operand_error(&self, op: &Token, left: &ExpressionValue, right: &ExpressionValue, or_strings: bool) -> (r:
        String)
        ensures
            r@ == (if or_strings {
                expects_numbers_or_strings(*op, left.value(), right.value())
            } else {
                expects_numbers(*op, left.value(), right.value())
            }),
    {
        let mut text = chars_of("Binary operator '");
        push_str(&mut text, op.lexeme.as_str());
        if or_strings {
            push_str(&mut text, "' expects two numbers or two strings, instead got: left='");
        } else {
            push_str(&mut text, "' expects two numbers, instead got: left='");
        }
        push_chars(&mut text, show(left).as_slice());
        push_str(&mut text, "' right='");
        push_chars(&mut text, show(right).as_slice());
        push_str(&mut text, "'");
        string_of(text)
    }

    fn visit_binary(&mut self, binary: &Binary) -> (r: Result<ExpressionValue, String>)
        ensures
            value_agrees(
                r,
                match value_of(*binary.left) {
                    Ok(l) => match value_of(*binary.right) {
                        Ok(r) => binary_value(*binary.operator, l, r),
                        Err(m) => Err(m),
                    },
                    Err(m) => Err(m),
                },
            ),
        decreases binary,
    {
        let lval = match self.visit_expression(&binary.left) {
            Ok(v) => v,
            Err(m) => {
                return Err(m);
            },
        };
        let rval = match self.visit_expression(&binary.right) {
            Ok(v) => v,
            Err(m) => {
                return Err(m);
            },
        };
        let op = &binary.operator;
        match op.kind {
            TokenKind::Plus => match (&lval, &rval) {
                (ExpressionValue::Number(a), ExpressionValue::Number(b)) => Ok(ExpressionValue::Number(a.add(b))),
                (ExpressionValue::String(a), ExpressionValue::String(b)) => {
                    let mut text = chars_of(a.as_str());
                    push_str(&mut text, b.as_str());
                    Ok(ExpressionValue::String(string_of(text)))
                },
                _ => Err(self.operand_error(op, &lval, &rval, true)),
            },
            TokenKind::Minus => match (&lval, &rval) {
                (ExpressionValue::Number(a), ExpressionValue::Number(b)) => Ok(ExpressionValue::Number(a.subtract(b))),
                _ => Err(self.operand_error(op, &lval, &rval, false)),
            },
            TokenKind::Star => match (&lval, &rval) {
                (ExpressionValue::Number(a), ExpressionValue::Number(b)) => Ok(ExpressionValue::Number(a.multiply(b))),
                _ => Err(self.operand_error(op, &lval, &rval, false)),
            },
            TokenKind::Slash => match (&lval, &rval) {
                (ExpressionValue::Number(a), ExpressionValue::Number(b)) => Ok(
                    ExpressionValue::Number(a.divide(b)),
                ),
                _ => Err(self.operand_error(op, &lval, &rval, false)),
            },
            _ => {
                let mut text = chars_of("Binary operator ");
                push_str(&mut text, op.lexeme.as_str());
                push_str(&mut text, " not supported");
                Err(string_of(text))
            },
        }
    }
}

/// The value of `expression`, or the message of the first runtime error.
pub fn eval(expression: &Expression) -> (r: Result<ExpressionValue, String>)
    ensures
        value_agrees(r, value_of(*expression)),
{
    Evaluator::new().eval(expression)
}

} // verus!
