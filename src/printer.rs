use crate::ast::{Binary, Expression, Grouping, Literal, Unary};
use crate::text::{push_str, string_of};
use vstd::prelude::*;

verus! {

/// An expression in prefix form: each operator before its operands, every
/// node but a literal in parentheses.
pub open spec fn prefix_text(e: Expression) -> Seq<char>
    decreases e,
{
    match e {
        Expression::Binary(b) => "("@ + b.operator.lexeme@ + " "@ + prefix_text(*b.left) + " "@
            + prefix_text(*b.right) + ")"@,
        Expression::Unary(u) => "("@ + u.operator.lexeme@ + " "@ + prefix_text(*u.expression)
            + ")"@,
        Expression::Grouping(g) => "(grouping "@ + prefix_text(*g.expression) + ")"@,
        Expression::Literal(l) => literal_text(l),
    }
}

/// A literal as source text: numbers as written, strings in quotes, and
/// `true`, `false`, `nil`.
pub open spec fn literal_text(l: Literal) -> Seq<char> {
    match l {
        Literal::Number(n) => n.text(),
        Literal::String(s) => seq!['"'] + s@ + seq!['"'],
        Literal::True => "true"@,
        Literal::False => "false"@,
        Literal::Nil => "nil"@,
    }
}

impl Literal {
    /// The literal as source text: numbers as written, strings in quotes,
    /// and `true`, `false`, `nil`.
    pub fn to_string(&self) -> (r: String)
        ensures
            r@ == literal_text(*self),
    {
        let mut out: Vec<char> = Vec::new();
        push_literal(self, &mut out);
        string_of(out)
    }
}

/// Appends the source text of `l`.
fn push_literal(l: &Literal, out: &mut Vec<char>)
    ensures
        final(out)@ == old(out)@ + literal_text(*l),
{
    match l {
        Literal::Number(n) => push_str(out, n.to_string().as_str()),
        Literal::String(s) => {
            let ghost o = out@;
            out.push('"');
            push_str(out, s.as_str());
            out.push('"');
            proof {
                assert(out@ == o + (seq!['"'] + s@ + seq!['"']));
            }
        },
        Literal::True => push_str(out, "true"),
        Literal::False => push_str(out, "false"),
        Literal::Nil => push_str(out, "nil"),
    }
}

/// Renders expressions in prefix form.
pub struct PrefixPrinter {}

impl Default for PrefixPrinter {
    fn default() -> (r: Self)
        ensures
            r == (PrefixPrinter {  }),
    {
        PrefixPrinter {  }
    }
}

impl PrefixPrinter {
    /// A printer; it holds no state.
    pub fn new() -> (r: Self) {
        PrefixPrinter {  }
    }

    /// The prefix form of `expression`.
    pub fn print(&mut self, expression: &Expression) -> (r: String)
        ensures
            r@ == prefix_text(*expression),
    {
        let mut out: Vec<char> = Vec::new();
        self.visit_expression(expression, &mut out);
        string_of(out)
    }

    fn visit_expression(&mut self, arg: &Expression, out: &mut Vec<char>)
        ensures
            final(out)@ == old(out)@ + prefix_text(*arg),
        decreases arg,
    {
        match arg {
            Expression::Binary(binary) => self.visit_binary(binary, out),
            Expression::Unary(unary) => self.visit_unary(unary, out),
            Expression::Grouping(grouping) => self.visit_grouping(grouping, out),
            Expression::Literal(literal) => self.visit_literal(literal, out),
        }
    }

    fn visit_grouping(&mut self, grouping: &Grouping, out: &mut Vec<char>)
        ensures
            final(out)@ == old(out)@ + "(grouping "@ + prefix_text(*grouping.expression) + ")"@,
        decreases grouping,
    {
        let ghost o = out@;
        push_str(out, "(grouping ");
        self.visit_expression(&grouping.expression, out);
        push_str(out, ")");
        proof {
            assert(out@ == o + "(grouping "@ + prefix_text(*grouping.expression) + ")"@);
        }
    }

    fn visit_binary(&mut self, binary: &Binary, out: &mut Vec<char>)
        ensures
            final(out)@ == old(out)@ + "("@ + binary.operator.lexeme@ + " "@ + prefix_text(
                *binary.left,
            ) + " "@ + prefix_text(*binary.right) + ")"@,
        decreases binary,
    {
        let ghost o = out@;
        push_str(out, "(");
        push_str(out, binary.operator.lexeme.as_str());
        push_str(out, " ");
        self.visit_expression(&binary.left, out);
        push_str(out, " ");
        self.visit_expression(&binary.right, out);
        push_str(out, ")");
        proof {
            assert(out@ == o + "("@ + binary.operator.lexeme@ + " "@ + prefix_text(*binary.left)
                + " "@ + prefix_text(*binary.right) + ")"@);
        }
    }

    fn visit_literal(&mut self, literal: &Literal, out: &mut Vec<char>)
        ensures
            final(out)@ == old(out)@ + literal_text(*literal),
    {
        push_literal(literal, out);
    }

    fn visit_unary(&mut self, unary: &Unary, out: &mut Vec<char>)
        ensures
            final(out)@ == old(out)@ + "("@ + unary.operator.lexeme@ + " "@ + prefix_text(
                *unary.expression,
            ) + ")"@,
        decreases unary,
    {
        let ghost o = out@;
        push_str(out, "(");
        push_str(out, unary.operator.lexeme.as_str());
        push_str(out, " ");
        self.visit_expression(&unary.expression, out);
        push_str(out, ")");
        proof {
            assert(out@ == o + "("@ + unary.operator.lexeme@ + " "@ + prefix_text(*unary.expression)
                + ")"@);
        }
    }
}

} // verus!
