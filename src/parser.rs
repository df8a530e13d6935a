use crate::ast::{Binary, Expression, Grouping, Literal, Unary};
use crate::error::{Error, ErrorBuilder};
use crate::text::{chars_of, push_chars, push_str, string_of};
use crate::token::{kind_text, same_kind_and_text, Token, TokenKind};
use vstd::prelude::*;

verus! {

// The grammar, tightest binding last; levels as in `parse_at`:
//   expression -> equality ;                                       level 6
//   equality   -> comparison ( ( "!=" | "==" ) comparison )* ;     level 5
//   comparison -> term ( ( ">" | ">=" | "<" | "<=" ) term )* ;     level 4
//   term       -> factor ( ( "-" | "+" ) factor )* ;               level 3
//   factor     -> unary ( ( "/" | "*" ) unary )* ;                 level 2
//   unary      -> ( "!" | "-" ) unary | primary ;                  level 1
//   primary    -> NUMBER | STRING | "true" | "false" | "nil"
//               | "(" expression ")" ;                             level 0

/// The operators of a binary level.
pub open spec fn is_operator_of(level: nat, k: TokenKind) -> bool {
    if level == 5 {
        k is BangEqual || k is EqualEqual
    } else if level == 4 {
        k is Greater || k is GreaterEqual || k is Less || k is LessEqual
    } else if level == 3 {
        k is Minus || k is Plus
    } else if level == 2 {
        k is Slash || k is Star
    } else {
        false
    }
}

pub open spec fn is_unary_operator(k: TokenKind) -> bool {
    k is Bang || k is Minus
}

pub open spec fn unexpected_token(tok: Token) -> Seq<char> {
    "Unexpected token '"@ + tok.lexeme@ + "'"@
}

pub open spec fn expecting(expected: Seq<char>, tok: Token) -> Seq<char> {
    "Expecting to find '"@ + expected + "' found '"@ + tok.lexeme@ + "' instead"@
}

/// The expression that the grammar's `level` reads from `toks` at `pos`,
/// with the position after it; or the index of the offending token and
/// the message.
pub open spec fn parse_at(toks: Seq<Token>, pos: int, level: nat) -> Result<
    (Expression, int),
    (int, Seq<char>),
>
    decreases toks.len() - pos, level, 0nat,
{
    if pos < 0 || pos >= toks.len() {
        Err((pos, seq![]))
    } else if level >= 6 {
        parse_at(toks, pos, 5)
    } else if level >= 2 {
        match parse_at(toks, pos, (level - 1) as nat) {
            Ok((left, p)) => if p <= pos || p >= toks.len() {
                Err((p, seq![]))
            } else {
                binary_rest(toks, p, level, left)
            },
            Err(e) => Err(e),
        }
    } else if level == 1 {
        if is_unary_operator(toks[pos].kind) {
            match parse_at(toks, pos + 1, 1) {
                Ok((e, p)) => Ok(
                    (
                        Expression::Unary(
                            Unary { operator: Box::new(toks[pos]), expression: Box::new(e) },
                        ),
                        p,
                    ),
                ),
                Err(e) => Err(e),
            }
        } else {
            parse_at(toks, pos, 0)
        }
    } else {
        let tok = toks[pos];
        match tok.kind {
            TokenKind::False => Ok((Expression::Literal(Literal::False), pos + 1)),
            TokenKind::True => Ok((Expression::Literal(Literal::True), pos + 1)),
            TokenKind::Nil => Ok((Expression::Literal(Literal::Nil), pos + 1)),
            TokenKind::Number(n) => Ok((Expression::Literal(Literal::Number(n)), pos + 1)),
            TokenKind::String(s) => Ok((Expression::Literal(Literal::String(s)), pos + 1)),
            TokenKind::LeftParen => match parse_at(toks, pos + 1, 6) {
                Ok((e, p)) => if 0 <= p < toks.len() && same_kind_and_text(
                    toks[p].kind,
                    TokenKind::RightParen,
                ) {
                    Ok((Expression::Grouping(Grouping { expression: Box::new(e) }), p + 1))
                } else {
                    Err((p, expecting(kind_text(TokenKind::RightParen), toks[p])))
                },
                Err(e) => Err(e),
            },
            _ => Err((pos, unexpected_token(tok))),
        }
    }
}

/// The rest of a binary level after its left operand `left`, which ends at
/// `p`: each operator and right operand folds into a new left operand.
pub open spec fn binary_rest(toks: Seq<Token>, p: int, level: nat, left: Expression) -> Result<
    (Expression, int),
    (int, Seq<char>),
>
    decreases toks.len() - p, level, 1nat,
{
    if p < 0 || p >= toks.len() {
        Err((p, seq![]))
    } else if is_operator_of(level, toks[p].kind) {
        match parse_at(toks, p + 1, (level - 1) as nat) {
            Ok((right, q)) => if q <= p || q >= toks.len() {
                Err((q, seq![]))
            } else {
                binary_rest(
                    toks,
                    q,
                    level,
                    Expression::Binary(
                        Binary {
                            left: Box::new(left),
                            operator: Box::new(toks[p]),
                            right: Box::new(right),
                        },
                    ),
                )
            },
            Err(e) => Err(e),
        }
    } else {
        Ok((left, p))
    }
}

/// `r` is what `expected` says, the error located at the offending token.
pub open spec fn result_agrees(
    r: Result<Expression, Error>,
    expected: Result<(Expression, int), (int, Seq<char>)>,
    toks: Seq<Token>,
) -> bool {
    match expected {
        Ok((e, _)) => r == Ok::<Expression, Error>(e),
        Err((k, m)) => r matches Err(err) && err.section == toks[k].section
            && err.location@.len() == 0 && err.message@ == m,
    }
}

/// The position that `expected` ends at, if it is a success.
pub open spec fn end_of(expected: Result<(Expression, int), (int, Seq<char>)>, pos: int) -> int {
    match expected {
        Ok((_, p)) => p,
        Err(_) => pos,
    }
}

/// An error located at `token`.
fn error_at(message: String, token: &Token) -> (r: Error)
    ensures
        r.section == token.section,
        r.location@.len() == 0,
        r.message@ == message@,
{
    ErrorBuilder::new().message(message).section(token.section).build()
}

/// Reads one expression from a token sequence that ends with `Eof`.
pub struct Parser {
    // the tokens not yet read, the next one last
    tokens: Vec<Token>,
    all: Ghost<Seq<Token>>,
}

impl Parser {
    /// The tokens the parser was given.
    pub closed spec fn input(&self) -> Seq<Token> {
        self.all@
    }

    /// The index of the next token to read.
    pub closed spec fn position(&self) -> int {
        self.all@.len() - self.tokens@.len()
    }

    pub closed spec fn wf(&self) -> bool {
        &&& 1 <= self.tokens@.len() <= self.all@.len()
        &&& self.all@.last().kind is Eof
        &&& forall|k: int|
            0 <= k < self.tokens@.len() ==> #[trigger] self.tokens@[k] == self.all@[self.all@.len()
                - 1 - k]
    }

    /// A parser at the first of `tokens`, whose last token is `Eof`.
    pub fn new(tokens: Vec<Token>) -> (r: Self)
        requires
            tokens@.len() > 0,
            tokens@.last().kind is Eof,
        ensures
            r.wf(),
            r.input() == tokens@,
            r.position() == 0,
    {
        let ghost all = tokens@;
        let mut tokens = tokens;
        let mut rest: Vec<Token> = Vec::new();
        while tokens.len() > 0
            invariant
                tokens@.len() + rest@.len() == all.len(),
                tokens@ == all.subrange(0, tokens@.len() as int),
                forall|k: int| 0 <= k < rest@.len() ==> #[trigger] rest@[k] == all[all.len() - 1 - k],
            decreases tokens@.len(),
        {
            match tokens.pop() {
                Some(t) => {
                    rest.push(t);
                },
                None => {},
            }
        }
        Parser { tokens: rest, all: Ghost(all) }
    }

    /// The expression at the start of the tokens, or the first error.
    /// Tokens after the expression are left unread.
    pub fn parse(self) -> (r: Result<Expression, Error>)
        requires
            self.wf(),
        ensures
            result_agrees(r, parse_at(self.input(), self.position(), 6), self.input()),
    {
        let mut parser = self;
        parser.expression()
    }

    /// Skips tokens up to `Eof` or to the next reserved word that can start
    /// a statement.
    pub fn synchronize(&mut self)
        requires
            old(self).wf(),
        ensures
            final(self).wf(),
            final(self).input() == old(self).input(),
            old(self).position() <= final(self).position(),
            is_boundary(final(self).input()[final(self).position()].kind),
            forall|k: int|
                old(self).position() <= k < final(self).position() ==> !is_boundary(
                    #[trigger] final(self).input()[k].kind,
                ),
    {
        while !self.is_done() && !self.at_synchronization_point()
            invariant
                self.wf(),
                self.input() == old(self).input(),
                old(self).position() <= self.position(),
                forall|k: int|
                    old(self).position() <= k < self.position() ==> !is_boundary(
                        #[trigger] self.input()[k].kind,
                    ),
            decreases self.tokens@.len(),
        {
            self.advance();
        }
    }

    /// Whether the next token is a reserved word that can start a statement.
    fn at_synchronization_point(&self) -> (r: bool)
        requires
            self.wf(),
        ensures
            r == is_statement_start(self.input()[self.position()].kind),
    {
        match self.peek().kind {
            TokenKind::Class | TokenKind::For | TokenKind::Fun | TokenKind::If | TokenKind::Print
            | TokenKind::Return | TokenKind::Var | TokenKind::While => true,
            _ => false,
        }
    }

    /// The next token.
    fn peek(&self) -> (r: &Token)
        requires
            self.wf(),
        ensures
            *r == self.input()[self.position()],
            0 <= self.position() < self.input().len(),
    {
        &self.tokens[self.tokens.len() - 1]
    }

    /// Whether the next token is `Eof`.
    fn is_done(&self) -> (r: bool)
        requires
            self.wf(),
        ensures
            r == (self.input()[self.position()].kind is Eof),
    {
        self.peek().kind.same_kind(&TokenKind::Eof)
    }

    /// Reads the next token, which is not `Eof`.
    fn advance(&mut self) -> (r: Token)
        requires
            old(self).wf(),
            !(old(self).input()[old(self).position()].kind is Eof),
        ensures
            final(self).wf(),
            final(self).input() == old(self).input(),
            final(self).position() == old(self).position() + 1,
            r == old(self).input()[old(self).position()],
    {
        let ghost n = self.all@.len();
        proof {
            if self.tokens@.len() == 1 {
                assert(self.tokens@[0] == self.all@[n - 1]);
            }
        }
        match self.tokens.pop() {
            Some(t) => t,
            // not reached: the unread tokens always hold the final `Eof`
            None => Token { kind: TokenKind::Eof, lexeme: String::new(), section: Default::default() },
        }
    }

    /// Reads the next token if it is an operator of the binary `level`.
    fn match_operator(&mut self, level: u8) -> (r: Option<Token>)
        requires
            old(self).wf(),
        ensures
            final(self).wf(),
            final(self).input() == old(self).input(),
            ({
                let tok = old(self).input()[old(self).position()];
                if is_operator_of(level as nat, tok.kind) {
                    r == Some(tok) && final(self).position() == old(self).position() + 1
                } else {
                    r is None && final(self).position() == old(self).position()
                }
            }),
    {
        let hit = match self.peek().kind {
            TokenKind::BangEqual | TokenKind::EqualEqual => level == 5,
            TokenKind::Greater | TokenKind::GreaterEqual | TokenKind::Less
            | TokenKind::LessEqual => level == 4,
            TokenKind::Minus | TokenKind::Plus => level == 3,
            TokenKind::Slash | TokenKind::Star => level == 2,
            _ => false,
        };
        if hit {
            Some(self.advance())
        } else {
            None
        }
    }

    /// Reads the next token if it is `kind`, or fails with a message that
    /// names the kind expected and the lexeme found.
    fn consume(&mut self, kind: &TokenKind) -> (r: Result<(), Error>)
        requires
            old(self).wf(),
        ensures
            final(self).wf(),
            final(self).input() == old(self).input(),
            ({
                let tok = old(self).input()[old(self).position()];
                if same_kind_and_text(tok.kind, *kind) {
                    r is Ok && final(self).position() == old(self).position() + if tok.kind is Eof {
                        0int
                    } else {
                        1int
                    }
                } else {
                    r matches Err(err) && err.section == tok.section && err.location@.len() == 0
                        && err.message@ == expecting(kind_text(*kind), tok) && final(self).position()
                        == old(self).position()
                }
            }),
    {
        if self.peek().kind == *kind {
            if !self.is_done() {
                self.advance();
            }
            Ok(())
        } else {
            let current = self.peek();
            let mut message = chars_of("Expecting to find '");
            push_chars(&mut message, kind.to_text().as_slice());
            push_str(&mut message, "' found '");
            push_str(&mut message, current.lexeme.as_str());
            push_str(&mut message, "' instead");
            Err(error_at(string_of(message), current))
        }
    }

    /// The error for an unexpected next token.
    fn unexpected(&self) -> (r: Error)
        requires
            self.wf(),
        ensures
            ({
                let tok = self.input()[self.position()];
                &&& r.section == tok.section
                &&& r.location@.len() == 0
                &&& r.message@ == unexpected_token(tok)
            }),
    {
        let current = self.peek();
        let mut message = chars_of("Unexpected token '");
        push_str(&mut message, current.lexeme.as_str());
        push_str(&mut message, "'");
        error_at(string_of(message), current)
    }

    /// expression -> equality
    fn expression(&mut self) -> (r: Result<Expression, Error>)
        requires
            old(self).wf(),
        ensures
            final(self).wf(),
            final(self).input() == old(self).input(),
            result_agrees(r, parse_at(old(self).input(), old(self).position(), 6), old(self).input()),
            r is Ok ==> final(self).position() == end_of(
                parse_at(old(self).input(), old(self).position(), 6),
                old(self).position(),
            ) && final(self).position() > old(self).position(),
        decreases old(self).tokens@.len(), 20nat,
    {
        self.equality()
    }

    /// equality -> comparison ( ( "!=" | "==" ) comparison )*
    fn equality(&mut self) -> (r: Result<Expression, Error>)
        requires
            old(self).wf(),
        ensures
            final(self).wf(),
            final(self).input() == old(self).input(),
            result_agrees(r, parse_at(old(self).input(), old(self).position(), 5), old(self).input()),
            r is Ok ==> final(self).position() == end_of(
                parse_at(old(self).input(), old(self).position(), 5),
                old(self).position(),
            ) && final(self).position() > old(self).position(),
        decreases old(self).tokens@.len(), 19nat,
    {
        self.binary(5)
    }

    /// comparison -> term ( ( ">" | ">=" | "<" | "<=" ) term )*
    fn comparison(&mut self) -> (r: Result<Expression, Error>)
        requires
            old(self).wf(),
        ensures
            final(self).wf(),
            final(self).input() == old(self).input(),
            result_agrees(r, parse_at(old(self).input(), old(self).position(), 4), old(self).input()),
            r is Ok ==> final(self).position() == end_of(
                parse_at(old(self).input(), old(self).position(), 4),
                old(self).position(),
            ) && final(self).position() > old(self).position(),
        decreases old(self).tokens@.len(), 16nat,
    {
        self.binary(4)
    }

    /// term -> factor ( ( "-" | "+" ) factor )*
    fn term(&mut self) -> (r: Result<Expression, Error>)
        requires
            old(self).wf(),
        ensures
            final(self).wf(),
            final(self).input() == old(self).input(),
            result_agrees(r, parse_at(old(self).input(), old(self).position(), 3), old(self).input()),
            r is Ok ==> final(self).position() == end_of(
                parse_at(old(self).input(), old(self).position(), 3),
                old(self).position(),
            ) && final(self).position() > old(self).position(),
        decreases old(self).tokens@.len(), 13nat,
    {
        self.binary(3)
    }

    /// factor -> unary ( ( "/" | "*" ) unary )*
    fn factor(&mut self) -> (r: Result<Expression, Error>)
        requires
            old(self).wf(),
        ensures
            final(self).wf(),
            final(self).input() == old(self).input(),
            result_agrees(r, parse_at(old(self).input(), old(self).position(), 2), old(self).input()),
            r is Ok ==> final(self).position() == end_of(
                parse_at(old(self).input(), old(self).position(), 2),
                old(self).position(),
            ) && final(self).position() > old(self).position(),
        decreases old(self).tokens@.len(), 10nat,
    {
        self.binary(2)
    }

    /// An operand of the binary `level`: the next tighter level.
    fn operand(&mut self, level: u8) -> (r: Result<Expression, Error>)
        requires
            old(self).wf(),
            2 <= level <= 5,
        ensures
            final(self).wf(),
            final(self).input() == old(self).input(),
            result_agrees(
                r,
                parse_at(old(self).input(), old(self).position(), (level - 1) as nat),
                old(self).input(),
            ),
            r is Ok ==> final(self).position() == end_of(
                parse_at(old(self).input(), old(self).position(), (level - 1) as nat),
                old(self).position(),
            ) && final(self).position() > old(self).position(),
        decreases old(self).tokens@.len(), 3 * level + 2,
    {
        if level == 5 {
            self.comparison()
        } else if level == 4 {
            self.term()
        } else if level == 3 {
            self.factor()
        } else {
            self.unary()
        }
    }

    /// A binary level: an operand, then each operator and operand of the
    /// level folded in from the left.
    fn binary(&mut self, level: u8) -> (r: Result<Expression, Error>)
        requires
            old(self).wf(),
            2 <= level <= 5,
        ensures
            final(self).wf(),
            final(self).input() == old(self).input(),
            result_agrees(
                r,
                parse_at(old(self).input(), old(self).position(), level as nat),
                old(self).input(),
            ),
            r is Ok ==> final(self).position() == end_of(
                parse_at(old(self).input(), old(self).position(), level as nat),
                old(self).position(),
            ) && final(self).position() > old(self).position(),
        decreases old(self).tokens@.len(), 3 * level + 3,
    {
        let ghost toks = self.all@;
        let ghost pos0 = self.position();
        let mut left = match self.operand(level) {
            Ok(e) => e,
            Err(err) => {
                return Err(err);
            },
        };
        loop
            invariant
                self.wf(),
                self.input() == toks,
                toks == old(self).input(),
                pos0 == old(self).position(),
                self.tokens@.len() < old(self).tokens@.len(),
                2 <= level <= 5,
                0 <= pos0 < self.position() < toks.len(),
                parse_at(toks, pos0, level as nat) == binary_rest(
                    toks,
                    self.position(),
                    level as nat,
                    left,
                ),
            decreases self.tokens@.len(),
        {
            let ghost p = self.position();
            match self.match_operator(level) {
                Some(operator) => {
                    let right = match self.operand(level) {
                        Ok(e) => e,
                        Err(err) => {
                            return Err(err);
                        },
                    };
                    left =
                    Expression::Binary(
                        Binary {
                            left: Box::new(left),
                            operator: Box::new(operator),
                            right: Box::new(right),
                        },
                    );
                },
                None => {
                    return Ok(left);
                },
            }
        }
    }

    /// unary -> ( "!" | "-" ) unary | primary
    fn unary(&mut self) -> (r: Result<Expression, Error>)
        requires
            old(self).wf(),
        ensures
            final(self).wf(),
            final(self).input() == old(self).input(),
            result_agrees(r, parse_at(old(self).input(), old(self).position(), 1), old(self).input()),
            r is Ok ==> final(self).position() == end_of(
                parse_at(old(self).input(), old(self).position(), 1),
                old(self).position(),
            ) && final(self).position() > old(self).position(),
        decreases old(self).tokens@.len(), 7nat,
    {
        let is_operator = match self.peek().kind {
            TokenKind::Bang | TokenKind::Minus => true,
            _ => false,
        };
        if is_operator {
            let operator = self.advance();
            match self.unary() {
                Ok(e) => Ok(Expression::Unary(Unary { operator: Box::new(operator), expression: Box::new(e) })),
                Err(err) => Err(err),
            }
        } else {
            self.primary()
        }
    }

    /// primary -> NUMBER | STRING | "true" | "false" | "nil" | "(" expression ")"
    fn primary(&mut self) -> (r: Result<Expression, Error>)
        requires
            old(self).wf(),
        ensures
            final(self).wf(),
            final(self).input() == old(self).input(),
            result_agrees(r, parse_at(old(self).input(), old(self).position(), 0), old(self).input()),
            r is Ok ==> final(self).position() == end_of(
                parse_at(old(self).input(), old(self).position(), 0),
                old(self).position(),
            ) && final(self).position() > old(self).position(),
        decreases old(self).tokens@.len(), 6nat,
    {
        let is_literal = match self.peek().kind {
            TokenKind::False | TokenKind::True | TokenKind::Nil | TokenKind::Number(_)
            | TokenKind::String(_) => true,
            _ => false,
        };
        if is_literal {
            let token = self.advance();
            let literal = match token.kind {
                TokenKind::False => Literal::False,
                TokenKind::True => Literal::True,
                TokenKind::Number(n) => Literal::Number(n),
                TokenKind::String(s) => Literal::String(s),
                _ => Literal::Nil,
            };
            return Ok(Expression::Literal(literal));
        }
        if self.peek().kind.same_kind(&TokenKind::LeftParen) {
            self.advance();
            let inner = match self.expression() {
                Ok(e) => e,
                Err(err) => {
                    return Err(err);
                },
            };
            return match self.consume(&TokenKind::RightParen) {
                Ok(()) => Ok(Expression::Grouping(Grouping { expression: Box::new(inner) })),
                Err(err) => Err(err),
            };
        }
        Err(self.unexpected())
    }
}

/// Reserved words that can start a statement.
pub open spec fn is_statement_start(k: TokenKind) -> bool {
    k is Class || k is For || k is Fun || k is If || k is Print || k is Return || k is Var
        || k is While
}

/// Where synchronization stops: a statement start or `Eof`.
pub open spec fn is_boundary(k: TokenKind) -> bool {
    is_statement_start(k) || k is Eof
}

} // verus!
