use crate::cursor::TextSection;
use crate::number::Numeral;
use crate::text::{chars_of, push_str, same_chars};
use vstd::prelude::*;

verus! {

/// What a token is.
#[derive(Clone, Debug)]
pub enum TokenKind {
    // single characters
    LeftParen,
    RightParen,
    LeftBrace,
    RightBrace,
    LeftCStyleComment,
    RightCStyleComment,
    Comma,
    Dot,
    Minus,
    Plus,
    Semicolon,
    Slash,
    Star,
    // one or two characters
    Bang,
    BangEqual,
    Equal,
    EqualEqual,
    Greater,
    GreaterEqual,
    Less,
    LessEqual,
    // literals
    Identifier(String),
    String(String),
    Number(Numeral),
    // reserved words
    And,
    Class,
    Else,
    False,
    Fun,
    For,
    If,
    Nil,
    Or,
    Print,
    Return,
    Super,
    This,
    True,
    Var,
    While,
    // whitespace and comments, never emitted
    Skip,
    // the end of the input, always the last token
    Eof,
}

/// A token: its kind, the exact text it was read from, and where.
#[derive(Clone, Debug)]
pub struct Token {
    pub kind: TokenKind,
    pub lexeme: String,
    pub section: TextSection,
}

/// The reserved word that `word` spells, if any.
pub open spec fn keyword_of(word: Seq<char>) -> Option<TokenKind> {
    if word == seq!['a', 'n', 'd'] {
        Some(TokenKind::And)
    } else if word == seq!['c', 'l', 'a', 's', 's'] {
        Some(TokenKind::Class)
    } else if word == seq!['e', 'l', 's', 'e'] {
        Some(TokenKind::Else)
    } else if word == seq!['f', 'a', 'l', 's', 'e'] {
        Some(TokenKind::False)
    } else if word == seq!['f', 'o', 'r'] {
        Some(TokenKind::For)
    } else if word == seq!['f', 'u', 'n'] {
        Some(TokenKind::Fun)
    } else if word == seq!['i', 'f'] {
        Some(TokenKind::If)
    } else if word == seq!['n', 'i', 'l'] {
        Some(TokenKind::Nil)
    } else if word == seq!['o', 'r'] {
        Some(TokenKind::Or)
    } else if word == seq!['p', 'r', 'i', 'n', 't'] {
        Some(TokenKind::Print)
    } else if word == seq!['r', 'e', 't', 'u', 'r', 'n'] {
        Some(TokenKind::Return)
    } else if word == seq!['s', 'u', 'p', 'e', 'r'] {
        Some(TokenKind::Super)
    } else if word == seq!['t', 'h', 'i', 's'] {
        Some(TokenKind::This)
    } else if word == seq!['t', 'r', 'u', 'e'] {
        Some(TokenKind::True)
    } else if word == seq!['v', 'a', 'r'] {
        Some(TokenKind::Var)
    } else if word == seq!['w', 'h', 'i', 'l', 'e'] {
        Some(TokenKind::While)
    } else {
        None
    }
}

impl TokenKind {
    /// A number for each variant, the payload left out.
    pub open spec fn spec_tag(self) -> u8 {
        match self {
            TokenKind::LeftParen => 0,
            TokenKind::RightParen => 1,
            TokenKind::LeftBrace => 2,
            TokenKind::RightBrace => 3,
            TokenKind::LeftCStyleComment => 4,
            TokenKind::RightCStyleComment => 5,
            TokenKind::Comma => 6,
            TokenKind::Dot => 7,
            TokenKind::Minus => 8,
            TokenKind::Plus => 9,
            TokenKind::Semicolon => 10,
            TokenKind::Slash => 11,
            TokenKind::Star => 12,
            TokenKind::Bang => 13,
            TokenKind::BangEqual => 14,
            TokenKind::Equal => 15,
            TokenKind::EqualEqual => 16,
            TokenKind::Greater => 17,
            TokenKind::GreaterEqual => 18,
            TokenKind::Less => 19,
            TokenKind::LessEqual => 20,
            TokenKind::Identifier(_) => 21,
            TokenKind::String(_) => 22,
            TokenKind::Number(_) => 23,
            TokenKind::And => 24,
            TokenKind::Class => 25,
            TokenKind::Else => 26,
            TokenKind::False => 27,
            TokenKind::Fun => 28,
            TokenKind::For => 29,
            TokenKind::If => 30,
            TokenKind::Nil => 31,
            TokenKind::Or => 32,
            TokenKind::Print => 33,
            TokenKind::Return => 34,
            TokenKind::Super => 35,
            TokenKind::This => 36,
            TokenKind::True => 37,
            TokenKind::Var => 38,
            TokenKind::While => 39,
            TokenKind::Skip => 40,
            TokenKind::Eof => 41,
        }
    }

    /// The variant's number: two kinds have the same one exactly when they
    /// are the same variant.
    pub fn tag(&self) -> (r: u8)
        ensures
            r == self.spec_tag(),
    {
        match self {
            TokenKind::LeftParen => 0,
            TokenKind::RightParen => 1,
            TokenKind::LeftBrace => 2,
            TokenKind::RightBrace => 3,
            TokenKind::LeftCStyleComment => 4,
            TokenKind::RightCStyleComment => 5,
            TokenKind::Comma => 6,
            TokenKind::Dot => 7,
            TokenKind::Minus => 8,
            TokenKind::Plus => 9,
            TokenKind::Semicolon => 10,
            TokenKind::Slash => 11,
            TokenKind::Star => 12,
            TokenKind::Bang => 13,
            TokenKind::BangEqual => 14,
            TokenKind::Equal => 15,
            TokenKind::EqualEqual => 16,
            TokenKind::Greater => 17,
            TokenKind::GreaterEqual => 18,
            TokenKind::Less => 19,
            TokenKind::LessEqual => 20,
            TokenKind::Identifier(_) => 21,
            TokenKind::String(_) => 22,
            TokenKind::Number(_) => 23,
            TokenKind::And => 24,
            TokenKind::Class => 25,
            TokenKind::Else => 26,
            TokenKind::False => 27,
            TokenKind::Fun => 28,
            TokenKind::For => 29,
            TokenKind::If => 30,
            TokenKind::Nil => 31,
            TokenKind::Or => 32,
            TokenKind::Print => 33,
            TokenKind::Return => 34,
            TokenKind::Super => 35,
            TokenKind::This => 36,
            TokenKind::True => 37,
            TokenKind::Var => 38,
            TokenKind::While => 39,
            TokenKind::Skip => 40,
            TokenKind::Eof => 41,
        }
    }

    /// The variant's name, as written in this enum.
    pub open spec fn spec_name(self) -> Seq<char> {
        match self {
            TokenKind::LeftParen => "LeftParen"@,
            TokenKind::RightParen => "RightParen"@,
            TokenKind::LeftBrace => "LeftBrace"@,
            TokenKind::RightBrace => "RightBrace"@,
            TokenKind::LeftCStyleComment => "LeftCStyleComment"@,
            TokenKind::RightCStyleComment => "RightCStyleComment"@,
            TokenKind::Comma => "Comma"@,
            TokenKind::Dot => "Dot"@,
            TokenKind::Minus => "Minus"@,
            TokenKind::Plus => "Plus"@,
            TokenKind::Semicolon => "Semicolon"@,
            TokenKind::Slash => "Slash"@,
            TokenKind::Star => "Star"@,
            TokenKind::Bang => "Bang"@,
            TokenKind::BangEqual => "BangEqual"@,
            TokenKind::Equal => "Equal"@,
            TokenKind::EqualEqual => "EqualEqual"@,
            TokenKind::Greater => "Greater"@,
            TokenKind::GreaterEqual => "GreaterEqual"@,
            TokenKind::Less => "Less"@,
            TokenKind::LessEqual => "LessEqual"@,
            TokenKind::Identifier(_) => "Identifier"@,
            TokenKind::String(_) => "String"@,
            TokenKind::Number(_) => "Number"@,
            TokenKind::And => "And"@,
            TokenKind::Class => "Class"@,
            TokenKind::Else => "Else"@,
            TokenKind::False => "False"@,
            TokenKind::Fun => "Fun"@,
            TokenKind::For => "For"@,
            TokenKind::If => "If"@,
            TokenKind::Nil => "Nil"@,
            TokenKind::Or => "Or"@,
            TokenKind::Print => "Print"@,
            TokenKind::Return => "Return"@,
            TokenKind::Super => "Super"@,
            TokenKind::This => "This"@,
            TokenKind::True => "True"@,
            TokenKind::Var => "Var"@,
            TokenKind::While => "While"@,
            TokenKind::Skip => "Skip"@,
            TokenKind::Eof => "Eof"@,
        }
    }

    /// The variant's name, as written in this enum.
    pub fn name(&self) -> (r: &'static str)
        ensures
            r@ == self.spec_name(),
    {
        match self {
            TokenKind::LeftParen => "LeftParen",
            TokenKind::RightParen => "RightParen",
            TokenKind::LeftBrace => "LeftBrace",
            TokenKind::RightBrace => "RightBrace",
            TokenKind::LeftCStyleComment => "LeftCStyleComment",
            TokenKind::RightCStyleComment => "RightCStyleComment",
            TokenKind::Comma => "Comma",
            TokenKind::Dot => "Dot",
            TokenKind::Minus => "Minus",
            TokenKind::Plus => "Plus",
            TokenKind::Semicolon => "Semicolon",
            TokenKind::Slash => "Slash",
            TokenKind::Star => "Star",
            TokenKind::Bang => "Bang",
            TokenKind::BangEqual => "BangEqual",
            TokenKind::Equal => "Equal",
            TokenKind::EqualEqual => "EqualEqual",
            TokenKind::Greater => "Greater",
            TokenKind::GreaterEqual => "GreaterEqual",
            TokenKind::Less => "Less",
            TokenKind::LessEqual => "LessEqual",
            TokenKind::Identifier(_) => "Identifier",
            TokenKind::String(_) => "String",
            TokenKind::Number(_) => "Number",
            TokenKind::And => "And",
            TokenKind::Class => "Class",
            TokenKind::Else => "Else",
            TokenKind::False => "False",
            TokenKind::Fun => "Fun",
            TokenKind::For => "For",
            TokenKind::If => "If",
            TokenKind::Nil => "Nil",
            TokenKind::Or => "Or",
            TokenKind::Print => "Print",
            TokenKind::Return => "Return",
            TokenKind::Super => "Super",
            TokenKind::This => "This",
            TokenKind::True => "True",
            TokenKind::Var => "Var",
            TokenKind::While => "While",
            TokenKind::Skip => "Skip",
            TokenKind::Eof => "Eof",
        }
    }

    /// Whether the two kinds are the same variant, payloads left out.
    pub fn same_kind(&self, other: &TokenKind) -> (r: bool)
        ensures
            r == (self.spec_tag() == other.spec_tag()),
    {
        self.tag() == other.tag()
    }

    /// The kind with a trailing `=` folded in.
    pub open spec fn spec_with_equal(self) -> TokenKind {
        match self {
            TokenKind::Bang => TokenKind::BangEqual,
            TokenKind::Equal => TokenKind::EqualEqual,
            TokenKind::Greater => TokenKind::GreaterEqual,
            TokenKind::Less => TokenKind::LessEqual,
            _ => self,
        }
    }

    /// Widens `!`, `=`, `<` and `>` to `!=`, `==`, `<=` and `>=`; any other
    /// kind is returned as it is.
    pub fn with_equal(self) -> (r: TokenKind)
        ensures
            r == self.spec_with_equal(),
    {
        match self {
            TokenKind::Bang => TokenKind::BangEqual,
            TokenKind::Equal => TokenKind::EqualEqual,
            TokenKind::Greater => TokenKind::GreaterEqual,
            TokenKind::Less => TokenKind::LessEqual,
            _ => self,
        }
    }

    /// The reserved word that `word` spells, if any.
    pub fn keyword_token(word: &[char]) -> (r: Option<TokenKind>)
        ensures
            r == keyword_of(word@),
    {
        if same_chars(word, ['a', 'n', 'd'].as_slice()) {
            return Some(TokenKind::And);
        }
        if same_chars(word, ['c', 'l', 'a', 's', 's'].as_slice()) {
            return Some(TokenKind::Class);
        }
        if same_chars(word, ['e', 'l', 's', 'e'].as_slice()) {
            return Some(TokenKind::Else);
        }
        if same_chars(word, ['f', 'a', 'l', 's', 'e'].as_slice()) {
            return Some(TokenKind::False);
        }
        if same_chars(word, ['f', 'o', 'r'].as_slice()) {
            return Some(TokenKind::For);
        }
        if same_chars(word, ['f', 'u', 'n'].as_slice()) {
            return Some(TokenKind::Fun);
        }
        if same_chars(word, ['i', 'f'].as_slice()) {
            return Some(TokenKind::If);
        }
        if same_chars(word, ['n', 'i', 'l'].as_slice()) {
            return Some(TokenKind::Nil);
        }
        if same_chars(word, ['o', 'r'].as_slice()) {
            return Some(TokenKind::Or);
        }
        if same_chars(word, ['p', 'r', 'i', 'n', 't'].as_slice()) {
            return Some(TokenKind::Print);
        }
        if same_chars(word, ['r', 'e', 't', 'u', 'r', 'n'].as_slice()) {
            return Some(TokenKind::Return);
        }
        if same_chars(word, ['s', 'u', 'p', 'e', 'r'].as_slice()) {
            return Some(TokenKind::Super);
        }
        if same_chars(word, ['t', 'h', 'i', 's'].as_slice()) {
            return Some(TokenKind::This);
        }
        if same_chars(word, ['t', 'r', 'u', 'e'].as_slice()) {
            return Some(TokenKind::True);
        }
        if same_chars(word, ['v', 'a', 'r'].as_slice()) {
            return Some(TokenKind::Var);
        }
        if same_chars(word, ['w', 'h', 'i', 'l', 'e'].as_slice()) {
            return Some(TokenKind::While);
        }
        None
    }
}

/// The same variant, with the same text in a literal's payload.
pub open spec fn same_kind_and_text(a: TokenKind, b: TokenKind) -> bool {
    match (a, b) {
        (TokenKind::Identifier(x), TokenKind::Identifier(y)) => x@ == y@,
        (TokenKind::String(x), TokenKind::String(y)) => x@ == y@,
        (TokenKind::Number(x), TokenKind::Number(y)) => x.text() == y.text(),
        _ => a.spec_tag() == b.spec_tag(),
    }
}

/// How a kind reads in a diagnostic: its variant's name, with a literal's
/// text in parentheses (an identifier's or a string's also in quotes).
pub open spec fn kind_text(k: TokenKind) -> Seq<char> {
    match k {
        TokenKind::Identifier(s) => "Identifier(\""@ + s@ + "\")"@,
        TokenKind::String(s) => "String(\""@ + s@ + "\")"@,
        TokenKind::Number(n) => "Number("@ + n.text() + ")"@,
        _ => k.spec_name(),
    }
}

impl TokenKind {
    /// How the kind reads in a diagnostic: its variant's name, with a
    /// literal's text in parentheses.
    pub fn to_text(&self) -> (r: Vec<char>)
        ensures
            r@ == kind_text(*self),
    {
        match self {
            TokenKind::Identifier(s) => {
                let mut out = chars_of("Identifier(\"");
                push_str(&mut out, s.as_str());
                push_str(&mut out, "\")");
                out
            },
            TokenKind::String(s) => {
                let mut out = chars_of("String(\"");
                push_str(&mut out, s.as_str());
                push_str(&mut out, "\")");
                out
            },
            TokenKind::Number(n) => {
                let mut out = chars_of("Number(");
                push_str(&mut out, n.to_string().as_str());
                push_str(&mut out, ")");
                out
            },
            _ => chars_of(self.name()),
        }
    }
}

impl PartialEq for TokenKind {
    /// The same variant, with the same text in a literal's payload.
    fn eq(&self, other: &TokenKind) -> (r: bool) {
        match (self, other) {
            (TokenKind::Identifier(a), TokenKind::Identifier(b)) => same_chars(chars_of(a.as_str()).as_slice(), chars_of(b.as_str()).as_slice()),
            (TokenKind::String(a), TokenKind::String(b)) => same_chars(chars_of(a.as_str()).as_slice(), chars_of(b.as_str()).as_slice()),
            (TokenKind::Number(a), TokenKind::Number(b)) => a.same_text(b),
            _ => self.tag() == other.tag(),
        }
    }
}

impl vstd::std_specs::cmp::PartialEqSpecImpl for TokenKind {
    open spec fn obeys_eq_spec() -> bool {
        true
    }

    open spec fn eq_spec(&self, other: &TokenKind) -> bool {
        same_kind_and_text(*self, *other)
    }
}

} // verus!
