use crate::cursor::{
    find_char, lemma_run_end, lemma_run_end_bounds, other_than, run_end, spans, TextCursor,
};
use crate::error::{Error, ErrorBuilder, ErrorList};
use crate::number::{is_decimal_digit, Numeral};
use crate::text::{chars_of, push_chars, string_of};
use crate::token::{keyword_of, Token, TokenKind};
use vstd::prelude::*;

verus! {

pub open spec fn is_letter(c: char) -> bool {
    ('a' <= c && c <= 'z') || ('A' <= c && c <= 'Z') || c == '_'
}

pub open spec fn digit_pred() -> spec_fn(char) -> bool {
    |c: char| is_decimal_digit(c)
}

pub open spec fn word_pred() -> spec_fn(char) -> bool {
    |c: char| is_letter(c) || is_decimal_digit(c)
}

/// The kind of a punctuation character that stands alone.
pub open spec fn single_kind(c: char) -> Option<TokenKind> {
    if c == '(' {
        Some(TokenKind::LeftParen)
    } else if c == ')' {
        Some(TokenKind::RightParen)
    } else if c == '{' {
        Some(TokenKind::LeftBrace)
    } else if c == '}' {
        Some(TokenKind::RightBrace)
    } else if c == ',' {
        Some(TokenKind::Comma)
    } else if c == '.' {
        Some(TokenKind::Dot)
    } else if c == '-' {
        Some(TokenKind::Minus)
    } else if c == '+' {
        Some(TokenKind::Plus)
    } else if c == ';' {
        Some(TokenKind::Semicolon)
    } else if c == '*' {
        Some(TokenKind::Star)
    } else {
        None
    }
}

/// The kind of a character that a following `=` widens.
pub open spec fn widening_kind(c: char) -> Option<TokenKind> {
    if c == '!' {
        Some(TokenKind::Bang)
    } else if c == '=' {
        Some(TokenKind::Equal)
    } else if c == '<' {
        Some(TokenKind::Less)
    } else if c == '>' {
        Some(TokenKind::Greater)
    } else {
        None
    }
}

pub open spec fn is_blank(c: char) -> bool {
    c == ' ' || c == '\r' || c == '\t' || c == '\n'
}

/// The index of the first `*/` at or after `j`, or the length of `t`.
pub open spec fn comment_close(t: Seq<char>, j: int) -> int
    decreases t.len() - j,
{
    if j < 0 || j >= t.len() {
        t.len() as int
    } else if t[j] == '*' && j + 1 < t.len() && t[j + 1] == '/' {
        j
    } else {
        comment_close(t, j + 1)
    }
}

/// The end of a number starting at `i`: digits, then a `.` and more digits
/// when a digit follows the `.`.
pub open spec fn number_end(t: Seq<char>, i: int) -> int {
    let e = run_end(t, i + 1, digit_pred());
    if e + 1 < t.len() && t[e] == '.' && is_decimal_digit(t[e + 1]) {
        run_end(t, e + 1, digit_pred())
    } else {
        e
    }
}

pub open spec fn unterminated_comment() -> Seq<char> {
    "Unterminated comment."@
}

pub open spec fn unterminated_string() -> Seq<char> {
    "Unterminated string."@
}

pub open spec fn unexpected_character(c: char) -> Seq<char> {
    "Unexpected character '"@ + seq![c, '\'']
}

/// What one step of the scanner makes of the text it reads.
pub enum Outcome {
    /// whitespace or a comment
    Skip,
    /// a token of the given kind
    Emit(TokenKind),
    /// an identifier or a reserved word, as the text spells
    Word,
    /// a string literal, the text between the quotes
    Text,
    /// a number, as the numeral reads
    Numeral,
    /// a lexical error with the given message
    Fail(Seq<char>),
}

/// What the step at `i` makes, and where the next one starts.
pub open spec fn step(t: Seq<char>, i: int) -> (Outcome, int) {
    let c = t[i];
    let n = t.len() as int;
    if single_kind(c) is Some {
        (Outcome::Emit(single_kind(c)->0), i + 1)
    } else if widening_kind(c) is Some {
        if i + 1 < n && t[i + 1] == '=' {
            (Outcome::Emit(widening_kind(c)->0.spec_with_equal()), i + 2)
        } else {
            (Outcome::Emit(widening_kind(c)->0), i + 1)
        }
    } else if c == '/' {
        if i + 1 < n && t[i + 1] == '/' {
            (Outcome::Skip, find_char(t, i + 1, '\n'))
        } else if i + 1 < n && t[i + 1] == '*' {
            let k = comment_close(t, i + 2);
            if k < n {
                (Outcome::Skip, k + 2)
            } else {
                (Outcome::Fail(unterminated_comment()), n)
            }
        } else {
            (Outcome::Emit(TokenKind::Slash), i + 1)
        }
    } else if is_blank(c) {
        (Outcome::Skip, i + 1)
    } else if c == '"' {
        let q = find_char(t, i + 1, '"');
        if q < n {
            (Outcome::Text, q + 1)
        } else {
            (Outcome::Fail(unterminated_string()), n)
        }
    } else if is_decimal_digit(c) {
        (Outcome::Numeral, number_end(t, i))
    } else if is_letter(c) {
        (Outcome::Word, run_end(t, i + 1, word_pred()))
    } else {
        (Outcome::Fail(unexpected_character(c)), i + 1)
    }
}

/// A stretch `[start, end)` of the text and what the scanner made of it.
pub struct Lexed {
    pub start: int,
    pub end: int,
    pub outcome: Outcome,
}

/// The tokens (first) and the errors (second) that scanning `t` from `i`
/// finds, in order.
pub open spec fn scan_from(t: Seq<char>, i: int) -> (Seq<Lexed>, Seq<Lexed>)
    decreases t.len() - i,
{
    if i < 0 || i >= t.len() {
        (seq![], seq![])
    } else {
        let (o, e) = step(t, i);
        if e <= i || e > t.len() {
            (seq![], seq![])
        } else {
            let rest = scan_from(t, e);
            let item = Lexed { start: i, end: e, outcome: o };
            match o {
                Outcome::Skip => rest,
                Outcome::Fail(_) => (rest.0, seq![item] + rest.1),
                _ => (seq![item] + rest.0, rest.1),
            }
        }
    }
}

/// `k` is the kind that outcome `o` gives to the lexeme `lex`.
pub open spec fn kind_agrees(k: TokenKind, o: Outcome, lex: Seq<char>) -> bool {
    match o {
        Outcome::Emit(e) => k == e,
        Outcome::Word => match keyword_of(lex) {
            Some(w) => k == w,
            None => k is Identifier && k->Identifier_0@ == lex,
        },
        Outcome::Text => k is String && k->String_0@ == lex.subrange(1, lex.len() - 1),
        Outcome::Numeral => k is Number && k->Number_0.text() == lex,
        _ => false,
    }
}

/// `tok` is the token that `item` stands for in `t`.
pub open spec fn token_agrees(tok: Token, t: Seq<char>, item: Lexed) -> bool {
    &&& spans(tok.section, t, item.start, item.end)
    &&& tok.lexeme@ == t.subrange(item.start, item.end)
    &&& kind_agrees(tok.kind, item.outcome, t.subrange(item.start, item.end))
}

/// `err` is the error that `item` stands for in `t`.
pub open spec fn error_agrees(err: Error, t: Seq<char>, item: Lexed) -> bool {
    &&& spans(err.section, t, item.start, item.end)
    &&& err.location@.len() == 0
    &&& item.outcome matches Outcome::Fail(m) && err.message@ == m
}

pub proof fn lemma_comment_close_bounds(t: Seq<char>, j: int)
    requires
        0 <= j,
    ensures
        j <= comment_close(t, j) <= t.len() || (j > t.len() && comment_close(t, j) == t.len()),
        comment_close(t, j) < t.len() ==> t[comment_close(t, j)] == '*' && comment_close(t, j)
            + 1 < t.len() && t[comment_close(t, j) + 1] == '/',
    decreases t.len() - j,
{
    if j < t.len() && !(t[j] == '*' && j + 1 < t.len() && t[j + 1] == '/') {
        lemma_comment_close_bounds(t, j + 1);
    }
}

/// A stretch without `*` holds no `*/`.
proof fn lemma_comment_close_skip(t: Seq<char>, j: int, s: int)
    requires
        0 <= j <= s <= t.len(),
        forall|k: int| j <= k < s ==> t[k] != '*',
    ensures
        comment_close(t, j) == comment_close(t, s),
    decreases s - j,
{
    if j < s {
        lemma_comment_close_skip(t, j + 1, s);
    }
}

/// Every step moves forward and stays within the text.
pub proof fn lemma_step_bounds(t: Seq<char>, i: int)
    requires
        0 <= i < t.len(),
    ensures
        i < step(t, i).1 <= t.len(),
{
    let c = t[i];
    if c == '/' && i + 1 < t.len() && t[i + 1] == '/' {
        lemma_run_end_bounds(t, i + 1, other_than('\n'));
    } else if c == '/' && i + 1 < t.len() && t[i + 1] == '*' {
        lemma_comment_close_bounds(t, i + 2);
    } else if c == '"' {
        lemma_run_end_bounds(t, i + 1, other_than('"'));
    } else if is_decimal_digit(c) {
        lemma_run_end_bounds(t, i + 1, digit_pred());
        let e = run_end(t, i + 1, digit_pred());
        if e + 1 < t.len() && t[e] == '.' && is_decimal_digit(t[e + 1]) {
            lemma_run_end_bounds(t, e + 1, digit_pred());
        }
    } else if is_letter(c) {
        lemma_run_end_bounds(t, i + 1, word_pred());
    }
}

/// Every stretch found from `i` lies within `[i, len)` and is not empty.
pub proof fn lemma_scan_bounds(t: Seq<char>, i: int)
    requires
        0 <= i,
    ensures
        forall|k: int|
            0 <= k < scan_from(t, i).0.len() ==> i <= (#[trigger] scan_from(t, i).0[k]).start
                < scan_from(t, i).0[k].end <= t.len(),
        forall|k: int|
            0 <= k < scan_from(t, i).1.len() ==> i <= (#[trigger] scan_from(t, i).1[k]).start
                < scan_from(t, i).1[k].end <= t.len(),
    decreases t.len() - i,
{
    if i < t.len() {
        lemma_step_bounds(t, i);
        lemma_scan_bounds(t, step(t, i).1);
    }
}

/// Each token found from `i` is a step of the scanner at its start.
proof fn lemma_scan_items(t: Seq<char>, i: int)
    requires
        0 <= i,
    ensures
        forall|k: int|
            0 <= k < scan_from(t, i).0.len() ==> {
                let it = #[trigger] scan_from(t, i).0[k];
                &&& 0 <= it.start < t.len()
                &&& step(t, it.start) == (it.outcome, it.end)
                &&& !(it.outcome is Skip)
                &&& !(it.outcome is Fail)
            },
    decreases t.len() - i,
{
    if i < t.len() {
        lemma_step_bounds(t, i);
        lemma_scan_items(t, step(t, i).1);
    }
}

/// A run that ends within `[i, e)`, or at `e`, ends at the same place
/// within the stretch `t[i..e]`.
proof fn lemma_run_end_within(t: Seq<char>, i: int, e: int, j: int, p: spec_fn(char) -> bool)
    requires
        0 <= i <= j <= e <= t.len(),
        run_end(t, j, p) <= e,
    ensures
        run_end(t.subrange(i, e), j - i, p) == run_end(t, j, p) - i,
{
    let s = t.subrange(i, e);
    let r = run_end(t, j, p);
    lemma_run_end_bounds(t, j, p);
    assert forall|k: int| j - i <= k < r - i implies #[trigger] p(s[k]) by {
        assert(s[k] == t[k + i]);
        assert(p(t[k + i]));
    }
    if r < e {
        assert(s[r - i] == t[r]);
    }
    lemma_run_end(s, j - i, r - i, p);
}

/// A step that makes a token makes the same over its own lexeme alone,
/// reading all of it.
proof fn lemma_step_alone(t: Seq<char>, i: int)
    requires
        0 <= i < t.len(),
        !(step(t, i).0 is Skip),
        !(step(t, i).0 is Fail),
    ensures
        ({
            let (o, e) = step(t, i);
            let s = t.subrange(i, e);
            step(s, 0) == (o, s.len() as int)
        }),
{
    lemma_step_bounds(t, i);
    let (o, e) = step(t, i);
    let s = t.subrange(i, e);
    let c = t[i];
    assert(s[0] == c);
    if single_kind(c) is Some {
    } else if widening_kind(c) is Some {
        if i + 1 < t.len() && t[i + 1] == '=' {
            assert(s[1] == t[i + 1]);
        }
    } else if c == '/' {
    } else if is_blank(c) {
    } else if c == '"' {
        lemma_run_end_bounds(t, i + 1, other_than('"'));
        lemma_run_end_within(t, i, e, i + 1, other_than('"'));
    } else if is_decimal_digit(c) {
        let e1 = run_end(t, i + 1, digit_pred());
        lemma_run_end_bounds(t, i + 1, digit_pred());
        if e1 + 1 < t.len() && t[e1] == '.' && is_decimal_digit(t[e1 + 1]) {
            lemma_run_end_bounds(t, e1 + 1, digit_pred());
            assert(digit_pred()(t[e1 + 1]));
            lemma_run_end_within(t, i, e, i + 1, digit_pred());
            lemma_run_end_within(t, i, e, e1 + 1, digit_pred());
            assert(s[e1 - i] == t[e1]);
            assert(s[e1 - i + 1] == t[e1 + 1]);
        } else {
            lemma_run_end_within(t, i, e, i + 1, digit_pred());
        }
    } else if is_letter(c) {
        lemma_run_end_bounds(t, i + 1, word_pred());
        lemma_run_end_within(t, i, e, i + 1, word_pred());
    }
}

/// Two kinds that one outcome gives to one lexeme are the same variant.
pub proof fn lemma_kind_agrees_unique(a: TokenKind, b: TokenKind, o: Outcome, lex: Seq<char>)
    requires
        kind_agrees(a, o, lex),
        kind_agrees(b, o, lex),
    ensures
        a.spec_tag() == b.spec_tag(),
{
}

/// Re-scanning the exact lexeme of any token found in `t`, on its own,
/// finds that one token with the same outcome over the whole lexeme, and
/// no error; by `lemma_kind_agrees_unique`, a token of the same kind.
pub proof fn lemma_rescan_lexeme(t: Seq<char>, k: int)
    requires
        0 <= k < scan_from(t, 0).0.len(),
    ensures
        ({
            let item = scan_from(t, 0).0[k];
            let s = t.subrange(item.start, item.end);
            &&& scan_from(s, 0).0 == seq![Lexed { start: 0, end: s.len() as int, outcome: item.outcome }]
            &&& scan_from(s, 0).1.len() == 0
        }),
{
    lemma_scan_items(t, 0);
    let item = scan_from(t, 0).0[k];
    lemma_step_alone(t, item.start);
    let s = t.subrange(item.start, item.end);
    assert(s.len() > 0);
    assert(scan_from(s, s.len() as int).0.len() == 0);
    assert(scan_from(s, 0).0 == seq![Lexed { start: 0, end: s.len() as int, outcome: item.outcome }]
        + scan_from(s, s.len() as int).0);
}

/// Whether `c` is a decimal digit.
pub fn is_digit(c: &char) -> (r: bool)
    ensures
        r == is_decimal_digit(*c),
{
    '0' <= *c && *c <= '9'
}

/// Whether `c` is a letter or `_`.
pub fn is_alpha(c: &char) -> (r: bool)
    ensures
        r == is_letter(*c),
{
    ('a' <= *c && *c <= 'z') || ('A' <= *c && *c <= 'Z') || *c == '_'
}

/// Whether `c` may continue an identifier.
pub fn is_alpha_numeric(c: &char) -> (r: bool)
    ensures
        r == (is_letter(*c) || is_decimal_digit(*c)),
{
    is_alpha(c) || is_digit(c)
}

/// Turns a source text into tokens and lexical errors.
pub struct Scanner {
    cursor: TextCursor,
}

/// The tokens found, ending with `Eof`, and the errors found.
#[derive(Clone)]
pub struct ScanResult {
    pub tokens: Vec<Token>,
    pub errors: ErrorList,
}

impl Default for ScanResult {
    /// No tokens and no errors.
    fn default() -> (r: Self)
        ensures
            r.tokens@.len() == 0,
            r.errors.errors().len() == 0,
    {
        ScanResult { tokens: Vec::new(), errors: ErrorList::new() }
    }
}

impl Scanner {
    /// The source text.
    pub closed spec fn source(&self) -> Seq<char> {
        self.cursor.text()
    }

    /// Where scanning stands in the source.
    pub closed spec fn offset(&self) -> int {
        self.cursor.offset()
    }

    pub closed spec fn wf(&self) -> bool {
        self.cursor.wf()
    }

    /// A well-formed scanner's source has fewer than `usize::MAX` characters.
    pub proof fn lemma_source_bound(&self)
        requires
            self.wf(),
        ensures
            self.source().len() < usize::MAX,
            0 <= self.offset() <= self.source().len(),
    {
    }

    /// A scanner at the start of `source`.
    pub fn new(source: String) -> (r: Self)
        requires
            source@.len() < usize::MAX,
        ensures
            r.wf(),
            r.source() == source@,
            r.offset() == 0,
    {
        Scanner { cursor: TextCursor::new(source.as_str()) }
    }

    /// Scans the rest of the source: every token that it holds in order,
    /// then `Eof`, and every lexical error in order. Never fails.
    pub fn scan_tokens(&mut self) -> (r: ScanResult)
        requires
            old(self).wf(),
        ensures
            ({
                let t = old(self).source();
                let found = scan_from(t, old(self).offset());
                &&& r.tokens@.len() == found.0.len() + 1
                &&& forall|k: int|
                    0 <= k < found.0.len() ==> token_agrees(#[trigger] r.tokens@[k], t, found.0[k])
                &&& r.tokens@.last().kind == TokenKind::Eof
                &&& r.tokens@.last().lexeme@.len() == 0
                &&& spans(r.tokens@.last().section, t, t.len() as int, t.len() as int)
                &&& r.errors.errors().len() == found.1.len()
                &&& forall|k: int|
                    0 <= k < found.1.len() ==> error_agrees(
                        #[trigger] r.errors.errors()[k],
                        t,
                        found.1[k],
                    )
                &&& forall|k: int|
                    0 <= k < r.tokens@.len() ==> old(self).offset() <= (
                    #[trigger] r.tokens@[k]).section.start.offset <= r.tokens@[k].section.end.offset
                        <= t.len()
            }),
            final(self).wf(),
            final(self).source() == old(self).source(),
            final(self).offset() == old(self).source().len(),
    {
        let ghost t = self.cursor.text();
        let ghost o = self.cursor.offset();
        let mut tokens: Vec<Token> = Vec::new();
        let mut errors = ErrorList::new();
        let ghost mut done_tokens: Seq<Lexed> = seq![];
        let ghost mut done_errors: Seq<Lexed> = seq![];
        proof {
            lemma_scan_bounds(t, o);
        }
        while !self.cursor.is_done()
            invariant
                self.cursor.wf(),
                self.cursor.text() == t,
                o <= self.cursor.offset() <= t.len(),
                scan_from(t, o).0 == done_tokens + scan_from(t, self.cursor.offset()).0,
                scan_from(t, o).1 == done_errors + scan_from(t, self.cursor.offset()).1,
                tokens@.len() == done_tokens.len(),
                errors.errors().len() == done_errors.len(),
                forall|k: int|
                    0 <= k < done_tokens.len() ==> token_agrees(
                        #[trigger] tokens@[k],
                        t,
                        done_tokens[k],
                    ),
                forall|k: int|
                    0 <= k < done_errors.len() ==> error_agrees(
                        #[trigger] errors.errors()[k],
                        t,
                        done_errors[k],
                    ),
                forall|k: int|
                    0 <= k < tokens@.len() ==> o <= (#[trigger] tokens@[k]).section.start.offset
                        <= tokens@[k].section.end.offset <= self.cursor.offset(),
            decreases t.len() - self.cursor.offset(),
        {
            let ghost i = self.cursor.offset();
            proof {
                lemma_step_bounds(t, i);
            }
            self.cursor.new_section();
            let ghost item = Lexed { start: i, end: step(t, i).1, outcome: step(t, i).0 };
            match self.scan() {
                Ok(kind) => {
                    if !kind.same_kind(&TokenKind::Skip) {
                        let token = self.add_context(kind);
                        tokens.push(token);
                        proof {
                            done_tokens = done_tokens.push(item);
                            assert(scan_from(t, i).0 == seq![item] + scan_from(t, step(t, i).1).0);
                            assert(done_tokens == done_tokens.drop_last() + seq![item]);
                        }
                    }
                },
                Err(error_builder) => {
                    errors.add(error_builder.section(self.cursor.section()).build());
                    proof {
                        done_errors = done_errors.push(item);
                        assert(scan_from(t, i).1 == seq![item] + scan_from(t, step(t, i).1).1);
                    }
                },
            }
            proof {
                assert(self.cursor.offset() == step(t, i).1);
            }
        }
        self.cursor.new_section();
        let eof = Token { kind: TokenKind::Eof, lexeme: String::new(), section: self.cursor.section() };
        tokens.push(eof);
        proof {
            assert(scan_from(t, self.cursor.offset()).0.len() == 0);
            assert(done_tokens == scan_from(t, o).0);
            assert(done_errors == scan_from(t, o).1);
        }
        ScanResult { tokens, errors }
    }

    /// Reads one step at the read head: a kind (`Skip` for whitespace and
    /// comments), or an error to be located.
    fn scan(&mut self) -> (r: Result<TokenKind, ErrorBuilder>)
        requires
            old(self).wf(),
            old(self).offset() < old(self).source().len(),
            old(self).cursor.start() == old(self).cursor.position(),
        ensures
            final(self).wf(),
            final(self).source() == old(self).source(),
            final(self).cursor.start() == old(self).cursor.start(),
            ({
                let t = old(self).source();
                let i = old(self).offset();
                let (o, e) = step(t, i);
                &&& final(self).offset() == e
                &&& match o {
                    Outcome::Skip => r matches Ok(k) && k == TokenKind::Skip,
                    Outcome::Fail(m) => r matches Err(b) && b.given_section() is None
                        && b.given_location().len() == 0 && b.given_message() == m,
                    _ => r matches Ok(k) && k != TokenKind::Skip && kind_agrees(
                        k,
                        o,
                        t.subrange(i, e),
                    ),
                }
            }),
    {
        let ghost t = self.cursor.text();
        let ghost i = self.cursor.offset();
        let c = match self.cursor.next() {
            Some(c) => c,
            // not reached: there is a character to read
            None => {
                return Ok(TokenKind::Skip);
            },
        };
        if c == '(' {
            Ok(TokenKind::LeftParen)
        } else if c == ')' {
            Ok(TokenKind::RightParen)
        } else if c == '{' {
            Ok(TokenKind::LeftBrace)
        } else if c == '}' {
            Ok(TokenKind::RightBrace)
        } else if c == ',' {
            Ok(TokenKind::Comma)
        } else if c == '.' {
            Ok(TokenKind::Dot)
        } else if c == '-' {
            Ok(TokenKind::Minus)
        } else if c == '+' {
            Ok(TokenKind::Plus)
        } else if c == ';' {
            Ok(TokenKind::Semicolon)
        } else if c == '*' {
            Ok(TokenKind::Star)
        } else if c == '!' {
            Ok(self.check_for_equal(TokenKind::Bang))
        } else if c == '=' {
            Ok(self.check_for_equal(TokenKind::Equal))
        } else if c == '<' {
            Ok(self.check_for_equal(TokenKind::Less))
        } else if c == '>' {
            Ok(self.check_for_equal(TokenKind::Greater))
        } else if c == '/' {
            self.scan_slash_or_comment()
        } else if c == ' ' || c == '\r' || c == '\t' || c == '\n' {
            Ok(TokenKind::Skip)
        } else if c == '"' {
            self.scan_string()
        } else if is_digit(&c) {
            Ok(self.scan_number())
        } else if is_alpha(&c) {
            Ok(self.scan_identifier_or_keyword())
        } else {
            let mut message = chars_of("Unexpected character '");
            message.push(c);
            message.push('\'');
            proof {
                assert(message@ == unexpected_character(c));
            }
            Err(ErrorBuilder::new().message(string_of(message)))
        }
    }

    /// Consumes the character under the read head if it is `c`.
    fn consume_when_match(&mut self, c: char) -> (r: bool)
        requires
            old(self).wf(),
        ensures
            final(self).wf(),
            final(self).source() == old(self).source(),
            final(self).cursor.start() == old(self).cursor.start(),
            r == (old(self).offset() < old(self).source().len() && old(self).source()[old(
                self,
            ).offset()] == c),
            final(self).offset() == old(self).offset() + if r {
                1int
            } else {
                0int
            },
    {
        if self.cursor.match_next(c) {
            self.cursor.consume();
            true
        } else {
            false
        }
    }

    /// The token of the given kind over the current section.
    fn add_context(&mut self, kind: TokenKind) -> (r: Token)
        requires
            old(self).wf(),
        ensures
            *final(self) == *old(self),
            r.kind == kind,
            r.lexeme@ == old(self).source().subrange(
                old(self).cursor.start().offset as int,
                old(self).offset(),
            ),
            spans(
                r.section,
                old(self).source(),
                old(self).cursor.start().offset as int,
                old(self).offset(),
            ),
    {
        let mut lexeme: Vec<char> = Vec::new();
        push_chars(&mut lexeme, self.cursor.section_slice());
        Token { kind, lexeme: string_of(lexeme), section: self.cursor.section() }
    }

    /// After the opening `"`: the text up to the closing one.
    fn scan_string(&mut self) -> (r: Result<TokenKind, ErrorBuilder>)
        requires
            old(self).wf(),
            old(self).offset() >= 1,
            old(self).cursor.start().offset == old(self).offset() - 1,
            old(self).source()[old(self).offset() - 1] == '"',
        ensures
            final(self).wf(),
            final(self).source() == old(self).source(),
            final(self).cursor.start() == old(self).cursor.start(),
            ({
                let t = old(self).source();
                let i = old(self).offset() - 1;
                let (o, e) = step(t, i);
                &&& final(self).offset() == e
                &&& match o {
                    Outcome::Fail(m) => r matches Err(b) && b.given_section() is None
                        && b.given_location().len() == 0 && b.given_message() == m,
                    _ => r matches Ok(k) && o == Outcome::Text && kind_agrees(
                        k,
                        o,
                        t.subrange(i, e),
                    ),
                }
            }),
    {
        let ghost t = self.cursor.text();
        self.cursor.consume_until_match('"');
        proof {
            lemma_run_end_bounds(t, self.cursor.start().offset + 1, other_than('"'));
        }
        if self.cursor.is_done() {
            return Err(ErrorBuilder::new().message(string_of(chars_of("Unterminated string."))));
        }
        let mut text: Vec<char> = Vec::new();
        let slice = self.cursor.section_slice();
        let all = slice.len();
        let mut k: usize = 1;
        while k < all
            invariant
                1 <= k <= all,
                all == slice@.len(),
                text@ == slice@.subrange(1, k as int),
            decreases all - k,
        {
            text.push(slice[k]);
            k = k + 1;
            proof {
                assert(slice@.subrange(1, k as int) == slice@.subrange(1, k - 1) + seq![
                    slice@[k - 1],
                ]);
            }
        }
        self.cursor.consume();
        proof {
            let i = self.cursor.start().offset as int;
            let e = self.cursor.offset();
            assert(t.subrange(i, e).subrange(1, e - i - 1) == slice@.subrange(1, all as int));
        }
        Ok(TokenKind::String(string_of(text)))
    }

    /// After a `/`: a line comment, a block comment, or a `Slash` token.
    fn scan_slash_or_comment(&mut self) -> (r: Result<TokenKind, ErrorBuilder>)
        requires
            old(self).wf(),
            old(self).offset() >= 1,
            old(self).cursor.start().offset == old(self).offset() - 1,
            old(self).source()[old(self).offset() - 1] == '/',
        ensures
            final(self).wf(),
            final(self).source() == old(self).source(),
            final(self).cursor.start() == old(self).cursor.start(),
            ({
                let t = old(self).source();
                let i = old(self).offset() - 1;
                let (o, e) = step(t, i);
                &&& final(self).offset() == e
                &&& match o {
                    Outcome::Skip => r matches Ok(k) && k == TokenKind::Skip,
                    Outcome::Fail(m) => r matches Err(b) && b.given_section() is None
                        && b.given_location().len() == 0 && b.given_message() == m,
                    _ => r matches Ok(k) && o == Outcome::Emit(TokenKind::Slash) && k
                        == TokenKind::Slash,
                }
            }),
    {
        let ghost t = self.cursor.text();
        let ghost i = self.cursor.offset() - 1;
        match self.cursor.current() {
            Some('/') => {
                self.cursor.consume_until_match('\n');
                Ok(TokenKind::Skip)
            },
            Some('*') => {
                self.cursor.consume();
                loop
                    invariant
                        self.cursor.wf(),
                        self.cursor.text() == t,
                        self.source() == old(self).source(),
                        t == old(self).source(),
                        i == old(self).offset() - 1,
                        self.cursor.start() == old(self).cursor.start(),
                        0 <= i,
                        i + 2 <= self.cursor.offset() <= t.len(),
                        t[i] == '/' && t[i + 1] == '*',
                        comment_close(t, i + 2) == comment_close(t, self.cursor.offset()),
                    decreases t.len() - self.cursor.offset(),
                {
                    let ghost p = self.cursor.offset();
                    self.cursor.consume_until_match('*');
                    proof {
                        lemma_run_end_bounds(t, p, other_than('*'));
                        let s = self.cursor.offset();
                        assert forall|k: int| p <= k < s implies t[k] != '*' by {
                            assert(other_than('*')(t[k]));
                        }
                        lemma_comment_close_skip(t, p, s);
                    }
                    let ghost s = self.cursor.offset();
                    if self.cursor.is_done() {
                        proof {
                            assert(comment_close(t, t.len() as int) == t.len());
                        }
                        return Err(
                            ErrorBuilder::new().message(string_of(chars_of("Unterminated comment."))),
                        );
                    }
                    self.cursor.consume();
                    if self.cursor.match_next('/') {
                        self.cursor.consume();
                        proof {
                            assert(comment_close(t, s) == s);
                        }
                        return Ok(TokenKind::Skip);
                    }
                }
            },
            _ => Ok(TokenKind::Slash),
        }
    }

    /// Widens `kind` when an `=` follows.
    fn check_for_equal(&mut self, kind: TokenKind) -> (r: TokenKind)
        requires
            old(self).wf(),
        ensures
            final(self).wf(),
            final(self).source() == old(self).source(),
            final(self).cursor.start() == old(self).cursor.start(),
            ({
                let t = old(self).source();
                let j = old(self).offset();
                if j < t.len() && t[j] == '=' {
                    r == kind.spec_with_equal() && final(self).offset() == j + 1
                } else {
                    r == kind && final(self).offset() == j
                }
            }),
    {
        if self.consume_when_match('=') {
            kind.with_equal()
        } else {
            kind
        }
    }

    /// After the first digit: the rest of the number.
    fn scan_number(&mut self) -> (r: TokenKind)
        requires
            old(self).wf(),
            old(self).offset() >= 1,
            old(self).cursor.start().offset == old(self).offset() - 1,
            is_decimal_digit(old(self).source()[old(self).offset() - 1]),
        ensures
            final(self).wf(),
            final(self).source() == old(self).source(),
            final(self).cursor.start() == old(self).cursor.start(),
            ({
                let t = old(self).source();
                let i = old(self).offset() - 1;
                let (o, e) = step(t, i);
                &&& final(self).offset() == e
                &&& o == Outcome::Numeral
                &&& kind_agrees(r, o, t.subrange(i, e))
            }),
    {
        let ghost t = self.cursor.text();
        let ghost i = self.cursor.offset() - 1;
        self.consume_digits();
        let fraction_follows = match self.cursor.second() {
            Some(d) => self.cursor.match_next('.') && is_digit(&d),
            None => false,
        };
        if fraction_follows {
            self.cursor.consume();
            self.consume_digits();
        }
        let slice = self.cursor.section_slice();
        proof {
            let e1 = run_end(t, i + 1, digit_pred());
            lemma_run_end_bounds(t, i + 1, digit_pred());
            if e1 + 1 < t.len() && t[e1] == '.' && is_decimal_digit(t[e1 + 1]) {
                lemma_run_end_bounds(t, e1 + 1, digit_pred());
            }
            assert forall|k: int| 0 <= k < slice@.len() implies #[trigger] is_decimal_digit(
                slice@[k],
            ) || slice@[k] == '.' by {
                assert(slice@[k] == t[i + k]);
                if i + k > i && i + k < e1 {
                    assert(digit_pred()(t[i + k]));
                } else if i + k > e1 {
                    assert(digit_pred()(t[i + k]));
                }
            }
        }
        TokenKind::Number(Numeral::from_chars(slice))
    }

    /// Moves past a run of digits.
    fn consume_digits(&mut self)
        requires
            old(self).wf(),
        ensures
            final(self).wf(),
            final(self).source() == old(self).source(),
            final(self).cursor.start() == old(self).cursor.start(),
            final(self).offset() == run_end(old(self).source(), old(self).offset(), digit_pred()),
    {
        let ghost t = self.cursor.text();
        let ghost i = self.cursor.offset();
        self.cursor.consume_while(is_digit);
        proof {
            let p = digit_pred();
            let n = self.cursor.offset();
            assert forall|k: int| i <= k < n implies #[trigger] p(t[k]) by {
                assert(is_digit.ensures((&t[k],), true));
            }
            if n < t.len() {
                assert(is_digit.ensures((&t[n],), false));
            }
            lemma_run_end(t, i, n, p);
        }
    }

    /// After the first letter: the rest of the word, as a reserved word or
    /// an identifier.
    fn scan_identifier_or_keyword(&mut self) -> (r: TokenKind)
        requires
            old(self).wf(),
            old(self).offset() >= 1,
            old(self).cursor.start().offset == old(self).offset() - 1,
            is_letter(old(self).source()[old(self).offset() - 1]),
        ensures
            final(self).wf(),
            final(self).source() == old(self).source(),
            final(self).cursor.start() == old(self).cursor.start(),
            ({
                let t = old(self).source();
                let i = old(self).offset() - 1;
                let (o, e) = step(t, i);
                &&& final(self).offset() == e
                &&& o == Outcome::Word
                &&& kind_agrees(r, o, t.subrange(i, e))
            }),
    {
        let ghost t = self.cursor.text();
        let ghost i = self.cursor.offset();
        self.cursor.consume_while(is_alpha_numeric);
        proof {
            let p = word_pred();
            let n = self.cursor.offset();
            assert forall|k: int| i <= k < n implies #[trigger] p(t[k]) by {
                assert(is_alpha_numeric.ensures((&t[k],), true));
            }
            if n < t.len() {
                assert(is_alpha_numeric.ensures((&t[n],), false));
            }
            lemma_run_end(t, i, n, p);
        }
        let word = self.cursor.section_slice();
        match TokenKind::keyword_token(word) {
            Some(token) => token,
            None => {
                let mut text: Vec<char> = Vec::new();
                push_chars(&mut text, word);
                TokenKind::Identifier(string_of(text))
            },
        }
    }
}

} // verus!
