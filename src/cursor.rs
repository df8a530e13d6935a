use crate::position::{describes, lemma_position_bounds, Position};
use crate::text::chars_of;
use vstd::prelude::*;

verus! {

/// A half-open span `[start, end)` of a source text.
#[derive(Clone, Copy, Debug, PartialEq, Eq, Structural)]
pub struct TextSection {
    pub start: Position,
    pub end: Position,
}

impl TextSection {
    /// The empty section at the default position, line and column 0.
    pub open spec fn spec_default() -> TextSection {
        TextSection {
            start: Position { line: 0, column: 0, offset: 0 },
            end: Position { line: 0, column: 0, offset: 0 },
        }
    }
}

impl Default for TextSection {
    /// The empty section of no text, at the default position.
    fn default() -> (r: Self)
        ensures
            r == TextSection::spec_default(),
    {
        TextSection { start: Position::default(), end: Position::default() }
    }
}

/// `s` spans `[a, b)` of `t`, with positions that describe both ends.
pub open spec fn spans(s: TextSection, t: Seq<char>, a: int, b: int) -> bool {
    &&& s.start.offset == a
    &&& s.end.offset == b
    &&& describes(s.start, t)
    &&& describes(s.end, t)
}

/// The index of the first character at or after `i` that does not satisfy
/// `p`, or the length of `t` when there is none.
pub open spec fn run_end(t: Seq<char>, i: int, p: spec_fn(char) -> bool) -> int
    decreases t.len() - i,
{
    if 0 <= i < t.len() && p(t[i]) {
        run_end(t, i + 1, p)
    } else {
        i
    }
}

/// The index of the first `c` at or after `i`, or the length of `t`.
pub open spec fn find_char(t: Seq<char>, i: int, c: char) -> int {
    run_end(t, i, other_than(c))
}

/// The characters other than `c`.
pub open spec fn other_than(c: char) -> spec_fn(char) -> bool {
    |x: char| x != c
}

pub proof fn lemma_run_end(t: Seq<char>, i: int, n: int, p: spec_fn(char) -> bool)
    requires
        0 <= i <= n <= t.len(),
        forall|k: int| i <= k < n ==> #[trigger] p(t[k]),
        n == t.len() || !p(t[n]),
    ensures
        run_end(t, i, p) == n,
    decreases n - i,
{
    if i < n {
        lemma_run_end(t, i + 1, n, p);
    }
}

pub proof fn lemma_run_end_bounds(t: Seq<char>, i: int, p: spec_fn(char) -> bool)
    requires
        0 <= i <= t.len(),
    ensures
        i <= run_end(t, i, p) <= t.len(),
        forall|k: int| i <= k < run_end(t, i, p) ==> #[trigger] p(t[k]),
        run_end(t, i, p) == t.len() || !p(t[run_end(t, i, p)]),
    decreases t.len() - i,
{
    if i < t.len() && p(t[i]) {
        lemma_run_end_bounds(t, i + 1, p);
    }
}

/// A read head over a character sequence, with a bookmarked section start.
pub struct TextCursor {
    text: Vec<char>,
    section_start: Position,
    current_position: Position,
}

impl TextCursor {
    /// The characters read over.
    pub closed spec fn text(&self) -> Seq<char> {
        self.text@
    }

    /// The position of the read head.
    pub closed spec fn position(&self) -> Position {
        self.current_position
    }

    /// The bookmarked start of the current section.
    pub closed spec fn start(&self) -> Position {
        self.section_start
    }

    pub open spec fn offset(&self) -> int {
        self.position().offset as int
    }

    pub open spec fn wf(&self) -> bool {
        &&& self.text().len() < usize::MAX
        &&& describes(self.position(), self.text())
        &&& describes(self.start(), self.text())
        &&& self.start().offset <= self.position().offset
    }

    /// A cursor at the start of `text`.
    pub fn new(text: &str) -> (r: Self)
        requires
            text@.len() < usize::MAX,
        ensures
            r.wf(),
            r.text() == text@,
            r.offset() == 0,
            r.start().offset == 0,
    {
        TextCursor {
            text: chars_of(text), section_start: Position::new(), current_position: Position::new() }
    }

    /// Bookmarks the read head as the start of a new section.
    pub fn new_section(&mut self)
        requires
            old(self).wf(),
        ensures
            final(self).wf(),
            final(self).text() == old(self).text(),
            final(self).position() == old(self).position(),
            final(self).start() == old(self).position(),
    {
        self.section_start = self.current_position;
    }

    /// The character under the read head, if any.
    pub fn current(&self) -> (r: Option<char>)
        requires
            self.wf(),
        ensures
            r == (if self.offset() < self.text().len() {
                Some(self.text()[self.offset()])
            } else {
                None::<char>
            }),
    {
        let off = self.current_position.offset;
        if off < self.text.len() {
            Some(self.text[off])
        } else {
            None
        }
    }

    /// The character after the one under the read head, if any.
    pub fn second(&self) -> (r: Option<char>)
        requires
            self.wf(),
        ensures
            r == (if self.offset() + 1 < self.text().len() {
                Some(self.text()[self.offset() + 1])
            } else {
                None::<char>
            }),
    {
        let off = self.current_position.offset;
        if off < self.text.len() && off + 1 < self.text.len() {
            Some(self.text[off + 1])
        } else {
            None
        }
    }

    /// Moves past the character under the read head, if any.
    pub fn consume(&mut self)
        requires
            old(self).wf(),
        ensures
            final(self).wf(),
            final(self).text() == old(self).text(),
            final(self).start() == old(self).start(),
            final(self).offset() == (if old(self).offset() < old(self).text().len() {
                old(self).offset() + 1
            } else {
                old(self).offset()
            }),
    {
        proof {
            lemma_position_bounds(self.text@, self.current_position.offset as nat);
        }
        match self.current() {
            Some(c) => {
                if c == '\n' {
                    self.current_position.new_line();
                } else {
                    self.current_position.advance();
                }
            },
            None => {},
        }
    }

    /// Returns the character under the read head and moves past it.
    pub fn next(&mut self) -> (r: Option<char>)
        requires
            old(self).wf(),
        ensures
            final(self).wf(),
            final(self).text() == old(self).text(),
            final(self).start() == old(self).start(),
            r == (if old(self).offset() < old(self).text().len() {
                Some(old(self).text()[old(self).offset()])
            } else {
                None::<char>
            }),
            final(self).offset() == (if old(self).offset() < old(self).text().len() {
                old(self).offset() + 1
            } else {
                old(self).offset()
            }),
    {
        let current = self.current();
        self.consume();
        current
    }

    /// Whether the whole text has been read.
    pub fn is_done(&self) -> (r: bool)
        requires
            self.wf(),
        ensures
            r == (self.offset() >= self.text().len()),
    {
        self.current_position.offset >= self.text.len()
    }

    /// The characters of the current section.
    pub fn section_slice(&self) -> (r: &[char])
        requires
            self.wf(),
        ensures
            r@ == self.text().subrange(self.start().offset as int, self.offset()),
    {
        let all = self.text.as_slice();
        &all[self.section_start.offset..self.current_position.offset]
    }

    /// The span of the current section.
    pub fn section(&self) -> (r: TextSection)
        requires
            self.wf(),
        ensures
            r.start == self.start(),
            r.end == self.position(),
            spans(r, self.text(), self.start().offset as int, self.offset()),
    {
        TextSection { start: self.section_start, end: self.current_position }
    }

    /// Whether the character under the read head is `c`.
    pub fn match_next(&self, c: char) -> (r: bool)
        requires
            self.wf(),
        ensures
            r == (self.offset() < self.text().len() && self.text()[self.offset()] == c),
    {
        match self.current() {
            Some(d) => d == c,
            None => false,
        }
    }

    /// Moves up to the next `c`, or to the end of the text; the `c` itself is
    /// not consumed.
    pub fn consume_until_match(&mut self, c: char)
        requires
            old(self).wf(),
        ensures
            final(self).wf(),
            final(self).text() == old(self).text(),
            final(self).start() == old(self).start(),
            final(self).offset() == find_char(old(self).text(), old(self).offset(), c),
    {
        let ghost t = self.text@;
        let ghost i0 = self.offset();
        loop
            invariant
                self.wf(),
                self.text() == t,
                self.start() == old(self).start(),
                i0 <= self.offset() <= t.len(),
                forall|k: int| i0 <= k < self.offset() ==> t[k] != c,
            ensures
                self.wf(),
                self.text() == t,
                self.start() == old(self).start(),
                i0 <= self.offset() <= t.len(),
                forall|k: int| i0 <= k < self.offset() ==> t[k] != c,
                self.offset() == t.len() || t[self.offset()] == c,
            decreases t.len() - self.offset(),
        {
            match self.current() {
                Some(curr) => {
                    if curr != c {
                        self.consume();
                    } else {
                        break;
                    }
                },
                None => {
                    break;
                },
            }
        }
        proof {
            let p = other_than(c);
            assert forall|k: int| i0 <= k < self.offset() implies #[trigger] p(t[k]) by {}
            lemma_run_end(t, i0, self.offset(), p);
        }
    }

    /// Moves past every character for which `pred` holds, stopping at the
    /// first for which it does not, or at the end of the text.
    pub fn consume_while<F: Fn(&char) -> bool>(&mut self, pred: F)
        requires
            old(self).wf(),
            forall|c: &char| #[trigger] pred.requires((c,)),
        ensures
            final(self).wf(),
            final(self).text() == old(self).text(),
            final(self).start() == old(self).start(),
            old(self).offset() <= final(self).offset() <= old(self).text().len(),
            forall|k: int|
                old(self).offset() <= k < final(self).offset() ==> #[trigger] pred.ensures(
                    (&old(self).text()[k],),
                    true,
                ),
            final(self).offset() == old(self).text().len() || pred.ensures(
                (&old(self).text()[final(self).offset()],),
                false,
            ),
    {
        let ghost t = self.text@;
        let ghost i0 = self.offset();
        loop
            invariant
                self.wf(),
                self.text() == t,
                self.start() == old(self).start(),
                i0 <= self.offset() <= t.len(),
                forall|c: &char| #[trigger] pred.requires((c,)),
                forall|k: int| i0 <= k < self.offset() ==> #[trigger] pred.ensures((&t[k],), true),
            ensures
                self.wf(),
                self.text() == t,
                self.start() == old(self).start(),
                i0 <= self.offset() <= t.len(),
                forall|k: int| i0 <= k < self.offset() ==> #[trigger] pred.ensures((&t[k],), true),
                self.offset() == t.len() || pred.ensures((&t[self.offset()],), false),
            decreases t.len() - self.offset(),
        {
            match self.current() {
                Some(curr) => {
                    if pred(&curr) {
                        self.consume();
                    } else {
                        break;
                    }
                },
                None => {
                    break;
                },
            }
        }
    }
}

} // verus!
