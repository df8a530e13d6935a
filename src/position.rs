use vstd::prelude::*;

verus! {

/// A location in a source text: 1-based line and column, 0-based offset.
#[derive(Clone, Copy, Debug, PartialEq, Eq, Structural)]
pub struct Position {
    pub line: usize,
    pub column: usize,
    pub offset: usize,
}

/// The position reached after reading the first `k` characters of `t`.
pub open spec fn position_after(t: Seq<char>, k: nat) -> (int, int)
    decreases k,
{
    if k == 0 {
        (1, 1)
    } else {
        let (line, column) = position_after(t, (k - 1) as nat);
        if t[k - 1] == '\n' {
            (line + 1, 1)
        } else {
            (line, column + 1)
        }
    }
}

/// `p` is the position of `t` at offset `p.offset`.
pub open spec fn describes(p: Position, t: Seq<char>) -> bool {
    &&& p.offset <= t.len()
    &&& position_after(t, p.offset as nat) == (p.line as int, p.column as int)
}

pub proof fn lemma_position_bounds(t: Seq<char>, k: nat)
    ensures
        1 <= position_after(t, k).0 <= k + 1,
        1 <= position_after(t, k).1 <= k + 1,
    decreases k,
{
    if k > 0 {
        lemma_position_bounds(t, (k - 1) as nat);
    }
}

impl Position {
    /// The start of a text.
    pub fn new() -> (r: Self)
        ensures
            r.line == 1,
            r.column == 1,
            r.offset == 0,
    {
        Position { line: 1, column: 1, offset: 0 }
    }

    /// Steps over a newline character.
    pub fn new_line(&mut self)
        requires
            old(self).line < usize::MAX,
            old(self).offset < usize::MAX,
        ensures
            final(self).line == old(self).line + 1,
            final(self).column == 1,
            final(self).offset == old(self).offset + 1,
    {
        self.line = self.line + 1;
        self.column = 1;
        self.offset = self.offset + 1;
    }

    /// Steps over a character that is not a newline.
    pub fn advance(&mut self)
        requires
            old(self).column < usize::MAX,
            old(self).offset < usize::MAX,
        ensures
            final(self).line == old(self).line,
            final(self).column == old(self).column + 1,
            final(self).offset == old(self).offset + 1,
    {
        self.column = self.column + 1;
        self.offset = self.offset + 1;
    }
}

impl Default for Position {
    /// The position of no text at all: line and column 0.
    fn default() -> (r: Self)
        ensures
            r.line == 0,
            r.column == 0,
            r.offset == 0,
    {
        Position { line: 0, column: 0, offset: 0 }
    }
}

} // verus!
