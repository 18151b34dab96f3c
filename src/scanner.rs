//! A bare character cursor with two characters of lookahead and a
//! row/column position, the first building block of the lexer.

pub use crate::token::Token;
use crate::rules::char_at;
use vstd::prelude::*;

verus! {

/// A place in the input: row and column.
#[derive(Clone, Copy, Debug, Default, PartialEq)]
pub struct Position {
    pub row: usize,
    pub column: usize,
}

impl Position {
    pub fn new(row: usize, column: usize) -> (r: Position)
        ensures
            r.row == row,
            r.column == column,
    {
        Position { row, column }
    }

    pub fn get_row(&self) -> (r: usize)
        ensures
            r == self.row,
    {
        self.row
    }

    pub fn get_column(&self) -> (r: usize)
        ensures
            r == self.column,
    {
        self.column
    }
}

/// A cursor over a sequence of characters.
pub struct Lexer {
    input: Vec<char>,
    read: usize,
    cur: Option<char>,
    nxt: Option<char>,
    pos: Position,
}

impl Lexer {
    /// The characters under the cursor.
    pub closed spec fn source(&self) -> Seq<char> {
        self.input@
    }

    /// The position of the current character.
    pub closed spec fn position(&self) -> Position {
        self.pos
    }

    /// How many characters the cursor has consumed.
    pub closed spec fn offset(&self) -> int {
        self.pos.column - 1
    }

    /// The current character and the one after it are those at the offset.
    pub closed spec fn wf(&self) -> bool {
        let s = self.input@;
        let i = self.pos.column - 1;
        &&& self.pos.row == 1
        &&& self.pos.column >= 1
        &&& self.read as int == if i + 2 <= s.len() {
            i + 2
        } else {
            s.len() as int
        }
        &&& self.cur == char_at(s, i)
        &&& self.nxt == char_at(s, i + 1)
    }

    /// A cursor at the top left of `input`, row 1 and column 1, with its
    /// lookahead filled.
    pub fn new(input: Vec<char>) -> (r: Lexer)
        ensures
            r.wf(),
            r.source() == input@,
            r.offset() == 0,
            r.position() == (Position { row: 1, column: 1 }),
    {
        let mut lxr = Lexer { input, read: 0, cur: None, nxt: None, pos: Position::new(1, 1) };
        lxr.cur = lxr.pull();
        lxr.nxt = lxr.pull();
        lxr
    }

    /// The next character of the underlying input, once; `None` after its end.
    fn pull(&mut self) -> (r: Option<char>)
        requires
            old(self).read <= old(self).input@.len(),
        ensures
            r == char_at(old(self).input@, old(self).read as int),
            final(self).read as int == if old(self).read < old(self).input@.len() {
                old(self).read + 1
            } else {
                old(self).read as int
            },
            final(self).input == old(self).input,
            final(self).cur == old(self).cur,
            final(self).nxt == old(self).nxt,
            final(self).pos == old(self).pos,
    {
        if self.read < self.input.len() {
            let c = self.input[self.read];
            self.read = self.read + 1;
            Some(c)
        } else {
            None
        }
    }

    /// Moves on by one character: the lookahead slides, and the column
    /// grows by exactly one, also past the end of the input.
    pub fn read_char(&mut self)
        requires
            old(self).wf(),
            old(self).position().column < usize::MAX,
        ensures
            final(self).wf(),
            final(self).source() == old(self).source(),
            final(self).offset() == old(self).offset() + 1,
            final(self).position().row == old(self).position().row,
            final(self).position().column == old(self).position().column + 1,
    {
        self.cur = self.nxt;
        self.nxt = self.pull();
        self.pos.column = self.pos.column + 1;
    }
}

} // verus!
