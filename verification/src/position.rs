//! A cell position in a pane: a line (which may lie above the viewport, so it
//! is signed) and a column.

use vstd::prelude::*;

verus! {

#[derive(Debug, Clone, Copy, PartialEq, Eq, Structural)]
pub struct Position {
    pub line: isize,
    pub column: usize,
}

/// The order positions have: by line, then by column.
pub open spec fn pos_le(a: Position, b: Position) -> bool {
    a.line < b.line || (a.line == b.line && a.column <= b.column)
}

impl Position {
    pub fn new(line: i32, column: u16) -> (p: Position)
        ensures
            p.line == line as int,
            p.column == column as int,
    {
        Position { line: line as isize, column: column as usize }
    }

    pub fn line(&self) -> (l: isize)
        ensures
            l == self.line,
    {
        self.line
    }

    pub fn column(&self) -> (c: usize)
        ensures
            c == self.column,
    {
        self.column
    }

    /// Whether `self` comes before `other` or is the same position.
    pub fn le(&self, other: &Position) -> (b: bool)
        ensures
            b == pos_le(*self, *other),
    {
        self.line < other.line || (self.line == other.line && self.column <= other.column)
    }
}

} // verus!
