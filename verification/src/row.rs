//! Rows of terminal characters, as the in-pane search reads them.

use vstd::prelude::*;

verus! {

/// A character cell: the character shown and the number of columns it takes.
#[derive(Debug, Clone, Copy, PartialEq, Eq, Structural)]
pub struct TerminalCharacter {
    pub character: char,
    pub width: usize,
}

impl TerminalCharacter {
    /// A cell holding a character of the given display width.
    pub fn new(character: char, width: usize) -> (c: TerminalCharacter)
        ensures
            c.character == character,
            c.width == width,
    {
        TerminalCharacter { character, width }
    }
}

/// A line of the terminal. A row that is not canonical continues the row
/// above it (it was wrapped).
#[derive(Debug, Clone)]
pub struct Row {
    pub columns: Vec<TerminalCharacter>,
    pub is_canonical: bool,
}

/// The characters of a row.
pub open spec fn row_chars(r: Row) -> Seq<char> {
    r.columns@.map_values(|c: TerminalCharacter| c.character)
}

/// The total display width of a sequence of cells.
pub open spec fn cells_width(cols: Seq<TerminalCharacter>) -> int
    decreases cols.len(),
{
    if cols.len() == 0 {
        0
    } else {
        cells_width(cols.drop_last()) + cols.last().width
    }
}

pub open spec fn row_width(r: Row) -> int {
    cells_width(r.columns@)
}

/// A width is never negative.
pub proof fn lemma_cells_width_nonneg(cols: Seq<TerminalCharacter>)
    ensures
        cells_width(cols) >= 0,
    decreases cols.len(),
{
    if cols.len() > 0 {
        lemma_cells_width_nonneg(cols.drop_last());
    }
}

proof fn lemma_cells_width_monotone(cols: Seq<TerminalCharacter>, i: int)
    requires
        0 <= i <= cols.len(),
    ensures
        cells_width(cols.take(i)) <= cells_width(cols),
    decreases cols.len() - i,
{
    if i < cols.len() {
        lemma_cells_width_monotone(cols, i + 1);
        assert(cols.take(i + 1).drop_last() =~= cols.take(i));
    } else {
        assert(cols.take(i) =~= cols);
    }
}

impl Row {
    pub fn new(columns: Vec<TerminalCharacter>, is_canonical: bool) -> (r: Row)
        ensures
            r.columns@ == columns@,
            r.is_canonical == is_canonical,
    {
        Row { columns, is_canonical }
    }

    /// The display width of the row: the sum of its cells' widths.
    pub fn width(&self) -> (w: usize)
        requires
            row_width(*self) <= usize::MAX,
        ensures
            w == row_width(*self),
    {
        let mut w: usize = 0;
        let mut i: usize = 0;
        while i < self.columns.len()
            invariant
                0 <= i <= self.columns.len(),
                w == cells_width(self.columns@.take(i as int)),
                row_width(*self) <= usize::MAX,
            decreases self.columns.len() - i,
        {
            proof {
                assert(self.columns@.take(i + 1).drop_last() =~= self.columns@.take(i as int));
                lemma_cells_width_monotone(self.columns@, i + 1);
            }
            w = w + self.columns[i].width;
            i = i + 1;
        }
        assert(self.columns@.take(i as int) =~= self.columns@);
        w
    }
}

} // verus!
