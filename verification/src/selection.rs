//! A text selection in a pane.
//!
//! A selection is empty when `start == end`. It holds the character at
//! `start` and everything before `end`.

use vstd::prelude::*;
use crate::position::{Position, pos_le};

verus! {

/// The bounds of the word most recently added to a selection.
#[derive(Debug, Clone, Copy, PartialEq, Eq, Structural)]
pub struct WordBounds {
    pub start: Position,
    pub end: Position,
}

#[derive(Debug, Clone, Copy, PartialEq, Eq, Structural)]
pub struct Selection {
    pub start: Position,
    pub end: Position,
    /// Whether the selection is still being dragged (moving it shifts only
    /// its start).
    pub active: bool,
    pub last_added_word_position: Option<WordBounds>,
    pub last_added_line_index: Option<isize>,
}

pub open spec fn origin() -> Position {
    Position { line: 0, column: 0 }
}

pub open spec fn default_selection() -> Selection {
    Selection {
        start: origin(),
        end: origin(),
        active: false,
        last_added_word_position: None,
        last_added_line_index: None,
    }
}

/// The start and end in reading order.
pub open spec fn ordered(s: Selection) -> (Position, Position) {
    if pos_le(s.start, s.end) {
        (s.start, s.end)
    } else {
        (s.end, s.start)
    }
}

/// Whether the cell at `row`, `col` lies in the selection.
pub open spec fn contains_cell(s: Selection, row: int, col: int) -> bool {
    let (start, end) = ordered(s);
    if start.line < row && row < end.line {
        true
    } else if start.line == end.line {
        row == start.line && start.column <= col && col < end.column
    } else if start.line == row && col >= start.column {
        true
    } else {
        end.line == row && col < end.column
    }
}

/// Whether some cell of line `row` lies between the selection's first and last line.
pub open spec fn contains_line(s: Selection, row: int) -> bool {
    let (start, end) = ordered(s);
    start.line <= row && end.line >= row
}

/// The selection after the word `ws..we` is added to it (by a double click and drag).
pub open spec fn with_word_added(s: Selection, ws: Position, we: Position) -> Selection {
    match s.last_added_word_position {
        Some(last) if last.start == ws && last.end == we => s,
        _ => {
            let above = match s.last_added_word_position {
                Some(last) => ws.line < last.start.line,
                None => false,
            };
            let below = match s.last_added_word_position {
                Some(last) => we.line > last.end.line,
                None => false,
            };
            let (start, end) = if above && ws.line < s.start.line {
                (ws, s.end)
            } else if below && we.line > s.end.line {
                (s.start, we)
            } else if below && ws.line > s.start.line {
                (ws, s.end)
            } else if above && we.line < s.end.line {
                (s.start, we)
            } else {
                let left_of_last = match s.last_added_word_position {
                    Some(last) => we.column <= last.start.column,
                    None => false,
                };
                let right_of_last = match s.last_added_word_position {
                    Some(last) => ws.column >= last.end.column,
                    None => false,
                };
                let last_start_is_word_end = match s.last_added_word_position {
                    Some(last) => last.start.column == we.column,
                    None => false,
                };
                let last_end_is_word_start = match s.last_added_word_position {
                    Some(last) => last.end.column == ws.column,
                    None => false,
                };
                if left_of_last && s.start.column > ws.column && s.start.line == ws.line {
                    (Position { column: ws.column, ..s.start }, s.end)
                } else if right_of_last && s.end.column < we.column && s.end.line == we.line {
                    (s.start, Position { column: we.column, ..s.end })
                } else if last_start_is_word_end {
                    (s.start, Position { column: we.column, ..s.end })
                } else if last_end_is_word_start {
                    (Position { column: ws.column, ..s.start }, s.end)
                } else {
                    (s.start, s.end)
                }
            };
            Selection {
                start,
                end,
                last_added_word_position: Some(WordBounds { start: ws, end: we }),
                ..s
            }
        },
    }
}

/// The selection after line `line` is added to it (by a triple click and drag).
pub open spec fn with_line_added(s: Selection, line: isize, last_index_in_line: usize) -> Selection {
    match s.last_added_line_index {
        Some(last) if last == line => s,
        _ => {
            let smaller = match s.last_added_line_index {
                Some(last) => line < last,
                None => false,
            };
            let larger = match s.last_added_line_index {
                Some(last) => line > last,
                None => false,
            };
            let line_start = Position { line: line as i32 as isize, column: 0 };
            let line_end = Position {
                line: line as i32 as isize,
                column: last_index_in_line as u16 as usize,
            };
            let (start, end) = if smaller && s.start.line > line {
                (line_start, s.end)
            } else if larger && s.end.line < line {
                (s.start, line_end)
            } else if smaller && s.end.line > line {
                (s.start, line_end)
            } else if larger && s.start.line < line {
                (line_start, s.end)
            } else {
                (s.start, s.end)
            };
            Selection { start, end, last_added_line_index: Some(line), ..s }
        },
    }
}

/// The visible line range `[first, last)` of a selection, clipped to `0..max`.
pub open spec fn visible_lines(s: Selection, max: usize) -> (int, int) {
    let (start, end) = ordered(s);
    let first = if start.line >= 0 { start.line as int } else { 0 };
    let last = if end.line <= (max as isize) { end.line as int } else { (max as isize) as int };
    (first, last)
}

pub open spec fn in_range(r: (int, int), l: int) -> bool {
    r.0 <= l && l < r.1
}

/// The lines whose rendering changes when a selection goes from `a` to `b`:
/// both selections' first and last lines, and every visible line that lies
/// in one selection but not the other; only lines in `0..max` count.
pub open spec fn lines_to_update(a: Selection, b: Selection, max: usize, l: int) -> bool {
    let va = visible_lines(a, max);
    let vb = visible_lines(b, max);
    &&& 0 <= l
    &&& l < (max as isize) as int
    &&& (l == a.start.line || l == a.end.line || l == b.start.line || l == b.end.line || (in_range(
        va,
        l,
    ) != in_range(vb, l)))
}

/// The selection moved `lines` lines up; an active selection keeps its end.
pub open spec fn moved_up(s: Selection, lines: usize) -> Selection {
    Selection {
        start: Position { line: (s.start.line - lines) as isize, ..s.start },
        end: if s.active {
            s.end
        } else {
            Position { line: (s.end.line - lines) as isize, ..s.end }
        },
        ..s
    }
}

/// The selection moved `lines` lines down; an active selection keeps its end.
pub open spec fn moved_down(s: Selection, lines: usize) -> Selection {
    Selection {
        start: Position { line: (s.start.line + lines) as isize, ..s.start },
        end: if s.active {
            s.end
        } else {
            Position { line: (s.end.line + lines) as isize, ..s.end }
        },
        ..s
    }
}

/// Whether a selection can move `lines` lines down without its lines overflowing.
pub open spec fn can_move_down(s: Selection, lines: usize) -> bool {
    &&& lines <= isize::MAX
    &&& s.start.line + lines <= isize::MAX
    &&& !s.active ==> s.end.line + lines <= isize::MAX
}

/// Whether a selection can move `lines` lines up without its lines overflowing.
pub open spec fn can_move_up(s: Selection, lines: usize) -> bool {
    &&& lines <= isize::MAX
    &&& s.start.line - lines >= isize::MIN
    &&& !s.active ==> s.end.line - lines >= isize::MIN
}

impl Selection {
    pub fn default() -> (s: Selection)
        ensures
            s == default_selection(),
    {
        Selection {
            start: Position { line: 0, column: 0 },
            end: Position { line: 0, column: 0 },
            active: false,
            last_added_word_position: None,
            last_added_line_index: None,
        }
    }

    pub fn start(&mut self, start: Position)
        ensures
            *final(self) == (Selection { active: true, start: start, end: start, ..*old(self) }),
    {
        self.active = true;
        self.start = start;
        self.end = start;
    }

    pub fn to(&mut self, to: Position)
        ensures
            *final(self) == (Selection { end: to, ..*old(self) }),
    {
        self.end = to;
    }

    pub fn end(&mut self, end: Position)
        ensures
            *final(self) == (Selection { active: false, end: end, ..*old(self) }),
    {
        self.active = false;
        self.end = end;
    }

    pub fn finalize(&mut self)
        ensures
            *final(self) == (Selection { active: false, ..*old(self) }),
    {
        self.active = false;
    }

    pub fn set_start_and_end_positions(&mut self, start: Position, end: Position)
        ensures
            *final(self) == (Selection {
                active: true,
                start: start,
                end: end,
                last_added_word_position: Some(WordBounds { start: start, end: end }),
                last_added_line_index: Some(start.line),
            }),
    {
        self.active = true;
        self.start = start;
        self.end = end;
        self.last_added_word_position = Some(WordBounds { start, end });
        self.last_added_line_index = Some(start.line);
    }

    pub fn add_word_to_position(&mut self, word_start: Position, word_end: Position)
        ensures
            *final(self) == with_word_added(*old(self), word_start, word_end),
    {
        let already_added = match self.last_added_word_position {
            Some(last) => last.start == word_start && last.end == word_end,
            None => false,
        };
        if already_added {
            return ;
        }
        let word_is_above_last_added_word = match self.last_added_word_position {
            Some(last) => word_start.line < last.start.line,
            None => false,
        };
        let word_is_below_last_added_word = match self.last_added_word_position {
            Some(last) => word_end.line > last.end.line,
            None => false,
        };
        if word_is_above_last_added_word && word_start.line < self.start.line {
            // extend the selection upwards
            self.start = word_start;
        } else if word_is_below_last_added_word && word_end.line > self.end.line {
            // extend the selection downwards
            self.end = word_end;
        } else if word_is_below_last_added_word && word_start.line > self.start.line {
            // shrink the selection from above
            self.start = word_start;
        } else if word_is_above_last_added_word && word_end.line < self.end.line {
            // shrink the selection from below
            self.end = word_end;
        } else {
            let word_end_is_to_the_left_of_last_word_start = match self.last_added_word_position {
                Some(last) => word_end.column <= last.start.column,
                None => false,
            };
            let word_start_is_to_the_right_of_last_word_end = match self.last_added_word_position {
                Some(last) => word_start.column >= last.end.column,
                None => false,
            };
            let last_word_start_equals_word_end = match self.last_added_word_position {
                Some(last) => last.start.column == word_end.column,
                None => false,
            };
            let last_word_end_equals_word_start = match self.last_added_word_position {
                Some(last) => last.end.column == word_start.column,
                None => false,
            };
            let selection_start_column_is_to_the_right_of_word_start = self.start.column
                > word_start.column;
            let selection_start_is_on_same_line_as_word_start = self.start.line == word_start.line;
            let selection_end_is_to_the_left_of_word_end = self.end.column < word_end.column;
            let selection_end_is_on_same_line_as_word_end = self.end.line == word_end.line;
            if word_end_is_to_the_left_of_last_word_start
                && selection_start_column_is_to_the_right_of_word_start
                && selection_start_is_on_same_line_as_word_start {
                // extend the selection to the left
                self.start.column = word_start.column;
            } else if word_start_is_to_the_right_of_last_word_end
                && selection_end_is_to_the_left_of_word_end
                && selection_end_is_on_same_line_as_word_end {
                // extend the selection to the right
                self.end.column = word_end.column;
            } else if last_word_start_equals_word_end {
                // shrink the selection from the right
                self.end.column = word_end.column;
            } else if last_word_end_equals_word_start {
                // shrink the selection from the left
                self.start.column = word_start.column;
            }
        }
        self.last_added_word_position = Some(WordBounds { start: word_start, end: word_end });
    }

    pub fn add_line_to_position(&mut self, line_index: isize, last_index_in_line: usize)
        ensures
            *final(self) == with_line_added(*old(self), line_index, last_index_in_line),
    {
        let already_added = match self.last_added_line_index {
            Some(last) => last == line_index,
            None => false,
        };
        if already_added {
            return ;
        }
        let smaller = match self.last_added_line_index {
            Some(last) => line_index < last,
            None => false,
        };
        let larger = match self.last_added_line_index {
            Some(last) => line_index > last,
            None => false,
        };
        if smaller && self.start.line > line_index {
            // extend the selection up by one line
            self.start = Position::new(line_index as i32, 0);
        } else if larger && self.end.line < line_index {
            // extend the selection down by one line
            self.end = Position::new(line_index as i32, last_index_in_line as u16);
        } else if smaller && self.end.line > line_index {
            // shrink the selection from below by one line
            self.end = Position::new(line_index as i32, last_index_in_line as u16);
        } else if larger && self.start.line < line_index {
            // shrink the selection from above by one line
            self.start = Position::new(line_index as i32, 0);
        }
        self.last_added_line_index = Some(line_index);
    }

    pub fn contains(&self, row: usize, col: usize) -> (b: bool)
        ensures
            b == contains_cell(*self, row as isize as int, col as int),
    {
        let row = row as isize;
        let (start, end) = if self.start.le(&self.end) {
            (self.start, self.end)
        } else {
            (self.end, self.start)
        };
        if start.line < row && row < end.line {
            return true;
        }
        if start.line == end.line {
            return row == start.line && start.column <= col && col < end.column;
        }
        if start.line == row && col >= start.column {
            return true;
        }
        end.line == row && col < end.column
    }

    pub fn contains_row(&self, row: usize) -> (b: bool)
        ensures
            b == contains_line(*self, row as isize as int),
    {
        let row = row as isize;
        let (start, end) = if self.start.le(&self.end) {
            (self.start, self.end)
        } else {
            (self.end, self.start)
        };
        start.line <= row && end.line >= row
    }

    pub fn is_empty(&self) -> (b: bool)
        ensures
            b == (self.start == self.end),
    {
        self.start == self.end
    }

    pub fn reset(&mut self)
        ensures
            *final(self) == (Selection { start: origin(), end: origin(), ..*old(self) }),
    {
        self.start = Position { line: 0, column: 0 };
        self.end = self.start;
    }

    pub fn sorted(&self) -> (s: Self)
        ensures
            s == (Selection { start: ordered(*self).0, end: ordered(*self).1, ..*self }),
    {
        let (start, end) = if self.start.le(&self.end) {
            (self.start, self.end)
        } else {
            (self.end, self.start)
        };
        Selection {
            start,
            end,
            active: self.active,
            last_added_word_position: self.last_added_word_position,
            last_added_line_index: self.last_added_line_index,
        }
    }

    pub fn line_indices(&self) -> (r: std::ops::RangeInclusive<isize>)
        ensures
            r@.start == ordered(*self).0.line,
            r@.end == ordered(*self).1.line,
            !r@.exhausted,
    {
        let sorted = self.sorted();
        std::ops::RangeInclusive::new(sorted.start.line, sorted.end.line)
    }

    pub fn move_up(&mut self, lines: usize)
        requires
            can_move_up(*old(self), lines),
        ensures
            *final(self) == moved_up(*old(self), lines),
    {
        self.start.line = self.start.line - lines as isize;
        if !self.active {
            self.end.line = self.end.line - lines as isize;
        }
    }

    pub fn move_down(&mut self, lines: usize)
        requires
            can_move_down(*old(self), lines),
        ensures
            *final(self) == moved_down(*old(self), lines),
    {
        self.start.line = self.start.line + lines as isize;
        if !self.active {
            self.end.line = self.end.line + lines as isize;
        }
    }

    pub fn offset(self, offset_x: usize, offset_y: usize) -> (s: Self)
        requires
            offset_y <= isize::MAX,
            self.start.line + offset_y <= isize::MAX,
            self.end.line + offset_y <= isize::MAX,
            self.start.column + offset_x <= usize::MAX,
            self.end.column + offset_x <= usize::MAX,
        ensures
            s == (Selection {
                start: Position {
                    line: (self.start.line + offset_y) as isize,
                    column: (self.start.column + offset_x) as usize,
                },
                end: Position {
                    line: (self.end.line + offset_y) as isize,
                    column: (self.end.column + offset_x) as usize,
                },
                ..self
            }),
    {
        let mut s = self;
        s.start.line = s.start.line + offset_y as isize;
        s.end.line = s.end.line + offset_y as isize;
        s.start.column = s.start.column + offset_x;
        s.end.column = s.end.column + offset_x;
        s
    }

    /// The lines to render again when the selection changes from `self` to
    /// `other`, in increasing order and each once (see `lines_to_update`).
    pub fn diff(&self, other: &Self, max: usize) -> (lines: Vec<isize>)
        ensures
            forall|l: int| lines@.contains(l as isize) && isize::MIN <= l <= isize::MAX
                <==> lines_to_update(*self, *other, max, l),
            forall|i: int, j: int| 0 <= i < j < lines@.len() ==> lines@[i] < lines@[j],
    {
        let va = self.get_visible_indices(max);
        let vb = other.get_visible_indices(max);
        let m = max as isize;
        let a_first = if self.start.line <= self.end.line { self.start.line } else { self.end.line };
        let a_last = if self.start.line <= self.end.line { self.end.line } else { self.start.line };
        let b_first = if other.start.line <= other.end.line { other.start.line } else { other.end.line };
        let b_last = if other.start.line <= other.end.line { other.end.line } else { other.start.line };
        let lo = if a_first <= b_first { a_first } else { b_first };
        let hi = if a_last >= b_last { a_last } else { b_last };
        let mut lines: Vec<isize> = Vec::new();
        // no line outside lo..=hi or outside 0..m is ever reported
        let mut l: isize = if lo >= 0 { lo } else { 0 };
        while l < m && l <= hi
            invariant
                0 <= l,
                lo <= l,
                m == (max as isize),
                va.0 as int == visible_lines(*self, max).0,
                va.1 as int == visible_lines(*self, max).1,
                vb.0 as int == visible_lines(*other, max).0,
                vb.1 as int == visible_lines(*other, max).1,
                lo == if a_first <= b_first { a_first } else { b_first },
                hi == if a_last >= b_last { a_last } else { b_last },
                a_first == if self.start.line <= self.end.line { self.start.line } else { self.end.line },
                a_last == if self.start.line <= self.end.line { self.end.line } else { self.start.line },
                b_first == if other.start.line <= other.end.line { other.start.line } else { other.end.line },
                b_last == if other.start.line <= other.end.line { other.end.line } else { other.start.line },
                forall|k: int| lines@.contains(k as isize) && isize::MIN <= k <= isize::MAX
                    <==> (k < l && lines_to_update(*self, *other, max, k)),
                forall|i: int, j: int| 0 <= i < j < lines@.len() ==> lines@[i] < lines@[j],
                forall|i: int| 0 <= i < lines@.len() ==> lines@[i] < l,
            decreases m - l,
        {
            let in_a = va.0 <= l && l < va.1;
            let in_b = vb.0 <= l && l < vb.1;
            if l == self.start.line || l == self.end.line || l == other.start.line || l
                == other.end.line || in_a != in_b {
                let ghost old_lines = lines@;
                lines.push(l);
                assert forall|k: int| lines@.contains(k as isize) && isize::MIN <= k <= isize::MAX
                    implies (k < l + 1 && lines_to_update(*self, *other, max, k)) by {
                    if k as isize != l {
                        assert(old_lines.contains(k as isize));
                    }
                }
                assert forall|k: int| (k < l + 1 && lines_to_update(*self, *other, max, k))
                    implies lines@.contains(k as isize) && isize::MIN <= k <= isize::MAX by {
                    if k < l {
                        assert(old_lines.contains(k as isize));
                        let i = choose|i: int| 0 <= i < old_lines.len() && old_lines[i] == k as isize;
                        assert(lines@[i] == k as isize);
                    } else {
                        assert(lines@[lines@.len() - 1] == l);
                    }
                }
            }
            l = l + 1;
        }
        lines
    }

    fn get_visible_indices(&self, max: usize) -> (r: (isize, isize))
        ensures
            r.0 as int == visible_lines(*self, max).0,
            r.1 as int == visible_lines(*self, max).1,
    {
        let sorted = self.sorted();
        let start = if sorted.start.line >= 0 { sorted.start.line } else { 0 };
        let m = max as isize;
        let end = if sorted.end.line <= m { sorted.end.line } else { m };
        (start, end)
    }
}

/// An empty selection (its start is its end) holds no cell.
pub proof fn lemma_empty_selection_holds_nothing(s: Selection, row: int, col: int)
    requires
        s.start == s.end,
    ensures
        !contains_cell(s, row, col),
{
}

/// A selection that holds a cell covers that cell's line.
pub proof fn lemma_cell_in_selection_is_on_its_lines(s: Selection, row: int, col: int)
    requires
        contains_cell(s, row, col),
    ensures
        contains_line(s, row),
{
}

/// Sorting puts the start first, does not change which cells and lines the
/// selection holds, and sorting again changes nothing.
pub proof fn lemma_sorted_selection(s: Selection)
    ensures
        ({
            let t = Selection { start: ordered(s).0, end: ordered(s).1, ..s };
            &&& pos_le(t.start, t.end)
            &&& ordered(t) == ordered(s)
            &&& Selection { start: ordered(t).0, end: ordered(t).1, ..t } == t
            &&& forall|row: int, col: int| contains_cell(t, row, col) == contains_cell(s, row, col)
            &&& forall|row: int| contains_line(t, row) == contains_line(s, row)
        }),
{
}

/// Moving a selection down and then up by the same number of lines gives
/// it back, and so does moving it up and then down.
pub proof fn lemma_move_down_then_up(s: Selection, lines: usize)
    requires
        can_move_down(s, lines),
    ensures
        can_move_up(moved_down(s, lines), lines),
        moved_up(moved_down(s, lines), lines) == s,
{
}

/// Moving a selection up and then down by the same number of lines gives it
/// back.
pub proof fn lemma_move_up_then_down(s: Selection, lines: usize)
    requires
        can_move_up(s, lines),
    ensures
        can_move_down(moved_up(s, lines), lines),
        moved_down(moved_up(s, lines), lines) == s,
{
}

/// A reset selection is empty.
pub proof fn lemma_reset_is_empty(s: Selection)
    ensures
        ({
            let r = Selection { start: origin(), end: origin(), ..s };
            r.start == r.end && forall|row: int, col: int| !contains_cell(r, row, col)
        }),
{
}


/// Dragging a word-by-word selection onto a word to the left of the word
/// added last, on the selection's line, extends the selection over that
/// word: every cell of the word is selected, and so is every cell that was.
pub proof fn lemma_word_added_on_the_left_is_selected(s: Selection, ws: Position, we: Position, col: int)
    requires
        s.last_added_word_position matches Some(last) && last.start.line == ws.line && last.end.line == ws.line
            && we.column <= last.start.column,
        ws.line == we.line && s.start.line == ws.line && s.end.line == ws.line,
        ws.column < we.column <= s.end.column,
        ws.column < s.start.column <= s.end.column,
    ensures
        ws.column <= col < we.column ==> contains_cell(with_word_added(s, ws, we), ws.line as int, col),
        contains_cell(s, ws.line as int, col) ==> contains_cell(with_word_added(s, ws, we), ws.line as int, col),
{
}

/// Dragging a word-by-word selection onto a word to the right of the word
/// added last, on the selection's line, extends the selection over that
/// word: every cell of the word is selected, and so is every cell that was.
pub proof fn lemma_word_added_on_the_right_is_selected(s: Selection, ws: Position, we: Position, col: int)
    requires
        s.last_added_word_position matches Some(last) && last.start.line == ws.line && last.end.line == ws.line
            && last.start.column <= last.end.column && ws.column >= last.end.column,
        ws.line == we.line && s.start.line == ws.line && s.end.line == ws.line,
        s.start.column <= ws.column < we.column,
        s.start.column <= s.end.column < we.column,
    ensures
        ws.column <= col < we.column ==> contains_cell(with_word_added(s, ws, we), ws.line as int, col),
        contains_cell(s, ws.line as int, col) ==> contains_cell(with_word_added(s, ws, we), ws.line as int, col),
{
}

} // verus!
