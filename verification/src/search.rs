//! Searching the rows of a pane for a needle.
//!
//! A row is searched together with its tail: the rows below it that are not
//! canonical (they continue it after a wrap). A match starts in the row and
//! may run on into its tail; `search_row_result` states what a search finds.

use vstd::prelude::*;
use crate::position::Position;
use crate::row::{Row, TerminalCharacter, row_chars, row_width, lemma_cells_width_nonneg};
use crate::selection::{Selection, default_selection, moved_down, moved_up, can_move_down, can_move_up, contains_line};
use std::collections::VecDeque;

verus! {

pub open spec fn is_ascii_alphanumeric(c: char) -> bool {
    ('0' <= c && c <= '9') || ('a' <= c && c <= 'z') || ('A' <= c && c <= 'Z')
}

/// A character (or the edge of the line, `None`) is a word boundary when it
/// is neither an ASCII letter or digit nor an underscore.
pub open spec fn word_boundary(x: Option<char>) -> bool {
    match x {
        None => true,
        Some(c) => !is_ascii_alphanumeric(c) && c != '_',
    }
}

/// The code of a character after ASCII lowercasing.
pub open spec fn ascii_lower_code(c: char) -> u32 {
    if 'A' <= c && c <= 'Z' {
        (c as u32 + 32) as u32
    } else {
        c as u32
    }
}

/// Whether a haystack character matches the needle character at `nidx`.
pub open spec fn chars_match(
    case_insensitive: bool,
    whole_word: bool,
    nidx: int,
    needle_char: char,
    haystack_char: char,
    prev: Option<char>,
) -> bool {
    let same = if case_insensitive {
        ascii_lower_code(haystack_char) == ascii_lower_code(needle_char)
    } else {
        haystack_char == needle_char
    };
    same && !(whole_word && nidx == 0 && !word_boundary(prev))
}

/// One cell of the text a search reads: its line below the searched row (0
/// for the row itself), its column and its character.
pub open spec fn row_cells(line: int, chars: Seq<char>) -> Seq<(int, int, char)> {
    Seq::new(chars.len(), |c: int| (line, c, chars[c]))
}

/// The cells of the first `n` rows of a tail; the first tail row is line 1.
pub open spec fn tail_cells(tail: Seq<Seq<char>>, n: int) -> Seq<(int, int, char)>
    decreases n,
{
    if n <= 0 {
        Seq::empty()
    } else {
        tail_cells(tail, n - 1) + row_cells(n, tail[n - 1])
    }
}

/// The text a search reads: the cells of the searched row, then those of its
/// tail, in reading order.
pub open spec fn search_text(row: Seq<char>, tail: Seq<Seq<char>>) -> Seq<(int, int, char)> {
    row_cells(0, row) + tail_cells(tail, tail.len() as int)
}

/// Two characters are the same for the search (ignoring ASCII case when the
/// search ignores case).
pub open spec fn same_char(case_insensitive: bool, a: char, b: char) -> bool {
    if case_insensitive {
        ascii_lower_code(a) == ascii_lower_code(b)
    } else {
        a == b
    }
}

/// The character before cell `k`, if any.
pub open spec fn char_before(text: Seq<(int, int, char)>, k: int) -> Option<char> {
    if 0 < k <= text.len() {
        Some(text[k - 1].2)
    } else {
        None
    }
}

/// The character after cell `i` on the same line, if any.
pub open spec fn char_after(text: Seq<(int, int, char)>, i: int) -> Option<char> {
    if 0 <= i && i + 1 < text.len() && text[i + 1].0 == text[i].0 {
        Some(text[i + 1].2)
    } else {
        None
    }
}

/// The needle occurs at cell `k`: the cells from `k` on spell it, and for a
/// whole-word search the characters around it are word boundaries.
pub open spec fn needle_at(
    needle: Seq<char>,
    case_insensitive: bool,
    whole_word: bool,
    text: Seq<(int, int, char)>,
    k: int,
) -> bool {
    &&& 0 <= k
    &&& k + needle.len() <= text.len()
    &&& forall|j: int| 0 <= j < needle.len() ==> same_char(case_insensitive, text[k + j].2, #[trigger] needle[j])
    &&& whole_word ==> word_boundary(char_before(text, k)) && word_boundary(
        char_after(text, k + needle.len() - 1),
    )
}

/// A match from `start` to the end column `end_col` of line `end_line`.
pub open spec fn found_selection(start: (int, int), end_line: int, end_col: int) -> Selection {
    Selection {
        start: Position { line: start.0 as isize, column: start.1 as usize },
        end: Position { line: end_line as isize, column: end_col as usize },
        ..default_selection()
    }
}

/// The match of `n` cells at cell `k` of a text whose first line is line
/// `ridx`: from its first cell to just after its last one.
pub open spec fn match_at(ridx: int, text: Seq<(int, int, char)>, k: int, n: int) -> Selection {
    found_selection(
        (ridx + text[k].0, text[k].1),
        ridx + text[k + n - 1].0,
        text[k + n - 1].1 + 1,
    )
}

/// The occurrences of the needle that start among the first `main_len`
/// cells (the searched row), from cell `k` on: the leftmost one first, then
/// the leftmost one after its end, and so on (they do not overlap).
pub open spec fn matches_from(
    needle: Seq<char>,
    case_insensitive: bool,
    whole_word: bool,
    ridx: int,
    text: Seq<(int, int, char)>,
    main_len: int,
    k: int,
) -> Seq<Selection>
    decreases main_len + text.len() + 1 - k,
{
    if k < 0 || k >= main_len || needle.len() == 0 {
        Seq::empty()
    } else if needle_at(needle, case_insensitive, whole_word, text, k) {
        seq![match_at(ridx, text, k, needle.len() as int)] + matches_from(
            needle,
            case_insensitive,
            whole_word,
            ridx,
            text,
            main_len,
            k + needle.len(),
        )
    } else {
        matches_from(needle, case_insensitive, whole_word, ridx, text, main_len, k + 1)
    }
}

/// The columns a row may have (terminal columns are 16-bit).
pub open spec fn max_columns() -> int {
    65535
}

/// The characters of each tail row.
pub open spec fn tail_chars(tail: Seq<&Row>) -> Seq<Seq<char>> {
    tail.map_values(|r: &Row| row_chars(*r))
}

/// Moves an end column that lies past the row's width onto the lines below,
/// as the row would wrap.
pub open spec fn reflow_end(e: Position, w: int) -> Position
    decreases e.column,
    when w > 0
{
    if e.column > w {
        reflow_end(Position { line: (e.line + 1) as isize, column: (e.column - w) as usize }, w)
    } else {
        e
    }
}

pub open spec fn reflowed(s: Selection, w: int) -> Selection {
    Selection { end: reflow_end(s.end, w), ..s }
}

/// The matches in row `ridx` and its tail, in the order they occur, before
/// their ends are moved onto the rows below.
pub open spec fn row_matches(sr: SearchResult, ridx: int, row: Row, tail: Seq<Seq<char>>) -> Seq<Selection> {
    matches_from(
        sr.needle@,
        sr.case_insensitive,
        sr.whole_word_only,
        ridx,
        search_text(row_chars(row), tail),
        row.columns@.len() as int,
        0,
    )
}

/// A match whose end lies past the row's width (a tail that is not wrapped
/// yet) has its end moved onto the lines below, as the row wraps; a row of
/// no width wraps nothing.
pub open spec fn settled(s: Selection, w: int) -> Selection {
    if w > 0 {
        reflowed(s, w)
    } else {
        s
    }
}

/// What searching row `ridx` and its tail finds: every occurrence of the
/// needle that starts in the row, leftmost first and not overlapping,
/// with its end settled on the row's width.
pub open spec fn search_row_result(sr: SearchResult, ridx: int, row: Row, tail: Seq<Seq<char>>) -> Seq<Selection> {
    row_matches(sr, ridx, row, tail).map_values(|s: Selection| settled(s, row_width(row)))
}

/// Whether a row and its tail can be searched: their columns fit in 16 bits
/// and their lines (with room for wrapping) in 32 bits.
pub open spec fn searchable(ridx: int, row: Row, tail: Seq<Seq<char>>) -> bool {
    &&& row.columns@.len() <= max_columns()
    &&& forall|i: int| 0 <= i < tail.len() ==> #[trigger] tail[i].len() <= max_columns()
    &&& ridx + tail.len() + max_columns() + 1 <= i32::MAX
    &&& row_width(row) <= usize::MAX
}

pub fn is_word_boundary(x: &Option<char>) -> (b: bool)
    ensures
        b == word_boundary(*x),
{
    match x {
        None => true,
        Some(c) => {
            let c = *c;
            let alnum = ('0' <= c && c <= '9') || ('a' <= c && c <= 'z') || ('A' <= c && c <= 'Z');
            !alnum && c != '_'
        },
    }
}

fn ascii_lower(c: char) -> (code: u32)
    ensures
        code == ascii_lower_code(c),
{
    if 'A' <= c && c <= 'Z' {
        c as u32 + 32
    } else {
        c as u32
    }
}

/// Where the scan takes its characters from: the searched row or a row of its tail.
pub enum SearchSource<'a> {
    Main(&'a Row),
    Tail(&'a Row),
}

impl<'a> SearchSource<'a> {
    pub open spec fn spec_row(self) -> Row {
        match self {
            SearchSource::Main(r) => *r,
            SearchSource::Tail(r) => *r,
        }
    }

    /// Switches to the next tail row when `hidx` has run past the current
    /// row. Returns `false` when the scan is at its end: the searched row is
    /// used up with no match under way, or the tail is used up.
    pub fn get_next_source(
        &mut self,
        ridx: &mut usize,
        hidx: &mut usize,
        tailit: &mut usize,
        tail: &[&'a Row],
        start: &Option<Position>,
    ) -> (found: bool)
        requires
            *old(ridx) < usize::MAX,
            *old(tailit) <= tail@.len(),
        ensures
            ({
                let len = old(self).spec_row().columns@.len();
                if *old(hidx) < len {
                    found && *final(self) == *old(self) && *final(ridx) == *old(ridx) && *final(hidx)
                        == *old(hidx) && *final(tailit) == *old(tailit)
                } else {
                    let more = *old(tailit) < tail@.len();
                    let go_on = more && ((*old(self)) is Tail || *start is Some);
                    found == go_on && (go_on ==> (*final(self) == SearchSource::Tail(
                        tail@[*old(tailit) as int],
                    ) && *final(ridx) == *old(ridx) + 1 && *final(hidx) == 0 && *final(tailit)
                        == *old(tailit) + 1))
                }
            }),
            *final(tailit) <= tail@.len(),
    {
        match self {
            SearchSource::Main(row) => {
                if *hidx >= row.columns.len() {
                    // the searched row is used up: go on into the tail only
                    // while a match is under way
                    let curr_tail = if *tailit < tail.len() {
                        let t = tail[*tailit];
                        *tailit = *tailit + 1;
                        Some(t)
                    } else {
                        None
                    };
                    match (start, curr_tail) {
                        (Some(_), Some(curr_tail)) => {
                            *ridx = *ridx + 1;
                            *hidx = 0;
                            *self = SearchSource::Tail(curr_tail);
                        },
                        _ => {
                            return false;
                        },
                    }
                }
            },
            SearchSource::Tail(row) => {
                if *hidx >= row.columns.len() {
                    if *tailit < tail.len() {
                        let curr_tail = tail[*tailit];
                        *tailit = *tailit + 1;
                        *ridx = *ridx + 1;
                        *hidx = 0;
                        *self = SearchSource::Tail(curr_tail);
                    } else {
                        return false;
                    }
                }
            },
        }
        true
    }

    /// The character at `hidx` and, for whole word search, the one after it.
    pub fn get_next_two_chars(&self, hidx: usize, whole_word_search: bool) -> (r: (char, Option<char>))
        requires
            hidx < self.spec_row().columns@.len(),
        ensures
            r.0 == row_chars(self.spec_row())[hidx as int],
            r.1 == (if whole_word_search && hidx + 1 < self.spec_row().columns@.len() {
                Some(row_chars(self.spec_row())[hidx + 1])
            } else {
                None
            }),
    {
        let row = match self {
            SearchSource::Main(row) => *row,
            SearchSource::Tail(tail) => *tail,
        };
        assert(*row == self.spec_row());
        let len = row.columns.len();
        let haystack_char = row.columns[hidx].character;
        let next_haystack_char = if whole_word_search {
            if hidx + 1 < len {
                Some(row.columns[hidx + 1].character)
            } else {
                None
            }
        } else {
            None
        };
        (haystack_char, next_haystack_char)
    }
}

#[derive(Debug, Clone)]
pub struct SearchResult {
    /// The matches found in the viewport.
    pub selections: Vec<Selection>,
    /// The match that is highlighted as the current one.
    pub active: Option<Selection>,
    /// What is searched for.
    pub needle: String,
    pub case_insensitive: bool,
    /// Only match whole words.
    pub whole_word_only: bool,
    /// Jump from the bottom to the top (or back) when there is nothing more to search.
    pub wrap_search: bool,
}

/// The matches lie on the searched row or its tail and end within 16-bit columns.
pub open spec fn found_bounds(res: Seq<Selection>, orig: int, tail_len: int) -> bool {
    forall|i: int|
        0 <= i < res.len() ==> orig <= #[trigger] res[i].end.line <= orig + tail_len && 1
            <= res[i].end.column <= max_columns()
}

/// `i` is the first index at which `a` occurs in `s`.
pub open spec fn is_first_index(s: Seq<Selection>, a: Selection, i: int) -> bool {
    0 <= i < s.len() && s[i] == a && forall|k: int| 0 <= k < i ==> s[k] != a
}

/// `j` is the last index at which `a` occurs in `s`.
pub open spec fn is_last_index(s: Seq<Selection>, a: Selection, j: int) -> bool {
    0 <= j < s.len() && s[j] == a && forall|k: int| j < k < s.len() ==> s[k] != a
}

/// The selection after the first occurrence of `a`, if there is one.
pub open spec fn after_first(s: Seq<Selection>, a: Selection) -> Option<Selection> {
    if exists|i: int| is_first_index(s, a, i) {
        let i = choose|i: int| is_first_index(s, a, i);
        if i + 1 < s.len() {
            Some(s[i + 1])
        } else {
            None
        }
    } else {
        None
    }
}

/// The selection before the last occurrence of `a`, if there is one.
pub open spec fn before_last(s: Seq<Selection>, a: Selection) -> Option<Selection> {
    if exists|j: int| is_last_index(s, a, j) {
        let j = choose|j: int| is_last_index(s, a, j);
        if j >= 1 {
            Some(s[j - 1])
        } else {
            None
        }
    } else {
        None
    }
}

/// The active match after moving to the next one.
pub open spec fn next_active(sels: Seq<Selection>, active: Option<Selection>) -> Option<Selection> {
    match active {
        Some(a) => after_first(sels, a),
        None => if sels.len() > 0 {
            Some(sels[0])
        } else {
            None
        },
    }
}

/// The active match after moving to the previous one.
pub open spec fn prev_active(sels: Seq<Selection>, active: Option<Selection>) -> Option<Selection> {
    match active {
        Some(a) => before_last(sels, a),
        None => if sels.len() > 0 {
            Some(sels[sels.len() - 1])
        } else {
            None
        },
    }
}

/// The active match is dropped when it is no longer among the matches.
pub open spec fn active_if_present(sels: Seq<Selection>, active: Option<Selection>) -> Option<Selection> {
    match active {
        Some(a) => if sels.contains(a) {
            active
        } else {
            None
        },
        None => None,
    }
}

/// A match stays when it starts above the bottom of the viewport and does not end above it.
pub open spec fn in_viewport(s: Selection, grid_height: usize) -> bool {
    (s.start.line as usize) < grid_height && s.end.line >= 0
}

pub open spec fn kept_in_viewport(sels: Seq<Selection>, grid_height: usize) -> Seq<Selection> {
    sels.filter(|s: Selection| in_viewport(s, grid_height))
}

/// The number of rows from `from` on that are not canonical: the rows that
/// continue the row at `from - 1`.
pub open spec fn tail_run(v: Seq<Row>, from: int) -> int
    decreases v.len() - from,
{
    if 0 <= from < v.len() && !v[from].is_canonical {
        1 + tail_run(v, from + 1)
    } else {
        0
    }
}

/// The characters of the tail of the row at `ridx`.
pub open spec fn tail_of(v: Seq<Row>, from: int) -> Seq<Seq<char>> {
    v.subrange(from, from + tail_run(v, from)).map_values(|r: Row| row_chars(r))
}

proof fn lemma_tail_run_bounds(v: Seq<Row>, from: int)
    requires
        0 <= from <= v.len(),
    ensures
        0 <= tail_run(v, from) <= v.len() - from,
    decreases v.len() - from,
{
    if from < v.len() && !v[from].is_canonical {
        lemma_tail_run_bounds(v, from + 1);
    }
}

proof fn lemma_tail_run_prefix(v: Seq<Row>, from: int, k: int)
    requires
        0 <= from,
        0 <= k,
        from + k <= v.len(),
        forall|j: int| from <= j < from + k ==> !(#[trigger] v[j]).is_canonical,
    ensures
        tail_run(v, from) == k + tail_run(v, from + k),
    decreases k,
{
    if k > 0 {
        lemma_tail_run_prefix(v, from + 1, k - 1);
    }
}

proof fn lemma_filter_step<A>(s: Seq<A>, pred: spec_fn(A) -> bool, i: int)
    requires
        0 <= i < s.len(),
    ensures
        s.take(i + 1).filter(pred) == if pred(s[i]) {
            s.take(i).filter(pred).push(s[i])
        } else {
            s.take(i).filter(pred)
        },
{
    reveal_with_fuel(Seq::<_>::filter, 1);
    assert(s.take(i + 1).drop_last() =~= s.take(i));
}

/// Collects the tail of the row at `from - 1`: the non-canonical rows from `from` on.
fn collect_tail<'a>(v: &'a VecDeque<Row>, from: usize) -> (tail: Vec<&'a Row>)
    requires
        from <= v@.len(),
    ensures
        tail_chars(tail@) == tail_of(v@, from as int),
        tail@.len() == tail_run(v@, from as int),
{
    let mut tail: Vec<&'a Row> = Vec::new();
    let n = v.len();
    loop
        invariant
            n == v@.len(),
            from <= v@.len(),
            from + tail@.len() <= v@.len(),
            forall|j: int| 0 <= j < tail@.len() ==> *tail@[j] == v@[from + j],
            forall|j: int| from <= j < from + tail@.len() ==> !(#[trigger] v@[j]).is_canonical,
        ensures
            from + tail@.len() <= v@.len(),
            forall|j: int| 0 <= j < tail@.len() ==> *tail@[j] == v@[from + j],
            forall|j: int| from <= j < from + tail@.len() ==> !(#[trigger] v@[j]).is_canonical,
            tail_run(v@, from + tail@.len()) == 0,
        decreases v@.len() - tail@.len(),
    {
        let tail_idx = from + tail.len();
        if tail_idx < n && !v[tail_idx].is_canonical {
            tail.push(&v[tail_idx]);
        } else {
            break;
        }
    }
    proof {
        lemma_tail_run_prefix(v@, from as int, tail@.len() as int);
        assert(tail_chars(tail@) =~= tail_of(v@, from as int));
    }
    tail
}

/// The matches after the viewport moved down by `amount` lines: the matches
/// still in the viewport, then those found on the new top row.
pub open spec fn moved_down_selections(sr: SearchResult, amount: usize, viewport: Seq<Row>, grid_height: usize) -> Seq<Selection> {
    let kept = kept_in_viewport(sr.selections@.map_values(|s: Selection| moved_down(s, amount)), grid_height);
    if sr.needle@.len() > 0 && viewport.len() > 0 {
        search_row_result(sr, 0, viewport[0], tail_of(viewport, 1)) + kept
    } else {
        kept
    }
}

/// The matches after the viewport moved up by `amount` lines: the matches
/// still in the viewport, then those that start on the new bottom row.
pub open spec fn moved_up_selections(
    sr: SearchResult,
    amount: usize,
    viewport: Seq<Row>,
    lines_below: Seq<Row>,
    grid_height: usize,
) -> Seq<Selection> {
    let kept = kept_in_viewport(sr.selections@.map_values(|s: Selection| moved_up(s, amount)), grid_height);
    if sr.needle@.len() > 0 && viewport.len() > 0 {
        kept + search_row_result(sr, viewport.len() - 1, viewport[viewport.len() - 1], tail_of(lines_below, 0)).filter(
            |s: Selection| (s.start.line as usize) == viewport.len() - 1,
        )
    } else {
        kept
    }
}

/// The cells of a row a match covers, as (skip, take): the part on its
/// first line, its last line, or the whole row for a line in between.
pub open spec fn marked_span(s: Selection, ridx: usize, len: int) -> (int, int) {
    if ridx as isize == s.start.line {
        let take = if s.end.line == s.start.line {
            s.end.column - s.start.column
        } else {
            len
        };
        (s.start.column as int, take)
    } else if ridx as isize == s.end.line {
        (0, s.end.column as int)
    } else {
        (0, len)
    }
}

/// A cell that marks a match: `_` for the active match, `#` for the others.
pub open spec fn mark_cell(c: char) -> TerminalCharacter {
    TerminalCharacter { character: c, width: 1 }
}

/// The cells of row `ridx` with every match on it marked, one match after the other.
pub open spec fn marked_cells(
    cols: Seq<TerminalCharacter>,
    sels: Seq<Selection>,
    active: Option<Selection>,
    ridx: usize,
) -> Seq<TerminalCharacter>
    decreases sels.len(),
{
    if sels.len() == 0 {
        cols
    } else {
        let prev = marked_cells(cols, sels.drop_last(), active, ridx);
        let s = sels.last();
        if contains_line(s, ridx as isize as int) {
            let c = if active == Some(s) {
                '_'
            } else {
                '#'
            };
            let (skip, take) = marked_span(s, ridx, prev.len() as int);
            Seq::new(
                prev.len(),
                |j: int|
                    if skip <= j < skip + take {
                        mark_cell(c)
                    } else {
                        prev[j]
                    },
            )
        } else {
            prev
        }
    }
}

proof fn lemma_marked_cells_len(
    cols: Seq<TerminalCharacter>,
    sels: Seq<Selection>,
    active: Option<Selection>,
    ridx: usize,
)
    ensures
        marked_cells(cols, sels, active, ridx).len() == cols.len(),
    decreases sels.len(),
{
    if sels.len() > 0 {
        lemma_marked_cells_len(cols, sels.drop_last(), active, ridx);
    }
}

impl SearchResult {
    pub fn has_modifiers_set(&self) -> (b: bool)
        ensures
            b == (self.wrap_search || self.whole_word_only || self.case_insensitive),
    {
        self.wrap_search || self.whole_word_only || self.case_insensitive
    }

    pub fn check_if_haystack_char_matches_needle(
        &self,
        nidx: usize,
        needle_char: char,
        haystack_char: char,
        prev_haystack_char: Option<char>,
    ) -> (b: bool)
        ensures
            b == chars_match(
                self.case_insensitive,
                self.whole_word_only,
                nidx as int,
                needle_char,
                haystack_char,
                prev_haystack_char,
            ),
    {
        let mut chars_match = if self.case_insensitive {
            // ASCII only
            ascii_lower(haystack_char) == ascii_lower(needle_char)
        } else {
            haystack_char == needle_char
        };
        // for a whole word search a match must start at a word boundary
        if chars_match && self.whole_word_only && nidx == 0 && !is_word_boundary(
            &prev_haystack_char,
        ) {
            chars_match = false;
        }
        chars_match
    }

    /// Marks the matches on row `ridx` (`_` for the active one, `#` for the
    /// others), for showing the search state of a grid as text.
    pub fn mark_search_results_in_row(&self, row: &mut Row, ridx: usize)
        requires
            forall|i: int|
                0 <= i < self.selections@.len() ==> {
                    let s = #[trigger] self.selections@[i];
                    contains_line(s, ridx as isize as int) && ridx as isize == s.start.line
                        && s.end.line == s.start.line ==> s.start.column <= s.end.column
                },
        ensures
            final(row).columns@ == marked_cells(old(row).columns@, self.selections@, self.active, ridx),
            final(row).is_canonical == old(row).is_canonical,
    {
        let mut i: usize = 0;
        while i < self.selections.len()
            invariant
                0 <= i <= self.selections@.len(),
                row.columns@ == marked_cells(old(row).columns@, self.selections@.take(i as int), self.active, ridx),
                row.is_canonical == old(row).is_canonical,
                forall|k: int|
                    0 <= k < self.selections@.len() ==> {
                        let s = #[trigger] self.selections@[k];
                        contains_line(s, ridx as isize as int) && ridx as isize == s.start.line
                            && s.end.line == s.start.line ==> s.start.column <= s.end.column
                    },
            decreases self.selections@.len() - i,
        {
            let s = self.selections[i];
            proof {
                assert(self.selections@.take(i + 1).drop_last() =~= self.selections@.take(i as int));
                assert(self.selections@.take(i + 1).last() == s);
                lemma_marked_cells_len(old(row).columns@, self.selections@.take(i as int), self.active, ridx);
            }
            if s.contains_row(ridx) {
                let replacement_char = if self.active == Some(s) {
                    '_'
                } else {
                    '#'
                };
                let len = row.columns.len();
                let (skip, take) = if ridx as isize == s.start.line {
                    let skip = s.start.column;
                    let take = if s.end.line == s.start.line {
                        s.end.column - s.start.column
                    } else {
                        // the rest of the row
                        len
                    };
                    (skip, take)
                } else if ridx as isize == s.end.line {
                    // the match wrapped and ends on this row
                    (0, s.end.column)
                } else {
                    // a row in the middle of the match
                    (0, len)
                };
                let ghost before = row.columns@;
                if skip < len {
                    let stop = if take < len - skip { skip + take } else { len };
                    let mut j = skip;
                    while j < stop
                        invariant
                            skip <= j <= stop <= len,
                            len == row.columns@.len(),
                            row.is_canonical == old(row).is_canonical,
                            before.len() == len,
                            forall|k: int| 0 <= k < len ==> row.columns@[k] == if skip <= k < j {
                                mark_cell(replacement_char)
                            } else {
                                before[k]
                            },
                        decreases stop - j,
                    {
                        row.columns.set(j, TerminalCharacter { character: replacement_char, width: 1 });
                        j = j + 1;
                    }
                }
                proof {
                    assert(row.columns@ =~= marked_cells(old(row).columns@, self.selections@.take(i + 1), self.active, ridx));
                }
            } else {
                proof {
                    assert(row.columns@ =~= marked_cells(old(row).columns@, self.selections@.take(i + 1), self.active, ridx));
                }
            }
            i = i + 1;
        }
        proof {
            assert(self.selections@.take(i as int) =~= self.selections@);
        }
    }

    pub fn move_active_selection_to_next(&mut self)
        ensures
            final(self).active == next_active(old(self).selections@, old(self).active),
            final(self).selections == old(self).selections,
            final(self).needle == old(self).needle,
            final(self).case_insensitive == old(self).case_insensitive,
            final(self).whole_word_only == old(self).whole_word_only,
            final(self).wrap_search == old(self).wrap_search,
    {
        if let Some(active_idx) = self.active {
            let mut i: usize = 0;
            let mut next: Option<Selection> = None;
            while i < self.selections.len()
                invariant
                    0 <= i <= self.selections@.len(),
                    *self == *old(self),
                    old(self).active == Some(active_idx),
                    next is None,
                    forall|k: int| 0 <= k < i ==> self.selections@[k] != active_idx,
                decreases self.selections@.len() - i,
            {
                if self.selections[i] == active_idx {
                    if i + 1 < self.selections.len() {
                        next = Some(self.selections[i + 1]);
                    }
                    proof {
                        assert(is_first_index(self.selections@, active_idx, i as int));
                        let c = choose|c: int| is_first_index(self.selections@, active_idx, c);
                        assert(c == i) by {
                            if c < i {
                            } else if c > i {
                                assert(self.selections@[i as int] == active_idx);
                            }
                        }
                    }
                    self.active = next;
                    return;
                }
                i = i + 1;
            }
            assert(!exists|c: int| is_first_index(self.selections@, active_idx, c));
            self.active = None;
        } else {
            self.active = if self.selections.len() > 0 {
                Some(self.selections[0])
            } else {
                None
            };
        }
    }

    pub fn move_active_selection_to_prev(&mut self)
        ensures
            final(self).active == prev_active(old(self).selections@, old(self).active),
            final(self).selections == old(self).selections,
            final(self).needle == old(self).needle,
            final(self).case_insensitive == old(self).case_insensitive,
            final(self).whole_word_only == old(self).whole_word_only,
            final(self).wrap_search == old(self).wrap_search,
    {
        if let Some(active_idx) = self.active {
            let mut i: usize = self.selections.len();
            while i > 0
                invariant
                    0 <= i <= self.selections@.len(),
                    *self == *old(self),
                    old(self).active == Some(active_idx),
                    forall|k: int| i <= k < self.selections@.len() ==> self.selections@[k] != active_idx,
                decreases i,
            {
                if self.selections[i - 1] == active_idx {
                    let prev = if i >= 2 {
                        Some(self.selections[i - 2])
                    } else {
                        None
                    };
                    proof {
                        let j = i - 1;
                        assert(is_last_index(self.selections@, active_idx, j as int));
                        let c = choose|c: int| is_last_index(self.selections@, active_idx, c);
                        assert(c == j) by {
                            if c > j {
                            } else if c < j {
                                assert(self.selections@[j as int] == active_idx);
                            }
                        }
                    }
                    self.active = prev;
                    return;
                }
                i = i - 1;
            }
            assert(!exists|c: int| is_last_index(self.selections@, active_idx, c));
            self.active = None;
        } else {
            self.active = if self.selections.len() > 0 {
                Some(self.selections[self.selections.len() - 1])
            } else {
                None
            };
        }
    }

    pub fn unset_active_selection_if_nonexistent(&mut self)
        ensures
            final(self).active == active_if_present(old(self).selections@, old(self).active),
            final(self).selections == old(self).selections,
            final(self).needle == old(self).needle,
            final(self).case_insensitive == old(self).case_insensitive,
            final(self).whole_word_only == old(self).whole_word_only,
            final(self).wrap_search == old(self).wrap_search,
    {
        if let Some(active_idx) = self.active {
            let mut i: usize = 0;
            let mut found = false;
            while i < self.selections.len()
                invariant
                    0 <= i <= self.selections@.len(),
                    *self == *old(self),
                    old(self).active == Some(active_idx),
                    found == exists|k: int| 0 <= k < i && self.selections@[k] == active_idx,
                decreases self.selections@.len() - i,
            {
                if self.selections[i] == active_idx {
                    found = true;
                }
                i = i + 1;
            }
            if !found {
                self.active = None;
            }
        }
    }

    fn adjust_selections_to_moved_viewport(&mut self, grid_height: usize)
        ensures
            final(self).selections@ == kept_in_viewport(old(self).selections@, grid_height),
            final(self).active == active_if_present(final(self).selections@, old(self).active),
            final(self).needle == old(self).needle,
            final(self).case_insensitive == old(self).case_insensitive,
            final(self).whole_word_only == old(self).whole_word_only,
            final(self).wrap_search == old(self).wrap_search,
    {
        let ghost pred = |s: Selection| in_viewport(s, grid_height);
        let mut kept: Vec<Selection> = Vec::new();
        let mut i: usize = 0;
        while i < self.selections.len()
            invariant
                0 <= i <= self.selections@.len(),
                kept@ == self.selections@.take(i as int).filter(pred),
                pred == (|s: Selection| in_viewport(s, grid_height)),
            decreases self.selections@.len() - i,
        {
            let s = self.selections[i];
            proof {
                lemma_filter_step(self.selections@, pred, i as int);
            }
            if (s.start.line as usize) < grid_height && s.end.line >= 0 {
                kept.push(s);
            }
            i = i + 1;
        }
        proof {
            assert(self.selections@.take(i as int) =~= self.selections@);
        }
        self.selections = kept;
        self.unset_active_selection_if_nonexistent();
    }

    /// Moves the matches along with a viewport that moved down by `amount`
    /// lines, drops those that left it and searches the new top row.
    /// Returns whether that row holds a match.
    pub fn move_down(&mut self, amount: usize, viewport: &VecDeque<Row>, grid_height: usize) -> (found_something: bool)
        requires
            forall|i: int| 0 <= i < old(self).selections@.len() ==> can_move_down(#[trigger] old(self).selections@[i], amount),
            old(self).active matches Some(a) ==> can_move_down(a, amount),
            old(self).needle@.len() > 0 && viewport@.len() > 0 ==> {
                &&& searchable(0, viewport@[0], tail_of(viewport@, 1))
            },
        ensures
            final(self).selections@ == moved_down_selections(*old(self), amount, viewport@, grid_height),
            final(self).active == active_if_present(
                kept_in_viewport(old(self).selections@.map_values(|s: Selection| moved_down(s, amount)), grid_height),
                match old(self).active { Some(a) => Some(moved_down(a, amount)), None => None },
            ),
            found_something == (old(self).needle@.len() > 0 && viewport@.len() > 0 && search_row_result(
                *old(self), 0, viewport@[0], tail_of(viewport@, 1)).len() > 0),
            final(self).needle == old(self).needle,
            final(self).case_insensitive == old(self).case_insensitive,
            final(self).whole_word_only == old(self).whole_word_only,
            final(self).wrap_search == old(self).wrap_search,
    {
        let ghost old_sels = self.selections@;
        let mut i: usize = 0;
        while i < self.selections.len()
            invariant
                0 <= i <= self.selections@.len(),
                self.selections@.len() == old_sels.len(),
                forall|k: int| 0 <= k < old_sels.len() ==> can_move_down(#[trigger] old_sels[k], amount),
                forall|k: int| 0 <= k < i ==> self.selections@[k] == moved_down(old_sels[k], amount),
                forall|k: int| i <= k < old_sels.len() ==> self.selections@[k] == old_sels[k],
                self.needle == old(self).needle,
                self.case_insensitive == old(self).case_insensitive,
                self.whole_word_only == old(self).whole_word_only,
                self.wrap_search == old(self).wrap_search,
                self.active == old(self).active,
            decreases old_sels.len() - i,
        {
            let mut s = self.selections[i];
            s.move_down(amount);
            self.selections.set(i, s);
            i = i + 1;
        }
        assert(self.selections@ =~= old_sels.map_values(|s: Selection| moved_down(s, amount)));
        if let Some(a) = self.active {
            let mut a = a;
            a.move_down(amount);
            self.active = Some(a);
        }
        // drop the matches that left the viewport
        self.adjust_selections_to_moved_viewport(grid_height);
        let mut found_something = false;
        // search the new row for the needle
        if !self.needle.as_str().is_empty() && viewport.len() > 0 {
            let row = &viewport[0];
            let tail = collect_tail(viewport, 1);
            let selections = self.search_row(0, row, tail.as_slice());
            let ghost kept = self.selections@;
            let ghost active0 = self.active;
            let mut k: usize = selections.len();
            while k > 0
                invariant
                    0 <= k <= selections@.len(),
                    self.selections@ == selections@.subrange(k as int, selections@.len() as int) + kept,
                    found_something == (k < selections@.len()),
                    self.active == active0,
                    self.needle == old(self).needle,
                    self.case_insensitive == old(self).case_insensitive,
                    self.whole_word_only == old(self).whole_word_only,
                    self.wrap_search == old(self).wrap_search,
                decreases k,
            {
                let ghost before = self.selections@;
                self.selections.insert(0, selections[k - 1]);
                assert(self.selections@ =~= selections@.subrange(k - 1, selections@.len() as int) + kept);
                found_something = true;
                k = k - 1;
            }
            assert(selections@.subrange(0, selections@.len() as int) =~= selections@);
        }
        found_something
    }

    /// Moves the matches along with a viewport that moved up by `amount`
    /// lines, drops those that left it and searches the new bottom row (with
    /// the rows below it that continue it). Returns whether a match starts
    /// on that row.
    pub fn move_up(
        &mut self,
        amount: usize,
        viewport: &VecDeque<Row>,
        lines_below: &VecDeque<Row>,
        grid_height: usize,
    ) -> (found_something: bool)
        requires
            forall|i: int| 0 <= i < old(self).selections@.len() ==> can_move_up(#[trigger] old(self).selections@[i], amount),
            old(self).active matches Some(a) ==> can_move_up(a, amount),
            old(self).needle@.len() > 0 && viewport@.len() > 0 ==> {
                &&& searchable(viewport@.len() - 1, viewport@[viewport@.len() - 1], tail_of(lines_below@, 0))
            },
        ensures
            final(self).selections@ == moved_up_selections(*old(self), amount, viewport@, lines_below@, grid_height),
            final(self).active == active_if_present(
                kept_in_viewport(old(self).selections@.map_values(|s: Selection| moved_up(s, amount)), grid_height),
                match old(self).active { Some(a) => Some(moved_up(a, amount)), None => None },
            ),
            found_something == (final(self).selections@.len() > kept_in_viewport(
                old(self).selections@.map_values(|s: Selection| moved_up(s, amount)), grid_height).len()),
            final(self).needle == old(self).needle,
            final(self).case_insensitive == old(self).case_insensitive,
            final(self).whole_word_only == old(self).whole_word_only,
            final(self).wrap_search == old(self).wrap_search,
    {
        let ghost old_sels = self.selections@;
        let mut i: usize = 0;
        while i < self.selections.len()
            invariant
                0 <= i <= self.selections@.len(),
                self.selections@.len() == old_sels.len(),
                forall|k: int| 0 <= k < old_sels.len() ==> can_move_up(#[trigger] old_sels[k], amount),
                forall|k: int| 0 <= k < i ==> self.selections@[k] == moved_up(old_sels[k], amount),
                forall|k: int| i <= k < old_sels.len() ==> self.selections@[k] == old_sels[k],
                self.needle == old(self).needle,
                self.case_insensitive == old(self).case_insensitive,
                self.whole_word_only == old(self).whole_word_only,
                self.wrap_search == old(self).wrap_search,
                self.active == old(self).active,
            decreases old_sels.len() - i,
        {
            let mut s = self.selections[i];
            s.move_up(amount);
            self.selections.set(i, s);
            i = i + 1;
        }
        assert(self.selections@ =~= old_sels.map_values(|s: Selection| moved_up(s, amount)));
        if let Some(a) = self.active {
            let mut a = a;
            a.move_up(amount);
            self.active = Some(a);
        }
        // drop the matches that left the viewport
        self.adjust_selections_to_moved_viewport(grid_height);
        let mut found_something = false;
        let ghost kept = self.selections@;
        // search the new row for the needle
        if !self.needle.as_str().is_empty() && viewport.len() > 0 {
            let last = viewport.len() - 1;
            let row = &viewport[last];
            let tail = collect_tail(lines_below, 0);
            let selections = self.search_row(last, row, tail.as_slice());
            let ghost active0 = self.active;
            let ghost pred = |s: Selection| (s.start.line as usize) == last;
            let mut k: usize = 0;
            while k < selections.len()
                invariant
                    0 <= k <= selections@.len(),
                    self.selections@ == kept + selections@.take(k as int).filter(pred),
                    pred == (|s: Selection| (s.start.line as usize) == last),
                    found_something == (self.selections@.len() > kept.len()),
                    self.active == active0,
                    self.needle == old(self).needle,
                    self.case_insensitive == old(self).case_insensitive,
                    self.whole_word_only == old(self).whole_word_only,
                    self.wrap_search == old(self).wrap_search,
                decreases selections@.len() - k,
            {
                let selection = selections[k];
                proof {
                    lemma_filter_step(selections@, pred, k as int);
                }
                // only matches that start on the new row are new
                if selection.start.line as usize == last {
                    self.selections.push(selection);
                    found_something = true;
                }
                proof {
                    assert(self.selections@ =~= kept + selections@.take(k + 1).filter(pred));
                }
                k = k + 1;
            }
            assert(selections@.take(selections@.len() as int) =~= selections@);
        }
        found_something
    }

    /// Whether the needle (its characters `needle`) occurs at cell `k` of
    /// the text `text`.
    fn needle_occurs_at(&self, needle: &Vec<char>, text: &Vec<(usize, usize, char)>, k: usize) -> (b: bool)
        requires
            needle@ == self.needle@,
            needle@.len() > 0,
            k < text@.len(),
        ensures
            b == needle_at(self.needle@, self.case_insensitive, self.whole_word_only, text_view(text@), k as int),
    {
        let ghost t = text_view(text@);
        let tlen = text.len();
        let n = needle.len();
        if n > text.len() - k {
            return false;
        }
        let prev = if k == 0 {
            None
        } else {
            Some(text[k - 1].2)
        };
        assert(prev == char_before(t, k as int));
        let mut j: usize = 0;
        while j < n
            invariant
                n == needle@.len(),
                needle@ == self.needle@,
                tlen == text@.len(),
                k + n <= text@.len(),
                t == text_view(text@),
                prev == char_before(t, k as int),
                j <= n,
                forall|i: int| 0 <= i < j ==> same_char(self.case_insensitive, t[k + i].2, #[trigger] needle@[i]),
                j > 0 ==> (self.whole_word_only ==> word_boundary(prev)),
            decreases n - j,
        {
            let p = if j == 0 {
                prev
            } else {
                Some(text[k + j - 1].2)
            };
            let hc = text[k + j].2;
            assert(hc == t[k + j].2);
            if !self.check_if_haystack_char_matches_needle(j, needle[j], hc, p) {
                assert(!needle_at(self.needle@, self.case_insensitive, self.whole_word_only, t, k as int)) by {
                    if !same_char(self.case_insensitive, t[k + j].2, needle@[j as int]) {
                        assert(!same_char(self.case_insensitive, t[k + j].2, self.needle@[j as int]));
                    }
                }
                return false;
            }
            j = j + 1;
        }
        if self.whole_word_only {
            let last = k + n - 1;
            let next = if last + 1 < text.len() && text[last + 1].0 == text[last].0 {
                Some(text[last + 1].2)
            } else {
                None
            };
            assert(next == char_after(t, last as int));
            if !is_word_boundary(&next) {
                return false;
            }
        }
        true
    }

    /// Searches a row and its tail (the non-canonical rows below it): finds
    /// every occurrence of the needle that starts in the row, leftmost
    /// first, each next one after the end of the one before.
    pub fn search_row(&self, ridx: usize, row: &Row, tail: &[&Row]) -> (res: Vec<Selection>)
        requires
            searchable(ridx as int, *row, tail_chars(tail@)),
        ensures
            res@ == search_row_result(*self, ridx as int, *row, tail_chars(tail@)),
    {
        let ghost tc = tail_chars(tail@);
        let ghost ts = search_text(row_chars(*row), tc);
        let ghost tl = tail@.len() as int;
        let ghost nd = self.needle@;
        let ghost ci = self.case_insensitive;
        let ghost ww = self.whole_word_only;
        let n = self.needle.as_str().unicode_len();
        let main_len = row.columns.len();
        let mut res: Vec<Selection> = Vec::new();
        proof {
            lemma_search_text_bounds(row_chars(*row), tc);
        }
        if n > 0 && main_len > 0 {
            let needle = needle_chars(&self.needle);
            let text = build_search_text(row, tail);
            let mut k: usize = 0;
            while k < main_len
                invariant
                    n == nd.len(),
                    nd == self.needle@,
                    ci == self.case_insensitive,
                    ww == self.whole_word_only,
                    needle@ == nd,
                    n > 0,
                    text_view(text@) == ts,
                    main_len == row.columns@.len(),
                    main_len <= text@.len(),
                    k <= text@.len(),
                    searchable(ridx as int, *row, tc),
                    tl == tc.len(),
                    forall|i: int| 0 <= i < ts.len() ==> 0 <= (#[trigger] ts[i]).0 <= tl && 0 <= ts[i].1 < max_columns(),
                    forall|i: int| 0 <= i < main_len ==> (#[trigger] ts[i]).0 == 0 && ts[i].1 == i,
                    res@ + matches_from(nd, ci, ww, ridx as int, ts, main_len as int, k as int)
                        == matches_from(nd, ci, ww, ridx as int, ts, main_len as int, 0),
                decreases text@.len() - k,
            {
                let ghost rest = matches_from(nd, ci, ww, ridx as int, ts, main_len as int, k as int);
                if self.needle_occurs_at(&needle, &text, k) {
                    let first = text[k];
                    let last = text[k + n - 1];
                    let mut selection = Selection::default();
                    selection.start(Position::new((ridx + first.0) as i32, first.1 as u16));
                    selection.end(Position::new((ridx + last.0) as i32, (last.1 + 1) as u16));
                    assert(selection == match_at(ridx as int, ts, k as int, n as int));
                    let ghost before = res@;
                    res.push(selection);
                    assert(rest == seq![selection] + matches_from(nd, ci, ww, ridx as int, ts, main_len as int, (k + n) as int));
                    assert(res@ + matches_from(nd, ci, ww, ridx as int, ts, main_len as int, (k + n) as int)
                        =~= before + rest);
                    k = k + n;
                } else {
                    k = k + 1;
                }
            }
            assert(res@ =~= row_matches(*self, ridx as int, *row, tc));
        } else {
            assert(res@ =~= row_matches(*self, ridx as int, *row, tc));
        }
        proof {
            lemma_matches_from_bounds(nd, ci, ww, ridx as int, ts, row.columns@.len() as int, 0, tl);
        }
        // an unwrapped tail can make a match end past the row's width: move
        // such ends onto the lines below
        let ghost found = res@;
        let w = row.width();
        if w > 0 {
            let mut i: usize = 0;
            while i < res.len()
                invariant
                    0 <= i <= res@.len(),
                    res@.len() == found.len(),
                    w > 0,
                    w == row_width(*row),
                    found_bounds(found, ridx as int, tl),
                    ridx + tl + max_columns() + 1 <= i32::MAX,
                    forall|j: int| 0 <= j < i ==> res@[j] == reflowed(found[j], w as int),
                    forall|j: int| i <= j < res@.len() ==> res@[j] == found[j],
                decreases res@.len() - i,
            {
                let mut s = res[i];
                let ghost e0 = s.end;
                proof {
                    assert(found[i as int] == s);
                }
                while s.end.column > w
                    invariant
                        w > 0,
                        reflow_end(s.end, w as int) == reflow_end(e0, w as int),
                        s.end.line + s.end.column <= e0.line + e0.column,
                        e0.line <= s.end.line,
                        e0.line + e0.column <= i32::MAX,
                        s == (Selection { end: s.end, ..found[i as int] }),
                    decreases s.end.column,
                {
                    s.end.column = s.end.column - w;
                    s.end.line = s.end.line + 1;
                }
                res.set(i, s);
                i = i + 1;
            }
        }
        proof {
            assert(res@ =~= found.map_values(|s: Selection| settled(s, row_width(*row))));
        }
        res
    }
}

/// The cells of a search text as integers.
pub open spec fn text_view(v: Seq<(usize, usize, char)>) -> Seq<(int, int, char)> {
    v.map_values(|c: (usize, usize, char)| (c.0 as int, c.1 as int, c.2))
}

/// The characters of a string, one by one.
fn needle_chars(s: &String) -> (v: Vec<char>)
    ensures
        v@ == s@,
{
    let n = s.as_str().unicode_len();
    let mut v: Vec<char> = Vec::new();
    let mut i: usize = 0;
    while i < n
        invariant
            n == s@.len(),
            i <= n,
            v@ == s@.take(i as int),
        decreases n - i,
    {
        let c = s.as_str().get_char(i);
        v.push(c);
        i = i + 1;
        assert(v@ =~= s@.take(i as int));
    }
    assert(s@.take(n as int) =~= s@);
    v
}

/// The cells of a row and its tail, line by line.
fn build_search_text(row: &Row, tail: &[&Row]) -> (text: Vec<(usize, usize, char)>)
    ensures
        text_view(text@) == search_text(row_chars(*row), tail_chars(tail@)),
{
    let ghost rc = row_chars(*row);
    let ghost tc = tail_chars(tail@);
    let mut text: Vec<(usize, usize, char)> = Vec::new();
    let mut c: usize = 0;
    while c < row.columns.len()
        invariant
            rc == row_chars(*row),
            c <= row.columns@.len(),
            text_view(text@) == row_cells(0, rc).take(c as int),
        decreases row.columns@.len() - c,
    {
        let ch = row.columns[c].character;
        assert(ch == rc[c as int]);
        let ghost before = text@;
        text.push((0, c, ch));
        assert(text_view(text@) =~= text_view(before).push((0int, c as int, ch)));
        assert(row_cells(0, rc).take(c + 1) =~= row_cells(0, rc).take(c as int).push((0int, c as int, ch)));
        c = c + 1;
    }
    assert(row_cells(0, rc).take(c as int) =~= row_cells(0, rc) + tail_cells(tc, 0));
    let mut t: usize = 0;
    let tn = tail.len();
    while t < tn
        invariant
            tn == tail@.len(),
            rc == row_chars(*row),
            tc == tail_chars(tail@),
            t <= tail@.len(),
            text_view(text@) == row_cells(0, rc) + tail_cells(tc, t as int),
        decreases tail@.len() - t,
    {
        let r = tail[t];
        assert(row_chars(*r) == tc[t as int]);
        let mut c: usize = 0;
        while c < r.columns.len()
            invariant
                tn == tail@.len(),
                rc == row_chars(*row),
                tc == tail_chars(tail@),
                t < tail@.len(),
                row_chars(*r) == tc[t as int],
                c <= r.columns@.len(),
                text_view(text@) == row_cells(0, rc) + tail_cells(tc, t as int) + row_cells(t + 1, tc[t as int]).take(c as int),
            decreases r.columns@.len() - c,
        {
            let ch = r.columns[c].character;
            assert(ch == tc[t as int][c as int]);
            let ghost before = text@;
            text.push((t + 1, c, ch));
            assert(text_view(text@) =~= text_view(before).push(((t + 1) as int, c as int, ch)));
            assert(row_cells(t + 1, tc[t as int]).take(c + 1) =~= row_cells(t + 1, tc[t as int]).take(c as int).push(((t + 1) as int, c as int, ch)));
            c = c + 1;
        }
        assert(row_cells(t + 1, tc[t as int]).take(c as int) =~= row_cells(t + 1, tc[t as int]));
        assert(tail_cells(tc, t + 1) == tail_cells(tc, t as int) + row_cells(t + 1, tc[t as int]));
        assert(text_view(text@) =~= row_cells(0, rc) + tail_cells(tc, t + 1));
        t = t + 1;
    }
    text
}

/// The cells of the first `n` tail rows lie on lines 1 to `n` and within
/// their rows.
proof fn lemma_tail_cells_bounds(tail: Seq<Seq<char>>, n: int)
    requires
        0 <= n <= tail.len(),
        forall|i: int| 0 <= i < tail.len() ==> #[trigger] tail[i].len() <= max_columns(),
    ensures
        forall|i: int| 0 <= i < tail_cells(tail, n).len() ==> 1 <= (#[trigger] tail_cells(tail, n)[i]).0 <= n
            && 0 <= tail_cells(tail, n)[i].1 < max_columns(),
    decreases n,
{
    if n > 0 {
        lemma_tail_cells_bounds(tail, n - 1);
        let a = tail_cells(tail, n - 1);
        let b = row_cells(n, tail[n - 1]);
        assert(tail[n - 1].len() <= max_columns());
        assert forall|i: int| 0 <= i < tail_cells(tail, n).len() implies 1 <= (#[trigger] tail_cells(tail, n)[i]).0 <= n
            && 0 <= tail_cells(tail, n)[i].1 < max_columns() by {
            if i < a.len() {
                assert(tail_cells(tail, n)[i] == a[i]);
            } else {
                assert(tail_cells(tail, n)[i] == b[i - a.len()]);
            }
        }
    }
}

/// The cells of a search text lie on lines 0 to the tail's length and in
/// columns below `max_columns`; the first cells are those of the row.
proof fn lemma_search_text_bounds(row: Seq<char>, tail: Seq<Seq<char>>)
    requires
        row.len() <= max_columns(),
        forall|i: int| 0 <= i < tail.len() ==> #[trigger] tail[i].len() <= max_columns(),
    ensures
        search_text(row, tail).len() >= row.len(),
        forall|i: int| 0 <= i < search_text(row, tail).len() ==> 0 <= (#[trigger] search_text(row, tail)[i]).0 <= tail.len()
            && 0 <= search_text(row, tail)[i].1 < max_columns(),
        forall|i: int| 0 <= i < row.len() ==> (#[trigger] search_text(row, tail)[i]) == (0int, i, row[i]),
{
    lemma_tail_cells_bounds(tail, tail.len() as int);
    let a = row_cells(0, row);
    let b = tail_cells(tail, tail.len() as int);
    assert forall|i: int| 0 <= i < search_text(row, tail).len() implies 0 <= (#[trigger] search_text(row, tail)[i]).0 <= tail.len()
        && 0 <= search_text(row, tail)[i].1 < max_columns() by {
        if i < a.len() {
            assert(search_text(row, tail)[i] == a[i]);
        } else {
            assert(search_text(row, tail)[i] == b[i - a.len()]);
        }
    }
    assert forall|i: int| 0 <= i < row.len() implies (#[trigger] search_text(row, tail)[i]) == (0int, i, row[i]) by {
        assert(search_text(row, tail)[i] == a[i]);
    }
}

/// The matches found from cell `k` on start on line `ridx`, end on that
/// line or one of the `tl` lines below it, not before they start, within
/// the columns, and are not being dragged.
proof fn lemma_matches_from_bounds(
    needle: Seq<char>,
    case_insensitive: bool,
    whole_word: bool,
    ridx: int,
    text: Seq<(int, int, char)>,
    main_len: int,
    k: int,
    tl: int,
)
    requires
        0 <= ridx,
        0 <= tl,
        ridx + tl <= i32::MAX,
        0 <= main_len <= text.len(),
        forall|i: int| 0 <= i < text.len() ==> 0 <= (#[trigger] text[i]).0 <= tl && 0 <= text[i].1 < max_columns(),
        forall|i: int| 0 <= i < main_len ==> (#[trigger] text[i]).0 == 0,
    ensures
        found_bounds(matches_from(needle, case_insensitive, whole_word, ridx, text, main_len, k), ridx, tl),
        forall|i: int| 0 <= i < matches_from(needle, case_insensitive, whole_word, ridx, text, main_len, k).len() ==> {
            let x = #[trigger] matches_from(needle, case_insensitive, whole_word, ridx, text, main_len, k)[i];
            &&& x.start.line == ridx
            &&& 0 <= x.start.column < max_columns()
            &&& x.start.line <= x.end.line
            &&& !x.active
        },
    decreases main_len + text.len() + 1 - k,
{
    if !(k < 0 || k >= main_len || needle.len() == 0) {
        let m = matches_from(needle, case_insensitive, whole_word, ridx, text, main_len, k);
        if needle_at(needle, case_insensitive, whole_word, text, k) {
            let n = needle.len() as int;
            lemma_matches_from_bounds(needle, case_insensitive, whole_word, ridx, text, main_len, k + n, tl);
            let rest = matches_from(needle, case_insensitive, whole_word, ridx, text, main_len, k + n);
            let x = match_at(ridx, text, k, n);
            assert(text[k].0 == 0);
            assert(0 <= text[k].1 < max_columns());
            assert(0 <= text[k + n - 1].0 <= tl);
            assert(0 <= text[k + n - 1].1 < max_columns());
            assert(m == seq![x] + rest);
            assert forall|i: int| 0 <= i < m.len() implies {
                let y = #[trigger] m[i];
                &&& y.start.line == ridx
                &&& 0 <= y.start.column < max_columns()
                &&& y.start.line <= y.end.line
                &&& !y.active
                &&& ridx <= y.end.line <= ridx + tl
                &&& 1 <= y.end.column <= max_columns()
            } by {
                if i > 0 {
                    assert(m[i] == rest[i - 1]);
                }
            }
        } else {
            lemma_matches_from_bounds(needle, case_insensitive, whole_word, ridx, text, main_len, k + 1, tl);
        }
    }
}

proof fn lemma_reflow_moves_down(e: Position, w: int)
    requires
        w > 0,
        e.line + e.column <= isize::MAX,
    ensures
        reflow_end(e, w).line >= e.line,
        reflow_end(e, w).column <= e.column,
    decreases e.column,
{
    if e.column > w {
        lemma_reflow_moves_down(Position { line: (e.line + 1) as isize, column: (e.column - w) as usize }, w);
    }
}

/// Every match found in a row starts on that row and does not end on a
/// line before the one it starts on: the matches lie in the rows searched.
pub proof fn lemma_matches_lie_in_searched_rows(sr: SearchResult, ridx: int, row: Row, tail: Seq<Seq<char>>)
    requires
        ridx >= 0,
        searchable(ridx, row, tail),
    ensures
        forall|k: int| 0 <= k < search_row_result(sr, ridx, row, tail).len() ==> {
            let x = #[trigger] search_row_result(sr, ridx, row, tail)[k];
            &&& x.start.line == ridx
            &&& x.start.line <= x.end.line
            &&& !x.active
        },
{
    let text = search_text(row_chars(row), tail);
    lemma_search_text_bounds(row_chars(row), tail);
    let main_len = row.columns@.len() as int;
    lemma_matches_from_bounds(sr.needle@, sr.case_insensitive, sr.whole_word_only, ridx, text, main_len, 0, tail.len() as int);
    let r = row_matches(sr, ridx, row, tail);
    let w = row_width(row);
    assert forall|k: int| 0 <= k < search_row_result(sr, ridx, row, tail).len() implies {
        let x = #[trigger] search_row_result(sr, ridx, row, tail)[k];
        &&& x.start.line == ridx
        &&& x.start.line <= x.end.line
        &&& !x.active
    } by {
        assert(search_row_result(sr, ridx, row, tail)[k] == settled(r[k], w));
        if w > 0 {
            lemma_reflow_moves_down(r[k].end, w);
        }
    }
}

/// `x` is the match of an occurrence of the needle that starts in the
/// searched row at cell `k` or after it.
pub open spec fn is_match_from(
    needle: Seq<char>,
    case_insensitive: bool,
    whole_word: bool,
    ridx: int,
    text: Seq<(int, int, char)>,
    main_len: int,
    k: int,
    x: Selection,
) -> bool {
    exists|c: int|
        k <= c < main_len && #[trigger] needle_at(needle, case_insensitive, whole_word, text, c) && x
            == match_at(ridx, text, c, needle.len() as int)
}

/// Every match a search reports spells the needle: it is the match of an
/// occurrence of the needle that starts in the searched row (the cells it
/// covers, with the case ignored when the search ignores it, are the
/// needle's characters).
pub proof fn lemma_matches_spell_the_needle(
    needle: Seq<char>,
    case_insensitive: bool,
    whole_word: bool,
    ridx: int,
    text: Seq<(int, int, char)>,
    main_len: int,
    k: int,
)
    ensures
        forall|i: int| 0 <= i < matches_from(needle, case_insensitive, whole_word, ridx, text, main_len, k).len()
            ==> is_match_from(needle, case_insensitive, whole_word, ridx, text, main_len, k,
                #[trigger] matches_from(needle, case_insensitive, whole_word, ridx, text, main_len, k)[i]),
    decreases main_len + text.len() + 1 - k,
{
    if !(k < 0 || k >= main_len || needle.len() == 0) {
        let m = matches_from(needle, case_insensitive, whole_word, ridx, text, main_len, k);
        if needle_at(needle, case_insensitive, whole_word, text, k) {
            let n = needle.len() as int;
            lemma_matches_spell_the_needle(needle, case_insensitive, whole_word, ridx, text, main_len, k + n);
            let rest = matches_from(needle, case_insensitive, whole_word, ridx, text, main_len, k + n);
            assert(m == seq![match_at(ridx, text, k, n)] + rest);
            assert forall|i: int| 0 <= i < m.len() implies is_match_from(needle, case_insensitive, whole_word, ridx, text, main_len, k, #[trigger] m[i]) by {
                if i == 0 {
                    assert(m[0] == match_at(ridx, text, k, n));
                } else {
                    assert(m[i] == rest[i - 1]);
                    assert(is_match_from(needle, case_insensitive, whole_word, ridx, text, main_len, k + n, rest[i - 1]));
                    let c = choose|c: int|
                        k + n <= c < main_len && #[trigger] needle_at(needle, case_insensitive, whole_word, text, c)
                            && rest[i - 1] == match_at(ridx, text, c, n);
                    assert(needle_at(needle, case_insensitive, whole_word, text, c));
                }
            }
        } else {
            lemma_matches_spell_the_needle(needle, case_insensitive, whole_word, ridx, text, main_len, k + 1);
            let rest = matches_from(needle, case_insensitive, whole_word, ridx, text, main_len, k + 1);
            assert forall|i: int| 0 <= i < m.len() implies is_match_from(needle, case_insensitive, whole_word, ridx, text, main_len, k, #[trigger] m[i]) by {
                assert(is_match_from(needle, case_insensitive, whole_word, ridx, text, main_len, k + 1, rest[i]));
                let c = choose|c: int|
                    k + 1 <= c < main_len && #[trigger] needle_at(needle, case_insensitive, whole_word, text, c)
                        && rest[i] == match_at(ridx, text, c, needle.len() as int);
                assert(needle_at(needle, case_insensitive, whole_word, text, c));
            }
        }
    }
}

/// Which way a search through the scrollback goes.
#[derive(Debug, Clone, Copy, PartialEq, Eq, Structural)]
pub enum SearchDirection {
    Up,
    Down,
}

/// How a search through the scrollback goes on from the viewport.
#[derive(Debug, Clone, Copy, PartialEq, Eq, Structural)]
pub enum ScrollbackStep {
    /// Stay in the viewport and move the active match (`true` when no match
    /// was active yet).
    StayInViewport(bool),
    /// Move the viewport to the next match.
    MoveViewport,
}

/// The matches of the viewport's rows above row `n`, top row first.
pub open spec fn viewport_matches(sr: SearchResult, v: Seq<Row>, n: int) -> Seq<Selection>
    decreases n,
{
    if n <= 0 || sr.needle@.len() == 0 {
        Seq::empty()
    } else {
        viewport_matches(sr, v, n - 1) + search_row_result(sr, n - 1, v[n - 1], tail_of(v, n))
    }
}

/// Every row of the viewport can be searched for the needle.
pub open spec fn viewport_searchable(sr: SearchResult, v: Seq<Row>) -> bool {
    sr.needle@.len() > 0 ==> {
        forall|r: int| 0 <= r < v.len() ==> #[trigger] searchable(r, v[r], tail_of(v, r + 1))
    }
}

/// The search options and the needle are as they were.
pub open spec fn same_search(a: SearchResult, b: SearchResult) -> bool {
    &&& a.needle == b.needle
    &&& a.case_insensitive == b.case_insensitive
    &&& a.whole_word_only == b.whole_word_only
    &&& a.wrap_search == b.wrap_search
}

/// A search depends on the needle and the options only, not on the matches
/// found so far.
proof fn lemma_search_depends_on_options(a: SearchResult, b: SearchResult, v: Seq<Row>, n: int)
    requires
        a.needle@ == b.needle@,
        a.case_insensitive == b.case_insensitive,
        a.whole_word_only == b.whole_word_only,
    ensures
        viewport_matches(a, v, n) == viewport_matches(b, v, n),
        viewport_searchable(a, v) == viewport_searchable(b, v),
    decreases n,
{
    assert forall|r: int, row: Row, tail: Seq<Seq<char>>| #[trigger] search_row_result(a, r, row, tail)
        == search_row_result(b, r, row, tail) by {
        assert(row_matches(a, r, row, tail) == row_matches(b, r, row, tail));
    }
    if n > 0 {
        lemma_search_depends_on_options(a, b, v, n - 1);
    }
}

impl Default for SearchResult {
    /// No needle, no match, every option off.
    fn default() -> (s: Self)
        ensures
            s.selections@.len() == 0,
            s.active is None,
            s.needle@.len() == 0,
            !s.case_insensitive,
            !s.whole_word_only,
            !s.wrap_search,
    {
        SearchResult {
            selections: Vec::new(),
            active: None,
            needle: String::new(),
            case_insensitive: false,
            whole_word_only: false,
            wrap_search: false,
        }
    }
}

impl SearchResult {
    /// Searches every row of the viewport (with the rows that continue it)
    /// and adds the matches, top row first.
    pub fn search_viewport(&mut self, viewport: &VecDeque<Row>)
        requires
            viewport_searchable(*old(self), viewport@),
        ensures
            final(self).selections@ == old(self).selections@ + viewport_matches(*old(self), viewport@, viewport@.len() as int),
            final(self).active == old(self).active,
            same_search(*old(self), *final(self)),
    {
        if self.needle.as_str().is_empty() {
            proof {
                assert(self.selections@ =~= old(self).selections@ + viewport_matches(*old(self), viewport@, viewport@.len() as int));
            }
            return;
        }
        let mut found: Vec<Selection> = Vec::new();
        let n = viewport.len();
        let mut ridx: usize = 0;
        while ridx < n
            invariant
                n == viewport@.len(),
                0 <= ridx <= n,
                *self == *old(self),
                self.needle@.len() > 0,
                viewport_searchable(*self, viewport@),
                found@ == viewport_matches(*self, viewport@, ridx as int),
            decreases n - ridx,
        {
            let row = &viewport[ridx];
            let tail = collect_tail(viewport, ridx + 1);
            let sels = self.search_row(ridx, row, tail.as_slice());
            let ghost before = found@;
            let mut k: usize = 0;
            while k < sels.len()
                invariant
                    0 <= k <= sels@.len(),
                    found@ == before + sels@.take(k as int),
                decreases sels@.len() - k,
            {
                found.push(sels[k]);
                proof {
                    assert(sels@.take(k + 1) =~= sels@.take(k as int).push(sels@[k as int]));
                }
                k = k + 1;
            }
            proof {
                assert(sels@.take(k as int) =~= sels@);
            }
            ridx = ridx + 1;
        }
        let ghost sels0 = self.selections@;
        let mut k: usize = 0;
        while k < found.len()
            invariant
                0 <= k <= found@.len(),
                self.selections@ == sels0 + found@.take(k as int),
                self.active == old(self).active,
                same_search(*old(self), *self),
            decreases found@.len() - k,
        {
            self.selections.push(found[k]);
            proof {
                assert(found@.take(k + 1) =~= found@.take(k as int).push(found@[k as int]));
            }
            k = k + 1;
        }
        proof {
            assert(found@.take(k as int) =~= found@);
        }
    }

    /// Forgets the needle, the matches and the options.
    pub fn clear_search(&mut self)
        ensures
            final(self).selections@.len() == 0,
            final(self).active is None,
            final(self).needle@.len() == 0,
            !final(self).case_insensitive,
            !final(self).whole_word_only,
            !final(self).wrap_search,
    {
        *self = SearchResult::default();
    }

    /// Searches the viewport for a new needle, with no match active.
    /// Returns whether the viewport holds no match (the caller then looks
    /// through the scrollback, up and then down, and clears the active match
    /// again).
    pub fn set_search_string(&mut self, needle: String, viewport: &VecDeque<Row>) -> (none_found: bool)
        requires
            viewport_searchable(SearchResult { needle: needle, ..*old(self) }, viewport@),
        ensures
            final(self).needle == needle,
            final(self).selections@ == old(self).selections@ + viewport_matches(
                SearchResult { needle: needle, ..*old(self) },
                viewport@,
                viewport@.len() as int,
            ),
            final(self).active is None,
            none_found == (final(self).selections@.len() == 0),
            final(self).case_insensitive == old(self).case_insensitive,
            final(self).whole_word_only == old(self).whole_word_only,
            final(self).wrap_search == old(self).wrap_search,
    {
        self.needle = needle;
        proof {
            lemma_search_depends_on_options(
                *self,
                SearchResult { needle: needle, ..*old(self) },
                viewport@,
                viewport@.len() as int,
            );
        }
        self.search_viewport(viewport);
        self.active = None;
        self.selections.len() == 0
    }

    /// Flips case sensitivity and searches the viewport again; the active
    /// match stays only if it is still a match.
    pub fn toggle_search_case_sensitivity(&mut self, viewport: &VecDeque<Row>)
        requires
            viewport_searchable(SearchResult { case_insensitive: !old(self).case_insensitive, ..*old(self) }, viewport@),
        ensures
            final(self).case_insensitive == !old(self).case_insensitive,
            final(self).selections@ == viewport_matches(
                SearchResult { case_insensitive: !old(self).case_insensitive, ..*old(self) },
                viewport@,
                viewport@.len() as int,
            ),
            final(self).active == active_if_present(final(self).selections@, old(self).active),
            final(self).needle == old(self).needle,
            final(self).whole_word_only == old(self).whole_word_only,
            final(self).wrap_search == old(self).wrap_search,
    {
        self.case_insensitive = !self.case_insensitive;
        self.selections = Vec::new();
        proof {
            lemma_search_depends_on_options(
                *self,
                SearchResult { case_insensitive: !old(self).case_insensitive, ..*old(self) },
                viewport@,
                viewport@.len() as int,
            );
        }
        self.search_viewport(viewport);
        self.unset_active_selection_if_nonexistent();
    }

    /// Flips whether a search wraps around at the ends of the scrollback.
    pub fn toggle_search_wrap(&mut self)
        ensures
            final(self).wrap_search == !old(self).wrap_search,
            final(self).selections == old(self).selections,
            final(self).active == old(self).active,
            final(self).needle == old(self).needle,
            final(self).case_insensitive == old(self).case_insensitive,
            final(self).whole_word_only == old(self).whole_word_only,
    {
        self.wrap_search = !self.wrap_search;
    }

    /// Flips whole-word matching and searches the viewport again, with no
    /// match active.
    pub fn toggle_search_whole_words(&mut self, viewport: &VecDeque<Row>)
        requires
            viewport_searchable(SearchResult { whole_word_only: !old(self).whole_word_only, ..*old(self) }, viewport@),
        ensures
            final(self).whole_word_only == !old(self).whole_word_only,
            final(self).selections@ == viewport_matches(
                SearchResult { whole_word_only: !old(self).whole_word_only, ..*old(self) },
                viewport@,
                viewport@.len() as int,
            ),
            final(self).active is None,
            final(self).needle == old(self).needle,
            final(self).case_insensitive == old(self).case_insensitive,
            final(self).wrap_search == old(self).wrap_search,
    {
        self.whole_word_only = !self.whole_word_only;
        self.selections = Vec::new();
        self.active = None;
        proof {
            lemma_search_depends_on_options(
                *self,
                SearchResult { whole_word_only: !old(self).whole_word_only, ..*old(self) },
                viewport@,
                viewport@.len() as int,
            );
        }
        self.search_viewport(viewport);
        self.unset_active_selection_if_nonexistent();
    }

    /// Whether a search through the scrollback can stay in the viewport: when
    /// no match is active yet, or the active match is not the last one in
    /// the direction of the search.
    pub fn scrollback_step(&self, dir: SearchDirection) -> (step: ScrollbackStep)
        ensures
            step == if self.active is None && self.selections@.len() > 0 {
                ScrollbackStep::StayInViewport(true)
            } else if self.selections@.len() > 0 && self.active is Some && match dir {
                SearchDirection::Up => self.active->0 != self.selections@[0],
                SearchDirection::Down => self.active->0 != self.selections@.last(),
            } {
                ScrollbackStep::StayInViewport(false)
            } else {
                ScrollbackStep::MoveViewport
            },
    {
        let n = self.selections.len();
        let first_time = self.active.is_none() && n > 0;
        let again = n > 0 && match self.active {
            Some(a) => match dir {
                SearchDirection::Up => a != self.selections[0],
                SearchDirection::Down => a != self.selections[n - 1],
            },
            None => false,
        };
        if first_time {
            ScrollbackStep::StayInViewport(true)
        } else if again {
            ScrollbackStep::StayInViewport(false)
        } else {
            ScrollbackStep::MoveViewport
        }
    }

    /// Moves the active match within the viewport: with no match active,
    /// the last match (searching up) or the first (searching down) becomes
    /// active, and unless this is the first time the active match then
    /// moves one match further in the direction of the search.
    pub fn search_viewport_again(&mut self, first_time: bool, dir: SearchDirection)
        requires
            old(self).selections@.len() > 0,
        ensures
            ({
                let sels = old(self).selections@;
                let start = match old(self).active {
                    Some(a) => a,
                    None => match dir {
                        SearchDirection::Up => sels.last(),
                        SearchDirection::Down => sels[0],
                    },
                };
                final(self).active == if first_time {
                    Some(start)
                } else {
                    match dir {
                        SearchDirection::Up => prev_active(sels, Some(start)),
                        SearchDirection::Down => next_active(sels, Some(start)),
                    }
                }
            }),
            final(self).selections == old(self).selections,
            same_search(*old(self), *final(self)),
    {
        let n = self.selections.len();
        let new_active = match dir {
            SearchDirection::Up => self.selections[n - 1],
            SearchDirection::Down => self.selections[0],
        };
        if self.active.is_none() {
            self.active = Some(new_active);
        }
        if !first_time {
            match dir {
                SearchDirection::Up => self.move_active_selection_to_prev(),
                SearchDirection::Down => self.move_active_selection_to_next(),
            }
        }
    }

    /// After the viewport moved down onto a match, the lines to scroll down
    /// further so that the last match's end shows too: the lines it spans
    /// below its start, when that is less than the grid's height, else none.
    pub fn lines_to_reveal_last_match(&self, height: usize) -> (lines: usize)
        requires
            self.selections@.len() > 0 ==> isize::MIN <= self.selections@.last().end.line - self.selections@.last().start.line <= isize::MAX,
        ensures
            lines == if self.selections@.len() > 0 {
                let last = self.selections@.last();
                let distance = (last.end.line - last.start.line) as usize;
                if distance < height {
                    distance
                } else {
                    0
                }
            } else {
                0
            },
    {
        let n = self.selections.len();
        if n == 0 {
            return 0;
        }
        let last = self.selections[n - 1];
        let distance = (last.end.line - last.start.line) as usize;
        if distance < height {
            distance
        } else {
            0
        }
    }
}


/// A character is a word boundary exactly when it is not an ASCII letter
/// (of either case), an ASCII digit or an underscore; the edge of a line is
/// a boundary.
pub proof fn lemma_word_boundaries(c: char)
    ensures
        word_boundary(None),
        word_boundary(Some(c)) <==> !(('A' <= c && c <= 'Z') || ('a' <= c && c <= 'z') || ('0' <= c && c <= '9')
            || c == '_'),
{
}

/// A whole-word match is not followed, on its line, by an ASCII letter
/// (of either case), digit or underscore, nor preceded by one.
pub proof fn lemma_whole_word_match_stands_alone(
    needle: Seq<char>,
    case_insensitive: bool,
    text: Seq<(int, int, char)>,
    k: int,
)
    requires
        needle_at(needle, case_insensitive, true, text, k),
    ensures
        char_after(text, k + needle.len() - 1) matches Some(c) ==> !(('A' <= c && c <= 'Z') || ('a' <= c && c
            <= 'z') || ('0' <= c && c <= '9') || c == '_'),
        char_before(text, k) matches Some(c) ==> !(('A' <= c && c <= 'Z') || ('a' <= c && c <= 'z') || ('0' <= c
            && c <= '9') || c == '_'),
{
}

} // verus!
