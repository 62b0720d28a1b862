use std::collections::VecDeque;
use zellij_server::position::Position;
use zellij_server::row::{Row, TerminalCharacter};
use zellij_server::search::{is_word_boundary, ScrollbackStep, SearchDirection, SearchResult};
use zellij_server::selection::Selection;

fn row(text: &str, canonical: bool) -> Row {
    Row::new(
        text.chars().map(|c| TerminalCharacter::new(c, 1)).collect(),
        canonical,
    )
}

fn found(line: i32, start: u16, end_line: i32, end: u16) -> Selection {
    let mut s = Selection::default();
    s.start(Position::new(line, start));
    s.end(Position::new(end_line, end));
    s
}

fn searching(needle: &str) -> SearchResult {
    let mut s = SearchResult::default();
    s.needle = needle.to_string();
    s
}

#[test]
fn word_boundaries_are_non_word_characters() {
    assert!(is_word_boundary(&None));
    assert!(is_word_boundary(&Some(' ')));
    assert!(is_word_boundary(&Some('-')));
    assert!(!is_word_boundary(&Some('a')));
    assert!(!is_word_boundary(&Some('7')));
    assert!(!is_word_boundary(&Some('_')));
}

#[test]
fn a_row_is_searched_for_every_match() {
    let s = searching("foo");
    let r = row("foo bar foo", true);
    assert_eq!(
        s.search_row(0, &r, &[]),
        vec![found(0, 0, 0, 3), found(0, 8, 0, 11)]
    );
}

#[test]
fn a_match_may_run_into_the_tail() {
    let s = searching("barfoo");
    let r = row("xxbar", true);
    let t = row("foozz", false);
    assert_eq!(s.search_row(2, &r, &[&t]), vec![found(2, 2, 3, 3)]);
}

#[test]
fn case_and_whole_words_are_options() {
    let mut s = searching("Foo");
    let r = row("foo food", true);
    assert!(s.search_row(0, &r, &[]).is_empty());
    s.case_insensitive = true;
    assert_eq!(s.search_row(0, &r, &[]).len(), 2);
    s.whole_word_only = true;
    assert_eq!(s.search_row(0, &r, &[]), vec![found(0, 0, 0, 3)]);
    assert!(s.has_modifiers_set());
}

#[test]
fn the_viewport_is_searched_top_down() {
    let mut viewport = VecDeque::new();
    viewport.push_back(row("ab ab", true));
    viewport.push_back(row("zzab", true));
    let mut s = SearchResult::default();
    let none = s.set_search_string("ab".to_string(), &viewport);
    assert!(!none);
    assert_eq!(
        s.selections,
        vec![found(0, 0, 0, 2), found(0, 3, 0, 5), found(1, 2, 1, 4)]
    );
    assert_eq!(s.active, None);
    // the matches found so far stay until the search is cleared
    assert!(!s.set_search_string("nothing".to_string(), &VecDeque::new()));
    s.clear_search();
    assert!(s.set_search_string("nothing".to_string(), &viewport));
}

#[test]
fn toggling_options_searches_again() {
    let mut viewport = VecDeque::new();
    viewport.push_back(row("AB ab", true));
    let mut s = SearchResult::default();
    s.set_search_string("ab".to_string(), &viewport);
    assert_eq!(s.selections, vec![found(0, 3, 0, 5)]);
    s.active = Some(found(0, 3, 0, 5));
    s.toggle_search_case_sensitivity(&viewport);
    assert_eq!(s.selections, vec![found(0, 0, 0, 2), found(0, 3, 0, 5)]);
    assert_eq!(s.active, Some(found(0, 3, 0, 5)));
    s.toggle_search_whole_words(&viewport);
    assert!(s.whole_word_only);
    assert_eq!(s.active, None);
    s.toggle_search_wrap();
    assert!(s.wrap_search);
    s.clear_search();
    assert!(s.selections.is_empty());
    assert!(s.needle.is_empty());
    assert!(!s.case_insensitive && !s.whole_word_only && !s.wrap_search);
}

#[test]
fn the_active_match_moves_through_the_viewport() {
    let mut s = searching("x");
    s.selections = vec![found(0, 0, 0, 1), found(1, 0, 1, 1), found(2, 0, 2, 1)];
    assert_eq!(s.scrollback_step(SearchDirection::Down), ScrollbackStep::StayInViewport(true));
    s.search_viewport_again(true, SearchDirection::Down);
    assert_eq!(s.active, Some(found(0, 0, 0, 1)));
    assert_eq!(s.scrollback_step(SearchDirection::Down), ScrollbackStep::StayInViewport(false));
    assert_eq!(s.scrollback_step(SearchDirection::Up), ScrollbackStep::MoveViewport);
    s.search_viewport_again(false, SearchDirection::Down);
    assert_eq!(s.active, Some(found(1, 0, 1, 1)));
    s.move_active_selection_to_next();
    assert_eq!(s.active, Some(found(2, 0, 2, 1)));
    assert_eq!(s.scrollback_step(SearchDirection::Down), ScrollbackStep::MoveViewport);
    s.move_active_selection_to_prev();
    assert_eq!(s.active, Some(found(1, 0, 1, 1)));
}

#[test]
fn matches_are_marked_in_a_row() {
    let mut s = searching("b");
    s.selections = vec![found(0, 1, 0, 2), found(0, 3, 0, 4)];
    s.active = Some(found(0, 3, 0, 4));
    let mut r = row("abcbe", true);
    s.mark_search_results_in_row(&mut r, 0);
    let text: String = r.columns.iter().map(|c| c.character).collect();
    assert_eq!(text, "a#c_e");
}

#[test]
fn moving_the_viewport_moves_the_matches() {
    let mut viewport = VecDeque::new();
    viewport.push_back(row("new ab", true));
    viewport.push_back(row("old", true));
    let mut s = searching("ab");
    s.selections = vec![found(0, 0, 0, 2), found(1, 0, 1, 2)];
    let found_something = s.move_down(1, &viewport, 2);
    assert!(found_something);
    assert_eq!(s.selections, vec![found(0, 4, 0, 6), found(1, 0, 1, 2)]);
}

#[test]
fn a_match_spanning_lines_is_revealed_when_it_fits() {
    let mut s = searching("x");
    assert_eq!(s.lines_to_reveal_last_match(10), 0);
    s.selections.push(found(0, 0, 0, 3));
    s.selections.push(found(2, 5, 5, 1));
    assert_eq!(s.lines_to_reveal_last_match(10), 3);
    assert_eq!(s.lines_to_reveal_last_match(3), 0);
    assert_eq!(s.lines_to_reveal_last_match(4), 3);
}

#[test]
fn a_failed_partial_match_is_retried_from_the_next_character() {
    let s = searching("ab");
    let r = row("aab", true);
    assert_eq!(s.search_row(0, &r, &[]), vec![found(0, 1, 0, 3)]);
    let s = searching("aab");
    let r = row("aaab", true);
    assert_eq!(s.search_row(0, &r, &[]), vec![found(0, 1, 0, 4)]);
}

#[test]
fn a_needle_beyond_ascii_is_found() {
    let s = searching("é");
    let r = row("café é", true);
    assert_eq!(s.search_row(0, &r, &[]), vec![found(0, 3, 0, 4), found(0, 5, 0, 6)]);
    let s = searching("éx");
    let r = row("ééx", true);
    assert_eq!(s.search_row(0, &r, &[]), vec![found(0, 1, 0, 3)]);
}

#[test]
fn matches_do_not_overlap() {
    let s = searching("aa");
    let r = row("aaaaa", true);
    assert_eq!(s.search_row(0, &r, &[]), vec![found(0, 0, 0, 2), found(0, 2, 0, 4)]);
}

#[test]
fn a_match_in_a_wrapped_row_is_found_once() {
    let mut s = searching("ab");
    let mut viewport = VecDeque::new();
    viewport.push_back(row("ab", true));
    viewport.push_back(row("ab", false));
    s.search_viewport(&viewport);
    assert_eq!(s.selections, vec![found(0, 0, 0, 2), found(1, 0, 1, 2)]);
}
