use zellij_server::position::Position;
use zellij_server::selection::Selection;

fn sel(sl: i32, sc: u16, el: i32, ec: u16) -> Selection {
    let mut s = Selection::default();
    s.start(Position::new(sl, sc));
    s.end(Position::new(el, ec));
    s
}

#[test]
fn an_empty_selection_holds_nothing() {
    let s = sel(2, 3, 2, 3);
    assert!(s.is_empty());
    assert!(!s.contains(2, 3));
    assert!(!s.contains_row(1));
}

#[test]
fn a_selection_holds_its_start_but_not_its_end() {
    let s = sel(1, 4, 3, 2);
    assert!(s.contains(1, 4));
    assert!(!s.contains(1, 3));
    assert!(s.contains(2, 0));
    assert!(s.contains(3, 1));
    assert!(!s.contains(3, 2));
    assert!(s.contains_row(2));
    let backwards = sel(3, 2, 1, 4);
    assert!(backwards.contains(1, 4));
    assert_eq!(backwards.sorted().start, Position::new(1, 4));
    assert_eq!(backwards.line_indices(), 1..=3);
}

#[test]
fn moving_down_and_up_gives_the_selection_back() {
    let mut s = sel(1, 0, 2, 5);
    s.move_down(3);
    assert_eq!(s.start.line(), 4);
    assert_eq!(s.end.line(), 5);
    s.move_up(3);
    assert_eq!(s, sel(1, 0, 2, 5));
}

#[test]
fn an_active_selection_keeps_its_end_when_moved() {
    let mut s = Selection::default();
    s.start(Position::new(5, 0));
    s.to(Position::new(6, 2));
    s.move_up(2);
    assert_eq!(s.start.line(), 3);
    assert_eq!(s.end.line(), 6);
    s.finalize();
    s.move_up(1);
    assert_eq!(s.end.line(), 5);
}

#[test]
fn reset_empties_the_selection() {
    let mut s = sel(1, 1, 4, 4);
    s.reset();
    assert!(s.is_empty());
    assert_eq!(s.start, Position::new(0, 0));
}

#[test]
fn offset_shifts_both_ends() {
    let s = sel(1, 2, 3, 4).offset(10, 20);
    assert_eq!(s.start, Position::new(21, 12));
    assert_eq!(s.end, Position::new(23, 14));
}

#[test]
fn diff_lists_the_lines_to_render_again() {
    let a = sel(1, 0, 3, 0);
    let b = sel(1, 0, 5, 0);
    let mut lines = a.diff(&b, 10);
    lines.sort();
    assert_eq!(lines, vec![1, 3, 4, 5]);
    let mut clipped = a.diff(&b, 4);
    clipped.sort();
    assert_eq!(clipped, vec![1, 3]);
}

#[test]
fn words_and_lines_grow_the_selection() {
    let mut s = Selection::default();
    s.set_start_and_end_positions(Position::new(2, 4), Position::new(2, 8));
    s.add_word_to_position(Position::new(2, 10), Position::new(2, 14));
    assert_eq!(s.start, Position::new(2, 4));
    assert_eq!(s.end, Position::new(2, 14));
    s.add_line_to_position(4, 9);
    assert_eq!(s.end, Position::new(4, 9));
}
