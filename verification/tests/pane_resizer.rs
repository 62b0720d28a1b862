use zellij_server::pane_id::PaneId;
use zellij_server::pane_resizer::{
    apply_spans, discretize_spans, discretize_spans_checked, discretize_within_bounds, get_span, grid_boundaries, is_layout_valid, new_flex_space,
    opposite, spans_in_boundary, LayoutError, Span, SplitDirection,
};
use zellij_server::pane_size::{Dimension, PaneGeom};

fn span(id: u32, direction: SplitDirection, pos: usize, size: Dimension, var: usize) -> Span {
    Span {
        pid: PaneId::Terminal(id),
        direction,
        pos,
        size,
        size_var: var,
    }
}

fn geom(x: usize, y: usize, rows: Dimension, cols: Dimension) -> PaneGeom {
    PaneGeom {
        x,
        y,
        rows,
        cols,
        stacked: None,
        is_pinned: false,
    }
}

#[test]
fn boundaries_run_between_distinct_edges() {
    let v = SplitDirection::Vertical;
    let spans = vec![
        span(1, v, 0, Dimension::percent(10), 0),
        span(2, v, 10, Dimension::percent(10), 1),
        span(3, v, 0, Dimension::percent(20), 2),
    ];
    assert_eq!(grid_boundaries(&spans), vec![(0, 10), (10, 20)]);
    assert!(grid_boundaries(&vec![]).is_empty());
}

#[test]
fn spans_crossing_a_strip_come_in_order() {
    let h = SplitDirection::Horizontal;
    let v = SplitDirection::Vertical;
    let panes = vec![
        (span(1, v, 0, Dimension::percent(10), 0), span(1, h, 40, Dimension::percent(40), 0)),
        (span(2, v, 0, Dimension::percent(20), 1), span(2, h, 0, Dimension::percent(40), 1)),
        (span(3, v, 10, Dimension::percent(10), 2), span(3, h, 40, Dimension::percent(40), 2)),
    ];
    let in_first = spans_in_boundary(&panes, (0, 10));
    assert_eq!(in_first.iter().map(|s| s.pos).collect::<Vec<_>>(), vec![0, 40]);
    let in_second = spans_in_boundary(&panes, (10, 20));
    assert_eq!(in_second.iter().map(|s| s.pid).collect::<Vec<_>>(), vec![PaneId::Terminal(2), PaneId::Terminal(3)]);
}

#[test]
fn flex_space_leaves_out_fixed_spans() {
    let h = SplitDirection::Horizontal;
    let spans = vec![
        span(1, h, 0, Dimension::fixed(10), 0),
        span(2, h, 10, Dimension::percent(50), 1),
        span(3, h, 60, Dimension::fixed(200), 2),
    ];
    assert_eq!(new_flex_space(100, &spans), 0);
    assert_eq!(new_flex_space(300, &spans), 90);
}

#[test]
fn rounding_errors_are_spread_over_flexible_spans() {
    let h = SplitDirection::Horizontal;
    let grid = vec![vec![
        span(1, h, 0, Dimension::percent(33), 0),
        span(2, h, 33, Dimension::percent(66), 1),
    ]];
    let spans = discretize_spans(grid, vec![33, 66], 100).expect("a layout");
    assert_eq!(spans.len(), 2);
    assert_eq!((spans[0].pos, spans[0].size.inner), (0, 34));
    assert_eq!((spans[1].pos, spans[1].size.inner), (34, 66));
}

#[test]
fn a_span_without_cells_fails_the_layout() {
    let h = SplitDirection::Horizontal;
    let grid = vec![vec![
        span(1, h, 0, Dimension::fixed(0), 0),
        span(2, h, 0, Dimension::fixed(10), 1),
    ]];
    assert_eq!(
        discretize_spans(grid, vec![0, 10], 10),
        Err(LayoutError::SpanSpaceExhausted)
    );
}

#[test]
fn spans_follow_the_direction_and_stacks() {
    let g = geom(3, 4, Dimension::percent(10), Dimension::fixed(20));
    let s = get_span(SplitDirection::Horizontal, PaneId::Terminal(9), &g, None, 5).unwrap();
    assert_eq!((s.pos, s.size.inner, s.size_var), (3, 20, 5));
    let s = get_span(opposite(SplitDirection::Horizontal), PaneId::Terminal(9), &g, None, 5).unwrap();
    assert_eq!((s.pos, s.size.inner), (4, 10));
    let stacked = PaneGeom { stacked: Some(1), ..g };
    let stack = geom(0, 0, Dimension::percent(30), Dimension::percent(40));
    let s = get_span(SplitDirection::Vertical, PaneId::Terminal(9), &stacked, Some(stack), 5).unwrap();
    assert_eq!(s.size.inner, 30);
    let one_line = PaneGeom { rows: Dimension::fixed(1), ..stacked };
    assert!(get_span(SplitDirection::Vertical, PaneId::Terminal(9), &one_line, Some(stack), 5).is_none());
}

#[test]
fn stacks_may_not_be_squeezed() {
    let v = SplitDirection::Vertical;
    let spans = vec![span(1, v, 0, Dimension::percent(3), 0), span(2, v, 3, Dimension::percent(7), 1)];
    assert!(is_layout_valid(&spans, &vec![None, None]));
    assert!(is_layout_valid(&spans, &vec![Some(3)]));
    assert!(!is_layout_valid(&spans, &vec![Some(4)]));
    let h = vec![span(1, SplitDirection::Horizontal, 0, Dimension::percent(3), 0)];
    assert!(is_layout_valid(&h, &vec![Some(4)]));
}

#[test]
fn applied_spans_report_whether_a_size_changed() {
    let h = SplitDirection::Horizontal;
    let spans = vec![span(1, h, 5, Dimension::percent(30), 0)];
    let current = geom(0, 0, Dimension::fixed(10), Dimension::percent(30));
    let (geoms, changed) = apply_spans(&spans, &vec![(current, current)]);
    assert_eq!(geoms[0].x, 5);
    assert!(!changed);
    let spans = vec![span(1, h, 5, Dimension::percent(31), 0)];
    let (geoms, changed) = apply_spans(&spans, &vec![(current, current)]);
    assert_eq!(geoms[0].cols.inner, 31);
    assert!(changed);
}

#[test]
fn rounding_is_checked_against_overflow() {
    let h = SplitDirection::Horizontal;
    let grid = vec![vec![
        span(1, h, 0, Dimension::percent(33), 0),
        span(2, h, 33, Dimension::percent(66), 1),
    ]];
    assert!(discretize_within_bounds(&grid, &vec![33, 66], 100));
    let spans = discretize_spans_checked(grid.clone(), vec![33, 66], 100)
        .expect("within bounds")
        .expect("a layout");
    assert_eq!((spans[1].pos, spans[1].size.inner), (34, 66));
    assert!(!discretize_within_bounds(&grid, &vec![isize::MAX, 1], 100));
    assert!(discretize_spans_checked(grid.clone(), vec![isize::MAX, 1], 100).is_none());
    assert!(!discretize_within_bounds(&grid, &vec![33], 100));
    assert!(discretize_spans_checked(grid, vec![33, 66], usize::MAX).is_none());
}
