//! Laying out tiled panes along one direction.
//!
//! The panes are cut into spans: for each strip between two consecutive
//! pane edges (a boundary), the spans of the panes that cross it, in order.
//! A constraint solver gives every pane a real size; those sizes are
//! rounded, and the rounding is then corrected so that each strip is filled
//! exactly, without gaps or overlaps.

use vstd::prelude::*;
use crate::pane_id::PaneId;
use crate::pane_size::{Dimension, PaneGeom, SizeConstraint};
use vstd::relations::injective_on;
use vstd::set_lib::{lemma_int_range, lemma_len_subset, lemma_map_size, lemma_subset_equality, set_int_range};

verus! {

#[derive(Debug, Clone, Copy, PartialEq, Eq, Structural)]
pub enum SplitDirection {
    Horizontal,
    Vertical,
}

/// A pane seen along one direction: where it starts, its size and the
/// index of the solver variable that holds its size.
#[derive(Debug, Clone, Copy, PartialEq, Eq, Structural)]
pub struct Span {
    pub pid: PaneId,
    pub direction: SplitDirection,
    pub pos: usize,
    pub size: Dimension,
    pub size_var: usize,
}

pub open spec fn is_fixed(s: Span) -> bool {
    s.size.constraint is Fixed
}

/// The end of a span: its position plus its size.
pub open spec fn span_end(s: Span) -> int {
    s.pos + s.size.inner
}

// ---------------------------------------------------------------------------
// The strips between pane edges

/// `edges` holds each value of `ends` once, in increasing order.
pub open spec fn sorted_distinct_of(edges: Seq<usize>, ends: Seq<int>) -> bool {
    &&& forall|i: int, j: int| 0 <= i < j < edges.len() ==> edges[i] < edges[j]
    &&& forall|e: int| #[trigger] ends.contains(e) <==> exists|i: int| 0 <= i < edges.len() && edges[i] == e
}

/// The strips cut out by the edges: from 0 to the first edge, then from each
/// edge to the next.
pub open spec fn boundaries_of(edges: Seq<usize>) -> Seq<(usize, usize)> {
    Seq::new(
        edges.len(),
        |i: int|
            if i == 0 {
                (0usize, edges[0])
            } else {
                (edges[i - 1], edges[i])
            },
    )
}

/// The strips between the edges where the given spans end. The spans run
/// across the direction being laid out.
pub fn grid_boundaries(spans: &Vec<Span>) -> (bounds: Vec<(usize, usize)>)
    requires
        forall|i: int| 0 <= i < spans@.len() ==> span_end(#[trigger] spans@[i]) <= usize::MAX,
    ensures
        exists|edges: Seq<usize>|
            sorted_distinct_of(edges, spans@.map_values(|s: Span| span_end(s))) && bounds@
                == boundaries_of(edges),
{
    let ghost ends = spans@.map_values(|s: Span| span_end(s));
    // the distinct edges, in increasing order
    let mut edges: Vec<usize> = Vec::new();
    let mut i: usize = 0;
    while i < spans.len()
        invariant
            0 <= i <= spans@.len(),
            ends == spans@.map_values(|s: Span| span_end(s)),
            forall|k: int| 0 <= k < spans@.len() ==> span_end(#[trigger] spans@[k]) <= usize::MAX,
            forall|a: int, b: int| 0 <= a < b < edges@.len() ==> edges@[a] < edges@[b],
            forall|e: int|
                #[trigger] ends.take(i as int).contains(e) <==> exists|k: int|
                    0 <= k < edges@.len() && edges@[k] == e,
        decreases spans@.len() - i,
    {
        let e = spans[i].pos + spans[i].size.inner;
        let ghost old_edges = edges@;
        // find where e goes
        let mut k: usize = 0;
        while k < edges.len() && edges[k] < e
            invariant
                0 <= k <= edges@.len(),
                edges@ == old_edges,
                forall|a: int| 0 <= a < k ==> edges@[a] < e,
            decreases edges@.len() - k,
        {
            k = k + 1;
        }
        if k < edges.len() && edges[k] == e {
            // already there
        } else {
            edges.insert(k, e);
        }
        proof {
            assert(ends.take(i + 1) =~= ends.take(i as int).push(e as int));
            assert forall|x: int| #[trigger] ends.take(i + 1).contains(x) implies exists|q: int|
                0 <= q < edges@.len() && edges@[q] == x by {
                if x == e {
                    assert(edges@[k as int] == e);
                } else {
                    assert(ends.take(i as int).contains(x));
                    let q = choose|q: int| 0 <= q < old_edges.len() && old_edges[q] == x;
                    if q < k {
                        assert(edges@[q] == x);
                    } else {
                        if edges@.len() == old_edges.len() {
                            assert(edges@[q] == x);
                        } else {
                            assert(edges@[q + 1] == x);
                        }
                    }
                }
            }
            assert forall|x: int| (exists|q: int| 0 <= q < edges@.len() && edges@[q] == x)
                implies #[trigger] ends.take(i + 1).contains(x) by {
                let q = choose|q: int| 0 <= q < edges@.len() && edges@[q] == x;
                if x == e {
                    assert(ends.take(i + 1)[i as int] == x);
                } else {
                    if edges@.len() == old_edges.len() {
                        assert(old_edges[q] == x);
                    } else if q < k {
                        assert(old_edges[q] == x);
                    } else if q == k {
                        assert(false);
                    } else {
                        assert(old_edges[q - 1] == x);
                    }
                    assert(ends.take(i as int).contains(x));
                    let w = choose|w: int| 0 <= w < i && ends.take(i as int)[w] == x;
                    assert(ends.take(i + 1)[w] == x);
                }
            }
        }
        i = i + 1;
    }
    proof {
        assert(ends.take(i as int) =~= ends);
    }
    let mut bounds: Vec<(usize, usize)> = Vec::new();
    let mut last_edge: usize = 0;
    let mut j: usize = 0;
    while j < edges.len()
        invariant
            0 <= j <= edges@.len(),
            bounds@ == boundaries_of(edges@).take(j as int),
            j > 0 ==> last_edge == edges@[j - 1],
            j == 0 ==> last_edge == 0,
        decreases edges@.len() - j,
    {
        let next_edge = edges[j];
        bounds.push((last_edge, next_edge));
        last_edge = next_edge;
        proof {
            assert(bounds@ =~= boundaries_of(edges@).take(j + 1));
        }
        j = j + 1;
    }
    proof {
        assert(boundaries_of(edges@).take(j as int) =~= boundaries_of(edges@));
    }
    bounds
}

pub open spec fn between(v: int, b: (int, int)) -> bool {
    b.0 <= v && v < b.1
}

/// Whether a pane, seen across the direction being laid out (`across`), lies in
/// the strip `boundary`: it starts in the strip, or it covers the strip's start
/// and its end.
pub open spec fn crosses_boundary(across: Span, boundary: (usize, usize)) -> bool {
    let sb = (across.pos as int, span_end(across));
    let b = (boundary.0 as int, boundary.1 as int);
    between(sb.0, b) || (between(b.0, sb) && (between(b.1, sb) || b.1 == sb.1))
}

/// The spans (along the direction) of the panes in a strip, by position.
/// Each pane is given as its span across the direction and its span along it.
pub fn spans_in_boundary(panes: &Vec<(Span, Span)>, boundary: (usize, usize)) -> (spans: Vec<Span>)
    requires
        forall|i: int| 0 <= i < panes@.len() ==> span_end((#[trigger] panes@[i]).0) <= usize::MAX,
    ensures
        spans@.to_multiset() == panes@.filter(|p: (Span, Span)| crosses_boundary(p.0, boundary)).map_values(
            |p: (Span, Span)| p.1,
        ).to_multiset(),
        forall|i: int, j: int| 0 <= i < j < spans@.len() ==> spans@[i].pos <= spans@[j].pos,
{
    let ghost pred = |p: (Span, Span)| crosses_boundary(p.0, boundary);
    let ghost take_along = |p: (Span, Span)| p.1;
    let mut spans: Vec<Span> = Vec::new();
    let mut i: usize = 0;
    proof {
        reveal_with_fuel(Seq::<_>::filter, 1);
        assert(panes@.take(0).filter(pred) =~= Seq::<(Span, Span)>::empty());
        assert(panes@.take(0).filter(pred).map_values(take_along) =~= spans@);
    }
    while i < panes.len()
        invariant
            0 <= i <= panes@.len(),
            pred == (|p: (Span, Span)| crosses_boundary(p.0, boundary)),
            take_along == (|p: (Span, Span)| p.1),
            forall|k: int| 0 <= k < panes@.len() ==> span_end((#[trigger] panes@[k]).0) <= usize::MAX,
            spans@.to_multiset() == panes@.take(i as int).filter(pred).map_values(take_along).to_multiset(),
            forall|a: int, b: int| 0 <= a < b < spans@.len() ==> spans@[a].pos <= spans@[b].pos,
        decreases panes@.len() - i,
    {
        let (across, along) = panes[i];
        let start = across.pos;
        let end = across.pos + across.size.inner;
        let in_strip = (boundary.0 <= start && start < boundary.1) || ((start <= boundary.0
            && boundary.0 < end) && ((start <= boundary.1 && boundary.1 < end) || boundary.1
            == end));
        proof {
            reveal_with_fuel(Seq::<_>::filter, 1);
            assert(panes@.take(i + 1).drop_last() =~= panes@.take(i as int));
            assert(in_strip == pred(panes@[i as int]));
        }
        if in_strip {
            // insert after the spans that do not come after it
            let ghost before = spans@;
            let mut k: usize = 0;
            while k < spans.len() && spans[k].pos <= along.pos
                invariant
                    0 <= k <= spans@.len(),
                    spans@ == before,
                    forall|a: int| 0 <= a < k ==> spans@[a].pos <= along.pos,
                decreases spans@.len() - k,
            {
                k = k + 1;
            }
            spans.insert(k, along);
            proof {
                assert(spans@ =~= before.insert(k as int, along));
                before.to_multiset_ensures();
                assert(before.insert(k as int, along).to_multiset() =~= before.to_multiset().insert(along))
                    by {
                    vstd::seq_lib::lemma_multiset_commutative(before.take(k as int), before.skip(k as int));
                    assert(before.insert(k as int, along) =~= before.take(k as int).push(along) + before.skip(k as int));
                    vstd::seq_lib::lemma_multiset_commutative(before.take(k as int).push(along), before.skip(k as int));
                    assert(before =~= before.take(k as int) + before.skip(k as int));
                    before.take(k as int).to_multiset_ensures();
                }
                let fs = panes@.take(i as int).filter(pred);
                assert(panes@.take(i + 1).filter(pred) == fs.push(panes@[i as int]));
                assert(fs.push(panes@[i as int]).map_values(take_along) =~= fs.map_values(take_along).push(along));
                fs.map_values(take_along).to_multiset_ensures();
            }
        } else {
            proof {
                assert(panes@.take(i + 1).filter(pred) == panes@.take(i as int).filter(pred));
            }
        }
        i = i + 1;
    }
    proof {
        assert(panes@.take(i as int) =~= panes@);
    }
    spans
}

/// The space left to panes of flexible size: what the fixed-size spans of a
/// strip do not take (never below zero).
pub open spec fn flex_space(space: int, spans: Seq<Span>) -> int
    decreases spans.len(),
{
    if spans.len() == 0 {
        space
    } else {
        let rest = flex_space(space, spans.drop_last());
        match spans.last().size.constraint {
            SizeConstraint::Fixed(sz) => if rest >= sz {
                rest - sz
            } else {
                0
            },
            SizeConstraint::Percent => rest,
        }
    }
}

/// The space of a strip that the spans of flexible size share.
pub fn new_flex_space(space: usize, spans: &Vec<Span>) -> (flex: usize)
    ensures
        flex == flex_space(space as int, spans@),
{
    let mut a = space;
    let mut i: usize = 0;
    while i < spans.len()
        invariant
            0 <= i <= spans@.len(),
            a == flex_space(space as int, spans@.take(i as int)),
        decreases spans@.len() - i,
    {
        proof {
            assert(spans@.take(i + 1).drop_last() =~= spans@.take(i as int));
        }
        match spans[i].size.constraint {
            SizeConstraint::Fixed(sz) => {
                a = a.saturating_sub(sz);
            },
            SizeConstraint::Percent => {},
        }
        i = i + 1;
    }
    proof {
        assert(spans@.take(i as int) =~= spans@);
    }
    a
}

// ---------------------------------------------------------------------------
// Rounding the solved sizes to whole cells

#[derive(Debug, Clone, Copy, PartialEq, Eq, Structural)]
pub enum LayoutError {
    /// A span was left with no cells.
    SpanSpaceExhausted,
}

/// The rounded size a span has in `sizes`.
pub open spec fn size_of(sizes: Seq<isize>, s: Span) -> int {
    sizes[s.size_var as int] as int
}

/// The sum of the rounded sizes of the spans of a strip.
pub open spec fn row_sum(row: Seq<Span>, sizes: Seq<isize>) -> int
    decreases row.len(),
{
    if row.len() == 0 {
        0
    } else {
        row_sum(row.drop_last(), sizes) + size_of(sizes, row.last())
    }
}

/// How far the rounded sizes of a strip miss its space.
pub open spec fn row_error(row: Seq<Span>, sizes: Seq<isize>, space: int) -> int {
    space - row_sum(row, sizes)
}

pub open spec fn signum(x: int) -> int {
    if x > 0 {
        1
    } else if x < 0 {
        -1
    } else {
        0
    }
}

pub open spec fn abs(x: int) -> int {
    if x < 0 {
        -x
    } else {
        x
    }
}

/// A span may be corrected when its size is not fixed and its pane was not
/// settled in an earlier strip.
pub open spec fn is_flex(row: Seq<Span>, fin: Seq<PaneId>, j: int) -> bool {
    !is_fixed(row[j]) && !fin.contains(row[j].pid)
}

/// Span `i` is corrected before span `j`: when cells are missing, smaller
/// spans go first (in strip order among equals); when there are cells too
/// many, larger spans go first (in reverse strip order among equals).
pub open spec fn goes_first(row: Seq<Span>, sizes: Seq<isize>, fin: Seq<PaneId>, up: bool, i: int, j: int) -> bool {
    let ki = size_of(sizes, row[i]);
    let kj = size_of(sizes, row[j]);
    is_flex(row, fin, i) && if up {
        ki < kj || (ki == kj && i < j)
    } else {
        ki > kj || (ki == kj && i > j)
    }
}

/// How many of the first `n` spans are corrected before span `j`.
pub open spec fn rank(row: Seq<Span>, sizes: Seq<isize>, fin: Seq<PaneId>, up: bool, j: int, n: int) -> int
    decreases n,
{
    if n <= 0 {
        0
    } else {
        rank(row, sizes, fin, up, j, n - 1) + if goes_first(row, sizes, fin, up, n - 1, j) {
            1int
        } else {
            0int
        }
    }
}

/// Span `j` is corrected by one cell: it may be, and fewer spans than the
/// error go before it.
pub open spec fn is_corrected(row: Seq<Span>, sizes: Seq<isize>, fin: Seq<PaneId>, space: int, j: int) -> bool {
    let err = row_error(row, sizes, space);
    err != 0 && is_flex(row, fin, j) && rank(row, sizes, fin, err > 0, j, row.len() as int) < abs(err)
}

/// How many of the first `n` spans of a strip that use variable `v` are corrected.
pub open spec fn corrected_count(row: Seq<Span>, sizes: Seq<isize>, fin: Seq<PaneId>, space: int, v: int, n: int) -> int
    decreases n,
{
    if n <= 0 {
        0
    } else {
        corrected_count(row, sizes, fin, space, v, n - 1) + if is_corrected(row, sizes, fin, space, n - 1)
            && row[n - 1].size_var == v {
            1int
        } else {
            0int
        }
    }
}

/// The rounded sizes after the strip `row` is corrected.
pub open spec fn corrected_sizes(row: Seq<Span>, sizes: Seq<isize>, fin: Seq<PaneId>, space: int) -> Seq<isize> {
    let sg = signum(row_error(row, sizes, space));
    Seq::new(
        sizes.len(),
        |v: int| (sizes[v] + sg * corrected_count(row, sizes, fin, space, v, row.len() as int)) as isize,
    )
}

/// The rounded sizes and the settled panes after the first `n` strips.
pub open spec fn rounding_state(grid: Seq<Seq<Span>>, sizes: Seq<isize>, space: int, n: int) -> (Seq<isize>, Seq<PaneId>)
    decreases n,
{
    if n <= 0 {
        (sizes, Seq::empty())
    } else {
        let prev = rounding_state(grid, sizes, space, n - 1);
        (
            corrected_sizes(grid[n - 1], prev.0, prev.1, space),
            prev.1 + grid[n - 1].map_values(|s: Span| s.pid),
        )
    }
}

/// The sum of the sizes of the first `j` spans of a strip: where span `j` starts.
pub open spec fn offset_of(row: Seq<Span>, sizes: Seq<isize>, j: int) -> int
    decreases j,
{
    if j <= 0 {
        0
    } else {
        offset_of(row, sizes, j - 1) + size_of(sizes, row[j - 1])
    }
}

/// A strip with its spans placed one after the other with their final sizes.
pub open spec fn placed_row(row: Seq<Span>, sizes: Seq<isize>) -> Seq<Span> {
    Seq::new(
        row.len(),
        |j: int|
            Span {
                pos: offset_of(row, sizes, j) as usize,
                size: Dimension { inner: size_of(sizes, row[j]) as usize, ..row[j].size },
                ..row[j]
            },
    )
}

pub open spec fn grid_view(grid: Seq<Vec<Span>>) -> Seq<Seq<Span>> {
    grid.map_values(|r: Vec<Span>| r@)
}

pub open spec fn final_sizes(grid: Seq<Seq<Span>>, sizes: Seq<isize>, space: int) -> Seq<isize> {
    rounding_state(grid, sizes, space, grid.len() as int).0
}

pub open spec fn all_sizes_positive(grid: Seq<Seq<Span>>, sizes: Seq<isize>) -> bool {
    forall|r: int, j: int| 0 <= r < grid.len() && 0 <= j < grid[r].len() ==> size_of(sizes, #[trigger] grid[r][j]) >= 1
}

/// The spans of all strips, placed, or an error when a span is left with no cells.
pub open spec fn discretized(grid: Seq<Seq<Span>>, sizes: Seq<isize>, space: int) -> Result<Seq<Span>, LayoutError> {
    let fs = final_sizes(grid, sizes, space);
    if all_sizes_positive(grid, fs) {
        Ok(grid.map_values(|row: Seq<Span>| placed_row(row, fs)).flatten())
    } else {
        Err(LayoutError::SpanSpaceExhausted)
    }
}

pub open spec fn in_isize(x: int) -> bool {
    isize::MIN < x <= isize::MAX
}

/// The sums and corrections of the rounding stay within machine integers.
pub open spec fn discretize_fits(grid: Seq<Seq<Span>>, sizes: Seq<isize>, space: int) -> bool {
    &&& space <= isize::MAX
    &&& forall|r: int, j: int| 0 <= r < grid.len() && 0 <= j < grid[r].len() ==> (#[trigger] grid[r][j]).size_var < sizes.len()
    &&& forall|r: int| 0 <= r < grid.len() ==> {
        let st = #[trigger] rounding_state(grid, sizes, space, r);
        &&& forall|n: int| 0 <= n <= grid[r].len() ==> in_isize(#[trigger] row_sum(grid[r].take(n), st.0))
        &&& in_isize(row_error(grid[r], st.0, space))
        &&& forall|v: int| 0 <= v < sizes.len() ==> in_isize(st.0[v] + signum(row_error(grid[r], st.0, space))
            * corrected_count(grid[r], st.0, st.1, space, v, grid[r].len() as int))
    }
    &&& forall|r: int, n: int| 0 <= r < grid.len() && 0 <= n <= grid[r].len() ==> #[trigger] offset_of(
        grid[r],
        final_sizes(grid, sizes, space),
        n,
    ) <= usize::MAX
}

fn contains_pid(v: &Vec<PaneId>, p: PaneId) -> (b: bool)
    ensures
        b == v@.contains(p),
{
    let mut i: usize = 0;
    while i < v.len()
        invariant
            0 <= i <= v@.len(),
            forall|k: int| 0 <= k < i ==> v@[k] != p,
        decreases v@.len() - i,
    {
        if v[i] == p {
            return true;
        }
        i = i + 1;
    }
    false
}

proof fn lemma_rank_step(row: Seq<Span>, sizes: Seq<isize>, fin: Seq<PaneId>, up: bool, j: int, n: int)
    requires
        n >= 0,
    ensures
        rank(row, sizes, fin, up, j, n + 1) == rank(row, sizes, fin, up, j, n) + if goes_first(
            row,
            sizes,
            fin,
            up,
            n,
            j,
        ) {
            1int
        } else {
            0int
        },
{
}

proof fn lemma_corrected_count_nonneg(row: Seq<Span>, sizes: Seq<isize>, fin: Seq<PaneId>, space: int, v: int, n: int)
    ensures
        0 <= corrected_count(row, sizes, fin, space, v, n),
    decreases n,
{
    if n > 0 {
        lemma_corrected_count_nonneg(row, sizes, fin, space, v, n - 1);
    }
}

proof fn lemma_corrected_count_bounds(row: Seq<Span>, sizes: Seq<isize>, fin: Seq<PaneId>, space: int, v: int, n: int, m: int)
    requires
        0 <= n <= m,
    ensures
        0 <= corrected_count(row, sizes, fin, space, v, n) <= corrected_count(row, sizes, fin, space, v, m),
    decreases m - n,
{
    lemma_corrected_count_nonneg(row, sizes, fin, space, v, n);
    if n < m {
        lemma_corrected_count_bounds(row, sizes, fin, space, v, n, m - 1);
    }
}

// ---------------------------------------------------------------------------
// A corrected strip fills its space

/// How many of the indices below `n` satisfy `p`.
pub open spec fn count_below(p: spec_fn(int) -> bool, n: int) -> int
    decreases n,
{
    if n <= 0 {
        0
    } else {
        count_below(p, n - 1) + if p(n - 1) {
            1int
        } else {
            0int
        }
    }
}

/// The indices below `n` that satisfy `p`.
pub open spec fn indices_below(p: spec_fn(int) -> bool, n: int) -> Set<int> {
    Set::new(|i: int| 0 <= i < n && p(i))
}

/// How many spans of a strip may be corrected.
pub open spec fn flex_count(row: Seq<Span>, fin: Seq<PaneId>) -> int {
    count_below(|j: int| is_flex(row, fin, j), row.len() as int)
}

proof fn lemma_count_is_card(p: spec_fn(int) -> bool, n: int)
    requires
        n >= 0,
    ensures
        indices_below(p, n).finite(),
        indices_below(p, n).len() == count_below(p, n),
    decreases n,
{
    if n == 0 {
        assert(indices_below(p, 0) =~= Set::<int>::empty());
    } else {
        lemma_count_is_card(p, n - 1);
        if p(n - 1) {
            assert(indices_below(p, n) =~= indices_below(p, n - 1).insert(n - 1));
        } else {
            assert(indices_below(p, n) =~= indices_below(p, n - 1));
        }
    }
}

proof fn lemma_rank_is_count(row: Seq<Span>, sizes: Seq<isize>, fin: Seq<PaneId>, up: bool, j: int, n: int)
    requires
        n >= 0,
    ensures
        rank(row, sizes, fin, up, j, n) == count_below(|i: int| goes_first(row, sizes, fin, up, i, j), n),
    decreases n,
{
    if n > 0 {
        lemma_rank_is_count(row, sizes, fin, up, j, n - 1);
    }
}

/// The spans corrected before span `j`.
spec fn before(row: Seq<Span>, sizes: Seq<isize>, fin: Seq<PaneId>, up: bool, j: int) -> Set<int> {
    indices_below(|i: int| goes_first(row, sizes, fin, up, i, j), row.len() as int)
}

spec fn flex_set(row: Seq<Span>, fin: Seq<PaneId>) -> Set<int> {
    indices_below(|j: int| is_flex(row, fin, j), row.len() as int)
}

spec fn full_rank(row: Seq<Span>, sizes: Seq<isize>, fin: Seq<PaneId>, up: bool) -> spec_fn(int) -> int {
    |j: int| rank(row, sizes, fin, up, j, row.len() as int)
}

proof fn lemma_rank_is_card(row: Seq<Span>, sizes: Seq<isize>, fin: Seq<PaneId>, up: bool, j: int)
    ensures
        before(row, sizes, fin, up, j).finite(),
        rank(row, sizes, fin, up, j, row.len() as int) == before(row, sizes, fin, up, j).len(),
{
    lemma_rank_is_count(row, sizes, fin, up, j, row.len() as int);
    lemma_count_is_card(|i: int| goes_first(row, sizes, fin, up, i, j), row.len() as int);
}

/// Among the flexible spans, "corrected first" is a strict total order, so
/// their ranks are distinct and below their number.
proof fn lemma_flex_ranks(row: Seq<Span>, sizes: Seq<isize>, fin: Seq<PaneId>, up: bool)
    ensures
        flex_set(row, fin).finite(),
        flex_set(row, fin).len() == flex_count(row, fin),
        injective_on(full_rank(row, sizes, fin, up), flex_set(row, fin)),
        forall|j: int| #[trigger] flex_set(row, fin).contains(j) ==> 0 <= full_rank(row, sizes, fin, up)(j) < flex_count(row, fin),
{
    let f = flex_set(row, fin);
    let r = full_rank(row, sizes, fin, up);
    lemma_count_is_card(|j: int| is_flex(row, fin, j), row.len() as int);
    assert forall|j: int| #[trigger] f.contains(j) implies 0 <= r(j) < flex_count(row, fin) by {
        lemma_rank_is_card(row, sizes, fin, up, j);
        let b = before(row, sizes, fin, up, j);
        assert(b.subset_of(f.remove(j)));
        lemma_len_subset(b, f.remove(j));
    }
    assert forall|a: int, c: int| f.contains(a) && f.contains(c) && #[trigger] r(a) == #[trigger] r(c) implies a == c by {
        if a != c {
            lemma_rank_is_card(row, sizes, fin, up, a);
            lemma_rank_is_card(row, sizes, fin, up, c);
            let ba = before(row, sizes, fin, up, a);
            let bc = before(row, sizes, fin, up, c);
            if goes_first(row, sizes, fin, up, a, c) {
                assert(ba.subset_of(bc.remove(a)));
                lemma_len_subset(ba, bc.remove(a));
            } else {
                assert(goes_first(row, sizes, fin, up, c, a));
                assert(bc.subset_of(ba.remove(c)));
                lemma_len_subset(bc, ba.remove(c));
            }
        }
    }
}

/// Exactly `k` flexible spans have a rank below `k`, for `k` up to their
/// number.
proof fn lemma_ranks_below(row: Seq<Span>, sizes: Seq<isize>, fin: Seq<PaneId>, up: bool, k: int)
    requires
        0 <= k <= flex_count(row, fin),
    ensures
        Set::new(|j: int| flex_set(row, fin).contains(j) && full_rank(row, sizes, fin, up)(j) < k).finite(),
        Set::new(|j: int| flex_set(row, fin).contains(j) && full_rank(row, sizes, fin, up)(j) < k).len() == k,
{
    let f = flex_set(row, fin);
    let r = full_rank(row, sizes, fin, up);
    let n = flex_count(row, fin);
    lemma_flex_ranks(row, sizes, fin, up);
    let image = f.map(r);
    lemma_map_size(f, image, r);
    lemma_int_range(0, n);
    assert(image.subset_of(set_int_range(0, n)));
    lemma_subset_equality(image, set_int_range(0, n));
    let sk = Set::new(|j: int| f.contains(j) && r(j) < k);
    assert(sk.subset_of(f));
    lemma_len_subset(sk, f);
    assert(injective_on(r, sk));
    assert forall|x: int| #[trigger] sk.map(r).contains(x) == set_int_range(0, k).contains(x) by {
        if set_int_range(0, k).contains(x) {
            assert(set_int_range(0, n).contains(x));
            assert(image.contains(x));
            let j = choose|j: int| f.contains(j) && x == r(j);
            assert(sk.contains(j));
        }
    }
    assert(sk.map(r) =~= set_int_range(0, k));
    lemma_int_range(0, k);
    lemma_map_size(sk, set_int_range(0, k), r);
}

proof fn lemma_corrected_count_single(row: Seq<Span>, sizes: Seq<isize>, fin: Seq<PaneId>, space: int, j: int, n: int)
    requires
        0 <= j < row.len(),
        0 <= n <= row.len(),
        forall|a: int, b: int| 0 <= a < b < row.len() ==> row[a].size_var != row[b].size_var,
    ensures
        corrected_count(row, sizes, fin, space, row[j].size_var as int, n) == if j < n && is_corrected(row, sizes, fin, space, j) {
            1int
        } else {
            0int
        },
    decreases n,
{
    if n > 0 {
        lemma_corrected_count_single(row, sizes, fin, space, j, n - 1);
        if n - 1 != j {
            assert(row[n - 1].size_var != row[j].size_var);
        }
    }
}

proof fn lemma_corrected_prefix_sum(row: Seq<Span>, sizes: Seq<isize>, fin: Seq<PaneId>, space: int, n: int)
    requires
        0 <= n <= row.len(),
        forall|v: int| 0 <= v < sizes.len() ==> #[trigger] in_isize(sizes[v] + signum(row_error(row, sizes, space))
            * corrected_count(row, sizes, fin, space, v, row.len() as int)),
        forall|j: int| 0 <= j < row.len() ==> (#[trigger] row[j]).size_var < sizes.len(),
        forall|a: int, b: int| 0 <= a < b < row.len() ==> row[a].size_var != row[b].size_var,
    ensures
        row_sum(row.take(n), corrected_sizes(row, sizes, fin, space)) == row_sum(row.take(n), sizes) + signum(
            row_error(row, sizes, space),
        ) * count_below(|j: int| is_corrected(row, sizes, fin, space, j), n),
    decreases n,
{
    let c = corrected_sizes(row, sizes, fin, space);
    let sg = signum(row_error(row, sizes, space));
    if n == 0 {
        assert(row.take(0) =~= Seq::<Span>::empty());
    } else {
        lemma_corrected_prefix_sum(row, sizes, fin, space, n - 1);
        assert(row.take(n).drop_last() =~= row.take(n - 1));
        assert(row.take(n).last() == row[n - 1]);
        lemma_corrected_count_single(row, sizes, fin, space, n - 1, row.len() as int);
        let v = row[n - 1].size_var as int;
        assert(in_isize(sizes[v] + sg * corrected_count(row, sizes, fin, space, v, row.len() as int)));
        assert(c[v] == sizes[v] + sg * corrected_count(row, sizes, fin, space, v, row.len() as int));
        assert(size_of(c, row[n - 1]) == size_of(sizes, row[n - 1]) + sg * (if is_corrected(row, sizes, fin, space, n - 1) {
            1int
        } else {
            0int
        })) by (nonlinear_arith)
            requires
                size_of(c, row[n - 1]) == c[v],
                size_of(sizes, row[n - 1]) == sizes[v],
                c[v] == sizes[v] + sg * corrected_count(row, sizes, fin, space, v, row.len() as int),
                corrected_count(row, sizes, fin, space, v, row.len() as int) == (if is_corrected(row, sizes, fin, space, n - 1) {
                    1int
                } else {
                    0int
                });
        let pc = |j: int| is_corrected(row, sizes, fin, space, j);
        let bit: int = if is_corrected(row, sizes, fin, space, n - 1) {
            1int
        } else {
            0int
        };
        let now = count_below(pc, n);
        let prev = count_below(pc, n - 1);
        assert(now == prev + bit);
        assert(sg * now == sg * prev + sg * bit) by (nonlinear_arith)
            requires
                now == prev + bit,
        ;
    }
}

/// A corrected strip fills its space exactly, with no gap or overlap,
/// provided its spans have variables of their own and it has at least as
/// many flexible spans (not fixed, not settled by an earlier strip) as
/// cells are missing or too many, and the corrected sizes stay within
/// machine integers. (With fewer flexible spans the rest of the error
/// stays: a strip of fixed spans that do not add up to the space is left as
/// it is.)
pub proof fn lemma_corrected_strip_fills_space(row: Seq<Span>, sizes: Seq<isize>, fin: Seq<PaneId>, space: int)
    requires
        forall|v: int| 0 <= v < sizes.len() ==> #[trigger] in_isize(sizes[v] + signum(row_error(row, sizes, space))
            * corrected_count(row, sizes, fin, space, v, row.len() as int)),
        forall|j: int| 0 <= j < row.len() ==> (#[trigger] row[j]).size_var < sizes.len(),
        forall|a: int, b: int| 0 <= a < b < row.len() ==> row[a].size_var != row[b].size_var,
        abs(row_error(row, sizes, space)) <= flex_count(row, fin),
    ensures
        row_sum(row, corrected_sizes(row, sizes, fin, space)) == space,
{
    let err = row_error(row, sizes, space);
    let up = err > 0;
    let n = row.len() as int;
    lemma_corrected_prefix_sum(row, sizes, fin, space, n);
    assert(row.take(n) =~= row);
    let pc = |j: int| is_corrected(row, sizes, fin, space, j);
    lemma_count_is_card(pc, n);
    if err == 0 {
        assert(indices_below(pc, n) =~= Set::<int>::empty());
    } else {
        lemma_ranks_below(row, sizes, fin, up, abs(err));
        let f = flex_set(row, fin);
        let r = full_rank(row, sizes, fin, up);
        assert(indices_below(pc, n) =~= Set::new(|j: int| f.contains(j) && r(j) < abs(err)));
        assert(signum(err) * abs(err) == err);
    }
}

proof fn lemma_rounding_len(grid: Seq<Seq<Span>>, sizes: Seq<isize>, space: int, m: int)
    ensures
        rounding_state(grid, sizes, space, m).0.len() == sizes.len(),
    decreases m,
{
    if m > 0 {
        lemma_rounding_len(grid, sizes, space, m - 1);
    }
}

/// After `m` strips, the panes of every earlier strip are settled.
proof fn lemma_settled_panes(grid: Seq<Seq<Span>>, sizes: Seq<isize>, space: int, r: int, m: int, j: int)
    requires
        0 <= r < m <= grid.len(),
        0 <= j < grid[r].len(),
    ensures
        rounding_state(grid, sizes, space, m).1.contains(grid[r][j].pid),
    decreases m,
{
    let prev = rounding_state(grid, sizes, space, m - 1).1;
    let added = grid[m - 1].map_values(|s: Span| s.pid);
    if r == m - 1 {
        assert((prev + added)[prev.len() + j] == grid[r][j].pid);
    } else {
        lemma_settled_panes(grid, sizes, space, r, m - 1, j);
        let k = choose|k: int| 0 <= k < prev.len() && prev[k] == grid[r][j].pid;
        assert((prev + added)[k] == grid[r][j].pid);
    }
}

/// Two size tables that agree on a strip's variables give it the same sum.
proof fn lemma_row_sum_agrees(row: Seq<Span>, a: Seq<isize>, b: Seq<isize>)
    requires
        forall|j: int| 0 <= j < row.len() ==> size_of(a, #[trigger] row[j]) == size_of(b, row[j]),
    ensures
        row_sum(row, a) == row_sum(row, b),
    decreases row.len(),
{
    if row.len() > 0 {
        let rest = row.drop_last();
        assert forall|j: int| 0 <= j < rest.len() implies size_of(a, #[trigger] rest[j]) == size_of(b, rest[j]) by {
            assert(rest[j] == row[j]);
        }
        lemma_row_sum_agrees(rest, a, b);
        assert(size_of(a, row.last()) == size_of(b, row[row.len() - 1]));
    }
}

/// Each strip of a layout fills the space exactly once the rounding is done.
/// This holds when every pane has its own solver variable (a variable is
/// never shared by two panes, nor used twice in a strip), the sums and
/// corrections stay within machine integers, and each strip, when its turn
/// comes, has at least as many flexible spans as its rounding error.
pub proof fn lemma_layout_fills_every_strip(grid: Seq<Seq<Span>>, sizes: Seq<isize>, space: int)
    requires
        discretize_fits(grid, sizes, space),
        forall|r: int, a: int, b: int|
            0 <= r < grid.len() && 0 <= a < b < grid[r].len() ==> #[trigger] grid[r][a].size_var != #[trigger] grid[r][b].size_var,
        forall|r1: int, a: int, r2: int, b: int|
            0 <= r1 < grid.len() && 0 <= a < grid[r1].len() && 0 <= r2 < grid.len() && 0 <= b < grid[r2].len()
                && #[trigger] grid[r1][a].size_var == #[trigger] grid[r2][b].size_var ==> grid[r1][a].pid == grid[r2][b].pid,
        forall|r: int| 0 <= r < grid.len() ==> {
            let st = #[trigger] rounding_state(grid, sizes, space, r);
            abs(row_error(grid[r], st.0, space)) <= flex_count(grid[r], st.1)
        },
    ensures
        forall|r: int| 0 <= r < grid.len() ==> #[trigger] row_sum(grid[r], final_sizes(grid, sizes, space)) == space,
{
    assert forall|r: int| 0 <= r < grid.len() implies #[trigger] row_sum(grid[r], final_sizes(grid, sizes, space)) == space by {
        lemma_strip_stays_filled(grid, sizes, space, r, grid.len() as int);
    }
}

/// Strip `r` is filled after it is corrected, and the later strips leave
/// its variables alone.
proof fn lemma_strip_stays_filled(grid: Seq<Seq<Span>>, sizes: Seq<isize>, space: int, r: int, m: int)
    requires
        0 <= r < m <= grid.len(),
        discretize_fits(grid, sizes, space),
        forall|r: int, a: int, b: int|
            0 <= r < grid.len() && 0 <= a < b < grid[r].len() ==> #[trigger] grid[r][a].size_var != #[trigger] grid[r][b].size_var,
        forall|r1: int, a: int, r2: int, b: int|
            0 <= r1 < grid.len() && 0 <= a < grid[r1].len() && 0 <= r2 < grid.len() && 0 <= b < grid[r2].len()
                && #[trigger] grid[r1][a].size_var == #[trigger] grid[r2][b].size_var ==> grid[r1][a].pid == grid[r2][b].pid,
        forall|r: int| 0 <= r < grid.len() ==> {
            let st = #[trigger] rounding_state(grid, sizes, space, r);
            abs(row_error(grid[r], st.0, space)) <= flex_count(grid[r], st.1)
        },
    ensures
        row_sum(grid[r], rounding_state(grid, sizes, space, m).0) == space,
    decreases m,
{
    let st = rounding_state(grid, sizes, space, m - 1);
    lemma_rounding_len(grid, sizes, space, m - 1);
    if m - 1 == r {
        let row = grid[r];
        assert(forall|j: int| 0 <= j < row.len() ==> (#[trigger] row[j]).size_var < st.0.len()) by {
            assert forall|j: int| 0 <= j < row.len() implies (#[trigger] row[j]).size_var < st.0.len() by {
                assert(grid[r][j].size_var < sizes.len());
            }
        }
        assert(forall|a: int, b: int| 0 <= a < b < row.len() ==> row[a].size_var != row[b].size_var) by {
            assert forall|a: int, b: int| 0 <= a < b < row.len() implies row[a].size_var != row[b].size_var by {
                assert(grid[r][a].size_var != grid[r][b].size_var);
            }
        }
        assert(abs(row_error(row, st.0, space)) <= flex_count(row, st.1));
        lemma_corrected_strip_fills_space(row, st.0, st.1, space);
    } else {
        lemma_strip_stays_filled(grid, sizes, space, r, m - 1);
        let cur = grid[m - 1];
        let next = rounding_state(grid, sizes, space, m).0;
        assert(next == corrected_sizes(cur, st.0, st.1, space));
        assert forall|j: int| 0 <= j < grid[r].len() implies size_of(next, #[trigger] grid[r][j]) == size_of(st.0, grid[r][j]) by {
            let v = grid[r][j].size_var as int;
            assert(grid[r][j].size_var < sizes.len());
            lemma_settled_panes(grid, sizes, space, r, m - 1, j);
            assert forall|k: int| 0 <= k < cur.len() && cur[k].size_var == v implies !is_corrected(cur, st.0, st.1, space, k) by {
                assert(grid[m - 1][k].size_var == grid[r][j].size_var);
                assert(grid[m - 1][k].pid == grid[r][j].pid);
            }
            lemma_no_correction(cur, st.0, st.1, space, v, cur.len() as int);
            assert(in_isize(st.0[v] + signum(row_error(cur, st.0, space)) * corrected_count(cur, st.0, st.1, space, v, cur.len() as int)));
        }
        lemma_row_sum_agrees(grid[r], next, st.0);
    }
}

proof fn lemma_no_correction(row: Seq<Span>, sizes: Seq<isize>, fin: Seq<PaneId>, space: int, v: int, n: int)
    requires
        0 <= n <= row.len(),
        forall|k: int| 0 <= k < row.len() && row[k].size_var == v ==> !is_corrected(row, sizes, fin, space, k),
    ensures
        corrected_count(row, sizes, fin, space, v, n) == 0,
    decreases n,
{
    if n > 0 {
        lemma_no_correction(row, sizes, fin, space, v, n - 1);
    }
}

/// Rounds the solved span sizes to whole cells and places the spans.
///
/// `rounded_sizes` holds, for each solver variable, the solved size rounded
/// to a whole number. In each strip the rounding error is spread one cell at
/// a time over the flexible spans whose pane no earlier strip settled; then
/// every strip's spans are placed one after the other.
pub fn discretize_spans(grid: Vec<Vec<Span>>, rounded_sizes: Vec<isize>, space: usize) -> (res: Result<Vec<Span>, LayoutError>)
    requires
        discretize_fits(grid_view(grid@), rounded_sizes@, space as int),
    ensures
        res is Ok <==> discretized(grid_view(grid@), rounded_sizes@, space as int) is Ok,
        res matches Ok(spans) ==> discretized(grid_view(grid@), rounded_sizes@, space as int)
            == Ok::<Seq<Span>, LayoutError>(spans@),
        res matches Err(e) ==> discretized(grid_view(grid@), rounded_sizes@, space as int)
            == Err::<Seq<Span>, LayoutError>(e),
{
    let ghost g = grid_view(grid@);
    let ghost r0 = rounded_sizes@;
    let mut rounded = rounded_sizes;
    let mut finalised: Vec<PaneId> = Vec::new();
    let mut r: usize = 0;
    while r < grid.len()
        invariant
            0 <= r <= grid@.len(),
            g == grid_view(grid@),
            r0 == rounded_sizes@,
            discretize_fits(g, r0, space as int),
            rounded@ == rounding_state(g, r0, space as int, r as int).0,
            finalised@ == rounding_state(g, r0, space as int, r as int).1,
            rounded@.len() == r0.len(),
        decreases grid@.len() - r,
    {
        let row = &grid[r];
        let ghost rs = rounded@;
        let ghost fs = finalised@;
        assert(row@ == g[r as int]);
        let ghost st = rounding_state(g, r0, space as int, r as int);
        assert(st.0 == rs && st.1 == fs);
        // the sum of the strip's rounded sizes
        let mut rounded_size: isize = 0;
        let mut j: usize = 0;
        while j < row.len()
            invariant
                0 <= j <= row@.len(),
                rounded@ == rs,
                rs.len() == r0.len(),
                forall|k: int| 0 <= k < row@.len() ==> row@[k].size_var < rs.len(),
                forall|n: int| 0 <= n <= row@.len() ==> in_isize(#[trigger] row_sum(row@.take(n), rs)),
                rounded_size == row_sum(row@.take(j as int), rs),
            decreases row@.len() - j,
        {
            proof {
                assert(row@.take(j + 1).drop_last() =~= row@.take(j as int));
                assert(in_isize(row_sum(row@.take(j + 1), rs)));
            }
            rounded_size = rounded_size + rounded[row[j].size_var];
            j = j + 1;
        }
        proof {
            assert(row@.take(j as int) =~= row@);
        }
        let error: isize = space as isize - rounded_size;
        let sign: isize = if error > 0 { 1 } else if error < 0 { -1 } else { 0 };
        let abs_error: isize = if error < 0 { -error } else { error };
        // the sizes and the flexibility of the spans before the correction
        let mut keys: Vec<isize> = Vec::new();
        let mut flex: Vec<bool> = Vec::new();
        let mut k: usize = 0;
        while k < row.len()
            invariant
                0 <= k <= row@.len(),
                rounded@ == rs,
                finalised@ == fs,
                forall|q: int| 0 <= q < row@.len() ==> row@[q].size_var < rs.len(),
                keys@.len() == k,
                flex@.len() == k,
                forall|q: int| 0 <= q < k ==> keys@[q] as int == size_of(rs, row@[q]),
                forall|q: int| 0 <= q < k ==> flex@[q] == is_flex(row@, fs, q),
            decreases row@.len() - k,
        {
            keys.push(rounded[row[k].size_var]);
            let fixed = match row[k].size.constraint {
                SizeConstraint::Fixed(_) => true,
                SizeConstraint::Percent => false,
            };
            flex.push(!fixed && !contains_pid(&finalised, row[k].pid));
            k = k + 1;
        }
        // correct the first |error| flexible spans in order
        let up = error > 0;
        let mut j: usize = 0;
        while j < row.len()
            invariant
                0 <= j <= row@.len(),
                row@ == g[r as int],
                rounded@.len() == rs.len(),
                finalised@ == fs,
                forall|q: int| 0 <= q < row@.len() ==> row@[q].size_var < rs.len(),
                keys@.len() == row@.len(),
                flex@.len() == row@.len(),
                forall|q: int| 0 <= q < row@.len() ==> keys@[q] as int == size_of(rs, row@[q]),
                forall|q: int| 0 <= q < row@.len() ==> flex@[q] == is_flex(row@, fs, q),
                error as int == row_error(row@, rs, space as int),
                sign as int == signum(error as int),
                abs_error as int == abs(error as int),
                up == (error > 0),
                forall|v: int| 0 <= v < rs.len() ==> in_isize(rs[v] + signum(error as int) * corrected_count(row@, rs, fs, space as int, v, row@.len() as int)),
                forall|v: int| 0 <= v < rs.len() ==> rounded@[v] as int == rs[v] + sign * corrected_count(row@, rs, fs, space as int, v, j as int),
            decreases row@.len() - j,
        {
            if error != 0 && flex[j] {
                let mut rank_j: usize = 0;
                let mut i: usize = 0;
                while i < row.len()
                    invariant
                        0 <= i <= row@.len(),
                        j < row@.len(),
                        rank_j <= i,
                        keys@.len() == row@.len(),
                        flex@.len() == row@.len(),
                        forall|q: int| 0 <= q < row@.len() ==> keys@[q] as int == size_of(rs, row@[q]),
                        forall|q: int| 0 <= q < row@.len() ==> flex@[q] == is_flex(row@, fs, q),
                        rank_j as int == rank(row@, rs, fs, up, j as int, i as int),
                    decreases row@.len() - i,
                {
                    let first = flex[i] && if up {
                        keys[i] < keys[j] || (keys[i] == keys[j] && i < j)
                    } else {
                        keys[i] > keys[j] || (keys[i] == keys[j] && i > j)
                    };
                    proof {
                        lemma_rank_step(row@, rs, fs, up, j as int, i as int);
                    }
                    if first {
                        rank_j = rank_j + 1;
                    }
                    i = i + 1;
                }
                if rank_j < abs_error as usize {
                    let v = row[j].size_var;
                    proof {
                        lemma_corrected_count_bounds(row@, rs, fs, space as int, v as int, j + 1, row@.len() as int);
                        lemma_corrected_count_bounds(row@, rs, fs, space as int, v as int, j as int, j + 1);
                        assert(is_corrected(row@, rs, fs, space as int, j as int));
                    }
                    rounded.set(v, rounded[v] + sign);
                    proof {
                        assert forall|w: int| 0 <= w < rs.len() implies rounded@[w] as int == rs[w] + sign * corrected_count(row@, rs, fs, space as int, w, j + 1) by {
                            if w != v {
                                assert(corrected_count(row@, rs, fs, space as int, w, j + 1) == corrected_count(row@, rs, fs, space as int, w, j as int));
                            }
                        }
                    }
                } else {
                    proof {
                        assert(!is_corrected(row@, rs, fs, space as int, j as int));
                        assert forall|w: int| 0 <= w < rs.len() implies rounded@[w] as int == rs[w] + sign * corrected_count(row@, rs, fs, space as int, w, j + 1) by {
                            assert(corrected_count(row@, rs, fs, space as int, w, j + 1) == corrected_count(row@, rs, fs, space as int, w, j as int));
                        }
                    }
                }
            } else {
                proof {
                    assert(!is_corrected(row@, rs, fs, space as int, j as int));
                    assert forall|w: int| 0 <= w < rs.len() implies rounded@[w] as int == rs[w] + sign * corrected_count(row@, rs, fs, space as int, w, j + 1) by {
                        assert(corrected_count(row@, rs, fs, space as int, w, j + 1) == corrected_count(row@, rs, fs, space as int, w, j as int));
                    }
                }
            }
            j = j + 1;
        }
        proof {
            assert(rounded@ =~= corrected_sizes(row@, rs, fs, space as int));
        }
        // the panes of this strip are settled
        let mut k: usize = 0;
        while k < row.len()
            invariant
                0 <= k <= row@.len(),
                finalised@ == fs + row@.take(k as int).map_values(|s: Span| s.pid),
            decreases row@.len() - k,
        {
            finalised.push(row[k].pid);
            proof {
                assert(row@.take(k + 1).map_values(|s: Span| s.pid) =~= row@.take(k as int).map_values(|s: Span| s.pid).push(row@[k as int].pid));
            }
            k = k + 1;
        }
        proof {
            assert(row@.take(k as int) =~= row@);
        }
        r = r + 1;
    }
    // place the spans of each strip one after the other
    let ghost sizes = rounded@;
    assert(sizes == final_sizes(g, r0, space as int));
    assert(sizes.len() == r0.len());
    let mut placed: Vec<Span> = Vec::new();
    let mut r: usize = 0;
    while r < grid.len()
        invariant
            0 <= r <= grid@.len(),
            g == grid_view(grid@),
            r0 == rounded_sizes@,
            rounded@ == sizes,
            sizes == final_sizes(g, r0, space as int),
            sizes.len() == r0.len(),
            discretize_fits(g, r0, space as int),
            forall|a: int, b: int| 0 <= a < r && 0 <= b < g[a].len() ==> size_of(sizes, #[trigger] g[a][b]) >= 1,
            placed@ == g.take(r as int).map_values(|row: Seq<Span>| placed_row(row, sizes)).flatten(),
        decreases grid@.len() - r,
    {
        let row = &grid[r];
        assert(row@ == g[r as int]);
        let ghost before = placed@;
        let mut offset: usize = 0;
        let mut j: usize = 0;
        while j < row.len()
            invariant
                0 <= j <= row@.len(),
                row@ == g[r as int],
                g == grid_view(grid@),
                r0 == rounded_sizes@,
                0 <= r < g.len(),
                rounded@ == sizes,
                sizes == final_sizes(g, r0, space as int),
                sizes.len() == r0.len(),
                discretize_fits(g, r0, space as int),
                offset as int == offset_of(row@, sizes, j as int),
                forall|b: int| 0 <= b < j ==> size_of(sizes, #[trigger] g[r as int][b]) >= 1,
                placed@ == before + placed_row(row@, sizes).take(j as int),
            decreases row@.len() - j,
        {
            proof {
                assert(g[r as int][j as int] == row@[j as int]);
            }
            let sz = rounded[row[j].size_var];
            if sz < 1 {
                proof {
                    assert(size_of(sizes, g[r as int][j as int]) < 1);
                    assert(!all_sizes_positive(g, sizes));
                    assert(discretized(g, r0, space as int) == Err::<Seq<Span>, LayoutError>(LayoutError::SpanSpaceExhausted));
                }
                return Err(LayoutError::SpanSpaceExhausted);
            }
            let mut span = row[j];
            span.pos = offset;
            span.size.inner = sz as usize;
            placed.push(span);
            proof {
                assert(offset_of(g[r as int], sizes, j + 1) <= usize::MAX);
                assert(placed@ =~= before + placed_row(row@, sizes).take(j + 1));
            }
            offset = offset + sz as usize;
            j = j + 1;
        }
        proof {
            assert(placed_row(row@, sizes).take(j as int) =~= placed_row(row@, sizes));
            let m = |row: Seq<Span>| placed_row(row, sizes);
            assert(g.take(r + 1).map_values(m) =~= g.take(r as int).map_values(m).push(m(g[r as int])));
            g.take(r as int).map_values(m).lemma_flatten_push(m(g[r as int]));
        }
        r = r + 1;
    }
    proof {
        assert(g.take(r as int) =~= g);
    }
    Ok(placed)
}

// ---------------------------------------------------------------------------
// Spans of panes, checking and applying a layout

/// The other direction.
pub open spec fn opposite_of(d: SplitDirection) -> SplitDirection {
    match d {
        SplitDirection::Horizontal => SplitDirection::Vertical,
        SplitDirection::Vertical => SplitDirection::Horizontal,
    }
}

pub fn opposite(direction: SplitDirection) -> (d: SplitDirection)
    ensures
        d == opposite_of(direction),
{
    match direction {
        SplitDirection::Horizontal => SplitDirection::Vertical,
        SplitDirection::Vertical => SplitDirection::Horizontal,
    }
}

/// The rectangle a pane takes part in the layout with: its own, or, for
/// the pane that leads a stack (the stacked pane whose rows are a share),
/// the stack's; the other panes of a stack take no part.
pub open spec fn layout_geom(geom: PaneGeom, stack_geom: Option<PaneGeom>) -> Option<PaneGeom> {
    if geom.stacked is Some && geom.rows.constraint is Percent {
        stack_geom
    } else if geom.stacked is Some {
        None
    } else {
        Some(geom)
    }
}

/// A rectangle seen along a direction.
pub open spec fn span_along(direction: SplitDirection, pid: PaneId, g: PaneGeom, size_var: usize) -> Span {
    match direction {
        SplitDirection::Horizontal => Span { pid, direction, pos: g.x, size: g.cols, size_var },
        SplitDirection::Vertical => Span { pid, direction, pos: g.y, size: g.rows, size_var },
    }
}

/// A pane's span along a direction (see `layout_geom`); `stack_geom` is the
/// rectangle of the pane's stack, when it leads one.
pub fn get_span(
    direction: SplitDirection,
    pid: PaneId,
    geom: &PaneGeom,
    stack_geom: Option<PaneGeom>,
    size_var: usize,
) -> (s: Option<Span>)
    ensures
        s == match layout_geom(*geom, stack_geom) {
            Some(g) => Some(span_along(direction, pid, g, size_var)),
            None => None,
        },
{
    let position_and_size = if geom.is_stacked() && geom.rows.is_percent() {
        stack_geom
    } else if geom.is_stacked() {
        None
    } else {
        Some(*geom)
    };
    match position_and_size {
        Some(g) => match direction {
            SplitDirection::Horizontal => Some(Span { pid, direction, pos: g.x, size: g.cols, size_var }),
            SplitDirection::Vertical => Some(Span { pid, direction, pos: g.y, size: g.rows, size_var }),
        },
        None => None,
    }
}

/// A span that a layout may not give: a stack laid out vertically with
/// fewer rows than the stack needs. `min_height` is the smallest height of
/// the stack the span's pane leads (`None` for a pane outside stacks).
pub open spec fn too_short(s: Span, min_height: Option<usize>) -> bool {
    min_height matches Some(m) && s.direction == SplitDirection::Vertical && s.size.inner < m
}

pub open spec fn min_height_at(min_heights: Seq<Option<usize>>, i: int) -> Option<usize> {
    if 0 <= i < min_heights.len() {
        min_heights[i]
    } else {
        None
    }
}

/// Whether a layout can be applied: no stack is left shorter than it needs
/// to be. `min_stack_heights[i]` is the smallest height of the stack that
/// the pane of span `i` leads, if it leads one.
pub fn is_layout_valid(spans: &Vec<Span>, min_stack_heights: &Vec<Option<usize>>) -> (valid: bool)
    ensures
        valid == forall|i: int| 0 <= i < spans@.len() ==> !too_short(#[trigger] spans@[i], min_height_at(min_stack_heights@, i)),
{
    let mut i: usize = 0;
    while i < spans.len()
        invariant
            0 <= i <= spans@.len(),
            forall|k: int| 0 <= k < i ==> !too_short(#[trigger] spans@[k], min_height_at(min_stack_heights@, k)),
        decreases spans@.len() - i,
    {
        let min_height = if i < min_stack_heights.len() {
            min_stack_heights[i]
        } else {
            None
        };
        match min_height {
            Some(m) => {
                if spans[i].direction == SplitDirection::Vertical && spans[i].size.inner < m {
                    return false;
                }
            },
            None => {},
        }
        i = i + 1;
    }
    true
}

/// The rectangle a span gives a pane: the span's place and size along its
/// direction, the rest as before.
pub open spec fn applied_geom(s: Span, base: PaneGeom) -> PaneGeom {
    match s.direction {
        SplitDirection::Horizontal => PaneGeom { x: s.pos, cols: s.size, ..base },
        SplitDirection::Vertical => PaneGeom { y: s.pos, rows: s.size, ..base },
    }
}

/// A new rectangle changes a pane's size.
pub open spec fn size_changed(new: PaneGeom, current: PaneGeom) -> bool {
    new.rows.inner != current.rows.inner || new.cols.inner != current.cols.inner
}

/// The rectangles the spans give their panes, and whether any pane's size
/// changes. For span `i`, `geoms[i]` holds the rectangle the new one is
/// built on (the pane's current one, or its stack's) and the one its size
/// is compared with (the pane's own, or its stack's). When no size changes
/// the caller reports that the resize had no effect.
pub fn apply_spans(spans: &Vec<Span>, geoms: &Vec<(PaneGeom, PaneGeom)>) -> (r: (Vec<PaneGeom>, bool))
    requires
        geoms@.len() == spans@.len(),
    ensures
        r.0@.len() == spans@.len(),
        forall|i: int| 0 <= i < spans@.len() ==> #[trigger] r.0@[i] == applied_geom(spans@[i], geoms@[i].0),
        r.1 == exists|i: int| 0 <= i < spans@.len() && size_changed(#[trigger] r.0@[i], geoms@[i].1),
{
    let mut new_geoms: Vec<PaneGeom> = Vec::new();
    let mut geoms_changed = false;
    let mut i: usize = 0;
    while i < spans.len()
        invariant
            geoms@.len() == spans@.len(),
            0 <= i <= spans@.len(),
            new_geoms@.len() == i,
            forall|k: int| 0 <= k < i ==> #[trigger] new_geoms@[k] == applied_geom(spans@[k], geoms@[k].0),
            geoms_changed == exists|k: int| 0 <= k < i && size_changed(#[trigger] new_geoms@[k], geoms@[k].1),
        decreases spans@.len() - i,
    {
        let span = spans[i];
        let (base, current) = geoms[i];
        let new_geom = match span.direction {
            SplitDirection::Horizontal => PaneGeom { x: span.pos, cols: span.size, ..base },
            SplitDirection::Vertical => PaneGeom { y: span.pos, rows: span.size, ..base },
        };
        let changed = new_geom.rows.inner != current.rows.inner || new_geom.cols.inner != current.cols.inner;
        let ghost before = new_geoms@;
        new_geoms.push(new_geom);
        proof {
            if changed {
                assert(size_changed(new_geoms@[i as int], geoms@[i as int].1));
            }
            if geoms_changed {
                let k = choose|k: int| 0 <= k < i && size_changed(#[trigger] before[k], geoms@[k].1);
                assert(new_geoms@[k] == before[k]);
            }
            if !geoms_changed && !changed {
                assert forall|k: int| 0 <= k < i + 1 implies !size_changed(#[trigger] new_geoms@[k], geoms@[k].1) by {
                    if k < i {
                        assert(new_geoms@[k] == before[k]);
                    }
                }
            }
        }
        geoms_changed = geoms_changed || changed;
        i = i + 1;
    }
    (new_geoms, geoms_changed)
}

/// The spans of a strip are placed one after the other with no gap or
/// overlap: the first starts at 0 and each next one where the previous one
/// ends.
pub proof fn lemma_placed_spans_are_contiguous(row: Seq<Span>, sizes: Seq<isize>, j: int)
    requires
        0 <= j < row.len(),
        forall|k: int| 0 <= k <= row.len() ==> 0 <= #[trigger] offset_of(row, sizes, k) <= usize::MAX,
        forall|k: int| 0 <= k < row.len() ==> 0 <= #[trigger] size_of(sizes, row[k]) <= usize::MAX,
    ensures
        placed_row(row, sizes)[0].pos == 0,
        j + 1 < row.len() ==> placed_row(row, sizes)[j + 1].pos == placed_row(row, sizes)[j].pos + placed_row(
            row,
            sizes,
        )[j].size.inner,
        placed_row(row, sizes)[j].pid == row[j].pid,
{
    assert(offset_of(row, sizes, 0) == 0);
    if j + 1 < row.len() {
        assert(offset_of(row, sizes, j + 1) == offset_of(row, sizes, j) + size_of(sizes, row[j]));
        assert(offset_of(row, sizes, j + 1) >= 0);
        assert(offset_of(row, sizes, j) >= 0);
    }
}


/// The number of spans in the first `r` strips.
pub open spec fn span_count(grid: Seq<Seq<Span>>, r: int) -> int
    decreases r,
{
    if r <= 0 {
        0
    } else {
        span_count(grid, r - 1) + grid[r - 1].len()
    }
}

/// The largest magnitude among the sizes.
pub open spec fn max_abs(sizes: Seq<isize>) -> int
    decreases sizes.len(),
{
    if sizes.len() == 0 {
        0
    } else {
        let m = max_abs(sizes.drop_last());
        if abs(sizes.last() as int) > m {
            abs(sizes.last() as int)
        } else {
            m
        }
    }
}

/// A bound under which rounding the spans cannot overflow: every span's
/// variable has a size, and with `t` spans and sizes of magnitude at most
/// `b`, `t * (b + t) + space + b + 2 * t` fits in an `isize` (each strip's
/// correction moves a size by at most one cell per span).
pub open spec fn discretize_bounded(grid: Seq<Seq<Span>>, sizes: Seq<isize>, space: int) -> bool {
    let t = span_count(grid, grid.len() as int);
    let b = max_abs(sizes);
    &&& forall|r: int, j: int| 0 <= r < grid.len() && 0 <= j < grid[r].len() ==> (#[trigger] grid[r][j]).size_var < sizes.len()
    &&& 0 <= space
    &&& t * (b + t) + space + b + 2 * t <= isize::MAX
}

proof fn lemma_max_abs(sizes: Seq<isize>)
    ensures
        max_abs(sizes) >= 0,
        forall|v: int| 0 <= v < sizes.len() ==> abs(#[trigger] sizes[v] as int) <= max_abs(sizes),
    decreases sizes.len(),
{
    if sizes.len() > 0 {
        lemma_max_abs(sizes.drop_last());
        assert forall|v: int| 0 <= v < sizes.len() implies abs(#[trigger] sizes[v] as int) <= max_abs(sizes) by {
            if v < sizes.len() - 1 {
                assert(sizes[v] == sizes.drop_last()[v]);
            }
        }
    }
}

proof fn lemma_span_count(grid: Seq<Seq<Span>>, r: int)
    requires
        0 <= r <= grid.len(),
    ensures
        0 <= span_count(grid, r) <= span_count(grid, grid.len() as int),
        r < grid.len() ==> span_count(grid, r) + grid[r].len() <= span_count(grid, grid.len() as int),
    decreases grid.len() - r,
{
    if r < grid.len() {
        lemma_span_count(grid, r + 1);
    }
    lemma_span_count_nonneg(grid, r);
}

proof fn lemma_span_count_nonneg(grid: Seq<Seq<Span>>, r: int)
    ensures
        span_count(grid, r) >= 0,
    decreases r,
{
    if r > 0 {
        lemma_span_count_nonneg(grid, r - 1);
    }
}

proof fn lemma_corrected_count_at_most(row: Seq<Span>, sizes: Seq<isize>, fin: Seq<PaneId>, space: int, v: int, n: int)
    requires
        0 <= n,
    ensures
        0 <= corrected_count(row, sizes, fin, space, v, n) <= n,
    decreases n,
{
    if n > 0 {
        lemma_corrected_count_at_most(row, sizes, fin, space, v, n - 1);
    }
}

/// After `r` strips are corrected, each size has moved by at most one cell
/// per span of those strips.
proof fn lemma_rounding_state_bounds(grid: Seq<Seq<Span>>, sizes: Seq<isize>, space: int, r: int)
    requires
        0 <= r <= grid.len(),
        max_abs(sizes) + span_count(grid, r) <= isize::MAX,
    ensures
        rounding_state(grid, sizes, space, r).0.len() == sizes.len(),
        forall|v: int| 0 <= v < sizes.len() ==> abs(#[trigger] rounding_state(grid, sizes, space, r).0[v] as int)
            <= max_abs(sizes) + span_count(grid, r),
    decreases r,
{
    lemma_max_abs(sizes);
    if r > 0 {
        lemma_span_count_nonneg(grid, r - 1);
        lemma_rounding_state_bounds(grid, sizes, space, r - 1);
        let prev = rounding_state(grid, sizes, space, r - 1);
        let row = grid[r - 1];
        let sg = signum(row_error(row, prev.0, space));
        assert forall|v: int| 0 <= v < sizes.len() implies abs(#[trigger] rounding_state(grid, sizes, space, r).0[v] as int)
            <= max_abs(sizes) + span_count(grid, r) by {
            lemma_corrected_count_at_most(row, prev.0, prev.1, space, v, row.len() as int);
            let cc = corrected_count(row, prev.0, prev.1, space, v, row.len() as int);
            assert(abs(prev.0[v] as int) <= max_abs(sizes) + span_count(grid, r - 1));
            let x = prev.0[v] + sg * cc;
            assert(abs(x) <= max_abs(sizes) + span_count(grid, r)) by {
                if sg == 1 {
                    assert(x == prev.0[v] + cc);
                } else if sg == -1 {
                    assert(x == prev.0[v] - cc);
                } else {
                    assert(x == prev.0[v]);
                }
            }
            assert(rounding_state(grid, sizes, space, r).0[v] == x as isize);
        }
    }
}

/// The sizes of the first `n` spans of a strip add up to at most `n * c`
/// in magnitude when each is at most `c`.
proof fn lemma_row_sum_bound(row: Seq<Span>, sizes: Seq<isize>, n: int, c: int)
    requires
        0 <= n <= row.len(),
        0 <= c,
        forall|j: int| 0 <= j < row.len() ==> (#[trigger] row[j]).size_var < sizes.len(),
        forall|v: int| 0 <= v < sizes.len() ==> abs(#[trigger] sizes[v] as int) <= c,
    ensures
        abs(row_sum(row.take(n), sizes)) <= n * c,
        abs(offset_of(row, sizes, n)) <= n * c,
    decreases n,
{
    if n > 0 {
        lemma_row_sum_bound(row, sizes, n - 1, c);
        assert(row.take(n).drop_last() =~= row.take(n - 1));
        assert(row.take(n).last() == row[n - 1]);
        let k = size_of(sizes, row[n - 1]);
        assert(abs(sizes[row[n - 1].size_var as int] as int) <= c);
        assert(abs(k) <= c);
        assert((n - 1) * c + c == n * c) by (nonlinear_arith);
    }
}

/// Within the bound, rounding the spans cannot overflow.
pub proof fn lemma_bounded_rounding_fits(grid: Seq<Seq<Span>>, sizes: Seq<isize>, space: int)
    requires
        discretize_bounded(grid, sizes, space),
    ensures
        discretize_fits(grid, sizes, space),
{
    let t = span_count(grid, grid.len() as int);
    let b = max_abs(sizes);
    lemma_max_abs(sizes);
    lemma_span_count_nonneg(grid, grid.len() as int);
    let c = b + t;
    assert(t * c >= 0) by (nonlinear_arith)
        requires
            t >= 0,
            c >= 0,
    ;
    assert forall|r: int| 0 <= r < grid.len() implies {
        let st = #[trigger] rounding_state(grid, sizes, space, r);
        &&& forall|n: int| 0 <= n <= grid[r].len() ==> in_isize(#[trigger] row_sum(grid[r].take(n), st.0))
        &&& in_isize(row_error(grid[r], st.0, space))
        &&& forall|v: int| 0 <= v < sizes.len() ==> in_isize(st.0[v] + signum(row_error(grid[r], st.0, space))
            * corrected_count(grid[r], st.0, st.1, space, v, grid[r].len() as int))
    } by {
        let st = rounding_state(grid, sizes, space, r);
        let row = grid[r];
        lemma_span_count(grid, r);
        lemma_rounding_state_bounds(grid, sizes, space, r);
        assert(forall|v: int| 0 <= v < sizes.len() ==> abs(#[trigger] st.0[v] as int) <= c);
        assert(forall|j: int| 0 <= j < row.len() ==> (#[trigger] row[j]).size_var < st.0.len()) by {
            assert forall|j: int| 0 <= j < row.len() implies (#[trigger] row[j]).size_var < st.0.len() by {
                assert(grid[r][j] == row[j]);
            }
        }
        let len = row.len() as int;
        assert forall|n: int| 0 <= n <= len implies in_isize(#[trigger] row_sum(row.take(n), st.0)) by {
            lemma_row_sum_bound(row, st.0, n, c);
            assert(n * c <= t * c) by (nonlinear_arith)
                requires
                    0 <= n <= t,
                    0 <= c,
            ;
        }
        lemma_row_sum_bound(row, st.0, len, c);
        assert(len * c <= t * c) by (nonlinear_arith)
            requires
                0 <= len <= t,
                0 <= c,
        ;
        assert(row.take(len) =~= row);
        let sg = signum(row_error(row, st.0, space));
        assert forall|v: int| 0 <= v < sizes.len() implies in_isize(st.0[v] + sg * corrected_count(row, st.0, st.1, space, v, len)) by {
            lemma_corrected_count_at_most(row, st.0, st.1, space, v, len);
            let cc = corrected_count(row, st.0, st.1, space, v, len);
            assert(abs(st.0[v] as int) <= c);
            if sg == 1 {
                assert(st.0[v] + sg * cc == st.0[v] + cc);
            } else if sg == -1 {
                assert(st.0[v] + sg * cc == st.0[v] - cc);
            } else {
                assert(st.0[v] + sg * cc == st.0[v]);
            }
        }
    }
    lemma_rounding_state_bounds(grid, sizes, space, grid.len() as int);
    let fs = final_sizes(grid, sizes, space);
    assert forall|r: int, n: int| 0 <= r < grid.len() && 0 <= n <= grid[r].len() implies #[trigger] offset_of(grid[r], fs, n)
        <= usize::MAX by {
        lemma_span_count(grid, r);
        let row = grid[r];
        assert forall|j: int| 0 <= j < row.len() implies (#[trigger] row[j]).size_var < fs.len() by {
            assert(grid[r][j] == row[j]);
        }
        assert(forall|v: int| 0 <= v < sizes.len() ==> abs(#[trigger] fs[v] as int) <= c);
        lemma_row_sum_bound(row, fs, n, c);
        assert(n * c <= t * c) by (nonlinear_arith)
            requires
                0 <= n <= t,
                0 <= c,
        ;
    }
}

/// Whether rounding the spans stays within the bound that rules out
/// overflow (`discretize_bounded`).
pub fn discretize_within_bounds(grid: &Vec<Vec<Span>>, sizes: &Vec<isize>, space: usize) -> (ok: bool)
    ensures
        ok == discretize_bounded(grid_view(grid@), sizes@, space as int),
{
    let ghost g = grid_view(grid@);
    let ghost s = sizes@;
    // every span's variable has a size, and the spans are counted
    let mut t: u128 = 0;
    let mut r: usize = 0;
    while r < grid.len()
        invariant
            g == grid_view(grid@),
            s == sizes@,
            0 <= r <= grid@.len(),
            t == span_count(g, r as int),
            t <= isize::MAX,
            forall|q: int, j: int| 0 <= q < r && 0 <= j < g[q].len() ==> (#[trigger] g[q][j]).size_var < s.len(),
        decreases grid@.len() - r,
    {
        let row = &grid[r];
        assert(row@ == g[r as int]);
        let mut j: usize = 0;
        while j < row.len()
            invariant
                g == grid_view(grid@),
                s == sizes@,
                row@ == g[r as int],
                0 <= r < grid@.len(),
                0 <= j <= row@.len(),
                forall|q: int, k: int| 0 <= q < r && 0 <= k < g[q].len() ==> (#[trigger] g[q][k]).size_var < s.len(),
                forall|k: int| 0 <= k < j ==> (#[trigger] g[r as int][k]).size_var < s.len(),
            decreases row@.len() - j,
        {
            if row[j].size_var >= sizes.len() {
                return false;
            }
            j = j + 1;
        }
        t = t + row.len() as u128;
        r = r + 1;
        proof {
            lemma_span_count(g, r as int);
        }
        if t > isize::MAX as u128 {
            proof {
                lemma_max_abs(s);
                let tt = span_count(g, g.len() as int);
                assert(tt >= t);
                assert(tt * (max_abs(s) + tt) >= tt) by (nonlinear_arith)
                    requires
                        tt >= 1,
                        max_abs(s) >= 0,
                ;
            }
            return false;
        }
    }
    assert(t == span_count(g, g.len() as int));
    // the largest magnitude of a size
    let mut b: u128 = 0;
    let mut v: usize = 0;
    while v < sizes.len()
        invariant
            s == sizes@,
            0 <= v <= s.len(),
            b == max_abs(s.take(v as int)),
            b <= isize::MAX + 1,
        decreases s.len() - v,
    {
        let x = sizes[v];
        let a: u128 = if x < 0 {
            (0i128 - x as i128) as u128
        } else {
            x as u128
        };
        assert(s.take(v + 1).drop_last() =~= s.take(v as int));
        assert(s.take(v + 1).last() == x);
        if a > b {
            b = a;
        }
        v = v + 1;
    }
    assert(s.take(v as int) =~= s);
    proof {
        lemma_max_abs(s);
    }
    assert(t * (b + t) <= 0x8000_0000_0000_0000u128 * 0x1_0000_0000_0000_0000u128) by (nonlinear_arith)
        requires
            t <= 0x7fff_ffff_ffff_ffffu128,
            b <= 0x8000_0000_0000_0000u128,
    ;
    let prod = t * (b + t);
    let total = prod + space as u128 + b + 2 * t;
    total <= isize::MAX as u128
}

/// Rounds the spans (`discretize_spans`) where `discretize_within_bounds`
/// holds; `None` where it does not.
pub fn discretize_spans_checked(grid: Vec<Vec<Span>>, rounded_sizes: Vec<isize>, space: usize) -> (res: Option<Result<Vec<Span>, LayoutError>>)
    ensures
        res is None <==> !discretize_bounded(grid_view(grid@), rounded_sizes@, space as int),
        res matches Some(Ok(spans)) ==> discretized(grid_view(grid@), rounded_sizes@, space as int)
            == Ok::<Seq<Span>, LayoutError>(spans@),
        res matches Some(Err(e)) ==> discretized(grid_view(grid@), rounded_sizes@, space as int)
            == Err::<Seq<Span>, LayoutError>(e),
{
    if discretize_within_bounds(&grid, &rounded_sizes, space) {
        proof {
            lemma_bounded_rounding_fits(grid_view(grid@), rounded_sizes@, space as int);
        }
        Some(discretize_spans(grid, rounded_sizes, space))
    } else {
        None
    }
}


/// A pane whose span across the direction covers a strip lies in that
/// strip (its span along the direction is among the strip's spans).
pub proof fn lemma_covering_pane_is_in_the_strip(across: Span, boundary: (usize, usize))
    requires
        boundary.0 < boundary.1,
        across.pos <= boundary.0,
        boundary.1 <= span_end(across),
    ensures
        crosses_boundary(across, boundary),
{
}

/// When no end of a pane's span lies strictly inside a strip (the strips
/// are cut at every pane's edges), the pane lies in the strip exactly when
/// its span overlaps it.
pub proof fn lemma_in_strip_is_overlap(across: Span, boundary: (usize, usize))
    requires
        boundary.0 < boundary.1,
        across.size.inner > 0,
        !(boundary.0 < across.pos < boundary.1),
        !(boundary.0 < span_end(across) < boundary.1),
    ensures
        crosses_boundary(across, boundary) <==> (across.pos < boundary.1 && boundary.0 < span_end(across)),
{
}

} // verus!
