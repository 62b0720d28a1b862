//! Pane geometry: where a pane sits, how large it is and how its size is
//! constrained.

use vstd::prelude::*;

verus! {

/// How a pane's size along a direction is constrained: to a fixed number of
/// cells, or to a share of the space (the share itself is the layout
/// solver's business).
#[derive(Debug, Clone, Copy, PartialEq, Eq, Structural)]
pub enum SizeConstraint {
    Fixed(usize),
    Percent,
}

/// A pane's size along a direction: its constraint and its current number of cells.
#[derive(Debug, Clone, Copy, PartialEq, Eq, Structural)]
pub struct Dimension {
    pub constraint: SizeConstraint,
    pub inner: usize,
}

impl Dimension {
    /// A size of `n` cells, fixed to that.
    pub fn fixed(n: usize) -> (d: Dimension)
        ensures
            d == (Dimension { constraint: SizeConstraint::Fixed(n), inner: n }),
    {
        Dimension { constraint: SizeConstraint::Fixed(n), inner: n }
    }

    /// A size of `n` cells, kept as a share of the space.
    pub fn percent(n: usize) -> (d: Dimension)
        ensures
            d == (Dimension { constraint: SizeConstraint::Percent, inner: n }),
    {
        Dimension { constraint: SizeConstraint::Percent, inner: n }
    }

    pub fn as_usize(&self) -> (n: usize)
        ensures
            n == self.inner,
    {
        self.inner
    }

    pub fn set_inner(&mut self, n: usize)
        ensures
            *final(self) == (Dimension { inner: n, ..*old(self) }),
    {
        self.inner = n;
    }

    pub fn is_fixed(&self) -> (b: bool)
        ensures
            b == self.constraint is Fixed,
    {
        matches!(self.constraint, SizeConstraint::Fixed(_))
    }

    pub fn is_percent(&self) -> (b: bool)
        ensures
            b == self.constraint is Percent,
    {
        matches!(self.constraint, SizeConstraint::Percent)
    }
}

/// Where a pane sits and how large it is; `stacked` names the stack the
/// pane belongs to, if any.
#[derive(Debug, Clone, Copy, PartialEq, Eq, Structural)]
pub struct PaneGeom {
    pub x: usize,
    pub y: usize,
    pub rows: Dimension,
    pub cols: Dimension,
    pub stacked: Option<usize>,
    pub is_pinned: bool,
}

impl PaneGeom {
    pub fn is_stacked(&self) -> (b: bool)
        ensures
            b == self.stacked is Some,
    {
        self.stacked.is_some()
    }
}

/// The room a pane's frame takes on each side of its content.
#[derive(Debug, Clone, Copy, PartialEq, Eq, Structural)]
pub struct Offset {
    pub top: usize,
    pub bottom: usize,
    pub left: usize,
    pub right: usize,
}

impl Offset {
    /// No frame.
    pub fn default() -> (o: Offset)
        ensures
            o == (Offset { top: 0, bottom: 0, left: 0, right: 0 }),
    {
        Offset { top: 0, bottom: 0, left: 0, right: 0 }
    }

    /// A frame `n` cells wide on every side.
    pub fn frame(n: usize) -> (o: Offset)
        ensures
            o == (Offset { top: n, bottom: n, left: n, right: n }),
    {
        Offset { top: n, bottom: n, left: n, right: n }
    }
}

} // verus!
