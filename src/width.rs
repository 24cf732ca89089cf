//! Width policies of a column.
use vstd::prelude::*;

verus! {

/// How wide a column may be drawn.
#[derive(Clone, Copy, Debug, PartialEq, Eq, Structural)]
pub enum ColumnWidth {
    /// Sized to its content, with no bound.
    Auto,
    /// At least this wide.
    Min(usize),
    /// At most this wide.
    Max(usize),
    /// At least the first value wide, and at most the first plus the second.
    Bound(usize, usize),
    /// Exactly this wide.
    Fixed(usize),
}

impl ColumnWidth {
    /// The upper bound of a `Bound` policy is representable.
    pub open spec fn fits(self) -> bool {
        match self {
            ColumnWidth::Bound(min_width, delta) => min_width + delta <= usize::MAX,
            _ => true,
        }
    }

    /// The smallest width the policy admits.
    pub open spec fn min_width(self) -> int {
        match self {
            ColumnWidth::Auto => 0,
            ColumnWidth::Min(n) => n as int,
            ColumnWidth::Max(_) => 0,
            ColumnWidth::Bound(min_width, _) => min_width as int,
            ColumnWidth::Fixed(n) => n as int,
        }
    }

    /// The largest width the policy admits, or `None` where it is unbounded.
    pub open spec fn max_width(self) -> Option<int> {
        match self {
            ColumnWidth::Auto => None,
            ColumnWidth::Min(_) => None,
            ColumnWidth::Max(n) => Some(n as int),
            ColumnWidth::Bound(min_width, delta) => Some(min_width + delta),
            ColumnWidth::Fixed(n) => Some(n as int),
        }
    }

    /// Resolves the policy to a minimum width and an optional maximum width.
    pub fn bounds(&self) -> (r: (usize, Option<usize>))
        requires
            self.fits(),
        ensures
            r.0 == self.min_width(),
            r.1 matches Some(m) ==> self.max_width() == Some(m as int),
            r.1 is None <==> self.max_width() is None,
            r.1 matches Some(m) ==> r.0 <= m,
    {
        match *self {
            ColumnWidth::Auto => (0, None),
            ColumnWidth::Min(min_width) => (min_width, None),
            ColumnWidth::Max(max_width) => (0, Some(max_width)),
            ColumnWidth::Bound(min_width, delta) => (min_width, Some(min_width + delta)),
            ColumnWidth::Fixed(width) => (width, Some(width)),
        }
    }
}

} // verus!
