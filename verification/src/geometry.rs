//! Logical-coordinate points, sizes and rectangles.
//!
//! All shell geometry lives in one integer coordinate space. Output geometry
//! and surface sizes are bounded by `COORD_LIMIT`; window map locations may
//! drift further (spiral placement, accumulated buffer deltas) and are bounded
//! by the looser `LOC_LIMIT`. The bounds keep every sum the shell forms well
//! inside `i32`.

use vstd::prelude::*;

verus! {

/// Largest magnitude for output positions, sizes and surface boxes.
pub const COORD_LIMIT: i32 = 0x10_0000;

/// Largest magnitude for window map locations, hotspots and icon offsets.
pub const LOC_LIMIT: i32 = 0x2000_0000;

#[derive(Clone, Copy, Debug, PartialEq, Eq, Structural)]
pub struct Point {
    pub x: i32,
    pub y: i32,
}

#[derive(Clone, Copy, Debug, PartialEq, Eq, Structural)]
pub struct Size {
    pub w: i32,
    pub h: i32,
}

#[derive(Clone, Copy, Debug, PartialEq, Eq, Structural)]
pub struct Rect {
    pub loc: Point,
    pub size: Size,
}

impl Point {
    pub open spec fn wf(self) -> bool {
        &&& -COORD_LIMIT <= self.x <= COORD_LIMIT
        &&& -COORD_LIMIT <= self.y <= COORD_LIMIT
    }

    /// Map locations and accumulated offsets obey the looser bound.
    pub open spec fn wf_loc(self) -> bool {
        &&& -LOC_LIMIT <= self.x <= LOC_LIMIT
        &&& -LOC_LIMIT <= self.y <= LOC_LIMIT
    }
}

impl Size {
    pub open spec fn wf(self) -> bool {
        &&& 0 <= self.w <= COORD_LIMIT
        &&& 0 <= self.h <= COORD_LIMIT
    }
}

impl Rect {
    pub open spec fn wf(self) -> bool {
        &&& self.loc.wf()
        &&& self.size.wf()
    }

    pub open spec fn spec_contains(self, p: Point) -> bool {
        &&& self.loc.x <= p.x < self.loc.x + self.size.w
        &&& self.loc.y <= p.y < self.loc.y + self.size.h
    }

    /// Whether `p` lies inside the rectangle (right and bottom edges excluded).
    pub fn contains(&self, p: Point) -> (r: bool)
        requires
            -0x4000_0000 <= self.loc.x <= 0x4000_0000,
            -0x4000_0000 <= self.loc.y <= 0x4000_0000,
            self.size.wf(),
        ensures
            r == self.spec_contains(p),
    {
        self.loc.x <= p.x && p.x < self.loc.x + self.size.w && self.loc.y <= p.y
            && p.y < self.loc.y + self.size.h
    }

    /// Whether `inner` lies wholly inside the rectangle.
    pub open spec fn spec_contains_rect(self, inner: Rect) -> bool {
        &&& self.loc.x <= inner.loc.x
        &&& inner.loc.x + inner.size.w <= self.loc.x + self.size.w
        &&& self.loc.y <= inner.loc.y
        &&& inner.loc.y + inner.size.h <= self.loc.y + self.size.h
    }

    pub fn contains_rect(&self, inner: &Rect) -> (r: bool)
        requires
            -0x4000_0000 <= self.loc.x <= 0x4000_0000,
            -0x4000_0000 <= self.loc.y <= 0x4000_0000,
            self.size.wf(),
            -0x4000_0000 <= inner.loc.x <= 0x4000_0000,
            -0x4000_0000 <= inner.loc.y <= 0x4000_0000,
            inner.size.wf(),
        ensures
            r == self.spec_contains_rect(*inner),
    {
        self.loc.x <= inner.loc.x && inner.loc.x + inner.size.w <= self.loc.x + self.size.w
            && self.loc.y <= inner.loc.y
            && inner.loc.y + inner.size.h <= self.loc.y + self.size.h
    }

    /// Whether the two rectangles share at least one point.
    pub open spec fn spec_overlaps(self, o: Rect) -> bool {
        &&& self.loc.x < o.loc.x + o.size.w
        &&& o.loc.x < self.loc.x + self.size.w
        &&& self.loc.y < o.loc.y + o.size.h
        &&& o.loc.y < self.loc.y + self.size.h
    }

    pub fn overlaps(&self, o: &Rect) -> (r: bool)
        requires
            -0x4000_0000 <= self.loc.x <= 0x4000_0000,
            -0x4000_0000 <= self.loc.y <= 0x4000_0000,
            self.size.wf(),
            -0x4000_0000 <= o.loc.x <= 0x4000_0000,
            -0x4000_0000 <= o.loc.y <= 0x4000_0000,
            o.size.wf(),
        ensures
            r == self.spec_overlaps(*o),
    {
        self.loc.x < o.loc.x + o.size.w && o.loc.x < self.loc.x + self.size.w
            && self.loc.y < o.loc.y + o.size.h && o.loc.y < self.loc.y + self.size.h
    }
}

} // verus!
