//! Lengths, points, sizes and rectangles in window coordinates.
//!
//! A length is a whole number of units, 65536 to the pixel, so every sum, difference and
//! comparison of lengths is exact.

use vstd::prelude::*;

verus! {

/// How many units make one pixel.
pub const UNITS_PER_PIXEL: i64 = 65536;

/// The largest magnitude, in units, a coordinate or a size may have: 2^31 pixels.
pub const MAX_UNITS: i64 = 140737488355328;

/// The largest magnitude, in units, a coordinate may have for its rectangle's edges to be added up.
pub const EDGE_UNITS: i64 = 1152921504606846976;

/// A length, or a coordinate, in units.
#[derive(Clone, Copy, Debug, PartialEq, Eq, Structural)]
pub struct Pixels {
    pub units: i64,
}

impl View for Pixels {
    type V = int;

    open spec fn view(&self) -> int {
        self.units as int
    }
}

impl Pixels {
    /// Whether the magnitude is at most `limit` units.
    pub open spec fn within(self, limit: int) -> bool {
        -limit <= self@ <= limit
    }
}

/// `n` whole pixels.
pub fn px(n: i64) -> (length: Pixels)
    requires
        -0x8000_0000 <= n <= 0x8000_0000,
    ensures
        length@ == n * UNITS_PER_PIXEL,
        length.units == n * 65536,
{
    Pixels { units: n * UNITS_PER_PIXEL }
}

/// A position; y grows downwards.
#[derive(Clone, Copy, Debug, PartialEq, Eq, Structural)]
pub struct Point {
    pub x: Pixels,
    pub y: Pixels,
}

#[derive(Clone, Copy, Debug, PartialEq, Eq, Structural)]
pub struct Size {
    pub width: Pixels,
    pub height: Pixels,
}

/// A rectangle.
#[derive(Clone, Copy, Debug, PartialEq, Eq, Structural)]
pub struct Bounds {
    pub origin: Point,
    pub size: Size,
}

pub fn point(x: Pixels, y: Pixels) -> (p: Point)
    ensures
        p == (Point { x, y }),
{
    Point { x, y }
}

pub fn size(width: Pixels, height: Pixels) -> (s: Size)
    ensures
        s == (Size { width, height }),
{
    Size { width, height }
}

impl Size {
    pub open spec fn within(self, limit: int) -> bool {
        self.width.within(limit) && self.height.within(limit)
    }

    /// Whether both sides are small enough to lay things out with.
    pub open spec fn in_range(self) -> bool {
        self.within(MAX_UNITS as int)
    }
}

/// A rectangle as a mathematical value, in units.
pub ghost struct Rect {
    pub x: int,
    pub y: int,
    pub w: int,
    pub h: int,
}

impl Rect {
    pub open spec fn right(self) -> int {
        self.x + self.w
    }

    pub open spec fn bottom(self) -> int {
        self.y + self.h
    }

    /// Whether the two rectangles share more than an edge.
    pub open spec fn overlaps(self, other: Rect) -> bool {
        &&& self.x < other.right()
        &&& self.right() > other.x
        &&& self.y < other.bottom()
        &&& self.bottom() > other.y
    }

    /// Whether all of this rectangle lies in `area`.
    pub open spec fn inside(self, area: Rect) -> bool {
        &&& self.x >= area.x
        &&& self.y >= area.y
        &&& self.right() <= area.right()
        &&& self.bottom() <= area.bottom()
    }

    /// The same rectangle with its origin at `(x, y)`.
    pub open spec fn at(self, x: int, y: int) -> Rect {
        Rect { x, y, ..self }
    }

    /// The square of the distance between the two origins.
    pub open spec fn shift(self, moved: Rect) -> int {
        (moved.x - self.x) * (moved.x - self.x) + (moved.y - self.y) * (moved.y - self.y)
    }
}

impl View for Bounds {
    type V = Rect;

    open spec fn view(&self) -> Rect {
        Rect { x: self.origin.x@, y: self.origin.y@, w: self.size.width@, h: self.size.height@ }
    }
}

impl Bounds {
    pub open spec fn within(self, limit: int) -> bool {
        &&& self.origin.x.within(limit)
        &&& self.origin.y.within(limit)
        &&& self.size.within(limit)
    }

    /// Whether every coordinate is small enough to lay things out with.
    pub open spec fn in_range(self) -> bool {
        self.within(MAX_UNITS as int)
    }

    /// Whether the rectangle covers the unit square whose top left corner is `(x, y)`.
    pub open spec fn covers(self, x: int, y: int) -> bool {
        &&& self.origin.x.units <= x < self.origin.x.units + self.size.width.units
        &&& self.origin.y.units <= y < self.origin.y.units + self.size.height.units
    }

    pub fn new(origin: Point, size: Size) -> (bounds: Bounds)
        ensures
            bounds == (Bounds { origin, size }),
    {
        Bounds { origin, size }
    }

    pub fn left(&self) -> (edge: Pixels)
        ensures
            edge@ == self@.x,
    {
        self.origin.x
    }

    pub fn top(&self) -> (edge: Pixels)
        ensures
            edge@ == self@.y,
    {
        self.origin.y
    }

    pub fn right(&self) -> (edge: Pixels)
        requires
            self.within(EDGE_UNITS as int),
        ensures
            edge@ == self@.right(),
    {
        Pixels { units: self.origin.x.units + self.size.width.units }
    }

    pub fn bottom(&self) -> (edge: Pixels)
        requires
            self.within(EDGE_UNITS as int),
        ensures
            edge@ == self@.bottom(),
    {
        Pixels { units: self.origin.y.units + self.size.height.units }
    }

    /// Whether the two rectangles share more than an edge.
    pub fn intersects(&self, other: &Bounds) -> (overlap: bool)
        requires
            self.within(EDGE_UNITS as int),
            other.within(EDGE_UNITS as int),
        ensures
            overlap == self@.overlaps(other@),
    {
        self.origin.x.units < other.right().units && self.right().units > other.origin.x.units
            && self.origin.y.units < other.bottom().units && self.bottom().units
            > other.origin.y.units
    }
}

/// Two rectangles that cover something overlap exactly when they cover some unit square in common.
pub proof fn law_overlap_is_a_shared_unit(a: Bounds, b: Bounds)
    requires
        a.size.width.units > 0,
        a.size.height.units > 0,
        b.size.width.units > 0,
        b.size.height.units > 0,
    ensures
        a@.overlaps(b@) <==> exists|x: int, y: int| #[trigger] a.covers(x, y) && b.covers(x, y),
{
    if a@.overlaps(b@) {
        let x = if a.origin.x.units < b.origin.x.units {
            b.origin.x.units as int
        } else {
            a.origin.x.units as int
        };
        let y = if a.origin.y.units < b.origin.y.units {
            b.origin.y.units as int
        } else {
            a.origin.y.units as int
        };
        assert(a.covers(x, y) && b.covers(x, y));
    }
}

/// Neither rectangle comes first in an overlap.
pub proof fn law_overlap_is_mutual(a: Rect, b: Rect)
    ensures
        a.overlaps(b) <==> b.overlaps(a),
{
}

} // verus!
