//! Integer geometry for cell grids.
//!
//! Coordinates are unsigned: layers never sit at negative origins, because
//! CUA panels reposition to fit rather than hanging off an edge. Clipping at
//! the right and bottom edges is still performed — that is what keeps an
//! oversized panel from panicking.
use vstd::prelude::*;

verus! {

/// `a + b`, saturating at `u16::MAX`.
pub open spec fn sat_add(a: u16, b: u16) -> u16 {
    if a + b > u16::MAX {
        u16::MAX
    } else {
        (a + b) as u16
    }
}

/// `a - b`, saturating at zero.
pub open spec fn sat_sub(a: u16, b: u16) -> u16 {
    if a >= b {
        (a - b) as u16
    } else {
        0
    }
}

pub open spec fn min16(a: u16, b: u16) -> u16 {
    if a <= b {
        a
    } else {
        b
    }
}

pub open spec fn max16(a: u16, b: u16) -> u16 {
    if a >= b {
        a
    } else {
        b
    }
}

/// A position on a cell grid.
#[derive(Debug, Clone, Copy, PartialEq, Eq, Structural, Default)]
pub struct Point {
    pub x: u16,
    pub y: u16,
}

impl Point {
    pub fn new(x: u16, y: u16) -> (p: Self)
        ensures
            p.x == x,
            p.y == y,
    {
        Self { x, y }
    }
}

/// Dimensions of a cell region.
#[derive(Debug, Clone, Copy, PartialEq, Eq, Structural, Default)]
pub struct Size {
    pub w: u16,
    pub h: u16,
}

impl Size {
    pub fn new(w: u16, h: u16) -> (s: Self)
        ensures
            s.w == w,
            s.h == h,
    {
        Self { w, h }
    }

    /// True when the region covers no cells at all.
    pub open spec fn spec_is_empty(self) -> bool {
        self.w == 0 || self.h == 0
    }

    /// True when the region covers no cells at all.
    #[verifier::when_used_as_spec(spec_is_empty)]
    pub fn is_empty(self) -> (b: bool)
        ensures
            b == self.spec_is_empty(),
    {
        self.w == 0 || self.h == 0
    }
}

/// A rectangular cell region. `right()` and `bottom()` are exclusive.
#[derive(Debug, Clone, Copy, PartialEq, Eq, Structural, Default)]
pub struct Rect {
    pub origin: Point,
    pub size: Size,
}

impl Rect {
    /// The rect at `(x, y)` of size `w` by `h`, as a value.
    pub open spec fn mk(x: u16, y: u16, w: u16, h: u16) -> Rect {
        Rect { origin: Point { x, y }, size: Size { w, h } }
    }

    pub fn new(x: u16, y: u16, w: u16, h: u16) -> (r: Self)
        ensures
            r == Rect::mk(x, y, w, h),
    {
        Self { origin: Point::new(x, y), size: Size::new(w, h) }
    }

    pub open spec fn spec_left(&self) -> u16 {
        self.origin.x
    }

    pub open spec fn spec_top(&self) -> u16 {
        self.origin.y
    }

    /// Exclusive right edge, saturating at `u16::MAX`.
    pub open spec fn spec_right(&self) -> u16 {
        sat_add(self.origin.x, self.size.w)
    }

    /// Exclusive bottom edge, saturating at `u16::MAX`.
    pub open spec fn spec_bottom(&self) -> u16 {
        sat_add(self.origin.y, self.size.h)
    }

    #[verifier::when_used_as_spec(spec_left)]
    pub fn left(&self) -> (v: u16)
        ensures
            v == self.origin.x,
    {
        self.origin.x
    }

    #[verifier::when_used_as_spec(spec_top)]
    pub fn top(&self) -> (v: u16)
        ensures
            v == self.origin.y,
    {
        self.origin.y
    }

    /// Exclusive right edge. Saturates rather than overflowing.
    #[verifier::when_used_as_spec(spec_right)]
    pub fn right(&self) -> (v: u16)
        ensures
            v == sat_add(self.origin.x, self.size.w),
    {
        self.origin.x.saturating_add(self.size.w)
    }

    /// Exclusive bottom edge. Saturates rather than overflowing.
    #[verifier::when_used_as_spec(spec_bottom)]
    pub fn bottom(&self) -> (v: u16)
        ensures
            v == sat_add(self.origin.y, self.size.h),
    {
        self.origin.y.saturating_add(self.size.h)
    }

    /// Whether the point `(x, y)` lies inside the rect.
    pub open spec fn holds(&self, x: int, y: int) -> bool {
        &&& self.spec_left() <= x < self.spec_right()
        &&& self.spec_top() <= y < self.spec_bottom()
    }

    /// True when `p` falls inside this rect.
    pub fn contains(&self, p: Point) -> (b: bool)
        ensures
            b == self.holds(p.x as int, p.y as int),
    {
        p.x >= self.left() && p.x < self.right() && p.y >= self.top() && p.y < self.bottom()
    }

    /// The region common to both rects, or `None` when they are disjoint or
    /// either is zero-area.
    pub open spec fn spec_intersect(&self, other: &Rect) -> Option<Rect> {
        let x0 = max16(self.spec_left(), other.spec_left());
        let y0 = max16(self.spec_top(), other.spec_top());
        let x1 = min16(self.spec_right(), other.spec_right());
        let y1 = min16(self.spec_bottom(), other.spec_bottom());
        if x1 <= x0 || y1 <= y0 {
            None
        } else {
            Some(Rect::mk(x0, y0, (x1 - x0) as u16, (y1 - y0) as u16))
        }
    }

    /// The region common to both rects, or `None` when they are disjoint or
    /// either is zero-area.
    pub fn intersect(&self, other: &Rect) -> (r: Option<Rect>)
        ensures
            r == self.spec_intersect(other),
    {
        let x0 = if self.left() >= other.left() {
            self.left()
        } else {
            other.left()
        };
        let y0 = if self.top() >= other.top() {
            self.top()
        } else {
            other.top()
        };
        let x1 = if self.right() <= other.right() {
            self.right()
        } else {
            other.right()
        };
        let y1 = if self.bottom() <= other.bottom() {
            self.bottom()
        } else {
            other.bottom()
        };
        if x1 <= x0 || y1 <= y0 {
            return None;
        }
        Some(Rect::new(x0, y0, x1 - x0, y1 - y0))
    }
}

/// A point lies in the intersection of two rects exactly when it lies in
/// both of them: the intersection is the set of cells they share.
pub proof fn lemma_intersect_is_common_cells(a: Rect, b: Rect, x: int, y: int)
    ensures
        (a.holds(x, y) && b.holds(x, y)) <==> (a.spec_intersect(&b) matches Some(r) && r.holds(x, y)),
{
}

/// Intersection does not depend on the order of its arguments.
pub proof fn lemma_intersect_commutes(a: Rect, b: Rect)
    ensures
        a.spec_intersect(&b) == b.spec_intersect(&a),
{
}

} // verus!
