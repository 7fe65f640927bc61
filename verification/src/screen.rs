use vstd::prelude::*;

verus! {

/// Whether a mathematical integer is representable as an `i32`.
pub open spec fn fits_i32(v: int) -> bool {
    i32::MIN <= v <= i32::MAX
}

/// A rectangle of the (virtual) desktop, in pixels: its top-left corner and its size.
/// The right and bottom edges are exclusive.
#[derive(Clone, Copy, Debug, PartialEq, Eq, Structural)]
pub struct VirtualScreenRect {
    pub left: i32,
    pub top: i32,
    pub width: i32,
    pub height: i32,
}

impl VirtualScreenRect {
    /// The x coordinate just past the rectangle.
    pub open spec fn right_edge(self) -> int {
        self.left + self.width
    }

    /// The y coordinate just past the rectangle.
    pub open spec fn bottom_edge(self) -> int {
        self.top + self.height
    }

    /// Whether the pixel `(x, y)` lies inside the rectangle.
    pub open spec fn has_point(self, x: int, y: int) -> bool {
        &&& self.left <= x < self.right_edge()
        &&& self.top <= y < self.bottom_edge()
    }

    /// Both far edges are representable as `i32`.
    pub open spec fn edges_fit(self) -> bool {
        fits_i32(self.right_edge()) && fits_i32(self.bottom_edge())
    }

    /// The rectangle moved so that `origin`'s top-left corner becomes `(0, 0)`.
    pub open spec fn shifted_by(self, origin: VirtualScreenRect) -> VirtualScreenRect {
        VirtualScreenRect {
            left: (self.left - origin.left) as i32,
            top: (self.top - origin.top) as i32,
            width: self.width,
            height: self.height,
        }
    }

    pub fn new(left: i32, top: i32, width: i32, height: i32) -> (r: Self)
        ensures
            r == (VirtualScreenRect { left, top, width, height }),
    {
        Self { left, top, width, height }
    }

    pub fn right(self) -> (r: i32)
        requires
            fits_i32(self.right_edge()),
        ensures
            r == self.right_edge(),
    {
        self.left + self.width
    }

    pub fn bottom(self) -> (r: i32)
        requires
            fits_i32(self.bottom_edge()),
        ensures
            r == self.bottom_edge(),
    {
        self.top + self.height
    }

    /// The far edges are computed only as far as the comparisons get, so only those
    /// that are reached need to fit in an `i32`.
    pub fn contains(self, x: i32, y: i32) -> (r: bool)
        requires
            self.left <= x ==> fits_i32(self.right_edge()),
            self.left <= x < self.right_edge() && self.top <= y ==> fits_i32(self.bottom_edge()),
        ensures
            r == self.has_point(x as int, y as int),
    {
        x >= self.left && x < self.right() && y >= self.top && y < self.bottom()
    }

    pub fn offset_from(self, origin: VirtualScreenRect) -> (r: Self)
        requires
            fits_i32(self.left - origin.left),
            fits_i32(self.top - origin.top),
        ensures
            r == self.shifted_by(origin),
            r.left == self.left - origin.left,
            r.top == self.top - origin.top,
            r.width == self.width,
            r.height == self.height,
    {
        Self::new(self.left - origin.left, self.top - origin.top, self.width, self.height)
    }
}

/// Moving a rectangle and a point by the same offset keeps the point inside exactly
/// when it was inside before.
pub proof fn lemma_offset_keeps_points(
    rect: VirtualScreenRect,
    origin: VirtualScreenRect,
    x: int,
    y: int,
)
    requires
        fits_i32(rect.left - origin.left),
        fits_i32(rect.top - origin.top),
    ensures
        rect.shifted_by(origin).has_point(x - origin.left, y - origin.top) == rect.has_point(x, y),
{
}

/// A rectangle that holds any point has a positive width and height.
pub proof fn lemma_point_implies_positive_size(rect: VirtualScreenRect, x: int, y: int)
    requires
        rect.has_point(x, y),
    ensures
        rect.width > 0,
        rect.height > 0,
{
}

/// Offsetting a rectangle from itself puts its corner at the origin and keeps its size.
pub proof fn lemma_offset_from_self(rect: VirtualScreenRect)
    ensures
        rect.shifted_by(rect) == (VirtualScreenRect { left: 0, top: 0, width: rect.width, height: rect.height }),
{
}

} // verus!
