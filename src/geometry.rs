//! Rectangles in layout coordinates.

use vstd::prelude::*;

verus! {

/// Top-left corner of a rectangle.
#[derive(Clone, Copy, Debug, Default, PartialEq, Eq, Hash, Structural)]
pub struct Origin {
    pub x: i32,
    pub y: i32,
}

/// Extent of a rectangle. A well-formed size has positive dimensions; a
/// requested size may hold non-positive ones, which mean "keep the old value".
#[derive(Clone, Copy, Debug, Default, PartialEq, Eq, Hash, Structural)]
pub struct Size {
    pub width: i32,
    pub height: i32,
}

/// A rectangle: origin plus size.
#[derive(Clone, Copy, Debug, Default, PartialEq, Eq, Hash, Structural)]
pub struct Area {
    pub origin: Origin,
    pub size: Size,
}

/// One axis after a change request: a non-positive request keeps the old value.
pub open spec fn axis_after(old_value: i32, requested: i32) -> i32 {
    if requested <= 0 {
        old_value
    } else {
        requested
    }
}

/// The size that results from asking `old` to become `requested`, each axis
/// on its own.
pub open spec fn size_after(old: Size, requested: Size) -> Size {
    Size {
        width: axis_after(old.width, requested.width),
        height: axis_after(old.height, requested.height),
    }
}

/// The rectangle that results from asking `old` to become `requested`: the
/// origin is taken as requested, the size axis by axis.
pub open spec fn area_after(old: Area, requested: Area) -> Area {
    Area { origin: requested.origin, size: size_after(old.size, requested.size) }
}

impl Origin {
    pub fn new(x: i32, y: i32) -> (r: Origin)
        ensures
            r.x == x,
            r.y == y,
    {
        Origin { x, y }
    }
}

impl Size {
    pub fn new(width: i32, height: i32) -> (r: Size)
        ensures
            r.width == width,
            r.height == height,
    {
        Size { width, height }
    }

    /// Applies a size request to this size: each axis whose request is not
    /// positive keeps its current value, the other takes the request.
    pub fn resized(&self, requested: Size) -> (r: Size)
        ensures
            r == size_after(*self, requested),
    {
        let width = if requested.width <= 0 {
            self.width
        } else {
            requested.width
        };
        let height = if requested.height <= 0 {
            self.height
        } else {
            requested.height
        };
        Size { width, height }
    }
}

impl Area {
    pub fn new(origin: Origin, size: Size) -> (r: Area)
        ensures
            r.origin == origin,
            r.size == size,
    {
        Area { origin, size }
    }

    /// Applies a change request to this rectangle: the origin is taken as
    /// requested, the size with the per-axis fallback of `Size::resized`.
    pub fn resized(&self, requested: Area) -> (r: Area)
        ensures
            r == area_after(*self, requested),
    {
        Area { origin: requested.origin, size: self.size.resized(requested.size) }
    }
}

/// A request whose width or height is not positive leaves that axis as it
/// was, and the other axis of the size takes its requested value when that
/// is positive.
pub proof fn lemma_nonpositive_axis_kept(old: Area, requested: Area)
    ensures
        requested.size.width <= 0 ==> area_after(old, requested).size.width == old.size.width,
        requested.size.height <= 0 ==> area_after(old, requested).size.height
            == old.size.height,
        requested.size.width > 0 ==> area_after(old, requested).size.width
            == requested.size.width,
        requested.size.height > 0 ==> area_after(old, requested).size.height
            == requested.size.height,
        area_after(old, requested).origin == requested.origin,
{
}

} // verus!
