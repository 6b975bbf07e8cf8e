//! Axis-aligned rectangles and the overlap arithmetic on them.
//!
//! Origins are signed 32-bit, extents unsigned 16-bit. Every edge coordinate
//! is reasoned about as a mathematical integer and computed in 64 bits, so
//! no comparison or difference of edges can overflow.

use vstd::prelude::*;

verus! {

/// One of the two coordinate axes.
#[derive(Clone, Copy, Debug, PartialEq, Eq, Structural)]
pub enum Axis {
    X,
    Y,
}

/// A position in world coordinates.
#[derive(Clone, Copy, Debug, PartialEq, Eq, Structural)]
pub struct Vec2i(pub i32, pub i32);

/// An axis-aligned rectangle: a signed origin and unsigned extents.
#[derive(Clone, Copy, Debug, PartialEq, Eq, Structural)]
pub struct Rect {
    pub x: i32,
    pub y: i32,
    pub w: u16,
    pub h: u16,
}

/// Why a rectangle description was refused.
#[derive(Clone, Copy, Debug, PartialEq, Eq, Structural)]
pub enum GeometryError {
    /// The width or the height is below zero.
    NegativeExtent,
    /// The width or the height does not fit in 16 bits.
    ExtentTooLarge,
}

/// The largest extent a rectangle can have.
pub const MAX_EXTENT: i32 = 65535;

/// The smaller of two integers.
pub open spec fn lesser(a: int, b: int) -> int {
    if a <= b {
        a
    } else {
        b
    }
}

/// The larger of two integers.
pub open spec fn greater(a: int, b: int) -> int {
    if a >= b {
        a
    } else {
        b
    }
}

/// The value of `v` brought into the range of `i32`.
pub open spec fn clamp_to_i32(v: int) -> i32 {
    if v < i32::MIN {
        i32::MIN
    } else if v > i32::MAX {
        i32::MAX
    } else {
        v as i32
    }
}

/// The rectangle that signed extents describe, or why they describe none: a
/// negative extent is reported before one that is too large.
pub open spec fn rect_from(x: i32, y: i32, w: int, h: int) -> Result<Rect, GeometryError> {
    if w < 0 || h < 0 {
        Err(GeometryError::NegativeExtent)
    } else if w > MAX_EXTENT || h > MAX_EXTENT {
        Err(GeometryError::ExtentTooLarge)
    } else {
        Ok(Rect { x, y, w: w as u16, h: h as u16 })
    }
}

impl Rect {
    /// The coordinate of the left edge.
    pub open spec fn left(self) -> int {
        self.x as int
    }

    /// The coordinate of the right edge.
    pub open spec fn right(self) -> int {
        self.x + self.w
    }

    /// The coordinate of the top edge.
    pub open spec fn top(self) -> int {
        self.y as int
    }

    /// The coordinate of the bottom edge.
    pub open spec fn bottom(self) -> int {
        self.y + self.h
    }

    /// The lower edge of the projection on `axis`.
    pub open spec fn low(self, axis: Axis) -> int {
        match axis {
            Axis::X => self.left(),
            Axis::Y => self.top(),
        }
    }

    /// The upper edge of the projection on `axis`.
    pub open spec fn high(self, axis: Axis) -> int {
        match axis {
            Axis::X => self.right(),
            Axis::Y => self.bottom(),
        }
    }

    /// Twice the centre coordinate on `axis`; doubling keeps it integral.
    pub open spec fn centre2(self, axis: Axis) -> int {
        self.low(axis) + self.high(axis)
    }

    /// Two rectangles touch when their projections meet on both axes;
    /// sharing only an edge or a corner counts.
    pub open spec fn touches(self, other: Rect) -> bool {
        &&& self.left() <= other.right()
        &&& other.left() <= self.right()
        &&& self.top() <= other.bottom()
        &&& other.top() <= self.bottom()
    }

    /// How far the two projections on `axis` run into each other: the length
    /// of their common part. Negative when they are apart.
    pub open spec fn depth(self, other: Rect, axis: Axis) -> int {
        lesser(self.high(axis), other.high(axis)) - greater(self.low(axis), other.low(axis))
    }

    /// Two rectangles penetrate when their common part has positive length on
    /// both axes. Rectangles that merely share an edge touch without
    /// penetrating.
    pub open spec fn penetrates(self, other: Rect) -> bool {
        self.depth(other, Axis::X) > 0 && self.depth(other, Axis::Y) > 0
    }

    /// The rectangle moved by `(dx, dy)`, each coordinate stopping at the
    /// ends of the 32-bit range.
    pub open spec fn shifted(self, dx: int, dy: int) -> Rect {
        Rect { x: clamp_to_i32(self.x + dx), y: clamp_to_i32(self.y + dy), w: self.w, h: self.h }
    }

    /// The rectangle moved by `amount` along `axis` only.
    pub open spec fn slid(self, axis: Axis, amount: int) -> Rect {
        match axis {
            Axis::X => self.shifted(amount, 0),
            Axis::Y => self.shifted(0, amount),
        }
    }

    /// The rectangle with its origin at `at`, extents unchanged.
    pub open spec fn placed(self, at: Vec2i) -> Rect {
        Rect { x: at.0, y: at.1, w: self.w, h: self.h }
    }

    /// Builds a rectangle from signed extents, as level data supplies them.
    /// Extents below zero or beyond 16 bits are refused; a negative extent is
    /// reported first.
    pub fn from_extents(x: i32, y: i32, w: i32, h: i32) -> (made: Result<Rect, GeometryError>)
        ensures
            made == rect_from(x, y, w as int, h as int),
            made is Ok <==> 0 <= w <= MAX_EXTENT && 0 <= h <= MAX_EXTENT,
            made matches Ok(r) ==> r.x == x && r.y == y && r.w == w && r.h == h,
            made == Err::<Rect, GeometryError>(GeometryError::NegativeExtent) <==> w < 0 || h < 0,
            made == Err::<Rect, GeometryError>(GeometryError::ExtentTooLarge) <==> w >= 0 && h >= 0
                && (w > MAX_EXTENT || h > MAX_EXTENT),
    {
        if w < 0 || h < 0 {
            Err(GeometryError::NegativeExtent)
        } else if w > MAX_EXTENT || h > MAX_EXTENT {
            Err(GeometryError::ExtentTooLarge)
        } else {
            Ok(Rect { x, y, w: w as u16, h: h as u16 })
        }
    }

    /// Moves the rectangle by `(dx, dy)`, saturating at the ends of the
    /// 32-bit range.
    pub fn offset(self, dx: i32, dy: i32) -> (moved: Rect)
        ensures
            moved == self.shifted(dx as int, dy as int),
    {
        Rect { x: saturating_sum(self.x, dx), y: saturating_sum(self.y, dy), w: self.w, h: self.h }
    }

    /// Moves the rectangle by `amount` along `axis`, saturating.
    pub fn slide(self, axis: Axis, amount: i32) -> (moved: Rect)
        ensures
            moved == self.slid(axis, amount as int),
    {
        match axis {
            Axis::X => self.offset(amount, 0),
            Axis::Y => self.offset(0, amount),
        }
    }

    /// Puts the origin at `at`.
    pub fn place(self, at: Vec2i) -> (moved: Rect)
        ensures
            moved == self.placed(at),
    {
        Rect { x: at.0, y: at.1, w: self.w, h: self.h }
    }
}

/// `a + b`, stopping at the ends of the 32-bit range.
pub fn saturating_sum(a: i32, b: i32) -> (sum: i32)
    ensures
        sum == clamp_to_i32(a + b),
{
    let wide: i64 = a as i64 + b as i64;
    if wide < i32::MIN as i64 {
        i32::MIN
    } else if wide > i32::MAX as i64 {
        i32::MAX
    } else {
        wide as i32
    }
}

/// The penetration of a touching pair on each axis, `None` for a pair that
/// does not touch.
pub open spec fn overlap_of(r1: Rect, r2: Rect) -> Option<(u16, u16)> {
    if r1.touches(r2) {
        Some((r1.depth(r2, Axis::X) as u16, r1.depth(r2, Axis::Y) as u16))
    } else {
        None
    }
}

/// Whether `r1` and `r2` touch, edges included.
pub fn touching(r1: Rect, r2: Rect) -> (hit: bool)
    ensures
        hit == r1.touches(r2),
        hit == r2.touches(r1),
{
    let l1: i64 = r1.x as i64;
    let l2: i64 = r2.x as i64;
    let t1: i64 = r1.y as i64;
    let t2: i64 = r2.y as i64;
    l1 <= l2 + r2.w as i64 && l2 <= l1 + r1.w as i64 && t1 <= t2 + r2.h as i64 && t2 <= t1
        + r1.h as i64
}

/// The per-axis penetration `(dx, dy)` of `r1` and `r2`: on each axis the
/// lesser of the two upper edges minus the greater of the two lower edges.
/// `None` when that difference is negative on either axis, which is exactly
/// when the rectangles do not touch.
pub fn overlap(r1: Rect, r2: Rect) -> (found: Option<(u16, u16)>)
    ensures
        found == overlap_of(r1, r2),
        found is Some <==> r1.touches(r2),
        found matches Some((dx, dy)) ==> {
            &&& dx == r1.depth(r2, Axis::X)
            &&& dy == r1.depth(r2, Axis::Y)
            &&& 0 <= dx <= lesser(r1.w as int, r2.w as int)
            &&& 0 <= dy <= lesser(r1.h as int, r2.h as int)
        },
{
    let right1: i64 = r1.x as i64 + r1.w as i64;
    let right2: i64 = r2.x as i64 + r2.w as i64;
    let bottom1: i64 = r1.y as i64 + r1.h as i64;
    let bottom2: i64 = r2.y as i64 + r2.h as i64;
    let right: i64 = if right1 <= right2 {
        right1
    } else {
        right2
    };
    let left: i64 = if r1.x >= r2.x {
        r1.x as i64
    } else {
        r2.x as i64
    };
    let bottom: i64 = if bottom1 <= bottom2 {
        bottom1
    } else {
        bottom2
    };
    let top: i64 = if r1.y >= r2.y {
        r1.y as i64
    } else {
        r2.y as i64
    };
    let dx: i64 = right - left;
    let dy: i64 = bottom - top;
    if dx >= 0 && dy >= 0 {
        Some((dx as u16, dy as u16))
    } else {
        None
    }
}

/// Touching does not depend on the order of the two rectangles.
pub proof fn lemma_touching_symmetric(r1: Rect, r2: Rect)
    ensures
        r1.touches(r2) == r2.touches(r1),
{
}

/// For a touching pair the overlap is `(dx, dy)` with
/// `0 <= dx <= min(r1.w, r2.w)` and `0 <= dy <= min(r1.h, r2.h)`, and it is
/// the same in either order.
pub proof fn lemma_overlap_bounded(r1: Rect, r2: Rect)
    requires
        r1.touches(r2),
    ensures
        overlap_of(r1, r2) == overlap_of(r2, r1),
        overlap_of(r1, r2) matches Some((dx, dy)) && {
            &&& dx == r1.depth(r2, Axis::X)
            &&& dy == r1.depth(r2, Axis::Y)
            &&& 0 <= dx <= lesser(r1.w as int, r2.w as int)
            &&& 0 <= dy <= lesser(r1.h as int, r2.h as int)
        },
{
}

} // verus!
