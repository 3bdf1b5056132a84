use vstd::prelude::*;

verus! {

/// Spacing, in logical units, kept between tiled windows and between the
/// windows and the edges of the output.
pub const GAP: i32 = 6;

/// A rectangle in the logical coordinate space: origin plus size.
///
/// A rectangle whose width or height is not positive covers no point; the
/// layout may produce such rectangles on an output too small for it.
#[derive(Clone, Copy, Debug, PartialEq, Eq, Structural)]
pub struct Rect {
    pub x: i32,
    pub y: i32,
    pub width: i32,
    pub height: i32,
}

/// Integer division rounded toward zero, as Rust's `/` rounds (`b > 0`).
pub open spec fn div_toward_zero(a: int, b: int) -> int {
    if a >= 0 {
        a / b
    } else {
        -((-a) / b)
    }
}

impl Rect {
    /// The rectangle covers no point.
    pub open spec fn is_empty(self) -> bool {
        self.width <= 0 || self.height <= 0
    }

    /// The two rectangles share no point, and where both cover points at
    /// least a gap separates them along one axis.
    pub open spec fn apart(self, other: Rect) -> bool {
        ||| self.is_empty()
        ||| other.is_empty()
        ||| self.x + self.width + GAP <= other.x
        ||| other.x + other.width + GAP <= self.x
        ||| self.y + self.height + GAP <= other.y
        ||| other.y + other.height + GAP <= self.y
    }

    /// The point lies inside the rectangle.
    pub open spec fn contains(self, px: int, py: int) -> bool {
        &&& self.x <= px < self.x + self.width
        &&& self.y <= py < self.y + self.height
    }

    /// The rectangle has a non-negative size and, grown by twice the gap on
    /// every side, still lies in the 32-bit coordinate space; every tile
    /// the layout cuts from such an output is representable.
    pub open spec fn fits_tiling(self) -> bool {
        &&& 0 <= self.width
        &&& 0 <= self.height
        &&& i32::MIN + 2 * GAP <= self.x
        &&& i32::MIN + 2 * GAP <= self.y
        &&& self.x + self.width + 2 * GAP <= i32::MAX
        &&& self.y + self.height + 2 * GAP <= i32::MAX
    }

    pub fn new(x: i32, y: i32, width: i32, height: i32) -> (r: Rect)
        ensures
            r == (Rect { x, y, width, height }),
    {
        Rect { x, y, width, height }
    }

    /// Executable form of `fits_tiling`.
    pub fn can_be_tiled(&self) -> (r: bool)
        ensures
            r == self.fits_tiling(),
    {
        let x = self.x as i64;
        let y = self.y as i64;
        let w = self.width as i64;
        let h = self.height as i64;
        let g = 2 * GAP as i64;
        0 <= w && 0 <= h && i32::MIN as i64 + g <= x && i32::MIN as i64 + g <= y && x + w + g
            <= i32::MAX as i64 && y + h + g <= i32::MAX as i64
    }

    /// The size to propose to a client: the rectangle's size with each side
    /// raised to at least one unit, since a configure cannot carry an empty
    /// or negative size.
    pub fn size_for_client(&self) -> (r: (i32, i32))
        ensures
            r.0 == if self.width < 1 {
                1
            } else {
                self.width
            },
            r.1 == if self.height < 1 {
                1
            } else {
                self.height
            },
    {
        let w = if self.width < 1 {
            1
        } else {
            self.width
        };
        let h = if self.height < 1 {
            1
        } else {
            self.height
        };
        (w, h)
    }

    /// The rectangle with `margin` taken off each of its four sides.
    pub fn shrink(&self, margin: i32) -> (r: Rect)
        requires
            i32::MIN <= self.x + margin <= i32::MAX,
            i32::MIN <= self.y + margin <= i32::MAX,
            i32::MIN <= self.width - 2 * margin <= i32::MAX,
            i32::MIN <= self.height - 2 * margin <= i32::MAX,
        ensures
            r.x == self.x + margin,
            r.y == self.y + margin,
            r.width == self.width - 2 * margin,
            r.height == self.height - 2 * margin,
    {
        Rect {
            x: self.x + margin,
            y: self.y + margin,
            width: ((self.width as i64) - 2 * (margin as i64)) as i32,
            height: ((self.height as i64) - 2 * (margin as i64)) as i32,
        }
    }

    /// Cuts the rectangle into a left column `offset` wide and a right
    /// column that starts `gutter` further on and takes the rest of the
    /// width.
    pub fn split_at(&self, offset: i32, gutter: i32) -> (r: (Rect, Rect))
        requires
            i32::MIN <= self.x + offset + gutter <= i32::MAX,
            i32::MIN <= self.width - offset - gutter <= i32::MAX,
        ensures
            r.0 == (Rect { x: self.x, y: self.y, width: offset, height: self.height }),
            r.1.x == self.x + offset + gutter,
            r.1.y == self.y,
            r.1.width == self.width - offset - gutter,
            r.1.height == self.height,
    {
        let left = Rect { x: self.x, y: self.y, width: offset, height: self.height };
        let right = Rect {
            x: ((self.x as i64) + (offset as i64) + (gutter as i64)) as i32,
            y: self.y,
            width: ((self.width as i64) - (offset as i64) - (gutter as i64)) as i32,
            height: self.height,
        };
        (left, right)
    }
}

/// `total` divided into `parts` equal shares, rounded toward zero.
pub fn share(total: i32, parts: usize) -> (r: i32)
    requires
        parts > 0,
    ensures
        r == div_toward_zero(total as int, parts as int),
{
    let p = parts as u64;
    if total >= 0 {
        let q = (total as u64) / p;
        assert(q <= total) by (nonlinear_arith)
            requires
                q == (total as u64) / p,
                p >= 1,
                total >= 0,
        ;
        q as i32
    } else {
        let m = (-(total as i64)) as u64;
        let q = m / p;
        assert(q <= m) by (nonlinear_arith)
            requires
                q == m / p,
                p >= 1,
        ;
        -(q as i64) as i32
    }
}

} // verus!
