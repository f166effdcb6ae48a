//! Points, sizes, parent-relative spaces and pixel-exact rectangles.
//!
//! Fractions (the scale of a `UDim`, the anchor of a `Space`, interpolation
//! progress) are fixed-point numbers in thousandths: `500` stands for one half.
use vstd::prelude::*;

verus! {

/// One whole in the thousandths used by scales, anchors and alphas.
pub const FRACTION_ONE: i64 = 1000;

/// `n / d` rounded to the nearest integer, halves away from zero.
pub open spec fn round_div(n: int, d: int) -> int
    recommends
        d > 0,
{
    if n >= 0 {
        (2 * n + d) / (2 * d)
    } else {
        -((-2 * n + d) / (2 * d))
    }
}

pub open spec fn abs(n: int) -> int {
    if n < 0 {
        -n
    } else {
        n
    }
}

pub open spec fn fits_i16(n: int) -> bool {
    i16::MIN <= n <= i16::MAX
}

pub open spec fn fits_u16(n: int) -> bool {
    0 <= n <= u16::MAX
}

/// Rounds `n / d` to the nearest integer, halves away from zero.
pub fn round_div_i64(n: i64, d: i64) -> (r: i64)
    requires
        0 < d <= 1_000_000,
        -1_000_000_000_000_000 <= n <= 1_000_000_000_000_000,
    ensures
        r == round_div(n as int, d as int),
{
    if n >= 0 {
        let num: u64 = (2 * n + d) as u64;
        let q: u64 = num / ((2 * d) as u64);
        assert(q <= num) by (nonlinear_arith)
            requires
                q == num / ((2 * d) as u64),
                d > 0,
        ;
        q as i64
    } else {
        let m: i64 = -n;
        let num: u64 = (2 * m + d) as u64;
        let q: u64 = num / ((2 * d) as u64);
        assert(q <= num) by (nonlinear_arith)
            requires
                q == num / ((2 * d) as u64),
                d > 0,
        ;
        -(q as i64)
    }
}

/// A point of the character grid.
#[derive(Debug, Clone, Copy, PartialEq, Eq, Structural, Hash, Default)]
pub struct Point2D {
    pub x: i16,
    pub y: i16,
}

impl Point2D {
    pub fn new(x: i16, y: i16) -> (r: Point2D)
        ensures
            r.x == x,
            r.y == y,
    {
        Point2D { x, y }
    }
}

/// A width and height in cells.
#[derive(Debug, Clone, Copy, PartialEq, Eq, Structural, Hash, Default)]
pub struct Size2D {
    pub x: u16,
    pub y: u16,
}

impl Size2D {
    pub fn new(x: u16, y: u16) -> (r: Size2D)
        ensures
            r.x == x,
            r.y == y,
    {
        Size2D { x, y }
    }

    /// Number of cells covered; the product must fit in a `u16`.
    pub fn area(self) -> (r: u16)
        requires
            self.x * self.y <= u16::MAX,
        ensures
            r == self.x * self.y,
    {
        self.x * self.y
    }
}

/// One axis of a parent-relative length: `scale` thousandths of the parent's
/// extent plus `offset` cells.
#[derive(Debug, Clone, Copy, PartialEq, Eq, Structural, Default)]
pub struct UDim {
    pub scale: i16,
    pub offset: i16,
}

impl UDim {
    pub fn new(scale: i16, offset: i16) -> (r: UDim)
        ensures
            r.scale == scale,
            r.offset == offset,
    {
        UDim { scale, offset }
    }
}

/// A parent-relative `UDim` on each axis.
#[derive(Debug, Clone, Copy, PartialEq, Eq, Structural, Default)]
pub struct UDim2 {
    pub x: UDim,
    pub y: UDim,
}

impl UDim2 {
    pub fn new(x_scale: i16, x_offset: i16, y_scale: i16, y_offset: i16) -> (r: UDim2)
        ensures
            r.x == (UDim { scale: x_scale, offset: x_offset }),
            r.y == (UDim { scale: y_scale, offset: y_offset }),
    {
        UDim2 { x: UDim::new(x_scale, x_offset), y: UDim::new(y_scale, y_offset) }
    }

    pub fn from_scale(x_scale: i16, y_scale: i16) -> (r: UDim2)
        ensures
            r.x == (UDim { scale: x_scale, offset: 0 }),
            r.y == (UDim { scale: y_scale, offset: 0 }),
    {
        UDim2::new(x_scale, 0, y_scale, 0)
    }

    pub fn from_offset(x_offset: i16, y_offset: i16) -> (r: UDim2)
        ensures
            r.x == (UDim { scale: 0, offset: x_offset }),
            r.y == (UDim { scale: 0, offset: y_offset }),
    {
        UDim2::new(0, x_offset, 0, y_offset)
    }

    pub fn from_point2d(point: Point2D) -> (r: UDim2)
        ensures
            r.x == (UDim { scale: 0, offset: point.x }),
            r.y == (UDim { scale: 0, offset: point.y }),
    {
        UDim2::from_offset(point.x, point.y)
    }

    /// The size as a pure offset; each component must fit in an `i16`.
    pub fn from_size2d(size: Size2D) -> (r: UDim2)
        requires
            size.x <= i16::MAX,
            size.y <= i16::MAX,
        ensures
            r.x == (UDim { scale: 0, offset: size.x as i16 }),
            r.y == (UDim { scale: 0, offset: size.y as i16 }),
    {
        UDim2::from_offset(size.x as i16, size.y as i16)
    }
}

/// A pair of fractions in thousandths; the anchor of a `Space`.
#[derive(Debug, Clone, Copy, PartialEq, Eq, Structural, Default)]
pub struct Scale2D {
    pub x: i16,
    pub y: i16,
}

impl Scale2D {
    pub fn new(x: i16, y: i16) -> (r: Scale2D)
        ensures
            r.x == x,
            r.y == y,
    {
        Scale2D { x, y }
    }
}

/// A pixel-exact rectangle: `position` is its top-left cell, `size` its extent.
#[derive(Debug, Clone, Copy, PartialEq, Eq, Structural, Hash, Default)]
pub struct AbsoluteSpace {
    pub size: Size2D,
    pub position: Point2D,
}

/// The overlap of `[l1, l1 + w1)` and `[l2, l2 + w2)`, as (start, length), when it
/// holds at least one cell.
pub open spec fn interval_overlap(l1: int, w1: int, l2: int, w2: int) -> Option<(int, int)> {
    let lo = if l1 > l2 {
        l1
    } else {
        l2
    };
    let hi = if l1 + w1 < l2 + w2 {
        l1 + w1
    } else {
        l2 + w2
    };
    if lo < hi {
        Some((lo, hi - lo))
    } else {
        None
    }
}

impl AbsoluteSpace {
    pub open spec fn spec_left(self) -> int {
        self.position.x as int
    }

    pub open spec fn spec_top(self) -> int {
        self.position.y as int
    }

    pub open spec fn spec_right(self) -> int {
        self.position.x + self.size.x
    }

    pub open spec fn spec_bottom(self) -> int {
        self.position.y + self.size.y
    }

    /// The far edges are representable, so `right` and `bottom` do not fail.
    pub open spec fn is_placed(self) -> bool {
        fits_i16(self.spec_right()) && fits_i16(self.spec_bottom())
    }

    pub open spec fn contains_point(self, p: Point2D) -> bool {
        self.spec_left() <= p.x < self.spec_right() && self.spec_top() <= p.y < self.spec_bottom()
    }

    /// The common cells of two rectangles, when there is at least one.
    pub open spec fn spec_try_intersection(self, other: AbsoluteSpace) -> Option<AbsoluteSpace> {
        match (
            interval_overlap(self.spec_left(), self.size.x as int, other.spec_left(), other.size.x as int),
            interval_overlap(self.spec_top(), self.size.y as int, other.spec_top(), other.size.y as int),
        ) {
            (Some((x, w)), Some((y, h))) => Some(
                AbsoluteSpace {
                    size: Size2D { x: w as u16, y: h as u16 },
                    position: Point2D { x: x as i16, y: y as i16 },
                },
            ),
            _ => None,
        }
    }

    pub fn new(x: i16, y: i16, width: u16, height: u16) -> (r: AbsoluteSpace)
        ensures
            r.position == (Point2D { x, y }),
            r.size == (Size2D { x: width, y: height }),
    {
        AbsoluteSpace { size: Size2D { x: width, y: height }, position: Point2D { x, y } }
    }

    /// The smallest rectangle holding every point of a non-empty cloud.
    pub fn from_point_cloud(points: &[Point2D]) -> (r: AbsoluteSpace)
        requires
            points@.len() > 0,
            forall|i: int, j: int|
                0 <= i < points@.len() && 0 <= j < points@.len() ==> points@[i].x - points@[j].x
                    < i16::MAX && points@[i].y - points@[j].y < i16::MAX,
        ensures
            forall|i: int|
                0 <= i < points@.len() ==> r.contains_point(#[trigger] points@[i]),
            exists|i: int| 0 <= i < points@.len() && points@[i].x == r.position.x,
            exists|i: int| 0 <= i < points@.len() && points@[i].y == r.position.y,
            exists|i: int| 0 <= i < points@.len() && points@[i].x == r.spec_right() - 1,
            exists|i: int| 0 <= i < points@.len() && points@[i].y == r.spec_bottom() - 1,
    {
        let mut top_left = points[0];
        let mut bottom_right = top_left;
        let mut ix: usize = 0;
        let mut iy: usize = 0;
        let mut jx: usize = 0;
        let mut jy: usize = 0;
        let mut k: usize = 1;
        while k < points.len()
            invariant
                1 <= k <= points@.len(),
                ix < k && iy < k && jx < k && jy < k,
                points@[ix as int].x == top_left.x,
                points@[iy as int].y == top_left.y,
                points@[jx as int].x == bottom_right.x,
                points@[jy as int].y == bottom_right.y,
                forall|i: int|
                    0 <= i < k ==> top_left.x <= #[trigger] points@[i].x <= bottom_right.x
                        && top_left.y <= points@[i].y <= bottom_right.y,
            decreases points@.len() - k,
        {
            let p = points[k];
            if p.x < top_left.x {
                top_left.x = p.x;
                ix = k;
            }
            if p.y < top_left.y {
                top_left.y = p.y;
                iy = k;
            }
            if p.x > bottom_right.x {
                bottom_right.x = p.x;
                jx = k;
            }
            if p.y > bottom_right.y {
                bottom_right.y = p.y;
                jy = k;
            }
            k = k + 1;
        }
        assert(points@[jx as int].x - points@[ix as int].x < i16::MAX);
        assert(points@[jy as int].y - points@[iy as int].y < i16::MAX);
        AbsoluteSpace {
            position: top_left,
            size: Size2D::new(
                (bottom_right.x - top_left.x + 1) as u16,
                (bottom_right.y - top_left.y + 1) as u16,
            ),
        }
    }

    /// Number of cells covered; the product must fit in a `u16`.
    pub fn area(self) -> (r: u16)
        requires
            self.size.x * self.size.y <= u16::MAX,
        ensures
            r == self.size.x * self.size.y,
    {
        self.size.area()
    }

    pub fn left(self) -> (r: i16)
        ensures
            r == self.spec_left(),
    {
        self.position.x
    }

    pub fn right(self) -> (r: i16)
        requires
            fits_i16(self.spec_right()),
        ensures
            r == self.spec_right(),
    {
        (self.position.x as i32 + self.size.x as i32) as i16
    }

    pub fn top(self) -> (r: i16)
        ensures
            r == self.spec_top(),
    {
        self.position.y
    }

    pub fn bottom(self) -> (r: i16)
        requires
            fits_i16(self.spec_bottom()),
        ensures
            r == self.spec_bottom(),
    {
        (self.position.y as i32 + self.size.y as i32) as i16
    }

    /// The rectangle between the larger near edges and the smaller far edges;
    /// the far edges may not cross the near ones.
    pub fn intersection(self, other: AbsoluteSpace) -> (r: AbsoluteSpace)
        requires
            self.is_placed(),
            other.is_placed(),
            vstd::math::max(self.spec_left(), other.spec_left()) <= vstd::math::min(
                self.spec_right(),
                other.spec_right(),
            ),
            vstd::math::max(self.spec_top(), other.spec_top()) <= vstd::math::min(
                self.spec_bottom(),
                other.spec_bottom(),
            ),
        ensures
            r.spec_left() == vstd::math::max(self.spec_left(), other.spec_left()),
            r.spec_top() == vstd::math::max(self.spec_top(), other.spec_top()),
            r.spec_right() == vstd::math::min(self.spec_right(), other.spec_right()),
            r.spec_bottom() == vstd::math::min(self.spec_bottom(), other.spec_bottom()),
    {
        let x1 = if self.left() > other.left() {
            self.left()
        } else {
            other.left()
        };
        let y1 = if self.top() > other.top() {
            self.top()
        } else {
            other.top()
        };
        let x2 = if self.right() < other.right() {
            self.right()
        } else {
            other.right()
        };
        let y2 = if self.bottom() < other.bottom() {
            self.bottom()
        } else {
            other.bottom()
        };
        AbsoluteSpace::new(x1, y1, (x2 as i32 - x1 as i32) as u16, (y2 as i32 - y1 as i32) as u16)
    }

    /// Whether the two rectangles share at least one cell.
    pub fn intersects(self, other: AbsoluteSpace) -> (r: bool)
        ensures
            r == self.spec_try_intersection(other).is_some(),
    {
        let l1 = self.position.x as i32;
        let t1 = self.position.y as i32;
        let r1 = l1 + self.size.x as i32;
        let b1 = t1 + self.size.y as i32;
        let l2 = other.position.x as i32;
        let t2 = other.position.y as i32;
        let r2 = l2 + other.size.x as i32;
        let b2 = t2 + other.size.y as i32;
        l1 < r2 && l2 < r1 && l1 < r1 && l2 < r2 && t1 < b2 && t2 < b1 && t1 < b1 && t2 < b2
    }

    /// The common cells of the two rectangles, or `None` when they share none:
    /// an empty overlap is never returned as a degenerate rectangle.
    pub fn try_intersection(self, other: AbsoluteSpace) -> (r: Option<AbsoluteSpace>)
        ensures
            r == self.spec_try_intersection(other),
            r is None <==> !(interval_overlap(
                self.spec_left(),
                self.size.x as int,
                other.spec_left(),
                other.size.x as int,
            ) is Some && interval_overlap(
                self.spec_top(),
                self.size.y as int,
                other.spec_top(),
                other.size.y as int,
            ) is Some),
    {
        let l1 = self.position.x as i32;
        let t1 = self.position.y as i32;
        let r1 = l1 + self.size.x as i32;
        let b1 = t1 + self.size.y as i32;
        let l2 = other.position.x as i32;
        let t2 = other.position.y as i32;
        let r2 = l2 + other.size.x as i32;
        let b2 = t2 + other.size.y as i32;
        let x1 = if l1 > l2 {
            l1
        } else {
            l2
        };
        let y1 = if t1 > t2 {
            t1
        } else {
            t2
        };
        let x2 = if r1 < r2 {
            r1
        } else {
            r2
        };
        let y2 = if b1 < b2 {
            b1
        } else {
            b2
        };
        if x1 < x2 && y1 < y2 {
            Some(AbsoluteSpace::new(x1 as i16, y1 as i16, (x2 - x1) as u16, (y2 - y1) as u16))
        } else {
            None
        }
    }

    /// A point given relative to this rectangle, in absolute terms.
    pub fn absolute_position_of(self, relative_position: Point2D) -> (r: Point2D)
        requires
            fits_i16(relative_position.x + self.position.x),
            fits_i16(relative_position.y + self.position.y),
        ensures
            r.x == relative_position.x + self.position.x,
            r.y == relative_position.y + self.position.y,
    {
        Point2D { x: relative_position.x + self.position.x, y: relative_position.y + self.position.y }
    }

    /// An absolute point, relative to this rectangle's top-left cell.
    pub fn relative_position_of(self, absolute_position: Point2D) -> (r: Point2D)
        requires
            fits_i16(absolute_position.x - self.position.x),
            fits_i16(absolute_position.y - self.position.y),
        ensures
            r.x == absolute_position.x - self.position.x,
            r.y == absolute_position.y - self.position.y,
    {
        Point2D { x: absolute_position.x - self.position.x, y: absolute_position.y - self.position.y }
    }

    /// A rectangle given relative to this one, in absolute terms.
    pub fn absolute_space_of(self, absolute_space: AbsoluteSpace) -> (r: AbsoluteSpace)
        requires
            fits_i16(absolute_space.position.x + self.position.x),
            fits_i16(absolute_space.position.y + self.position.y),
        ensures
            r.size == absolute_space.size,
            r.position.x == absolute_space.position.x + self.position.x,
            r.position.y == absolute_space.position.y + self.position.y,
    {
        AbsoluteSpace { size: absolute_space.size, position: self.absolute_position_of(absolute_space.position) }
    }

    pub fn is_interior_point(self, point: Point2D) -> (r: bool)
        ensures
            r == self.contains_point(point),
    {
        let px = point.x as i32;
        let py = point.y as i32;
        let l = self.position.x as i32;
        let t = self.position.y as i32;
        px >= l && px < l + self.size.x as i32 && py >= t && py < t + self.size.y as i32
    }

    /// The cells of the rectangle, row by row from the top-left one.
    pub fn points(self) -> (r: AbsoluteSpaceIterator)
        requires
            self.size.x * self.size.y <= u16::MAX,
        ensures
            r.space == self,
            r.index == 0,
            r.area == self.size.x * self.size.y,
    {
        AbsoluteSpaceIterator { space: self, index: 0, area: self.area() }
    }
}

/// Walks the cells of a rectangle in row-major order.
pub struct AbsoluteSpaceIterator {
    pub space: AbsoluteSpace,
    pub index: u16,
    pub area: u16,
}

impl AbsoluteSpaceIterator {
    /// The `index`-th cell of the rectangle, counted row by row.
    pub open spec fn cell_at(space: AbsoluteSpace, index: int) -> Point2D
        recommends
            space.size.x > 0,
    {
        Point2D {
            x: (space.position.x + index % (space.size.x as int)) as i16,
            y: (space.position.y + index / (space.size.x as int)) as i16,
        }
    }

    pub fn next(&mut self) -> (r: Option<Point2D>)
        requires
            old(self).space.is_placed(),
            old(self).area == old(self).space.size.x * old(self).space.size.y,
        ensures
            final(self).space == old(self).space,
            final(self).area == old(self).area,
            old(self).index < old(self).area ==> final(self).index == old(self).index + 1 && r
                == Some(Self::cell_at(old(self).space, old(self).index as int)),
            old(self).index >= old(self).area ==> final(self).index == old(self).index && r is None,
    {
        let index = self.index;
        if index < self.area {
            self.index = index + 1;
            let w = self.space.size.x;
            assert(w > 0) by (nonlinear_arith)
                requires
                    index < self.area,
                    self.area == w * self.space.size.y,
            ;
            let col = index % w;
            let row = index / w;
            assert(row < self.space.size.y) by (nonlinear_arith)
                requires
                    index < w * self.space.size.y,
                    row == index / w,
                    w > 0,
            ;
            Some(
                Point2D::new(
                    (self.space.position.x as i32 + col as i32) as i16,
                    (self.space.position.y as i32 + row as i32) as i16,
                ),
            )
        } else {
            None
        }
    }
}

/// Thousandths of a cell covered by `d` along a parent extent (before rounding;
/// negative means flipped).
pub open spec fn raw_extent(parent_extent: int, d: UDim) -> int {
    parent_extent * d.scale + FRACTION_ONE * d.offset
}

/// Thousandths of a cell at which `d` places a near edge inside a parent axis:
/// a scale of one lands on the parent's last cell, not past it.
pub open spec fn raw_origin(parent_position: int, parent_extent: int, d: UDim) -> int {
    let last = if parent_extent > 0 {
        parent_extent - 1
    } else {
        0
    };
    FRACTION_ONE * parent_position + last * d.scale + FRACTION_ONE * d.offset
}

/// The cell count of a resolved axis.
pub open spec fn resolved_extent(parent_extent: int, size: UDim) -> int {
    round_div(abs(raw_extent(parent_extent, size)), FRACTION_ONE as int)
}

/// The near edge of a resolved axis: a negative extent shifts the edge back by
/// that extent (a flip), and the anchor fraction of the extent is pulled back
/// onto the resolved position; all of it is rounded once, at the end.
pub open spec fn resolved_origin(
    parent_position: int,
    parent_extent: int,
    position: UDim,
    size: UDim,
    anchor: int,
) -> int {
    round_div(
        raw_near_edge(parent_position, parent_extent, position, size, anchor),
        FRACTION_ONE * FRACTION_ONE,
    )
}

/// A node's size, position and anchor relative to its parent's rectangle.
#[derive(Debug, Clone, Copy, PartialEq, Eq, Structural, Default)]
pub struct Space {
    pub size: UDim2,
    pub position: UDim2,
    pub anchor: Scale2D,
}

/// `a + (b - a) * alpha / 1000`, rounded to the nearest integer.
pub open spec fn lerp_int(a: int, b: int, alpha: int) -> int {
    a + round_div((b - a) * alpha, FRACTION_ONE as int)
}

pub open spec fn lerp_udim(a: UDim, b: UDim, alpha: int) -> UDim {
    UDim {
        scale: lerp_int(a.scale as int, b.scale as int, alpha) as i16,
        offset: lerp_int(a.offset as int, b.offset as int, alpha) as i16,
    }
}

pub open spec fn lerp_udim2(a: UDim2, b: UDim2, alpha: int) -> UDim2 {
    UDim2 { x: lerp_udim(a.x, b.x, alpha), y: lerp_udim(a.y, b.y, alpha) }
}

pub open spec fn lerp_space(a: Space, b: Space, alpha: int) -> Space {
    Space {
        size: lerp_udim2(a.size, b.size, alpha),
        position: lerp_udim2(a.position, b.position, alpha),
        anchor: Scale2D {
            x: lerp_int(a.anchor.x as int, b.anchor.x as int, alpha) as i16,
            y: lerp_int(a.anchor.y as int, b.anchor.y as int, alpha) as i16,
        },
    }
}

proof fn lemma_lerp_int_between(a: int, b: int, alpha: int)
    requires
        0 <= alpha <= FRACTION_ONE,
    ensures
        vstd::math::min(a, b) <= lerp_int(a, b, alpha) <= vstd::math::max(a, b),
{
    let d = (b - a) * alpha;
    if b >= a {
        assert(0 <= d <= (b - a) * 1000) by (nonlinear_arith)
            requires
                d == (b - a) * alpha,
                0 <= alpha <= 1000,
                b >= a,
        ;
        assert((2 * d + 1000) / 2000 <= b - a) by (nonlinear_arith)
            requires
                0 <= d <= (b - a) * 1000,
        ;
    } else {
        assert(0 <= -d <= (a - b) * 1000) by (nonlinear_arith)
            requires
                d == (b - a) * alpha,
                0 <= alpha <= 1000,
                b < a,
        ;
        assert((-2 * d + 1000) / 2000 <= a - b) by (nonlinear_arith)
            requires
                0 <= -d <= (a - b) * 1000,
        ;
    }
}

/// Interpolates between two `i16` values; the result lies between them.
fn lerp_i16(a: i16, b: i16, alpha: u16) -> (r: i16)
    requires
        alpha <= FRACTION_ONE,
    ensures
        r == lerp_int(a as int, b as int, alpha as int),
{
    proof {
        lemma_lerp_int_between(a as int, b as int, alpha as int);
    }
    let d: i64 = (b as i64 - a as i64) * alpha as i64;
    assert(-70_000_000 <= d <= 70_000_000) by (nonlinear_arith)
        requires
            d == (b - a) * alpha,
            0 <= alpha <= 1000,
            -70000 <= b - a <= 70000,
    ;
    (a as i64 + round_div_i64(d, FRACTION_ONE)) as i16
}

impl UDim {
    /// Interpolation by `alpha` thousandths from `self` toward `to`.
    pub fn lerp(self, to: UDim, alpha: u16) -> (r: UDim)
        requires
            alpha <= FRACTION_ONE,
        ensures
            r == lerp_udim(self, to, alpha as int),
    {
        UDim { scale: lerp_i16(self.scale, to.scale, alpha), offset: lerp_i16(self.offset, to.offset, alpha) }
    }
}

impl UDim2 {
    /// Interpolation by `alpha` thousandths from `self` toward `to`, per axis.
    pub fn lerp(self, to: UDim2, alpha: u16) -> (r: UDim2)
        requires
            alpha <= FRACTION_ONE,
        ensures
            r == lerp_udim2(self, to, alpha as int),
    {
        UDim2 { x: self.x.lerp(to.x, alpha), y: self.y.lerp(to.y, alpha) }
    }
}

/// Resolves one axis: (near edge, cell count), or `None` when either does not fit
/// the pixel coordinate types.
fn resolve_axis(parent_position: i16, parent_extent: u16, position: UDim, size: UDim, anchor: i16) -> (r:
    Option<(i16, u16)>)
    ensures
        ({
            let o = resolved_origin(
                parent_position as int,
                parent_extent as int,
                position,
                size,
                anchor as int,
            );
            let e = resolved_extent(parent_extent as int, size);
            &&& r is Some <==> fits_i16(o) && fits_u16(e)
            &&& r is Some ==> r == Some((o as i16, e as u16))
        }),
{
    let pe = parent_extent as i64;
    let ps = size.scale as i64;
    assert(-2_200_000_000 <= pe * ps <= 2_200_000_000) by (nonlinear_arith)
        requires
            0 <= pe <= 65535,
            -32768 <= ps <= 32767,
    ;
    let scaled = pe * ps;
    let n: i64 = scaled + FRACTION_ONE * size.offset as i64;
    let last: i64 = if pe > 0 {
        pe - 1
    } else {
        0
    };
    let qs = position.scale as i64;
    assert(-2_200_000_000 <= last * qs <= 2_200_000_000) by (nonlinear_arith)
        requires
            0 <= last <= 65535,
            -32768 <= qs <= 32767,
    ;
    let lifted = last * qs;
    let base: i64 = FRACTION_ONE * parent_position as i64 + lifted + FRACTION_ONE * position.offset as i64;
    let flipped: i64 = if n < 0 {
        base + n
    } else {
        base
    };
    let magnitude: i64 = if n < 0 {
        -n
    } else {
        n
    };
    let lever: i64 = if magnitude > FRACTION_ONE {
        magnitude - FRACTION_ONE
    } else {
        0
    };
    let a = anchor as i64;
    assert(-80_000_000_000_000 <= lever * a <= 80_000_000_000_000) by (nonlinear_arith)
        requires
            0 <= lever <= 2_300_000_000,
            -32768 <= a <= 32767,
    ;
    let turned = lever * a;
    let shift: i64 = if n < 0 {
        -turned
    } else {
        turned
    };
    let extent = round_div_i64(magnitude, FRACTION_ONE);
    let origin = round_div_i64(FRACTION_ONE * flipped - shift, FRACTION_ONE * FRACTION_ONE);
    if origin < i16::MIN as i64 || origin > i16::MAX as i64 || extent < 0 || extent > u16::MAX as i64 {
        None
    } else {
        Some((origin as i16, extent as u16))
    }
}

impl Space {
    /// The rectangle `self` resolves to inside `parent`, as four integers
    /// (left, top, width, height), before the range check.
    pub open spec fn resolved(self, parent: AbsoluteSpace) -> (int, int, int, int) {
        (
            resolved_origin(
                parent.position.x as int,
                parent.size.x as int,
                self.position.x,
                self.size.x,
                self.anchor.x as int,
            ),
            resolved_origin(
                parent.position.y as int,
                parent.size.y as int,
                self.position.y,
                self.size.y,
                self.anchor.y as int,
            ),
            resolved_extent(parent.size.x as int, self.size.x),
            resolved_extent(parent.size.y as int, self.size.y),
        )
    }

    /// Every resolved value fits the pixel coordinate types.
    pub open spec fn resolves_in(self, parent: AbsoluteSpace) -> bool {
        let (x, y, w, h) = self.resolved(parent);
        fits_i16(x) && fits_i16(y) && fits_u16(w) && fits_u16(h)
    }

    pub open spec fn spec_to_absolute_space(self, parent: AbsoluteSpace) -> AbsoluteSpace {
        let (x, y, w, h) = self.resolved(parent);
        AbsoluteSpace {
            size: Size2D { x: w as u16, y: h as u16 },
            position: Point2D { x: x as i16, y: y as i16 },
        }
    }

    pub fn new(size: UDim2, position: UDim2, anchor: Scale2D) -> (r: Space)
        ensures
            r == (Space { size, position, anchor }),
    {
        Space { size, position, anchor }
    }

    /// A space of the given size at the parent's top-left corner.
    pub fn sized(size: UDim2) -> (r: Space)
        ensures
            r.size == size,
            r.position == (UDim2 { x: UDim { scale: 0, offset: 0 }, y: UDim { scale: 0, offset: 0 } }),
            r.anchor == (Scale2D { x: 0, y: 0 }),
    {
        Space::new(size, UDim2::new(0, 0, 0, 0), Scale2D::new(0, 0))
    }

    pub open spec fn spec_full() -> Space {
        Space {
            size: UDim2 { x: UDim { scale: 1000, offset: 0 }, y: UDim { scale: 1000, offset: 0 } },
            position: UDim2 { x: UDim { scale: 0, offset: 0 }, y: UDim { scale: 0, offset: 0 } },
            anchor: Scale2D { x: 0, y: 0 },
        }
    }

    /// The space that fills its parent.
    pub fn full() -> (r: Space)
        ensures
            r == Self::spec_full(),
    {
        Space::sized(UDim2::from_scale(1000, 1000))
    }

    /// The same size, centred in the parent.
    pub fn center(self) -> (r: Space)
        ensures
            r.size == self.size,
            r.position == (UDim2 { x: UDim { scale: 500, offset: 0 }, y: UDim { scale: 500, offset: 0 } }),
            r.anchor == (Scale2D { x: 500, y: 500 }),
    {
        Space { size: self.size, position: UDim2::from_scale(500, 500), anchor: Scale2D::new(500, 500) }
    }

    /// The rectangle inside `parent`, or `None` when a resolved value does not fit
    /// the pixel coordinate types.
    pub fn checked_to_absolute_space(self, parent: AbsoluteSpace) -> (r: Option<AbsoluteSpace>)
        ensures
            r is Some <==> self.resolves_in(parent),
            r is Some ==> r->0 == self.spec_to_absolute_space(parent),
    {
        let ax = resolve_axis(parent.position.x, parent.size.x, self.position.x, self.size.x, self.anchor.x);
        let ay = resolve_axis(parent.position.y, parent.size.y, self.position.y, self.size.y, self.anchor.y);
        match (ax, ay) {
            (Some((x, w)), Some((y, h))) => Some(
                AbsoluteSpace { size: Size2D { x: w, y: h }, position: Point2D { x, y } },
            ),
            _ => None,
        }
    }

    /// The rectangle inside `parent`. An unrepresentable layout is a caller
    /// error, excluded by the precondition.
    pub fn to_absolute_space(self, parent: AbsoluteSpace) -> (r: AbsoluteSpace)
        requires
            self.resolves_in(parent),
        ensures
            r == self.spec_to_absolute_space(parent),
    {
        match self.checked_to_absolute_space(parent) {
            Some(r) => r,
            None => {
                assert(false);
                AbsoluteSpace::new(0, 0, 0, 0)
            },
        }
    }

    /// Interpolation by `alpha` thousandths from `self` toward `to`, field by field.
    pub fn lerp(self, to: Space, alpha: u16) -> (r: Space)
        requires
            alpha <= FRACTION_ONE,
        ensures
            r == lerp_space(self, to, alpha as int),
    {
        Space {
            size: self.size.lerp(to.size, alpha),
            position: self.position.lerp(to.position, alpha),
            anchor: Scale2D {
                x: lerp_i16(self.anchor.x, to.anchor.x, alpha),
                y: lerp_i16(self.anchor.y, to.anchor.y, alpha),
            },
        }
    }
}

proof fn lemma_round_div_exact(k: int, d: int)
    requires
        d > 0,
    ensures
        round_div(k * d, d) == k,
{
    if k >= 0 {
        assert(k * d >= 0) by (nonlinear_arith)
            requires
                k >= 0,
                d > 0,
        ;
        assert((2 * (k * d) + d) / (2 * d) == k) by (nonlinear_arith)
            requires
                k >= 0,
                d > 0,
        ;
    } else {
        assert(k * d < 0) by (nonlinear_arith)
            requires
                k < 0,
                d > 0,
        ;
        assert((-2 * (k * d) + d) / (2 * d) == -k) by (nonlinear_arith)
            requires
                k < 0,
                d > 0,
        ;
    }
}

/// A space whose position carries no scale, whose anchor is zero and whose size
/// does not resolve negative, lands at the parent's top-left cell plus the
/// position's offset.
pub proof fn lemma_offset_placement(space: Space, parent: AbsoluteSpace)
    requires
        space.position.x.scale == 0,
        space.position.y.scale == 0,
        space.anchor == (Scale2D { x: 0, y: 0 }),
        raw_extent(parent.size.x as int, space.size.x) >= 0,
        raw_extent(parent.size.y as int, space.size.y) >= 0,
    ensures
        space.resolved(parent).0 == parent.position.x + space.position.x.offset,
        space.resolved(parent).1 == parent.position.y + space.position.y.offset,
{
    lemma_round_div_exact(parent.position.x + space.position.x.offset, 1000000);
    lemma_round_div_exact(parent.position.y + space.position.y.offset, 1000000);
    let lx = if parent.size.x > 0 { parent.size.x - 1 } else { 0 };
    let ly = if parent.size.y > 0 { parent.size.y - 1 } else { 0 };
    assert(lx * 0 == 0);
    assert(ly * 0 == 0);
    let nx = raw_extent(parent.size.x as int, space.size.x);
    let ny = raw_extent(parent.size.y as int, space.size.y);
    let levx = if abs(nx) > 1000 { abs(nx) - 1000 } else { 0 };
    let levy = if abs(ny) > 1000 { abs(ny) - 1000 } else { 0 };
    assert(levx * 0 == 0);
    assert(levy * 0 == 0);
}

/// Intersection does not depend on the order of its operands.
pub proof fn lemma_try_intersection_commutes(a: AbsoluteSpace, b: AbsoluteSpace)
    ensures
        a.spec_try_intersection(b) == b.spec_try_intersection(a),
{
}

/// The interpolation of `a` toward `b` by `alpha` needs no rounding on any
/// size or position component.
pub open spec fn exact_progress(a: Space, b: Space, alpha: int) -> bool {
    &&& ((b.size.x.scale - a.size.x.scale) * alpha) % 1000 == 0
    &&& ((b.size.x.offset - a.size.x.offset) * alpha) % 1000 == 0
    &&& ((b.size.y.scale - a.size.y.scale) * alpha) % 1000 == 0
    &&& ((b.size.y.offset - a.size.y.offset) * alpha) % 1000 == 0
    &&& ((b.position.x.scale - a.position.x.scale) * alpha) % 1000 == 0
    &&& ((b.position.x.offset - a.position.x.offset) * alpha) % 1000 == 0
    &&& ((b.position.y.scale - a.position.y.scale) * alpha) % 1000 == 0
    &&& ((b.position.y.offset - a.position.y.offset) * alpha) % 1000 == 0
}

/// The near edge of a resolved axis in millionths of a cell, before rounding.
pub open spec fn raw_near_edge(
    parent_position: int,
    parent_extent: int,
    position: UDim,
    size: UDim,
    anchor: int,
) -> int {
    let n = raw_extent(parent_extent, size);
    let base = raw_origin(parent_position, parent_extent, position);
    let flipped = if n < 0 {
        base + n
    } else {
        base
    };
    let lever = if abs(n) > FRACTION_ONE {
        abs(n) - FRACTION_ONE
    } else {
        0
    };
    let shift = if n < 0 {
        -(lever * anchor)
    } else {
        lever * anchor
    };
    FRACTION_ONE * flipped - shift
}

proof fn lemma_lerp_exact(a: int, b: int, alpha: int)
    requires
        ((b - a) * alpha) % 1000 == 0,
    ensures
        1000 * lerp_int(a, b, alpha) == 1000 * a + (b - a) * alpha,
{
    let k = ((b - a) * alpha) / 1000;
    assert((b - a) * alpha == k * 1000) by (nonlinear_arith)
        requires
            ((b - a) * alpha) % 1000 == 0,
            k == ((b - a) * alpha) / 1000,
    ;
    lemma_round_div_exact(k, 1000);
}

proof fn lemma_lerp_udim_exact(a: UDim, b: UDim, alpha: int)
    requires
        0 <= alpha <= 1000,
        ((b.scale - a.scale) * alpha) % 1000 == 0,
        ((b.offset - a.offset) * alpha) % 1000 == 0,
    ensures
        1000 * lerp_udim(a, b, alpha).scale == 1000 * a.scale + (b.scale - a.scale) * alpha,
        1000 * lerp_udim(a, b, alpha).offset == 1000 * a.offset + (b.offset - a.offset) * alpha,
{
    lemma_lerp_int_between(a.scale as int, b.scale as int, alpha);
    lemma_lerp_int_between(a.offset as int, b.offset as int, alpha);
    lemma_lerp_exact(a.scale as int, b.scale as int, alpha);
    lemma_lerp_exact(a.offset as int, b.offset as int, alpha);
}

proof fn lemma_axis_linear(pp: int, pe: int, pa: UDim, sa: UDim, pb: UDim, sb: UDim, anchor: int, alpha: int)
    requires
        0 <= alpha <= 1000,
        pe >= 0,
        ((sb.scale - sa.scale) * alpha) % 1000 == 0,
        ((sb.offset - sa.offset) * alpha) % 1000 == 0,
        ((pb.scale - pa.scale) * alpha) % 1000 == 0,
        ((pb.offset - pa.offset) * alpha) % 1000 == 0,
        raw_extent(pe, sa) >= 1000,
        raw_extent(pe, sb) >= 1000,
    ensures
        1000 * raw_extent(pe, lerp_udim(sa, sb, alpha)) == 1000 * raw_extent(pe, sa) + (raw_extent(pe, sb)
            - raw_extent(pe, sa)) * alpha,
        1000 * raw_near_edge(pp, pe, lerp_udim(pa, pb, alpha), lerp_udim(sa, sb, alpha), anchor) == 1000
            * raw_near_edge(pp, pe, pa, sa, anchor) + (raw_near_edge(pp, pe, pb, sb, anchor) - raw_near_edge(
            pp,
            pe,
            pa,
            sa,
            anchor,
        )) * alpha,
{
    lemma_lerp_udim_exact(sa, sb, alpha);
    lemma_lerp_udim_exact(pa, pb, alpha);
    let ls = lerp_udim(sa, sb, alpha);
    let lp = lerp_udim(pa, pb, alpha);
    let last = if pe > 0 {
        pe - 1
    } else {
        0
    };
    let na = raw_extent(pe, sa);
    let nb = raw_extent(pe, sb);
    let n = raw_extent(pe, ls);
    assert(1000 * n == 1000 * na + (nb - na) * alpha) by (nonlinear_arith)
        requires
            n == pe * ls.scale + 1000 * ls.offset,
            na == pe * sa.scale + 1000 * sa.offset,
            nb == pe * sb.scale + 1000 * sb.offset,
            1000 * ls.scale == 1000 * sa.scale + (sb.scale - sa.scale) * alpha,
            1000 * ls.offset == 1000 * sa.offset + (sb.offset - sa.offset) * alpha,
    ;
    assert(n >= 1000) by (nonlinear_arith)
        requires
            1000 * n == 1000 * na + (nb - na) * alpha,
            na >= 1000,
            nb >= 1000,
            0 <= alpha <= 1000,
    ;
    let ba = raw_origin(pp, pe, pa);
    let bb = raw_origin(pp, pe, pb);
    let b = raw_origin(pp, pe, lp);
    assert(1000 * b == 1000 * ba + (bb - ba) * alpha) by (nonlinear_arith)
        requires
            b == 1000 * pp + last * lp.scale + 1000 * lp.offset,
            ba == 1000 * pp + last * pa.scale + 1000 * pa.offset,
            bb == 1000 * pp + last * pb.scale + 1000 * pb.offset,
            1000 * lp.scale == 1000 * pa.scale + (pb.scale - pa.scale) * alpha,
            1000 * lp.offset == 1000 * pa.offset + (pb.offset - pa.offset) * alpha,
    ;
    assert(1000 * (1000 * b - (n - 1000) * anchor) == 1000 * (1000 * ba - (na - 1000) * anchor) + ((1000
        * bb - (nb - 1000) * anchor) - (1000 * ba - (na - 1000) * anchor)) * alpha) by (nonlinear_arith)
        requires
            1000 * n == 1000 * na + (nb - na) * alpha,
            1000 * b == 1000 * ba + (bb - ba) * alpha,
    ;
}

/// Interpolating two spaces that share an anchor, whose sizes resolve to at
/// least one cell on each axis without a flip, at a progress where the
/// interpolation itself needs no rounding, resolves (before the final rounding
/// to cells) to the same interpolation of the two spaces' resolutions.
pub proof fn lemma_resolution_is_linear(a: Space, b: Space, alpha: int, parent: AbsoluteSpace)
    requires
        0 <= alpha <= 1000,
        a.anchor == b.anchor,
        exact_progress(a, b, alpha),
        raw_extent(parent.size.x as int, a.size.x) >= 1000,
        raw_extent(parent.size.x as int, b.size.x) >= 1000,
        raw_extent(parent.size.y as int, a.size.y) >= 1000,
        raw_extent(parent.size.y as int, b.size.y) >= 1000,
    ensures
        ({
            let m = lerp_space(a, b, alpha);
            let (pxp, pxe, pyp, pye) = (
                parent.position.x as int,
                parent.size.x as int,
                parent.position.y as int,
                parent.size.y as int,
            );
            &&& m.anchor == a.anchor
            &&& 1000 * raw_extent(pxe, m.size.x) == 1000 * raw_extent(pxe, a.size.x) + (raw_extent(
                pxe,
                b.size.x,
            ) - raw_extent(pxe, a.size.x)) * alpha
            &&& 1000 * raw_extent(pye, m.size.y) == 1000 * raw_extent(pye, a.size.y) + (raw_extent(
                pye,
                b.size.y,
            ) - raw_extent(pye, a.size.y)) * alpha
            &&& 1000 * raw_near_edge(pxp, pxe, m.position.x, m.size.x, m.anchor.x as int) == 1000
                * raw_near_edge(pxp, pxe, a.position.x, a.size.x, a.anchor.x as int) + (raw_near_edge(
                pxp,
                pxe,
                b.position.x,
                b.size.x,
                b.anchor.x as int,
            ) - raw_near_edge(pxp, pxe, a.position.x, a.size.x, a.anchor.x as int)) * alpha
            &&& 1000 * raw_near_edge(pyp, pye, m.position.y, m.size.y, m.anchor.y as int) == 1000
                * raw_near_edge(pyp, pye, a.position.y, a.size.y, a.anchor.y as int) + (raw_near_edge(
                pyp,
                pye,
                b.position.y,
                b.size.y,
                b.anchor.y as int,
            ) - raw_near_edge(pyp, pye, a.position.y, a.size.y, a.anchor.y as int)) * alpha
        }),
{
    assert(0 * alpha == 0);
    lemma_round_div_exact(0, 1000);
    lemma_axis_linear(
        parent.position.x as int,
        parent.size.x as int,
        a.position.x,
        a.size.x,
        b.position.x,
        b.size.x,
        a.anchor.x as int,
        alpha,
    );
    lemma_axis_linear(
        parent.position.y as int,
        parent.size.y as int,
        a.position.y,
        a.size.y,
        b.position.y,
        b.size.y,
        a.anchor.y as int,
        alpha,
    );
}

proof fn lemma_round_div_error(n: int)
    ensures
        -500 <= 1000 * round_div(n, 1000) - n <= 500,
{
    if n >= 0 {
        let q = (2 * n + 1000) / 2000;
        assert(-500 <= 1000 * q - n <= 500) by (nonlinear_arith)
            requires
                q == (2 * n + 1000) / 2000,
                n >= 0,
        ;
    } else {
        let q = (-2 * n + 1000) / 2000;
        assert(-500 <= 1000 * (-q) - n <= 500) by (nonlinear_arith)
            requires
                q == (-2 * n + 1000) / 2000,
                n < 0,
        ;
    }
}

proof fn lemma_lerp_udim_error(a: UDim, b: UDim, alpha: int)
    requires
        0 <= alpha <= 1000,
    ensures
        -500 <= 1000 * lerp_udim(a, b, alpha).scale - (1000 * a.scale + (b.scale - a.scale) * alpha) <= 500,
        -500 <= 1000 * lerp_udim(a, b, alpha).offset - (1000 * a.offset + (b.offset - a.offset) * alpha) <= 500,
{
    lemma_lerp_int_between(a.scale as int, b.scale as int, alpha);
    lemma_lerp_int_between(a.offset as int, b.offset as int, alpha);
    lemma_round_div_error((b.scale - a.scale) * alpha);
    lemma_round_div_error((b.offset - a.offset) * alpha);
}

/// For any progress, the extent and near-edge origin a parent axis resolves an
/// interpolated `UDim` to (in thousandths of a cell, before flipping, anchoring
/// and the final rounding) stay within the interpolation's own rounding of the
/// same interpolation of the two resolutions.
pub proof fn lemma_resolution_interpolates_within_rounding(
    a: UDim,
    b: UDim,
    alpha: int,
    parent_position: int,
    parent_extent: int,
)
    requires
        0 <= alpha <= 1000,
        parent_extent >= 0,
    ensures
        ({
            let m = lerp_udim(a, b, alpha);
            let last = if parent_extent > 0 {
                parent_extent - 1
            } else {
                0
            };
            let ext_err = 1000 * raw_extent(parent_extent, m) - (1000 * raw_extent(parent_extent, a) + (
            raw_extent(parent_extent, b) - raw_extent(parent_extent, a)) * alpha);
            let org_err = 1000 * raw_origin(parent_position, parent_extent, m) - (1000 * raw_origin(
                parent_position,
                parent_extent,
                a,
            ) + (raw_origin(parent_position, parent_extent, b) - raw_origin(
                parent_position,
                parent_extent,
                a,
            )) * alpha);
            &&& -(500 * parent_extent + 500_000) <= ext_err <= 500 * parent_extent + 500_000
            &&& -(500 * last + 500_000) <= org_err <= 500 * last + 500_000
        }),
{
    lemma_lerp_udim_error(a, b, alpha);
    let m = lerp_udim(a, b, alpha);
    let pe = parent_extent;
    let last = if pe > 0 {
        pe - 1
    } else {
        0
    };
    let es = 1000 * m.scale - (1000 * a.scale + (b.scale - a.scale) * alpha);
    let eo = 1000 * m.offset - (1000 * a.offset + (b.offset - a.offset) * alpha);
    assert(1000 * raw_extent(pe, m) - (1000 * raw_extent(pe, a) + (raw_extent(pe, b) - raw_extent(pe, a)) * alpha)
        == pe * es + 1000 * eo) by (nonlinear_arith)
        requires
            es == 1000 * m.scale - (1000 * a.scale + (b.scale - a.scale) * alpha),
            eo == 1000 * m.offset - (1000 * a.offset + (b.offset - a.offset) * alpha),
            raw_extent(pe, m) == pe * m.scale + 1000 * m.offset,
            raw_extent(pe, a) == pe * a.scale + 1000 * a.offset,
            raw_extent(pe, b) == pe * b.scale + 1000 * b.offset,
    ;
    assert(-(500 * pe) <= pe * es <= 500 * pe) by (nonlinear_arith)
        requires
            pe >= 0,
            -500 <= es <= 500,
    ;
    let pp = parent_position;
    assert(1000 * raw_origin(pp, pe, m) - (1000 * raw_origin(pp, pe, a) + (raw_origin(pp, pe, b) - raw_origin(
        pp,
        pe,
        a,
    )) * alpha) == last * es + 1000 * eo) by (nonlinear_arith)
        requires
            es == 1000 * m.scale - (1000 * a.scale + (b.scale - a.scale) * alpha),
            eo == 1000 * m.offset - (1000 * a.offset + (b.offset - a.offset) * alpha),
            raw_origin(pp, pe, m) == 1000 * pp + last * m.scale + 1000 * m.offset,
            raw_origin(pp, pe, a) == 1000 * pp + last * a.scale + 1000 * a.offset,
            raw_origin(pp, pe, b) == 1000 * pp + last * b.scale + 1000 * b.offset,
    ;
    assert(-(500 * last) <= last * es <= 500 * last) by (nonlinear_arith)
        requires
            last >= 0,
            -500 <= es <= 500,
    ;
}

proof fn lemma_round_div_error_general(n: int, d: int)
    requires
        d > 0,
    ensures
        -d <= 2 * (d * round_div(n, d) - n) <= d,
{
    if n >= 0 {
        let q = (2 * n + d) / (2 * d);
        assert(-d <= 2 * (d * q - n) <= d) by (nonlinear_arith)
            requires
                q == (2 * n + d) / (2 * d),
                n >= 0,
                d > 0,
        ;
    } else {
        let q = (-2 * n + d) / (2 * d);
        assert(-d <= 2 * (d * (-q) - n) <= d) by (nonlinear_arith)
            requires
                q == (-2 * n + d) / (2 * d),
                n < 0,
                d > 0,
        ;
    }
}

proof fn lemma_scaled_bound(k: int, x: int, b: int)
    requires
        k >= 0,
        -b <= x <= b,
    ensures
        -(k * b) <= k * x <= k * b,
{
    assert(-(k * b) <= k * x <= k * b) by (nonlinear_arith)
        requires
            k >= 0,
            -b <= x <= b,
    ;
}

/// A raw value within `e` of the interpolation of two raw values, once rounded
/// to units of `d`, lies within `e + 1500 d` (in thousandths of a unit times
/// `d`) of the interpolation of the two rounded values.
proof fn lemma_rounded_interpolation(na: int, nb: int, nl: int, alpha: int, d: int, e: int)
    requires
        0 <= alpha <= 1000,
        d > 0,
        -e <= 1000 * nl - (1000 * na + (nb - na) * alpha) <= e,
    ensures
        ({
            let q = lerp_int(round_div(na, d), round_div(nb, d), alpha);
            let r = round_div(nl, d);
            -(e + 1500 * d) <= 1000 * d * (r - q) <= e + 1500 * d
        }),
{
    let ra = round_div(na, d);
    let rb = round_div(nb, d);
    let r = round_div(nl, d);
    let q = lerp_int(ra, rb, alpha);
    lemma_round_div_error_general(na, d);
    lemma_round_div_error_general(nb, d);
    lemma_round_div_error_general(nl, d);
    lemma_round_div_error_general((rb - ra) * alpha, 1000);
    let ua = 2 * (d * ra - na);
    let ub = 2 * (d * rb - nb);
    let ur = 2 * (d * r - nl);
    let w = 2 * (1000 * round_div((rb - ra) * alpha, 1000) - (rb - ra) * alpha);
    lemma_scaled_bound(1000 - alpha, ua, d);
    lemma_scaled_bound(alpha, ub, d);
    lemma_scaled_bound(d, w, 1000);
    lemma_scaled_bound(1000, ur, d);
    let t = round_div((rb - ra) * alpha, 1000);
    let aa = d * ra;
    let bb = d * rb;
    let tt = d * t;
    assert((1000 - alpha) * ua == 2000 * aa - 2 * (alpha * aa) - 2000 * na + 2 * (alpha * na)) by (nonlinear_arith)
        requires
            ua == 2 * (aa - na),
    ;
    assert(alpha * ub == 2 * (alpha * bb) - 2 * (alpha * nb)) by (nonlinear_arith)
        requires
            ub == 2 * (bb - nb),
    ;
    assert(d * w == 2000 * tt - 2 * (alpha * bb) + 2 * (alpha * aa)) by (nonlinear_arith)
        requires
            w == 2 * (1000 * t - (rb - ra) * alpha),
            aa == d * ra,
            bb == d * rb,
            tt == d * t,
    ;
    assert(2000 * d * q == 2000 * aa + 2000 * tt) by (nonlinear_arith)
        requires
            q == ra + t,
            aa == d * ra,
            tt == d * t,
    ;
    assert((nb - na) * alpha == alpha * nb - alpha * na) by (nonlinear_arith);
    assert(1000 * d * (r - q) == 1000 * d * r - 1000 * d * q) by (nonlinear_arith);
    assert(2000 * d * r == 2 * (1000 * nl) + 1000 * ur) by (nonlinear_arith)
        requires
            ur == 2 * (d * r - nl),
    ;
    assert(2000 * d * r == 2 * (1000 * d * r) && 2000 * d * q == 2 * (1000 * d * q)) by (nonlinear_arith);
    assert((1000 - alpha) * d + alpha * d == 1000 * d && d * 1000 == 1000 * d) by (nonlinear_arith);
}

/// Interpolating two spaces and then resolving the result in `parent` gives a
/// rectangle whose extent on each axis is within rounding of the same
/// interpolation of the two resolved extents: at most two cells apart, plus
/// one cell per two thousand cells of parent extent (the rounding of scales to
/// thousandths).
pub proof fn lemma_resolved_extent_interpolates(a: Space, b: Space, alpha: int, parent: AbsoluteSpace)
    requires
        0 <= alpha <= 1000,
        raw_extent(parent.size.x as int, a.size.x) >= 0,
        raw_extent(parent.size.x as int, b.size.x) >= 0,
        raw_extent(parent.size.y as int, a.size.y) >= 0,
        raw_extent(parent.size.y as int, b.size.y) >= 0,
    ensures
        ({
            let m = lerp_space(a, b, alpha);
            let (_, _, wa, ha) = a.resolved(parent);
            let (_, _, wb, hb) = b.resolved(parent);
            let (_, _, wm, hm) = m.resolved(parent);
            &&& -(4000 + parent.size.x) <= 2000 * (wm - lerp_int(wa, wb, alpha)) <= 4000 + parent.size.x
            &&& -(4000 + parent.size.y) <= 2000 * (hm - lerp_int(ha, hb, alpha)) <= 4000 + parent.size.y
        }),
{
    let m = lerp_space(a, b, alpha);
    lemma_extent_axis(a.size.x, b.size.x, alpha, parent.size.x as int);
    lemma_extent_axis(a.size.y, b.size.y, alpha, parent.size.y as int);
}

proof fn lemma_extent_axis(a: UDim, b: UDim, alpha: int, pe: int)
    requires
        0 <= alpha <= 1000,
        pe >= 0,
        raw_extent(pe, a) >= 0,
        raw_extent(pe, b) >= 0,
    ensures
        ({
            let q = lerp_int(resolved_extent(pe, a), resolved_extent(pe, b), alpha);
            -(4000 + pe) <= 2000 * (resolved_extent(pe, lerp_udim(a, b, alpha)) - q) <= 4000 + pe
        }),
{
    let m = lerp_udim(a, b, alpha);
    lemma_resolution_interpolates_within_rounding(a, b, alpha, 0, pe);
    let na = raw_extent(pe, a);
    let nb = raw_extent(pe, b);
    let nl = raw_extent(pe, m);
    let x = 1000 * na + (nb - na) * alpha;
    assert(x >= 0) by (nonlinear_arith)
        requires
            x == 1000 * na + (nb - na) * alpha,
            na >= 0,
            nb >= 0,
            0 <= alpha <= 1000,
    ;
    let e = 500 * pe + 500_000;
    assert(-e <= 1000 * abs(nl) - x <= e);
    lemma_rounded_interpolation(na, nb, abs(nl), alpha, 1000, e);
}

proof fn lemma_origin_axis(pp: int, pe: int, pa: UDim, sa: UDim, pb: UDim, sb: UDim, anchor: int, alpha: int)
    requires
        0 <= alpha <= 1000,
        pe >= 0,
        raw_extent(pe, sa) >= 1000,
        raw_extent(pe, sb) >= 1000,
        raw_extent(pe, lerp_udim(sa, sb, alpha)) >= 1000,
    ensures
        ({
            let last = if pe > 0 {
                pe - 1
            } else {
                0
            };
            let q = lerp_int(
                resolved_origin(pp, pe, pa, sa, anchor),
                resolved_origin(pp, pe, pb, sb, anchor),
                alpha,
            );
            let r = resolved_origin(pp, pe, lerp_udim(pa, pb, alpha), lerp_udim(sa, sb, alpha), anchor);
            let bound = 2_000_000_000 + 500_000 * last + abs(anchor) * (500 * pe + 500_000);
            -bound <= 1_000_000_000 * (r - q) <= bound
        }),
{
    let last = if pe > 0 {
        pe - 1
    } else {
        0
    };
    let sl = lerp_udim(sa, sb, alpha);
    let pl = lerp_udim(pa, pb, alpha);
    lemma_resolution_interpolates_within_rounding(sa, sb, alpha, pp, pe);
    lemma_resolution_interpolates_within_rounding(pa, pb, alpha, pp, pe);
    let na = raw_extent(pe, sa);
    let nb = raw_extent(pe, sb);
    let nl = raw_extent(pe, sl);
    let ba = raw_origin(pp, pe, pa);
    let bb = raw_origin(pp, pe, pb);
    let bl = raw_origin(pp, pe, pl);
    let en = 1000 * nl - (1000 * na + (nb - na) * alpha);
    let eb = 1000 * bl - (1000 * ba + (bb - ba) * alpha);
    let ea = 500 * pe + 500_000;
    let eo = 500 * last + 500_000;
    let ga = raw_near_edge(pp, pe, pa, sa, anchor);
    let gb = raw_near_edge(pp, pe, pb, sb, anchor);
    let gl = raw_near_edge(pp, pe, pl, sl, anchor);
    assert(ga == 1000 * ba - (na - 1000) * anchor);
    assert(gb == 1000 * bb - (nb - 1000) * anchor);
    assert(gl == 1000 * bl - (nl - 1000) * anchor);
    assert(1000 * gl - (1000 * ga + (gb - ga) * alpha) == 1000 * eb - anchor * en) by (nonlinear_arith)
        requires
            ga == 1000 * ba - (na - 1000) * anchor,
            gb == 1000 * bb - (nb - 1000) * anchor,
            gl == 1000 * bl - (nl - 1000) * anchor,
            en == 1000 * nl - (1000 * na + (nb - na) * alpha),
            eb == 1000 * bl - (1000 * ba + (bb - ba) * alpha),
    ;
    lemma_scaled_bound(1000, eb, eo);
    if anchor >= 0 {
        lemma_scaled_bound(anchor, en, ea);
    } else {
        lemma_scaled_bound(-anchor, en, ea);
        assert((-anchor) * en == -(anchor * en)) by (nonlinear_arith);
    }
    let e = 1000 * eo + abs(anchor) * ea;
    lemma_rounded_interpolation(ga, gb, gl, alpha, 1_000_000, e);
}

/// Interpolating two spaces that share an anchor and then resolving the
/// result in `parent` places the rectangle within rounding of the same
/// interpolation of the two resolved positions, when no size involved flips
/// or falls under one cell: at most two cells apart, plus a share of the
/// parent's extent and of the anchor that comes from rounding scales and
/// offsets to thousandths.
pub proof fn lemma_resolved_position_interpolates(a: Space, b: Space, alpha: int, parent: AbsoluteSpace)
    requires
        0 <= alpha <= 1000,
        a.anchor == b.anchor,
        raw_extent(parent.size.x as int, a.size.x) >= 1000,
        raw_extent(parent.size.x as int, b.size.x) >= 1000,
        raw_extent(parent.size.y as int, a.size.y) >= 1000,
        raw_extent(parent.size.y as int, b.size.y) >= 1000,
        raw_extent(parent.size.x as int, lerp_space(a, b, alpha).size.x) >= 1000,
        raw_extent(parent.size.y as int, lerp_space(a, b, alpha).size.y) >= 1000,
    ensures
        ({
            let m = lerp_space(a, b, alpha);
            let (xa, ya, _, _) = a.resolved(parent);
            let (xb, yb, _, _) = b.resolved(parent);
            let (xm, ym, _, _) = m.resolved(parent);
            let lx = if parent.size.x > 0 {
                parent.size.x - 1
            } else {
                0
            };
            let ly = if parent.size.y > 0 {
                parent.size.y - 1
            } else {
                0
            };
            let bx = 2_000_000_000 + 500_000 * lx + abs(a.anchor.x as int) * (500 * parent.size.x + 500_000);
            let by = 2_000_000_000 + 500_000 * ly + abs(a.anchor.y as int) * (500 * parent.size.y + 500_000);
            &&& m.anchor == a.anchor
            &&& -bx <= 1_000_000_000 * (xm - lerp_int(xa, xb, alpha)) <= bx
            &&& -by <= 1_000_000_000 * (ym - lerp_int(ya, yb, alpha)) <= by
        }),
{
    assert(0 * alpha == 0);
    lemma_round_div_exact(0, 1000);
    lemma_origin_axis(
        parent.position.x as int,
        parent.size.x as int,
        a.position.x,
        a.size.x,
        b.position.x,
        b.size.x,
        a.anchor.x as int,
        alpha,
    );
    lemma_origin_axis(
        parent.position.y as int,
        parent.size.y as int,
        a.position.y,
        a.size.y,
        b.position.y,
        b.size.y,
        a.anchor.y as int,
        alpha,
    );
}

} // verus!
