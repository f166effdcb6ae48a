//! The clipping arithmetic of drawing: which cells of the character grid a
//! node may write, given where it is laid out and what its ancestors leave
//! visible. Writing the cells themselves is the backend's business.
use vstd::prelude::*;

use crate::space::{fits_i16, AbsoluteSpace, Point2D, Size2D};

verus! {

/// Where a node draws: `absolute_draw_space` is the part of the grid it may
/// write, `absolute_layout_space` the full rectangle it is laid out in.
#[derive(Debug, Clone, Copy, PartialEq, Eq, Structural)]
pub struct DrawContext {
    pub absolute_draw_space: AbsoluteSpace,
    pub absolute_layout_space: AbsoluteSpace,
}

/// A point given relative to `layout`, in absolute terms, when representable.
pub open spec fn spec_absolute_of(layout: AbsoluteSpace, p: Point2D) -> Option<Point2D> {
    let x = layout.position.x + p.x;
    let y = layout.position.y + p.y;
    if fits_i16(x) && fits_i16(y) {
        Some(Point2D { x: x as i16, y: y as i16 })
    } else {
        None
    }
}

fn absolute_of(layout: AbsoluteSpace, p: Point2D) -> (r: Option<Point2D>)
    ensures
        r == spec_absolute_of(layout, p),
{
    let x = layout.position.x as i32 + p.x as i32;
    let y = layout.position.y as i32 + p.y as i32;
    if x < i16::MIN as i32 || x > i16::MAX as i32 || y < i16::MIN as i32 || y > i16::MAX as i32 {
        None
    } else {
        Some(Point2D { x: x as i16, y: y as i16 })
    }
}

impl DrawContext {
    /// A context that may draw over all of `space`.
    pub fn new(space: AbsoluteSpace) -> (r: DrawContext)
        ensures
            r.absolute_draw_space == space,
            r.absolute_layout_space == space,
    {
        DrawContext { absolute_draw_space: space, absolute_layout_space: space }
    }

    /// The same clip with another layout rectangle (a canvas substituted for
    /// the node's own).
    pub fn transform(&mut self, absolute_layout_space: AbsoluteSpace)
        ensures
            *final(self) == (DrawContext { absolute_layout_space, ..*old(self) }),
    {
        self.absolute_layout_space = absolute_layout_space;
    }

    /// The absolute cell at `point` (relative to the layout rectangle), when it
    /// may be drawn.
    pub fn cell_at(&self, point: Point2D) -> (r: Option<Point2D>)
        ensures
            r == match spec_absolute_of(self.absolute_layout_space, point) {
                Some(a) => if self.absolute_draw_space.contains_point(a) {
                    Some(a)
                } else {
                    None
                },
                None => None,
            },
    {
        match absolute_of(self.absolute_layout_space, point) {
            Some(a) => if self.absolute_draw_space.is_interior_point(a) {
                Some(a)
            } else {
                None
            },
            None => None,
        }
    }

    /// The visible part of a rectangle given relative to the layout rectangle.
    pub fn widget_space(&self, layout_space: AbsoluteSpace) -> (r: Option<AbsoluteSpace>)
        ensures
            r == match spec_absolute_of(self.absolute_layout_space, layout_space.position) {
                Some(p) => (AbsoluteSpace { size: layout_space.size, position: p }).spec_try_intersection(
                    self.absolute_draw_space,
                ),
                None => None,
            },
    {
        match absolute_of(self.absolute_layout_space, layout_space.position) {
            Some(p) => (AbsoluteSpace { size: layout_space.size, position: p }).try_intersection(
                self.absolute_draw_space,
            ),
            None => None,
        }
    }

    /// The visible part of an overlay of `size` cells placed at the layout
    /// rectangle's corner: (where the overlay lies, the part of it to copy).
    pub fn overlay_spaces(&self, size: Size2D) -> (r: Option<(AbsoluteSpace, AbsoluteSpace)>)
        ensures
            ({
                let placed = AbsoluteSpace { size, position: self.absolute_layout_space.position };
                r == match placed.spec_try_intersection(self.absolute_draw_space) {
                    Some(d) => Some((placed, d)),
                    None => None,
                }
            }),
    {
        let placed = AbsoluteSpace { size, position: self.absolute_layout_space.position };
        match placed.try_intersection(self.absolute_draw_space) {
            Some(d) => Some((placed, d)),
            None => None,
        }
    }

    /// The visible part of a one-row string of `len` cells written at
    /// `position` (relative to the layout rectangle): the absolute cell of its
    /// first visible character and the range of visible character indices.
    pub fn string_line_span(&self, len: usize, position: Point2D) -> (r: Option<(Point2D, usize, usize)>)
        ensures
            ({
                let width = if len > u16::MAX {
                    u16::MAX
                } else {
                    len as u16
                };
                r == match spec_absolute_of(self.absolute_layout_space, position) {
                    Some(p) => match self.absolute_draw_space.spec_try_intersection(
                        AbsoluteSpace { size: Size2D { x: width, y: 1 }, position: p },
                    ) {
                        Some(d) => Some(
                            (d.position, (d.spec_left() - p.x) as usize, (d.spec_right() - p.x) as usize),
                        ),
                        None => None,
                    },
                    None => None,
                }
            }),
    {
        let width: u16 = if len > u16::MAX as usize {
            u16::MAX
        } else {
            len as u16
        };
        match absolute_of(self.absolute_layout_space, position) {
            Some(p) => {
                let line = AbsoluteSpace { size: Size2D { x: width, y: 1 }, position: p };
                match self.absolute_draw_space.try_intersection(line) {
                    Some(d) => {
                        let lb = (d.position.x as i32 - p.x as i32) as usize;
                        let ub = (d.position.x as i32 + d.size.x as i32 - p.x as i32) as usize;
                        Some((d.position, lb, ub))
                    },
                    None => None,
                }
            },
            None => None,
        }
    }
}

} // verus!
