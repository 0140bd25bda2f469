//! Drawing into the colour buffer: the grid, rectangles, lines and the
//! outline of a triangle. None of these consults a depth buffer: they are
//! overlays, and always drawn.

use vstd::prelude::*;
use crate::color::Color;
use crate::color_buffer::ColorBuffer;
use crate::line::{
    lemma_line_ends, lemma_line_of_one_pixel, lemma_nearest_bounds,
    lemma_on_line_before_step, lemma_tracks_nearest, lemma_tracks_step, line_point, line_steps,
    on_line, on_line_before, tracks,
};
use crate::triangle::Triangle;

verus! {

/// The distance between the dots of the grid, in both directions.
pub const GRID_SPACING: usize = 10;

/// The grey of the grid's dots.
pub open spec fn grid_color() -> Color {
    Color { r: 0x55, g: 0x55, b: 0x55 }
}

/// Whether the grid has a dot at `(x, y)`.
pub open spec fn on_grid(x: int, y: int) -> bool {
    x % 10 == 0 && y % 10 == 0
}

/// Whether `(px, py)` lies in the rectangle of the given size whose first pixel is `(x, y)`.
pub open spec fn in_rect(x: int, y: int, width: int, height: int, px: int, py: int) -> bool {
    x <= px < x + width && y <= py < y + height
}

/// Whether `(x, y)` lies on one of the three sides of the triangle.
pub open spec fn on_outline(triangle: &Triangle, x: int, y: int) -> bool {
    let a = triangle.points[0];
    let b = triangle.points[1];
    let c = triangle.points[2];
    ||| on_line(a.x as int, a.y as int, b.x as int, b.y as int, x, y)
    ||| on_line(b.x as int, b.y as int, c.x as int, c.y as int, x, y)
    ||| on_line(c.x as int, c.y as int, a.x as int, a.y as int, x, y)
}

/// One step of a line in one axis: from the quotient and remainder of the
/// rounded position to those of the next.
fn advance(q: i128, r: i128, d: i128, s: i128) -> (next: (i128, i128))
    requires
        0 < s <= usize::MAX,
        -s <= d <= s,
        0 <= r < 2 * s,
        -(usize::MAX as int) <= q <= usize::MAX,
    ensures
        next.0 * (2 * s) + next.1 == q * (2 * s) + r + 2 * d,
        0 <= next.1 < 2 * s,
        -1 <= next.0 - q <= 1,
{
    let moved: i128 = r + 2 * d;
    assert((q + 1) * (2 * s) == q * (2 * s) + 2 * s) by (nonlinear_arith);
    assert((q - 1) * (2 * s) == q * (2 * s) - 2 * s) by (nonlinear_arith);
    if moved >= 2 * s {
        (q + 1, moved - 2 * s)
    } else if moved < 0 {
        (q - 1, moved + 2 * s)
    } else {
        (q, moved)
    }
}

impl ColorBuffer {
    /// Draws the grid: a grey dot on every tenth pixel of every tenth row.
    pub fn draw_grid(&mut self)
        requires
            old(self).wf(),
        ensures
            final(self).wf(),
            final(self).same_size(old(self)),
            forall|x: int, y: int|
                old(self).contains(x, y) ==> #[trigger] final(self).pixel(x, y) == (if on_grid(
                    x,
                    y,
                ) {
                    grid_color()
                } else {
                    old(self).pixel(x, y)
                }),
    {
        let width = self.width();
        let height = self.height();
        let mut x: usize = 0;
        while x < width
            invariant
                self.wf(),
                self.same_size(old(self)),
                width == self.spec_width(),
                height == self.spec_height(),
                x % 10 == 0 || x == width,
                x <= width,
                forall|i: int, j: int|
                    old(self).contains(i, j) ==> #[trigger] self.pixel(i, j) == (if on_grid(i, j)
                        && i < x {
                        grid_color()
                    } else {
                        old(self).pixel(i, j)
                    }),
            decreases width - x,
        {
            let mut y: usize = 0;
            while y < height
                invariant
                    self.wf(),
                    self.same_size(old(self)),
                    width == self.spec_width(),
                    height == self.spec_height(),
                    x < width,
                    x % 10 == 0,
                    y % 10 == 0 || y == height,
                    y <= height,
                    forall|i: int, j: int|
                        old(self).contains(i, j) ==> #[trigger] self.pixel(i, j) == (if on_grid(
                            i,
                            j,
                        ) && (i < x || (i == x && j < y)) {
                            grid_color()
                        } else {
                            old(self).pixel(i, j)
                        }),
                decreases height - y,
            {
                self.set(x, y, Color::new(0x55, 0x55, 0x55));
                y = if height - y <= GRID_SPACING {
                    height
                } else {
                    y + GRID_SPACING
                };
            }
            x = if width - x <= GRID_SPACING {
                width
            } else {
                x + GRID_SPACING
            };
        }
    }

    /// Fills the rectangle of the given size whose first pixel is `(x, y)`.
    pub fn draw_rect(&mut self, x: usize, y: usize, width: usize, height: usize, color: Color)
        requires
            old(self).wf(),
            x + width <= old(self).spec_width(),
            y + height <= old(self).spec_height(),
        ensures
            final(self).wf(),
            final(self).same_size(old(self)),
            forall|i: int, j: int|
                old(self).contains(i, j) ==> #[trigger] final(self).pixel(i, j) == (if in_rect(
                    x as int,
                    y as int,
                    width as int,
                    height as int,
                    i,
                    j,
                ) {
                    color
                } else {
                    old(self).pixel(i, j)
                }),
    {
        let columns = self.width();
        let rows = self.height();
        let mut xi: usize = 0;
        while xi < width
            invariant
                self.wf(),
                self.same_size(old(self)),
                xi <= width,
                columns == self.spec_width(),
                rows == self.spec_height(),
                x + width <= columns,
                y + height <= rows,
                forall|i: int, j: int|
                    old(self).contains(i, j) ==> #[trigger] self.pixel(i, j) == (if in_rect(
                        x as int,
                        y as int,
                        xi as int,
                        height as int,
                        i,
                        j,
                    ) {
                        color
                    } else {
                        old(self).pixel(i, j)
                    }),
            decreases width - xi,
        {
            let mut yi: usize = 0;
            while yi < height
                invariant
                    self.wf(),
                    self.same_size(old(self)),
                    xi < width,
                    yi <= height,
                    columns == self.spec_width(),
                    rows == self.spec_height(),
                    x + width <= columns,
                    y + height <= rows,
                    forall|i: int, j: int|
                        old(self).contains(i, j) ==> #[trigger] self.pixel(i, j) == (if in_rect(
                            x as int,
                            y as int,
                            xi as int,
                            height as int,
                            i,
                            j,
                        ) || (i == x + xi && y <= j < y + yi) {
                            color
                        } else {
                            old(self).pixel(i, j)
                        }),
                decreases height - yi,
            {
                self.set(x + xi, y + yi, color);
                yi = yi + 1;
            }
            xi = xi + 1;
        }
    }

    /// Draws the line from `(x0, y0)` to `(x1, y1)`, both ends included.
    pub fn draw_line(&mut self, x0: usize, y0: usize, x1: usize, y1: usize, color: Color)
        requires
            old(self).wf(),
            old(self).contains(x0 as int, y0 as int),
            old(self).contains(x1 as int, y1 as int),
        ensures
            final(self).wf(),
            final(self).same_size(old(self)),
            forall|x: int, y: int|
                old(self).contains(x, y) ==> #[trigger] final(self).pixel(x, y) == (if on_line(
                    x0 as int,
                    y0 as int,
                    x1 as int,
                    y1 as int,
                    x,
                    y,
                ) {
                    color
                } else {
                    old(self).pixel(x, y)
                }),
    {
        let dx: i128 = x1 as i128 - x0 as i128;
        let dy: i128 = y1 as i128 - y0 as i128;
        let span_x: i128 = if dx >= 0 { dx } else { -dx };
        let span_y: i128 = if dy >= 0 { dy } else { -dy };
        let steps: i128 = if span_x >= span_y { span_x } else { span_y };
        assert(steps == line_steps(x0 as int, y0 as int, x1 as int, y1 as int));
        if steps == 0 {
            self.set(x0, y0, color);
            proof {
                assert forall|x: int, y: int| old(self).contains(x, y) implies #[trigger] self.pixel(
                    x,
                    y,
                ) == (if on_line(x0 as int, y0 as int, x1 as int, y1 as int, x, y) {
                    color
                } else {
                    old(self).pixel(x, y)
                }) by {
                    lemma_line_of_one_pixel(x0 as int, y0 as int, x, y);
                }
            }
            return ;
        }
        let mut i: i128 = 0;
        let mut qx: i128 = 0;
        let mut rx: i128 = steps;
        let mut qy: i128 = 0;
        let mut ry: i128 = steps;
        assert(0 * dx == 0 && 0 * dy == 0 && 0 * (2 * steps) == 0) by (nonlinear_arith);
        while i < steps
            invariant
                self.wf(),
                self.same_size(old(self)),
                old(self).contains(x0 as int, y0 as int),
                old(self).contains(x1 as int, y1 as int),
                dx == x1 - x0,
                dy == y1 - y0,
                0 < steps <= usize::MAX,
                steps == line_steps(x0 as int, y0 as int, x1 as int, y1 as int),
                0 <= i <= steps,
                tracks(i as int, dx as int, steps as int, qx as int, rx as int),
                tracks(i as int, dy as int, steps as int, qy as int, ry as int),
                forall|x: int, y: int|
                    old(self).contains(x, y) ==> #[trigger] self.pixel(x, y) == (if on_line_before(
                        x0 as int,
                        y0 as int,
                        x1 as int,
                        y1 as int,
                        i as int,
                        x,
                        y,
                    ) {
                        color
                    } else {
                        old(self).pixel(x, y)
                    }),
            decreases steps - i,
        {
            proof {
                lemma_tracks_nearest(i as int, dx as int, steps as int, qx as int, rx as int);
                lemma_tracks_nearest(i as int, dy as int, steps as int, qy as int, ry as int);
                lemma_nearest_bounds(i as int, dx as int, steps as int);
                lemma_nearest_bounds(i as int, dy as int, steps as int);
            }
            let px: usize = (x0 as i128 + qx) as usize;
            let py: usize = (y0 as i128 + qy) as usize;
            let ghost before = *self;
            self.set(px, py, color);
            proof {
                assert(line_point(x0 as int, y0 as int, x1 as int, y1 as int, i as int) == (
                    px as int,
                    py as int,
                ));
                assert forall|x: int, y: int| old(self).contains(x, y) implies #[trigger] self.pixel(
                    x,
                    y,
                ) == (if on_line_before(
                    x0 as int,
                    y0 as int,
                    x1 as int,
                    y1 as int,
                    i as int + 1,
                    x,
                    y,
                ) {
                    color
                } else {
                    old(self).pixel(x, y)
                }) by {
                    lemma_on_line_before_step(
                        x0 as int,
                        y0 as int,
                        x1 as int,
                        y1 as int,
                        i as int,
                        x,
                        y,
                    );
                }
            }
            let next_x = advance(qx, rx, dx, steps);
            let next_y = advance(qy, ry, dy, steps);
            proof {
                lemma_tracks_step(
                    i as int,
                    dx as int,
                    steps as int,
                    qx as int,
                    rx as int,
                    next_x.0 as int,
                    next_x.1 as int,
                );
                lemma_tracks_step(
                    i as int,
                    dy as int,
                    steps as int,
                    qy as int,
                    ry as int,
                    next_y.0 as int,
                    next_y.1 as int,
                );
            }
            qx = next_x.0;
            rx = next_x.1;
            qy = next_y.0;
            ry = next_y.1;
            i = i + 1;
        }
        self.set(x1, y1, color);
        proof {
            lemma_line_ends(x0 as int, y0 as int, x1 as int, y1 as int);
            assert forall|x: int, y: int| old(self).contains(x, y) implies #[trigger] self.pixel(
                x,
                y,
            ) == (if on_line(x0 as int, y0 as int, x1 as int, y1 as int, x, y) {
                color
            } else {
                old(self).pixel(x, y)
            }) by {
                lemma_on_line_before_step(
                    x0 as int,
                    y0 as int,
                    x1 as int,
                    y1 as int,
                    steps as int,
                    x,
                    y,
                );
            }
        }
    }

    /// Draws the three sides of a triangle: from the first corner to the
    /// second, on to the third, and back to the first.
    pub fn draw_triangle(&mut self, triangle: &Triangle, color: Color)
        requires
            old(self).wf(),
            triangle.fits(old(self).spec_width() as int, old(self).spec_height() as int),
        ensures
            final(self).wf(),
            final(self).same_size(old(self)),
            forall|x: int, y: int|
                old(self).contains(x, y) ==> #[trigger] final(self).pixel(x, y) == (if on_outline(
                    triangle,
                    x,
                    y,
                ) {
                    color
                } else {
                    old(self).pixel(x, y)
                }),
    {
        let a = triangle.points[0];
        let b = triangle.points[1];
        let c = triangle.points[2];
        self.draw_line(a.x as usize, a.y as usize, b.x as usize, b.y as usize, color);
        self.draw_line(b.x as usize, b.y as usize, c.x as usize, c.y as usize, color);
        self.draw_line(c.x as usize, c.y as usize, a.x as usize, a.y as usize, color);
    }
}

} // verus!
