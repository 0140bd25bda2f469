//! The depth buffer: for each pixel, how near the nearest surface drawn so
//! far is. A smaller depth is nearer to the camera.

use vstd::prelude::*;
use crate::grid::Grid;

verus! {

/// The depth of a pixel on which nothing has been drawn: the farthest there is.
pub const FARTHEST: u32 = 0xFFFF_FFFF;

/// A `width` by `height` grid of depths.
pub struct DepthBuffer {
    grid: Grid<u32>,
}

impl DepthBuffer {
    pub closed spec fn wf(&self) -> bool {
        self.grid.wf()
    }

    pub closed spec fn spec_width(&self) -> nat {
        self.grid.cols()
    }

    pub closed spec fn spec_height(&self) -> nat {
        self.grid.rows()
    }

    /// The depth stored for the pixel at column `x` of row `y`.
    pub closed spec fn depth(&self, x: int, y: int) -> u32 {
        self.grid.at(x, y)
    }

    pub open spec fn contains(&self, x: int, y: int) -> bool {
        0 <= x < self.spec_width() && 0 <= y < self.spec_height()
    }

    pub open spec fn same_size(&self, other: &DepthBuffer) -> bool {
        self.spec_width() == other.spec_width() && self.spec_height() == other.spec_height()
    }

    /// Both buffers store the same depths.
    pub open spec fn same_depths(&self, other: &DepthBuffer) -> bool {
        self.same_size(other) && forall|x: int, y: int|
            self.contains(x, y) ==> #[trigger] self.depth(x, y) == other.depth(x, y)
    }

    /// A buffer with every pixel at the farthest depth.
    pub fn new(width: usize, height: usize) -> (buffer: DepthBuffer)
        requires
            width * height <= usize::MAX,
        ensures
            buffer.wf(),
            buffer.spec_width() == width,
            buffer.spec_height() == height,
            forall|x: int, y: int|
                buffer.contains(x, y) ==> #[trigger] buffer.depth(x, y) == FARTHEST,
    {
        DepthBuffer { grid: Grid::filled(width, height, FARTHEST) }
    }

    pub fn width(&self) -> (w: usize)
        ensures
            w == self.spec_width(),
    {
        self.grid.width()
    }

    pub fn height(&self) -> (h: usize)
        ensures
            h == self.spec_height(),
    {
        self.grid.height()
    }

    pub fn get(&self, x: usize, y: usize) -> (depth: u32)
        requires
            self.wf(),
            self.contains(x as int, y as int),
        ensures
            depth == self.depth(x as int, y as int),
    {
        self.grid.get(x, y)
    }

    /// Stores the depth of one pixel and leaves every other as it was.
    pub fn set(&mut self, x: usize, y: usize, depth: u32)
        requires
            old(self).wf(),
            old(self).contains(x as int, y as int),
        ensures
            final(self).wf(),
            final(self).same_size(old(self)),
            forall|i: int, j: int|
                old(self).contains(i, j) ==> #[trigger] final(self).depth(i, j) == (if i == x && j
                    == y {
                    depth
                } else {
                    old(self).depth(i, j)
                }),
    {
        self.grid.set(x, y, depth);
    }

    /// Stores `depth` for every pixel.
    pub fn clear(&mut self, depth: u32)
        requires
            old(self).wf(),
        ensures
            final(self).wf(),
            final(self).same_size(old(self)),
            forall|x: int, y: int|
                final(self).contains(x, y) ==> #[trigger] final(self).depth(x, y) == depth,
    {
        self.grid.fill(depth);
    }
}

} // verus!
