//! The colour buffer: the image that the rasterizer draws into.

use vstd::prelude::*;
use crate::color::Color;
use crate::grid::Grid;

verus! {

/// A `width` by `height` image of colours.
pub struct ColorBuffer {
    grid: Grid<Color>,
}

impl ColorBuffer {
    pub closed spec fn wf(&self) -> bool {
        self.grid.wf()
    }

    pub closed spec fn spec_width(&self) -> nat {
        self.grid.cols()
    }

    pub closed spec fn spec_height(&self) -> nat {
        self.grid.rows()
    }

    /// The colour of the pixel at column `x` of row `y`.
    pub closed spec fn pixel(&self, x: int, y: int) -> Color {
        self.grid.at(x, y)
    }

    /// The pixels row after row.
    pub closed spec fn view(&self) -> Seq<Color> {
        self.grid@
    }

    pub open spec fn contains(&self, x: int, y: int) -> bool {
        0 <= x < self.spec_width() && 0 <= y < self.spec_height()
    }

    pub open spec fn same_size(&self, other: &ColorBuffer) -> bool {
        self.spec_width() == other.spec_width() && self.spec_height() == other.spec_height()
    }

    /// Both buffers show the same image.
    pub open spec fn same_image(&self, other: &ColorBuffer) -> bool {
        self.same_size(other) && forall|x: int, y: int|
            self.contains(x, y) ==> #[trigger] self.pixel(x, y) == other.pixel(x, y)
    }

    /// How `pixel` reads the row-major view.
    pub proof fn lemma_pixel(&self, x: int, y: int)
        requires
            self.wf(),
            self.contains(x, y),
        ensures
            0 <= y * self.spec_width() + x < self@.len(),
            self@.len() == self.spec_width() * self.spec_height(),
            self.pixel(x, y) == self@[y * self.spec_width() + x],
    {
        self.grid.lemma_at(x, y);
    }

    /// A black image.
    pub fn new(width: usize, height: usize) -> (buffer: ColorBuffer)
        requires
            width * height <= usize::MAX,
        ensures
            buffer.wf(),
            buffer.spec_width() == width,
            buffer.spec_height() == height,
            forall|x: int, y: int|
                buffer.contains(x, y) ==> #[trigger] buffer.pixel(x, y) == (Color {
                    r: 0,
                    g: 0,
                    b: 0,
                }),
    {
        ColorBuffer { grid: Grid::filled(width, height, Color::new(0, 0, 0)) }
    }

    pub fn width(&self) -> (w: usize)
        ensures
            w == self.spec_width(),
    {
        self.grid.width()
    }

    pub fn height(&self) -> (h: usize)
        ensures
            h == self.spec_height(),
    {
        self.grid.height()
    }

    pub fn get(&self, x: usize, y: usize) -> (color: Color)
        requires
            self.wf(),
            self.contains(x as int, y as int),
        ensures
            color == self.pixel(x as int, y as int),
    {
        self.grid.get(x, y)
    }

    /// Colours one pixel and leaves every other pixel as it was.
    pub fn set(&mut self, x: usize, y: usize, color: Color)
        requires
            old(self).wf(),
            old(self).contains(x as int, y as int),
        ensures
            final(self).wf(),
            final(self).same_size(old(self)),
            forall|i: int, j: int|
                old(self).contains(i, j) ==> #[trigger] final(self).pixel(i, j) == (if i == x && j
                    == y {
                    color
                } else {
                    old(self).pixel(i, j)
                }),
    {
        self.grid.set(x, y, color);
    }

    /// Colours every pixel.
    pub fn clear(&mut self, color: Color)
        requires
            old(self).wf(),
        ensures
            final(self).wf(),
            final(self).same_size(old(self)),
            forall|x: int, y: int|
                final(self).contains(x, y) ==> #[trigger] final(self).pixel(x, y) == color,
    {
        self.grid.fill(color);
    }

    /// The image as packed `0xRRGGBB` words, row after row.
    pub fn buffer(&self) -> (words: Vec<u32>)
        requires
            self.wf(),
        ensures
            words.len() == self@.len(),
            forall|k: int| 0 <= k < words.len() ==> #[trigger] words[k] == self@[k].packed(),
    {
        let cells = self.grid.cells();
        let n: usize = cells.len();
        let mut words: Vec<u32> = Vec::new();
        let mut i: usize = 0;
        while i < n
            invariant
                i <= n,
                n == cells.len(),
                cells@ == self@,
                words.len() == i,
                forall|k: int| 0 <= k < i ==> #[trigger] words[k] == self@[k].packed(),
            decreases n - i,
        {
            words.push(cells[i].to_u32());
            i = i + 1;
        }
        words
    }
}

} // verus!
