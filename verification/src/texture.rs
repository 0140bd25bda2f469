//! Textures: images that a triangle's pixels take their colour from.

use vstd::prelude::*;
use crate::color::Color;
use crate::grid::Grid;
use crate::triangle::{lemma_product_bound, Tex2};

verus! {

/// An image of at least one texel. A coordinate counts texels in units of
/// 1/65536 of the image's width or height, so every coordinate names a texel:
/// the largest one, 65535, a texel of the last column or row.
pub struct Texture {
    grid: Grid<Color>,
    flip_v: bool,
}

/// The column or row of the texel at `coord`, in an image `size` texels wide or high.
pub open spec fn texel_index(coord: int, size: int) -> int {
    (coord * size) / 65536
}

impl Texture {
    pub closed spec fn wf(&self) -> bool {
        self.grid.wf() && self.grid.cols() > 0 && self.grid.rows() > 0
    }

    pub closed spec fn spec_width(&self) -> nat {
        self.grid.cols()
    }

    pub closed spec fn spec_height(&self) -> nat {
        self.grid.rows()
    }

    /// Whether rows are counted from the bottom when sampling.
    pub closed spec fn flips(&self) -> bool {
        self.flip_v
    }

    /// The texel at column `x` of row `y`.
    pub closed spec fn texel(&self, x: int, y: int) -> Color {
        self.grid.at(x, y)
    }

    /// The texels row after row.
    pub closed spec fn view(&self) -> Seq<Color> {
        self.grid@
    }

    /// The colour at `(u, v)`: that of the texel which holds the coordinate.
    pub open spec fn sample_spec(&self, u: int, v: int) -> Color {
        let row = if self.flips() {
            65535 - v
        } else {
            v
        };
        self.texel(
            texel_index(u, self.spec_width() as int),
            texel_index(row, self.spec_height() as int),
        )
    }

    /// An image of one colour.
    pub fn from_color(width: usize, height: usize, color: Color) -> (texture: Texture)
        requires
            0 < width,
            0 < height,
            width * height <= usize::MAX,
        ensures
            texture.wf(),
            texture.spec_width() == width,
            texture.spec_height() == height,
            !texture.flips(),
            forall|x: int, y: int|
                0 <= x < width && 0 <= y < height ==> #[trigger] texture.texel(x, y) == color,
    {
        Texture { grid: Grid::filled(width, height, color), flip_v: false }
    }

    /// An image of the given texels, row after row; none where the image
    /// would be empty or the texels are not `width * height` in number.
    pub fn from_texels(width: usize, height: usize, texels: Vec<Color>) -> (texture: Option<
        Texture,
    >)
        ensures
            texture.is_some() <==> (0 < width && 0 < height && texels.len() == width * height),
            texture.is_some() ==> {
                &&& texture.unwrap().wf()
                &&& texture.unwrap().spec_width() == width
                &&& texture.unwrap().spec_height() == height
                &&& !texture.unwrap().flips()
                &&& texture.unwrap()@ == texels@
            },
    {
        if width == 0 || height == 0 {
            return None;
        }
        match Grid::from_cells(width, height, texels) {
            Some(grid) => Some(Texture { grid, flip_v: false }),
            None => None,
        }
    }

    /// Chooses whether rows are counted from the bottom when sampling.
    pub fn set_flip_vertically(&mut self, flip: bool)
        requires
            old(self).wf(),
        ensures
            final(self).wf(),
            final(self).flips() == flip,
            final(self).spec_width() == old(self).spec_width(),
            final(self).spec_height() == old(self).spec_height(),
            final(self)@ == old(self)@,
            forall|x: int, y: int| #[trigger] final(self).texel(x, y) == old(self).texel(x, y),
    {
        self.flip_v = flip;
    }

    pub fn width(&self) -> (w: usize)
        ensures
            w == self.spec_width(),
    {
        self.grid.width()
    }

    pub fn height(&self) -> (h: usize)
        ensures
            h == self.spec_height(),
    {
        self.grid.height()
    }

    /// How `texel` reads the row-major view.
    pub proof fn lemma_texel(&self, x: int, y: int)
        requires
            self.wf(),
            0 <= x < self.spec_width(),
            0 <= y < self.spec_height(),
        ensures
            0 <= y * self.spec_width() + x < self@.len(),
            self.texel(x, y) == self@[y * self.spec_width() + x],
    {
        self.grid.lemma_at(x, y);
    }

    /// The colour at a texture coordinate.
    pub fn sample(&self, at: Tex2) -> (color: Color)
        requires
            self.wf(),
        ensures
            color == self.sample_spec(at.u as int, at.v as int),
    {
        let row: u16 = if self.flip_v {
            65535 - at.v
        } else {
            at.v
        };
        let x = scale(at.u, self.grid.width());
        let y = scale(row, self.grid.height());
        self.grid.get(x, y)
    }
}

/// A coordinate always names a column or row of the image.
pub proof fn lemma_texel_index_bounds(coord: int, size: int)
    requires
        0 <= coord <= 65535,
        0 < size,
    ensures
        0 <= texel_index(coord, size) < size,
{
    lemma_product_bound(coord, size, 65535, size);
}

fn scale(coord: u16, size: usize) -> (index: usize)
    requires
        0 < size,
    ensures
        index == texel_index(coord as int, size as int),
        index < size,
{
    proof {
        lemma_texel_index_bounds(coord as int, size as int);
        lemma_product_bound(coord as int, size as int, 65535, size as int);
    }
    (((coord as u128) * (size as u128)) / 65536) as usize
}

} // verus!
