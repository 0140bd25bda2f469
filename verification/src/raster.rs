//! Filling triangles, row by row, under the depth test: a pixel is drawn
//! only where the triangle is nearer than what the depth buffer holds there,
//! and the depth buffer then holds the triangle's depth.

use vstd::prelude::*;
use crate::color::Color;
use crate::color_buffer::ColorBuffer;
use crate::depth_buffer::DepthBuffer;
use crate::texture::Texture;
use crate::triangle::{edge_column, in_half, Point, Triangle};

verus! {

/// Where a filled pixel takes its colour from.
pub enum Paint<'a> {
    /// One colour for every pixel.
    Flat(Color),
    /// The texture's colour at the pixel's texture coordinate, darkened by
    /// the triangle's light intensity.
    Textured(&'a Texture),
}

impl<'a> Paint<'a> {
    pub open spec fn wf(&self) -> bool {
        match *self {
            Paint::Flat(_) => true,
            Paint::Textured(texture) => texture.wf(),
        }
    }

    /// The colour that the pixel `(x, y)` of the triangle is painted with.
    pub open spec fn color_at(&self, triangle: Triangle, x: int, y: int) -> Color {
        match *self {
            Paint::Flat(color) => color,
            Paint::Textured(texture) => {
                let at = triangle.tex_at(x, y);
                texture.sample_spec(at.0, at.1).shaded_spec(triangle.intensity)
            },
        }
    }

    /// The colour that the pixel `(x, y)` of the triangle is painted with.
    pub fn pixel_color(&self, triangle: &Triangle, x: u32, y: u32) -> (color: Color)
        requires
            self.wf(),
        ensures
            color == self.color_at(*triangle, x as int, y as int),
    {
        match self {
            Paint::Flat(color) => *color,
            Paint::Textured(texture) => {
                let at = triangle.tex_at_pixel(x, y);
                texture.sample(at).shaded(triangle.intensity)
            },
        }
    }
}

/// The two buffers are sound and of one size.
pub open spec fn aligned(colors: ColorBuffer, depths: DepthBuffer) -> bool {
    &&& colors.wf()
    &&& depths.wf()
    &&& colors.spec_width() == depths.spec_width()
    &&& colors.spec_height() == depths.spec_height()
}

/// Whether the triangle passes the depth test at `(x, y)`: it is strictly
/// nearer there than what the depth buffer holds.
pub open spec fn nearer(triangle: Triangle, depths: DepthBuffer, x: int, y: int) -> bool {
    triangle.depth_at(x, y) < depths.depth(x, y)
}

/// The buffers `colors1` and `depths1` are `colors0` and `depths0` after the
/// pixels of `region` were drawn under the depth test: where the triangle is
/// in the region and nearer, the pixel has the paint's colour and the
/// triangle's depth; every other pixel is as before.
pub open spec fn composited(
    triangle: Triangle,
    paint: Paint,
    region: spec_fn(int, int) -> bool,
    colors0: ColorBuffer,
    depths0: DepthBuffer,
    colors1: ColorBuffer,
    depths1: DepthBuffer,
) -> bool {
    &&& aligned(colors1, depths1)
    &&& colors1.same_size(&colors0)
    &&& depths1.same_size(&depths0)
    &&& forall|x: int, y: int|
        colors0.contains(x, y) ==> #[trigger] colors1.pixel(x, y) == (if region(x, y) && nearer(
            triangle,
            depths0,
            x,
            y,
        ) {
            paint.color_at(triangle, x, y)
        } else {
            colors0.pixel(x, y)
        })
    &&& forall|x: int, y: int|
        depths0.contains(x, y) ==> #[trigger] depths1.depth(x, y) as int == (if region(x, y)
            && nearer(triangle, depths0, x, y) {
            triangle.depth_at(x, y)
        } else {
            depths0.depth(x, y) as int
        })
}

/// Draws the pixels of row `y` from column `first` to column `last`.
fn fill_span(
    colors: &mut ColorBuffer,
    depths: &mut DepthBuffer,
    triangle: &Triangle,
    paint: &Paint,
    y: u32,
    first: u32,
    last: u32,
)
    requires
        aligned(*old(colors), *old(depths)),
        paint.wf(),
        first <= last < old(colors).spec_width(),
        y < old(colors).spec_height(),
    ensures
        composited(
            *triangle,
            *paint,
            |i: int, j: int| j == y && first <= i <= last,
            *old(colors),
            *old(depths),
            *final(colors),
            *final(depths),
        ),
{
    let mut x: u64 = first as u64;
    while x <= last as u64
        invariant
            first <= x <= last + 1,
            paint.wf(),
            last < old(colors).spec_width(),
            y < old(colors).spec_height(),
            aligned(*old(colors), *old(depths)),
            composited(
                *triangle,
                *paint,
                |i: int, j: int| j == y && first <= i < x,
                *old(colors),
                *old(depths),
                *colors,
                *depths,
            ),
        decreases last + 1 - x,
    {
        let depth = triangle.depth_at_pixel(x as u32, y);
        if depth < depths.get(x as usize, y as usize) {
            colors.set(x as usize, y as usize, paint.pixel_color(triangle, x as u32, y));
            depths.set(x as usize, y as usize, depth);
        }
        x = x + 1;
    }
}

/// Draws the rows from `a` down to `b`, each between the edge from `a` to `b`
/// and the edge from `top` to `bottom`.
fn fill_half(
    colors: &mut ColorBuffer,
    depths: &mut DepthBuffer,
    triangle: &Triangle,
    paint: &Paint,
    a: Point,
    b: Point,
    top: Point,
    bottom: Point,
)
    requires
        aligned(*old(colors), *old(depths)),
        paint.wf(),
        a.y < b.y,
        top.y <= a.y,
        b.y <= bottom.y,
        a.x < old(colors).spec_width(),
        b.x < old(colors).spec_width(),
        top.x < old(colors).spec_width(),
        bottom.x < old(colors).spec_width(),
        bottom.y < old(colors).spec_height(),
    ensures
        composited(
            *triangle,
            *paint,
            |i: int, j: int| in_half(a, b, top, bottom, i, j),
            *old(colors),
            *old(depths),
            *final(colors),
            *final(depths),
        ),
{
    let mut y: u64 = a.y as u64;
    while y <= b.y as u64
        invariant
            a.y <= y <= b.y + 1,
            paint.wf(),
            a.y < b.y,
            top.y <= a.y,
            b.y <= bottom.y,
            a.x < old(colors).spec_width(),
            b.x < old(colors).spec_width(),
            top.x < old(colors).spec_width(),
            bottom.x < old(colors).spec_width(),
            bottom.y < old(colors).spec_height(),
            aligned(*old(colors), *old(depths)),
            composited(
                *triangle,
                *paint,
                |i: int, j: int| in_half(a, b, top, bottom, i, j) && j < y,
                *old(colors),
                *old(depths),
                *colors,
                *depths,
            ),
        decreases b.y + 1 - y,
    {
        let short_edge = edge_column(a, b, y as u32);
        let long_edge = edge_column(top, bottom, y as u32);
        let first = if short_edge < long_edge { short_edge } else { long_edge };
        let last = if long_edge > short_edge { long_edge } else { short_edge };
        fill_span(colors, depths, triangle, paint, y as u32, first, last);
        y = y + 1;
    }
}

/// Fills the triangle under the depth test.
pub fn fill_triangle(
    colors: &mut ColorBuffer,
    depths: &mut DepthBuffer,
    triangle: &Triangle,
    paint: &Paint,
)
    requires
        aligned(*old(colors), *old(depths)),
        paint.wf(),
        triangle.fits(old(colors).spec_width() as int, old(colors).spec_height() as int),
    ensures
        composited(
            *triangle,
            *paint,
            |x: int, y: int| triangle.covers(x, y),
            *old(colors),
            *old(depths),
            *final(colors),
            *final(depths),
        ),
{
    let (top, mid, bottom) = triangle.sorted_points();
    if top.y != mid.y {
        fill_half(colors, depths, triangle, paint, top, mid, top, bottom);
    }
    if mid.y != bottom.y {
        fill_half(colors, depths, triangle, paint, mid, bottom, top, bottom);
    }
}

impl ColorBuffer {
    /// Fills the triangle with one colour, under the depth test.
    pub fn draw_filled_triangle(
        &mut self,
        depth_buffer: &mut DepthBuffer,
        triangle: &Triangle,
        color: Color,
    )
        requires
            aligned(*old(self), *old(depth_buffer)),
            triangle.fits(old(self).spec_width() as int, old(self).spec_height() as int),
        ensures
            composited(
                *triangle,
                Paint::Flat(color),
                |x: int, y: int| triangle.covers(x, y),
                *old(self),
                *old(depth_buffer),
                *final(self),
                *final(depth_buffer),
            ),
    {
        fill_triangle(self, depth_buffer, triangle, &Paint::Flat(color));
    }

    /// Fills the triangle with the colours of a texture, under the depth test.
    pub fn draw_textured_triangle(
        &mut self,
        depth_buffer: &mut DepthBuffer,
        triangle: &Triangle,
        texture: &Texture,
    )
        requires
            aligned(*old(self), *old(depth_buffer)),
            texture.wf(),
            triangle.fits(old(self).spec_width() as int, old(self).spec_height() as int),
        ensures
            composited(
                *triangle,
                Paint::Textured(texture),
                |x: int, y: int| triangle.covers(x, y),
                *old(self),
                *old(depth_buffer),
                *final(self),
                *final(depth_buffer),
            ),
    {
        fill_triangle(self, depth_buffer, triangle, &Paint::Textured(texture));
    }
}

/// Drawing the same region of the same triangle a second time changes
/// nothing: where the first pass drew, the second finds its own depth and is
/// not nearer; where the first did not draw, neither does the second.
pub proof fn lemma_redraw_changes_nothing(
    triangle: Triangle,
    paint: Paint,
    region: spec_fn(int, int) -> bool,
    colors0: ColorBuffer,
    depths0: DepthBuffer,
    colors1: ColorBuffer,
    depths1: DepthBuffer,
    colors2: ColorBuffer,
    depths2: DepthBuffer,
)
    requires
        composited(triangle, paint, region, colors0, depths0, colors1, depths1),
        composited(triangle, paint, region, colors1, depths1, colors2, depths2),
    ensures
        colors2.same_image(&colors1),
        depths2.same_depths(&depths1),
{
    assert forall|x: int, y: int| colors2.contains(x, y) implies #[trigger] colors2.pixel(x, y)
        == colors1.pixel(x, y) by {
        assert(depths1.depth(x, y) as int == (if region(x, y) && nearer(triangle, depths0, x, y) {
            triangle.depth_at(x, y)
        } else {
            depths0.depth(x, y) as int
        }));
    }
    assert forall|x: int, y: int| depths2.contains(x, y) implies #[trigger] depths2.depth(x, y)
        == depths1.depth(x, y) by {
        assert(depths1.depth(x, y) as int == (if region(x, y) && nearer(triangle, depths0, x, y) {
            triangle.depth_at(x, y)
        } else {
            depths0.depth(x, y) as int
        }));
    }
}

/// Of two triangles drawn one after the other, the nearer one shows: at a
/// pixel of both regions where `near` is nearer than `far` and than what the
/// depth buffer held before, the pixel has the colour of `near` whichever of
/// the two was drawn first.
pub proof fn lemma_nearer_triangle_shows(
    near: Triangle,
    near_paint: Paint,
    near_region: spec_fn(int, int) -> bool,
    far: Triangle,
    far_paint: Paint,
    far_region: spec_fn(int, int) -> bool,
    colors0: ColorBuffer,
    depths0: DepthBuffer,
    colors_near: ColorBuffer,
    depths_near: DepthBuffer,
    colors_near_far: ColorBuffer,
    depths_near_far: DepthBuffer,
    colors_far: ColorBuffer,
    depths_far: DepthBuffer,
    colors_far_near: ColorBuffer,
    depths_far_near: DepthBuffer,
    x: int,
    y: int,
)
    requires
        composited(near, near_paint, near_region, colors0, depths0, colors_near, depths_near),
        composited(
            far,
            far_paint,
            far_region,
            colors_near,
            depths_near,
            colors_near_far,
            depths_near_far,
        ),
        composited(far, far_paint, far_region, colors0, depths0, colors_far, depths_far),
        composited(
            near,
            near_paint,
            near_region,
            colors_far,
            depths_far,
            colors_far_near,
            depths_far_near,
        ),
        colors0.contains(x, y),
        near_region(x, y),
        far_region(x, y),
        near.depth_at(x, y) < far.depth_at(x, y),
        nearer(near, depths0, x, y),
    ensures
        colors_near_far.pixel(x, y) == near_paint.color_at(near, x, y),
        colors_far_near.pixel(x, y) == near_paint.color_at(near, x, y),
        depths_near_far.depth(x, y) == near.depth_at(x, y),
        depths_far_near.depth(x, y) == near.depth_at(x, y),
{
    assert(depths0.contains(x, y));
    assert(depths_near.depth(x, y) as int == near.depth_at(x, y));
    assert(colors_near.pixel(x, y) == near_paint.color_at(near, x, y));
    assert(depths_far.depth(x, y) as int == (if nearer(far, depths0, x, y) {
        far.depth_at(x, y)
    } else {
        depths0.depth(x, y) as int
    }));
    assert(depths_near_far.depth(x, y) as int == near.depth_at(x, y));
    assert(depths_far_near.depth(x, y) as int == near.depth_at(x, y));
}

/// After both buffers were cleared, a filled triangle shows on every pixel
/// that it covers, unless its depth there is the farthest there is.
pub proof fn lemma_fill_on_cleared_buffers(
    triangle: Triangle,
    paint: Paint,
    colors0: ColorBuffer,
    depths0: DepthBuffer,
    colors1: ColorBuffer,
    depths1: DepthBuffer,
    x: int,
    y: int,
)
    requires
        composited(
            triangle,
            paint,
            |i: int, j: int| triangle.covers(i, j),
            colors0,
            depths0,
            colors1,
            depths1,
        ),
        colors0.contains(x, y),
        depths0.depth(x, y) == crate::depth_buffer::FARTHEST,
    ensures
        triangle.covers(x, y) && triangle.depth_at(x, y) < crate::depth_buffer::FARTHEST
            ==> colors1.pixel(x, y) == paint.color_at(triangle, x, y),
        !triangle.covers(x, y) ==> colors1.pixel(x, y) == colors0.pixel(x, y),
{
    assert(depths0.contains(x, y));
}

} // verus!
