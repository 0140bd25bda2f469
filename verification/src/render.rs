//! Drawing the triangles of a frame in the chosen mode.
//!
//! Filling goes through the depth test. Outlines and corner points do not:
//! they are overlays, drawn over whatever is there, and leave the depth
//! buffer alone.

use vstd::prelude::*;
use crate::color::Color;
use crate::color_buffer::ColorBuffer;
use crate::depth_buffer::DepthBuffer;
use crate::drawing::on_outline;
use crate::raster::{aligned, fill_triangle, Paint};
use crate::texture::Texture;
use crate::triangle::Triangle;

verus! {

/// What is drawn of each triangle.
#[derive(Clone, Copy, Debug, PartialEq, Eq, Structural)]
pub enum RenderMode {
    /// The three corners, as points.
    Vertices,
    /// The three sides.
    Wireframe,
    /// The face in one colour.
    Filled,
    /// The face in one colour, and the sides over it.
    WireframeFilled,
    /// The face in the colours of the texture.
    Textured,
    /// The face in the colours of the texture, and the sides over it.
    WireframeTextured,
}

/// The mode and the colours of a frame.
#[derive(Clone, Copy, Debug)]
pub struct RenderSettings {
    pub render_mode: RenderMode,
    pub fill_color: Color,
    pub outline_color: Color,
    pub vertex_color: Color,
}

impl RenderMode {
    pub open spec fn fills(self) -> bool {
        self == RenderMode::Filled || self == RenderMode::WireframeFilled || self.textures()
    }

    pub open spec fn textures(self) -> bool {
        self == RenderMode::Textured || self == RenderMode::WireframeTextured
    }

    pub open spec fn outlines(self) -> bool {
        self == RenderMode::Wireframe || self == RenderMode::WireframeFilled || self
            == RenderMode::WireframeTextured
    }

    pub open spec fn marks_corners(self) -> bool {
        self == RenderMode::Vertices
    }

    /// Whether the mode fills faces.
    pub fn is_filling(self) -> (b: bool)
        ensures
            b == self.fills(),
    {
        match self {
            RenderMode::Filled | RenderMode::WireframeFilled => true,
            RenderMode::Textured | RenderMode::WireframeTextured => true,
            _ => false,
        }
    }

    /// Whether the mode takes the faces' colours from the texture.
    pub fn is_texturing(self) -> (b: bool)
        ensures
            b == self.textures(),
    {
        match self {
            RenderMode::Textured | RenderMode::WireframeTextured => true,
            _ => false,
        }
    }

    /// Whether the mode draws the sides.
    pub fn is_outlining(self) -> (b: bool)
        ensures
            b == self.outlines(),
    {
        match self {
            RenderMode::Wireframe => true,
            RenderMode::WireframeFilled | RenderMode::WireframeTextured => true,
            _ => false,
        }
    }

    /// Whether the mode draws the corners as points.
    pub fn is_marking_corners(self) -> (b: bool)
        ensures
            b == self.marks_corners(),
    {
        match self {
            RenderMode::Vertices => true,
            _ => false,
        }
    }
}

/// Whether `(x, y)` is a corner of the triangle.
pub open spec fn is_corner(triangle: Triangle, x: int, y: int) -> bool {
    exists|k: int| 0 <= k < 3 && triangle.points[k].x == x && triangle.points[k].y == y
}

/// What faces are filled with: the texture in the textured modes, else the
/// fill colour darkened by the face's light intensity.
pub open spec fn paint_of<'a>(
    settings: RenderSettings,
    triangle: Triangle,
    texture: &'a Texture,
) -> Paint<'a> {
    if settings.render_mode.textures() {
        Paint::Textured(texture)
    } else {
        Paint::Flat(settings.fill_color.shaded_spec(triangle.intensity))
    }
}

/// Whether the triangle is filled at `(x, y)` over a pixel of depth `depth`.
pub open spec fn fills_at(settings: RenderSettings, triangle: Triangle, depth: int, x: int, y: int) -> bool {
    settings.render_mode.fills() && triangle.covers(x, y) && triangle.depth_at(x, y) < depth
}

/// The depth of the pixel `(x, y)` after the triangle was drawn over a pixel
/// of depth `depth`.
pub open spec fn depth_after_triangle(
    settings: RenderSettings,
    triangle: Triangle,
    depth: int,
    x: int,
    y: int,
) -> int {
    if fills_at(settings, triangle, depth, x, y) {
        triangle.depth_at(x, y)
    } else {
        depth
    }
}

/// The colour of the pixel `(x, y)` after the triangle was drawn over a
/// pixel of colour `color` and depth `depth`: corner points and sides lie
/// over the filled face.
pub open spec fn color_after_triangle(
    settings: RenderSettings,
    triangle: Triangle,
    texture: &Texture,
    color: Color,
    depth: int,
    x: int,
    y: int,
) -> Color {
    if settings.render_mode.marks_corners() && is_corner(triangle, x, y) {
        settings.vertex_color
    } else if settings.render_mode.outlines() && on_outline(&triangle, x, y) {
        settings.outline_color
    } else if fills_at(settings, triangle, depth, x, y) {
        paint_of(settings, triangle, texture).color_at(triangle, x, y)
    } else {
        color
    }
}

/// The depth of the pixel `(x, y)` after the first `n` triangles were drawn.
pub open spec fn depth_after(
    settings: RenderSettings,
    triangles: Seq<Triangle>,
    n: nat,
    depths: DepthBuffer,
    x: int,
    y: int,
) -> int
    decreases n,
{
    if n == 0 {
        depths.depth(x, y) as int
    } else {
        depth_after_triangle(
            settings,
            triangles[n - 1],
            depth_after(settings, triangles, (n - 1) as nat, depths, x, y),
            x,
            y,
        )
    }
}

/// The colour of the pixel `(x, y)` after the first `n` triangles were drawn.
pub open spec fn color_after(
    settings: RenderSettings,
    triangles: Seq<Triangle>,
    texture: &Texture,
    n: nat,
    colors: ColorBuffer,
    depths: DepthBuffer,
    x: int,
    y: int,
) -> Color
    decreases n,
{
    if n == 0 {
        colors.pixel(x, y)
    } else {
        color_after_triangle(
            settings,
            triangles[n - 1],
            texture,
            color_after(settings, triangles, texture, (n - 1) as nat, colors, depths, x, y),
            depth_after(settings, triangles, (n - 1) as nat, depths, x, y),
            x,
            y,
        )
    }
}

/// Draws one triangle in the mode of the settings.
pub fn render_triangle(
    color_buffer: &mut ColorBuffer,
    depth_buffer: &mut DepthBuffer,
    triangle: &Triangle,
    settings: &RenderSettings,
    texture: &Texture,
)
    requires
        aligned(*old(color_buffer), *old(depth_buffer)),
        texture.wf(),
        triangle.fits(
            old(color_buffer).spec_width() as int,
            old(color_buffer).spec_height() as int,
        ),
    ensures
        aligned(*final(color_buffer), *final(depth_buffer)),
        final(color_buffer).same_size(old(color_buffer)),
        final(depth_buffer).same_size(old(depth_buffer)),
        forall|x: int, y: int|
            old(color_buffer).contains(x, y) ==> #[trigger] final(color_buffer).pixel(x, y)
                == color_after_triangle(
                *settings,
                *triangle,
                texture,
                old(color_buffer).pixel(x, y),
                old(depth_buffer).depth(x, y) as int,
                x,
                y,
            ),
        forall|x: int, y: int|
            old(depth_buffer).contains(x, y) ==> #[trigger] final(depth_buffer).depth(x, y) as int
                == depth_after_triangle(
                *settings,
                *triangle,
                old(depth_buffer).depth(x, y) as int,
                x,
                y,
            ),
{
    let mode = settings.render_mode;
    if mode.is_filling() {
        if mode.is_texturing() {
            fill_triangle(color_buffer, depth_buffer, triangle, &Paint::Textured(texture));
        } else {
            let color = settings.fill_color.shaded(triangle.intensity);
            fill_triangle(color_buffer, depth_buffer, triangle, &Paint::Flat(color));
        }
    }
    if mode.is_outlining() {
        color_buffer.draw_triangle(triangle, settings.outline_color);
    }
    if mode.is_marking_corners() {
        let a = triangle.points[0];
        let b = triangle.points[1];
        let c = triangle.points[2];
        color_buffer.set(a.x as usize, a.y as usize, settings.vertex_color);
        color_buffer.set(b.x as usize, b.y as usize, settings.vertex_color);
        color_buffer.set(c.x as usize, c.y as usize, settings.vertex_color);
        proof {
            assert forall|x: int, y: int| is_corner(*triangle, x, y) <==> ((x == a.x && y == a.y)
                || (x == b.x && y == b.y) || (x == c.x && y == c.y)) by {
                if (x == a.x && y == a.y) {
                    assert(triangle.points[0].x == x && triangle.points[0].y == y);
                }
                if (x == b.x && y == b.y) {
                    assert(triangle.points[1].x == x && triangle.points[1].y == y);
                }
                if (x == c.x && y == c.y) {
                    assert(triangle.points[2].x == x && triangle.points[2].y == y);
                }
            }
        }
    }
}

/// Draws the triangles in the order of the list, each in the mode of the
/// settings. No triangle is sorted before another: which one shows on a
/// pixel is for the depth test to decide.
pub fn render(
    color_buffer: &mut ColorBuffer,
    depth_buffer: &mut DepthBuffer,
    triangles: &Vec<Triangle>,
    settings: &RenderSettings,
    texture: &Texture,
)
    requires
        aligned(*old(color_buffer), *old(depth_buffer)),
        texture.wf(),
        forall|i: int|
            0 <= i < triangles.len() ==> (#[trigger] triangles[i]).fits(
                old(color_buffer).spec_width() as int,
                old(color_buffer).spec_height() as int,
            ),
    ensures
        aligned(*final(color_buffer), *final(depth_buffer)),
        final(color_buffer).same_size(old(color_buffer)),
        final(depth_buffer).same_size(old(depth_buffer)),
        forall|x: int, y: int|
            old(color_buffer).contains(x, y) ==> #[trigger] final(color_buffer).pixel(x, y)
                == color_after(
                *settings,
                triangles@,
                texture,
                triangles@.len(),
                *old(color_buffer),
                *old(depth_buffer),
                x,
                y,
            ),
        forall|x: int, y: int|
            old(depth_buffer).contains(x, y) ==> #[trigger] final(depth_buffer).depth(x, y) as int
                == depth_after(*settings, triangles@, triangles@.len(), *old(depth_buffer), x, y),
{
    let mut i: usize = 0;
    while i < triangles.len()
        invariant
            i <= triangles.len(),
            texture.wf(),
            aligned(*old(color_buffer), *old(depth_buffer)),
            aligned(*color_buffer, *depth_buffer),
            color_buffer.same_size(old(color_buffer)),
            depth_buffer.same_size(old(depth_buffer)),
            forall|k: int|
                0 <= k < triangles.len() ==> (#[trigger] triangles[k]).fits(
                    old(color_buffer).spec_width() as int,
                    old(color_buffer).spec_height() as int,
                ),
            forall|x: int, y: int|
                old(color_buffer).contains(x, y) ==> #[trigger] color_buffer.pixel(x, y)
                    == color_after(
                    *settings,
                    triangles@,
                    texture,
                    i as nat,
                    *old(color_buffer),
                    *old(depth_buffer),
                    x,
                    y,
                ),
            forall|x: int, y: int|
                old(depth_buffer).contains(x, y) ==> #[trigger] depth_buffer.depth(x, y) as int
                    == depth_after(*settings, triangles@, i as nat, *old(depth_buffer), x, y),
        decreases triangles.len() - i,
    {
        render_triangle(color_buffer, depth_buffer, &triangles[i], settings, texture);
        i = i + 1;
    }
}

} // verus!
