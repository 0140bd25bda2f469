use software_renderer::color::Color;
use software_renderer::color_buffer::ColorBuffer;
use software_renderer::depth_buffer::{DepthBuffer, FARTHEST};
use software_renderer::geometry::{clamp_to_image, visible_faces, ViewFace};
use software_renderer::mesh::{Face, Mesh, Vec3, ONE};
use software_renderer::render::{render, render_triangle, RenderMode, RenderSettings};
use software_renderer::raster::{fill_triangle, Paint};
use software_renderer::texture::Texture;
use software_renderer::triangle::{edge_column, Point, Tex2, Triangle};

const BLACK: Color = Color { r: 0, g: 0, b: 0 };
const RED: Color = Color { r: 255, g: 0, b: 0 };
const BLUE: Color = Color { r: 0, g: 0, b: 255 };

fn triangle_at(points: [(u32, u32); 3], depth: u32) -> Triangle {
    Triangle {
        points: [
            Point { x: points[0].0, y: points[0].1 },
            Point { x: points[1].0, y: points[1].1 },
            Point { x: points[2].0, y: points[2].1 },
        ],
        depths: [depth, depth, depth],
        inv_depths: [1, 1, 1],
        tex_coords: [Tex2 { u: 0, v: 0 }, Tex2 { u: 65535, v: 0 }, Tex2 { u: 0, v: 65535 }],
        intensity: 255,
    }
}

fn painted(buffer: &ColorBuffer, color: Color) -> Vec<(usize, usize)> {
    let mut found = Vec::new();
    for y in 0..buffer.height() {
        for x in 0..buffer.width() {
            if buffer.get(x, y) == color {
                found.push((x, y));
            }
        }
    }
    found
}

#[test]
fn new_buffers_are_black_and_farthest() {
    let colors = ColorBuffer::new(4, 3);
    let depths = DepthBuffer::new(4, 3);
    assert_eq!(colors.width(), 4);
    assert_eq!(colors.height(), 3);
    assert_eq!(depths.width(), 4);
    assert_eq!(depths.height(), 3);
    for y in 0..3 {
        for x in 0..4 {
            assert_eq!(colors.get(x, y), BLACK);
            assert_eq!(depths.get(x, y), FARTHEST);
        }
    }
}

#[test]
fn set_changes_one_pixel() {
    let mut colors = ColorBuffer::new(4, 3);
    colors.set(2, 1, RED);
    assert_eq!(painted(&colors, RED), vec![(2, 1)]);
    assert_eq!(painted(&colors, BLACK).len(), 11);
}

#[test]
fn clear_reads_back_everywhere() {
    let mut colors = ColorBuffer::new(5, 4);
    let mut depths = DepthBuffer::new(5, 4);
    colors.set(1, 1, RED);
    depths.set(1, 1, 7);
    colors.clear(BLUE);
    depths.clear(1234);
    for y in 0..4 {
        for x in 0..5 {
            assert_eq!(colors.get(x, y), BLUE);
            assert_eq!(depths.get(x, y), 1234);
        }
    }
}

#[test]
fn buffer_is_packed_row_by_row() {
    let mut colors = ColorBuffer::new(2, 2);
    colors.set(1, 0, Color::new(0x12, 0x34, 0x56));
    colors.set(0, 1, Color::new(0, 0, 0xFF));
    assert_eq!(colors.buffer(), vec![0, 0x123456, 0x0000FF, 0]);
}

#[test]
fn color_packs_and_unpacks() {
    let c = Color::new(0x12, 0x34, 0x56);
    assert_eq!(c.to_u32(), 0x123456);
    assert_eq!(Color::from_u32(0x123456), c);
    assert_eq!(Color::from_u32(0xFF123456), c);
}

#[test]
fn shading_scales_channels() {
    let c = Color::new(200, 100, 255);
    assert_eq!(c.shaded(128), Color::new(100, 50, 128));
    assert_eq!(c.shaded(255), c);
    assert_eq!(c.shaded(0), BLACK);
}

#[test]
fn line_of_one_pixel() {
    let mut colors = ColorBuffer::new(4, 4);
    colors.draw_line(0, 0, 0, 0, RED);
    assert_eq!(painted(&colors, RED), vec![(0, 0)]);
}

#[test]
fn line_has_steps_plus_one_pixels() {
    let mut colors = ColorBuffer::new(8, 8);
    colors.draw_line(0, 0, 5, 2, RED);
    assert_eq!(painted(&colors, RED), vec![(0, 0), (1, 0), (2, 1), (3, 1), (4, 2), (5, 2)]);
}

#[test]
fn line_backwards() {
    let mut colors = ColorBuffer::new(8, 8);
    colors.draw_line(5, 2, 0, 0, RED);
    assert_eq!(painted(&colors, RED), vec![(0, 0), (1, 0), (2, 1), (3, 1), (4, 2), (5, 2)]);
}

#[test]
fn steep_line_has_one_pixel_per_row() {
    let mut colors = ColorBuffer::new(8, 8);
    colors.draw_line(3, 7, 1, 0, RED);
    let found = painted(&colors, RED);
    assert_eq!(found.len(), 8);
    for (row, pixel) in found.iter().enumerate() {
        assert_eq!(pixel.1, row);
    }
    for pair in found.windows(2) {
        assert!(pair[0].0.abs_diff(pair[1].0) <= 1);
    }
    assert_eq!(found[0], (1, 0));
    assert_eq!(found[7], (3, 7));
}

#[test]
fn diagonal_line() {
    let mut colors = ColorBuffer::new(4, 4);
    colors.draw_line(3, 0, 0, 3, RED);
    assert_eq!(painted(&colors, RED), vec![(3, 0), (2, 1), (1, 2), (0, 3)]);
}

#[test]
fn rect_fills_its_pixels() {
    let mut colors = ColorBuffer::new(6, 5);
    colors.draw_rect(1, 2, 3, 2, RED);
    assert_eq!(painted(&colors, RED), vec![(1, 2), (2, 2), (3, 2), (1, 3), (2, 3), (3, 3)]);
    colors.draw_rect(0, 0, 0, 4, BLUE);
    assert_eq!(painted(&colors, BLUE), vec![]);
}

#[test]
fn grid_has_a_dot_every_ten_pixels() {
    let mut colors = ColorBuffer::new(25, 11);
    colors.draw_grid();
    let grey = Color::new(0x55, 0x55, 0x55);
    assert_eq!(painted(&colors, grey), vec![(0, 0), (10, 0), (20, 0), (0, 10), (10, 10), (20, 10)]);
}

#[test]
fn outline_is_three_lines() {
    let mut colors = ColorBuffer::new(8, 8);
    let t = triangle_at([(0, 0), (4, 0), (0, 4)], 5);
    colors.draw_triangle(&t, RED);
    assert_eq!(
        painted(&colors, RED),
        vec![
            (0, 0), (1, 0), (2, 0), (3, 0), (4, 0),
            (0, 1), (3, 1),
            (0, 2), (2, 2),
            (0, 3), (1, 3),
            (0, 4),
        ]
    );
}

#[test]
fn filled_right_triangle_has_fifteen_pixels() {
    let mut colors = ColorBuffer::new(8, 8);
    let mut depths = DepthBuffer::new(8, 8);
    let t = triangle_at([(0, 0), (4, 0), (0, 4)], 5);
    colors.draw_filled_triangle(&mut depths, &t, RED);
    let mut expected = Vec::new();
    for y in 0..5usize {
        for x in 0..(5 - y) {
            expected.push((x, y));
        }
    }
    assert_eq!(expected.len(), 15);
    assert_eq!(painted(&colors, RED), expected);
    assert_eq!(painted(&colors, BLACK).len(), 64 - 15);
    for y in 0..8 {
        for x in 0..8 {
            let inside = x + y <= 4;
            assert_eq!(depths.get(x, y), if inside { 5 } else { FARTHEST });
        }
    }
}

#[test]
fn general_triangle_fills_every_row() {
    let mut colors = ColorBuffer::new(16, 16);
    let mut depths = DepthBuffer::new(16, 16);
    let t = triangle_at([(8, 1), (2, 6), (12, 13)], 5);
    colors.draw_filled_triangle(&mut depths, &t, RED);
    let found = painted(&colors, RED);
    for y in 1..=13usize {
        assert!(found.iter().any(|p| p.1 == y));
    }
    assert!(found.iter().all(|p| 1 <= p.1 && p.1 <= 13 && 2 <= p.0 && p.0 <= 12));
    // the row of the middle corner runs from that corner to the long edge
    let long_edge = edge_column(Point { x: 8, y: 1 }, Point { x: 12, y: 13 }, 6) as usize;
    assert_eq!(long_edge, 9);
    let row: Vec<usize> = found.iter().filter(|p| p.1 == 6).map(|p| p.0).collect();
    assert_eq!(row, (2..=9).collect::<Vec<usize>>());
}

#[test]
fn flat_bottom_triangle_fills_upper_half_only() {
    let mut colors = ColorBuffer::new(8, 8);
    let mut depths = DepthBuffer::new(8, 8);
    let t = triangle_at([(2, 0), (0, 2), (4, 2)], 5);
    colors.draw_filled_triangle(&mut depths, &t, RED);
    assert_eq!(
        painted(&colors, RED),
        vec![(2, 0), (1, 1), (2, 1), (3, 1), (0, 2), (1, 2), (2, 2), (3, 2), (4, 2)]
    );
}

#[test]
fn triangle_on_one_row_fills_nothing() {
    let mut colors = ColorBuffer::new(8, 8);
    let mut depths = DepthBuffer::new(8, 8);
    let t = triangle_at([(1, 3), (5, 3), (3, 3)], 5);
    colors.draw_filled_triangle(&mut depths, &t, RED);
    assert_eq!(painted(&colors, RED), vec![]);
}

#[test]
fn drawing_twice_is_drawing_once() {
    let mut colors = ColorBuffer::new(8, 8);
    let mut depths = DepthBuffer::new(8, 8);
    let t = triangle_at([(1, 1), (6, 2), (3, 7)], 40);
    colors.draw_filled_triangle(&mut depths, &t, RED);
    let once = colors.buffer();
    let mut depths_once = Vec::new();
    for y in 0..8 {
        for x in 0..8 {
            depths_once.push(depths.get(x, y));
        }
    }
    colors.draw_filled_triangle(&mut depths, &t, BLUE);
    assert_eq!(colors.buffer(), once);
    for y in 0..8 {
        for x in 0..8 {
            assert_eq!(depths.get(x, y), depths_once[y * 8 + x]);
        }
    }
}

#[test]
fn nearer_triangle_shows_in_either_order() {
    let near = triangle_at([(0, 0), (6, 0), (0, 6)], 10);
    let far = triangle_at([(6, 6), (6, 0), (0, 6)], 20);

    let mut colors = ColorBuffer::new(8, 8);
    let mut depths = DepthBuffer::new(8, 8);
    colors.draw_filled_triangle(&mut depths, &near, RED);
    colors.draw_filled_triangle(&mut depths, &far, BLUE);

    let mut colors2 = ColorBuffer::new(8, 8);
    let mut depths2 = DepthBuffer::new(8, 8);
    colors2.draw_filled_triangle(&mut depths2, &far, BLUE);
    colors2.draw_filled_triangle(&mut depths2, &near, RED);

    assert_eq!(colors.buffer(), colors2.buffer());
    // the diagonal belongs to both triangles
    for k in 0..=6usize {
        assert_eq!(colors.get(k, 6 - k), RED);
        assert_eq!(depths.get(k, 6 - k), 10);
        assert_eq!(depths2.get(k, 6 - k), 10);
    }
    assert_eq!(colors.get(6, 6), BLUE);
    assert_eq!(depths.get(6, 6), 20);
}

#[test]
fn depth_is_blended_between_corners() {
    let mut t = triangle_at([(0, 0), (4, 0), (0, 4)], 0);
    t.depths = [10, 50, 90];
    assert_eq!(t.depth_at_pixel(0, 0), 10);
    assert_eq!(t.depth_at_pixel(4, 0), 50);
    assert_eq!(t.depth_at_pixel(0, 4), 90);
    assert_eq!(t.depth_at_pixel(2, 0), 30);
    assert_eq!(t.depth_at_pixel(1, 1), 40);
    assert_eq!(t.weights_at(1, 1), (8, 4, 4));
    // the other winding gives the same weights
    t.points = [Point { x: 0, y: 0 }, Point { x: 0, y: 4 }, Point { x: 4, y: 0 }];
    assert_eq!(t.weights_at(1, 1), (8, 4, 4));
}

#[test]
fn triangle_without_area_takes_its_first_corner() {
    let mut t = triangle_at([(0, 0), (2, 2), (4, 4)], 0);
    t.depths = [10, 50, 90];
    assert_eq!(t.weights_at(1, 1), (1, 0, 0));
    assert_eq!(t.depth_at_pixel(3, 3), 10);
}

#[test]
fn texture_coordinate_is_corrected_for_perspective() {
    let mut t = triangle_at([(0, 0), (4, 0), (0, 4)], 0);
    t.tex_coords = [Tex2 { u: 0, v: 0 }, Tex2 { u: 60000, v: 0 }, Tex2 { u: 0, v: 60000 }];
    // halfway along the first side, with equal distances
    assert_eq!(t.tex_at_pixel(2, 0), Tex2 { u: 30000, v: 0 });
    // the second corner three times as near as the first
    t.inv_depths = [1, 3, 1];
    assert_eq!(t.tex_at_pixel(2, 0), Tex2 { u: 45000, v: 0 });
    // a reciprocal distance of zero counts as one
    t.inv_depths = [0, 3, 0];
    assert_eq!(t.tex_at_pixel(2, 0), Tex2 { u: 45000, v: 0 });
}

#[test]
fn texture_samples_the_nearest_texel() {
    let a = Color::new(1, 0, 0);
    let b = Color::new(2, 0, 0);
    let c = Color::new(3, 0, 0);
    let d = Color::new(4, 0, 0);
    let mut texture = Texture::from_texels(2, 2, vec![a, b, c, d]).unwrap();
    assert_eq!(texture.width(), 2);
    assert_eq!(texture.height(), 2);
    assert_eq!(texture.sample(Tex2 { u: 0, v: 0 }), a);
    assert_eq!(texture.sample(Tex2 { u: 32767, v: 0 }), a);
    assert_eq!(texture.sample(Tex2 { u: 32768, v: 0 }), b);
    assert_eq!(texture.sample(Tex2 { u: 65535, v: 0 }), b);
    assert_eq!(texture.sample(Tex2 { u: 0, v: 65535 }), c);
    assert_eq!(texture.sample(Tex2 { u: 65535, v: 65535 }), d);
    texture.set_flip_vertically(true);
    assert_eq!(texture.sample(Tex2 { u: 0, v: 0 }), c);
    assert_eq!(texture.sample(Tex2 { u: 65535, v: 65535 }), b);
}

#[test]
fn texture_needs_one_texel_per_position() {
    assert!(Texture::from_texels(2, 2, vec![BLACK, BLACK, BLACK]).is_none());
    assert!(Texture::from_texels(0, 2, vec![]).is_none());
    assert!(Texture::from_texels(2, 0, vec![]).is_none());
    assert!(Texture::from_texels(1, 3, vec![RED, RED, RED]).is_some());
}

#[test]
fn textured_triangle_takes_texture_colors() {
    let a = Color::new(200, 0, 0);
    let b = Color::new(0, 200, 0);
    let texture = Texture::from_texels(2, 1, vec![a, b]).unwrap();
    let mut colors = ColorBuffer::new(8, 8);
    let mut depths = DepthBuffer::new(8, 8);
    let mut t = triangle_at([(0, 0), (4, 0), (0, 4)], 5);
    t.tex_coords = [Tex2 { u: 0, v: 0 }, Tex2 { u: 65535, v: 0 }, Tex2 { u: 0, v: 0 }];
    colors.draw_textured_triangle(&mut depths, &t, &texture);
    assert_eq!(colors.get(0, 0), a);
    assert_eq!(colors.get(4, 0), b);
    assert_eq!(colors.get(0, 4), a);
    assert_eq!(colors.get(1, 0), a);
    assert_eq!(colors.get(3, 0), b);
    assert_eq!(colors.get(5, 0), BLACK);
    assert_eq!(depths.get(2, 2), 5);
}

#[test]
fn textured_triangle_is_darkened_by_intensity() {
    let magenta = Color::new(0xFF, 0x00, 0xFF);
    let texture = Texture::from_color(1, 1, magenta);
    let mut colors = ColorBuffer::new(8, 8);
    let mut depths = DepthBuffer::new(8, 8);
    let mut t = triangle_at([(0, 0), (4, 0), (0, 4)], 5);
    t.intensity = 128;
    fill_triangle(&mut colors, &mut depths, &t, &Paint::Textured(&texture));
    assert_eq!(painted(&colors, Color::new(128, 0, 128)).len(), 15);
}

#[test]
fn occluded_triangle_is_not_drawn() {
    let mut colors = ColorBuffer::new(8, 8);
    let mut depths = DepthBuffer::new(8, 8);
    depths.clear(3);
    let t = triangle_at([(0, 0), (4, 0), (0, 4)], 5);
    colors.draw_filled_triangle(&mut depths, &t, RED);
    assert_eq!(painted(&colors, RED), vec![]);
    assert_eq!(depths.get(0, 0), 3);
}

#[test]
fn culling_drops_faces_that_look_away() {
    // a face in front of the camera, counter-clockwise as the camera sees it
    let front = ViewFace {
        a: Vec3 { x: 0, y: 0, z: 5 },
        b: Vec3 { x: 0, y: 1, z: 5 },
        c: Vec3 { x: 1, y: 0, z: 5 },
    };
    let back = ViewFace { a: front.a, b: front.c, c: front.b };
    let edge_on = ViewFace {
        a: Vec3 { x: 0, y: 0, z: 1 },
        b: Vec3 { x: 0, y: 0, z: 2 },
        c: Vec3 { x: 0, y: 0, z: 3 },
    };
    assert!(!front.looks_away());
    assert!(back.looks_away());
    assert!(!edge_on.looks_away());
    let faces = vec![back, front, back, edge_on, front];
    assert_eq!(visible_faces(&faces, true, 1), vec![1, 3, 4]);
    assert_eq!(visible_faces(&faces, false, 1), vec![0, 1, 2, 3, 4]);
    assert_eq!(visible_faces(&Vec::new(), true, 1), Vec::<usize>::new());
    // a face that reaches behind the near plane is never drawn
    assert!(front.is_in_front(5));
    assert!(!front.is_in_front(6));
    assert_eq!(visible_faces(&faces, true, 3), vec![1, 4]);
    assert_eq!(visible_faces(&faces, false, 3), vec![0, 1, 2, 4]);
    assert_eq!(visible_faces(&faces, false, 6), Vec::<usize>::new());
}

#[test]
fn culling_takes_the_largest_coordinates() {
    let face = ViewFace {
        a: Vec3 { x: i32::MIN, y: i32::MIN, z: i32::MAX },
        b: Vec3 { x: i32::MAX, y: i32::MIN, z: i32::MAX },
        c: Vec3 { x: i32::MIN, y: i32::MAX, z: i32::MAX },
    };
    assert!(face.looks_away());
    let turned = ViewFace { a: face.a, b: face.c, c: face.b };
    assert!(!turned.looks_away());
}

#[test]
fn positions_are_clamped_to_the_image() {
    assert_eq!(clamp_to_image(-3, 900, 512, 384), Point { x: 0, y: 383 });
    assert_eq!(clamp_to_image(512, -1, 512, 384), Point { x: 511, y: 0 });
    assert_eq!(clamp_to_image(17, 20, 512, 384), Point { x: 17, y: 20 });
}

#[test]
fn mesh_checks_its_faces() {
    let uv = Tex2 { u: 0, v: 0 };
    let vertices = vec![
        Vec3 { x: 0, y: 0, z: 0 },
        Vec3 { x: ONE, y: 0, z: 0 },
        Vec3 { x: 0, y: ONE, z: 0 },
    ];
    let good = Face { a: 0, b: 1, c: 2, a_uv: uv, b_uv: uv, c_uv: uv };
    let bad = Face { a: 0, b: 1, c: 3, a_uv: uv, b_uv: uv, c_uv: uv };
    assert!(Mesh::new(vertices.clone(), vec![good, bad]).is_none());
    let mesh = Mesh::new(vertices.clone(), vec![good]).unwrap();
    assert!(mesh.is_well_formed());
    assert_eq!(mesh.scale, Vec3 { x: ONE, y: ONE, z: ONE });
    assert_eq!(mesh.rotation, Vec3 { x: 0, y: 0, z: 0 });
    assert_eq!(mesh.translation, Vec3 { x: 0, y: 0, z: 0 });
    let moved = vec![
        Vec3 { x: 0, y: 0, z: 5 },
        Vec3 { x: 1, y: 0, z: 5 },
        Vec3 { x: 0, y: 1, z: 5 },
    ];
    let faces = mesh.view_faces(&moved);
    assert_eq!(faces.len(), 1);
    assert_eq!(faces[0].a, moved[0]);
    assert_eq!(faces[0].b, moved[1]);
    assert_eq!(faces[0].c, moved[2]);
}

#[test]
fn render_modes_choose_what_is_drawn() {
    let texture = Texture::from_color(1, 1, Color::new(0, 200, 0));
    let green = Color::new(0, 200, 0);
    let white = Color::new(255, 255, 255);
    let yellow = Color::new(255, 255, 0);
    let t = triangle_at([(0, 0), (4, 0), (0, 4)], 5);
    let outline = 12;
    let draw = |mode: RenderMode| {
        let mut colors = ColorBuffer::new(8, 8);
        let mut depths = DepthBuffer::new(8, 8);
        let settings = RenderSettings {
            render_mode: mode,
            fill_color: RED,
            outline_color: white,
            vertex_color: yellow,
        };
        render(&mut colors, &mut depths, &vec![t], &settings, &texture);
        (colors, depths)
    };

    let (colors, depths) = draw(RenderMode::Vertices);
    assert_eq!(painted(&colors, yellow), vec![(0, 0), (4, 0), (0, 4)]);
    assert_eq!(painted(&colors, BLACK).len(), 61);
    assert_eq!(depths.get(0, 0), FARTHEST);

    let (colors, depths) = draw(RenderMode::Wireframe);
    assert_eq!(painted(&colors, white).len(), outline);
    assert_eq!(painted(&colors, BLACK).len(), 64 - outline);
    assert_eq!(depths.get(0, 0), FARTHEST);

    let (colors, depths) = draw(RenderMode::Filled);
    assert_eq!(painted(&colors, RED).len(), 15);
    assert_eq!(depths.get(1, 1), 5);

    let (colors, _) = draw(RenderMode::WireframeFilled);
    assert_eq!(painted(&colors, white).len(), outline);
    assert_eq!(painted(&colors, RED), vec![(1, 1), (2, 1), (1, 2)]);

    let (colors, _) = draw(RenderMode::Textured);
    assert_eq!(painted(&colors, green).len(), 15);

    let (colors, depths) = draw(RenderMode::WireframeTextured);
    assert_eq!(painted(&colors, white).len(), outline);
    assert_eq!(painted(&colors, green), vec![(1, 1), (2, 1), (1, 2)]);
    assert_eq!(depths.get(0, 0), 5);
}

#[test]
fn render_shades_the_fill_color() {
    let texture = Texture::from_color(1, 1, BLACK);
    let mut colors = ColorBuffer::new(8, 8);
    let mut depths = DepthBuffer::new(8, 8);
    let mut t = triangle_at([(0, 0), (4, 0), (0, 4)], 5);
    t.intensity = 51;
    let settings = RenderSettings {
        render_mode: RenderMode::Filled,
        fill_color: Color::new(255, 100, 0),
        outline_color: BLUE,
        vertex_color: BLUE,
    };
    render_triangle(&mut colors, &mut depths, &t, &settings, &texture);
    assert_eq!(painted(&colors, Color::new(51, 20, 0)).len(), 15);
}
