//! Screen-space triangles: which pixels one covers, and what depth and
//! texture coordinate it has at a pixel.

use vstd::prelude::*;
use vstd::arithmetic::div_mod::{lemma_div_multiples_vanish, lemma_fundamental_div_mod};

verus! {

/// A pixel position: column `x` of row `y`.
#[derive(Clone, Copy, Debug, PartialEq, Eq, Structural)]
pub struct Point {
    pub x: u32,
    pub y: u32,
}

/// A texture coordinate in units of 1/65536 of the texture's width and height.
#[derive(Clone, Copy, Debug, PartialEq, Eq, Structural)]
pub struct Tex2 {
    pub u: u16,
    pub v: u16,
}

/// A triangle ready to be drawn. Each corner has a pixel position, a depth
/// (smaller is nearer), the reciprocal of its distance from the camera as a
/// fixed-point number, and a texture coordinate. The whole face has one light
/// intensity, 255 for full light.
#[derive(Clone, Copy, Debug)]
pub struct Triangle {
    pub points: [Point; 3],
    pub depths: [u32; 3],
    pub inv_depths: [u32; 3],
    pub tex_coords: [Tex2; 3],
    pub intensity: u8,
}

pub open spec fn min2(a: int, b: int) -> int {
    if a <= b {
        a
    } else {
        b
    }
}

pub open spec fn max2(a: int, b: int) -> int {
    if a >= b {
        a
    } else {
        b
    }
}

/// The three points ordered by row, top first; points of one row keep their order.
pub open spec fn by_height(a: Point, b: Point, c: Point) -> (Point, Point, Point) {
    if a.y <= b.y {
        if b.y <= c.y {
            (a, b, c)
        } else if a.y <= c.y {
            (a, c, b)
        } else {
            (c, a, b)
        }
    } else {
        if a.y <= c.y {
            (b, a, c)
        } else if b.y <= c.y {
            (b, c, a)
        } else {
            (c, b, a)
        }
    }
}

/// The column where the edge from `a` down to `b` crosses row `y`, rounded down.
pub open spec fn edge_x(a: Point, b: Point, y: int) -> int {
    (a.x * (b.y - y) + b.x * (y - a.y)) / (b.y - a.y)
}

/// Whether `(x, y)` lies on a row between `a` and `b`, between the edge from
/// `a` to `b` and the edge from `top` to `bottom`, both ends included.
pub open spec fn in_half(a: Point, b: Point, top: Point, bottom: Point, x: int, y: int) -> bool {
    &&& a.y <= y <= b.y
    &&& min2(edge_x(a, b, y), edge_x(top, bottom, y)) <= x
    &&& x <= max2(edge_x(a, b, y), edge_x(top, bottom, y))
}

pub open spec fn cross(ux: int, uy: int, vx: int, vy: int) -> int {
    ux * vy - uy * vx
}

pub open spec fn clamp0(v: int) -> int {
    if v < 0 {
        0
    } else {
        v
    }
}

/// The weighted mean of three values, rounded down.
pub open spec fn blend(w: (int, int, int), a: int, b: int, c: int) -> int {
    (w.0 * a + w.1 * b + w.2 * c) / (w.0 + w.1 + w.2)
}

impl Triangle {
    /// The corners ordered by row, top first.
    pub open spec fn sorted(&self) -> (Point, Point, Point) {
        by_height(self.points[0], self.points[1], self.points[2])
    }

    /// Every corner is a pixel of a `width` by `height` image.
    pub open spec fn fits(&self, width: int, height: int) -> bool {
        forall|k: int| 0 <= k < 3 ==> self.points[k].x < width && self.points[k].y < height
    }

    /// Whether filling the triangle touches the pixel `(x, y)`. The rows from
    /// the top corner to the middle one are filled between the edge that joins
    /// those two and the long edge; the rows from the middle corner to the
    /// bottom one likewise. A half whose two corners share a row is left out.
    pub open spec fn covers(&self, x: int, y: int) -> bool {
        let (top, mid, bottom) = self.sorted();
        ||| top.y < mid.y && in_half(top, mid, top, bottom, x, y)
        ||| mid.y < bottom.y && in_half(mid, bottom, top, bottom, x, y)
    }

    /// The weights of the three corners at `(x, y)`: the areas that the pixel
    /// spans with the opposite edges, none below zero. Where that leaves
    /// nothing, as in a triangle without area, the first corner counts alone.
    pub open spec fn weights(&self, x: int, y: int) -> (int, int, int) {
        let a = self.points[0];
        let b = self.points[1];
        let c = self.points[2];
        let area = cross(b.x - a.x, b.y - a.y, c.x - a.x, c.y - a.y);
        let ea = cross(c.x - b.x, c.y - b.y, x - b.x, y - b.y);
        let eb = cross(a.x - c.x, a.y - c.y, x - c.x, y - c.y);
        let ec = cross(b.x - a.x, b.y - a.y, x - a.x, y - a.y);
        let w = if area >= 0 {
            (clamp0(ea), clamp0(eb), clamp0(ec))
        } else {
            (clamp0(-ea), clamp0(-eb), clamp0(-ec))
        };
        if w.0 + w.1 + w.2 == 0 {
            (1, 0, 0)
        } else {
            w
        }
    }

    /// The depth of the triangle at `(x, y)`: the corners' depths blended by
    /// their weights.
    pub open spec fn depth_at(&self, x: int, y: int) -> int {
        blend(self.weights(x, y), self.depths[0] as int, self.depths[1] as int, self.depths[2] as int)
    }

    /// The weights at `(x, y)` corrected for perspective: each multiplied by
    /// the corner's reciprocal distance, where zero counts as one.
    pub open spec fn perspective_weights(&self, x: int, y: int) -> (int, int, int) {
        let w = self.weights(x, y);
        (
            w.0 * max2(self.inv_depths[0] as int, 1),
            w.1 * max2(self.inv_depths[1] as int, 1),
            w.2 * max2(self.inv_depths[2] as int, 1),
        )
    }

    /// The texture coordinate at `(x, y)`: the corners' coordinates blended by
    /// the perspective-corrected weights.
    pub open spec fn tex_at(&self, x: int, y: int) -> (int, int) {
        let p = self.perspective_weights(x, y);
        (
            blend(p, self.tex_coords[0].u as int, self.tex_coords[1].u as int, self.tex_coords[2].u as int),
            blend(p, self.tex_coords[0].v as int, self.tex_coords[1].v as int, self.tex_coords[2].v as int),
        )
    }

    /// The weights of the three corners at the pixel `(x, y)`.
    pub fn weights_at(&self, x: u32, y: u32) -> (w: (u128, u128, u128))
        ensures
            (w.0 as int, w.1 as int, w.2 as int) == self.weights(x as int, y as int),
            w.0 <= WEIGHT_LIMIT && w.1 <= WEIGHT_LIMIT && w.2 <= WEIGHT_LIMIT,
            w.0 + w.1 + w.2 > 0,
    {
        let a = self.points[0];
        let b = self.points[1];
        let c = self.points[2];
        let area = cross_product(gap(b.x, a.x), gap(b.y, a.y), gap(c.x, a.x), gap(c.y, a.y));
        let ea = cross_product(gap(c.x, b.x), gap(c.y, b.y), gap(x, b.x), gap(y, b.y));
        let eb = cross_product(gap(a.x, c.x), gap(a.y, c.y), gap(x, c.x), gap(y, c.y));
        let ec = cross_product(gap(b.x, a.x), gap(b.y, a.y), gap(x, a.x), gap(y, a.y));
        let w = if area >= 0 {
            (positive_part(ea), positive_part(eb), positive_part(ec))
        } else {
            (positive_part(-ea), positive_part(-eb), positive_part(-ec))
        };
        if w.0 + w.1 + w.2 == 0 {
            (1, 0, 0)
        } else {
            w
        }
    }

    /// The depth of the triangle at the pixel `(x, y)`.
    pub fn depth_at_pixel(&self, x: u32, y: u32) -> (depth: u32)
        ensures
            depth == self.depth_at(x as int, y as int),
    {
        let w = self.weights_at(x, y);
        proof {
            lemma_product_bound(w.0 as int, 0xFFFF_FFFF, WEIGHT_LIMIT as int, 0xFFFF_FFFF);
            lemma_product_bound(w.1 as int, 0xFFFF_FFFF, WEIGHT_LIMIT as int, 0xFFFF_FFFF);
            lemma_product_bound(w.2 as int, 0xFFFF_FFFF, WEIGHT_LIMIT as int, 0xFFFF_FFFF);
        }
        let d = blend_exec(
            w,
            self.depths[0] as u64,
            self.depths[1] as u64,
            self.depths[2] as u64,
            0xFFFF_FFFF,
        );
        d as u32
    }

    /// The texture coordinate of the triangle at the pixel `(x, y)`.
    pub fn tex_at_pixel(&self, x: u32, y: u32) -> (t: Tex2)
        ensures
            (t.u as int, t.v as int) == self.tex_at(x as int, y as int),
    {
        let w = self.weights_at(x, y);
        let q0: u128 = if self.inv_depths[0] == 0 { 1 } else { self.inv_depths[0] as u128 };
        let q1: u128 = if self.inv_depths[1] == 0 { 1 } else { self.inv_depths[1] as u128 };
        let q2: u128 = if self.inv_depths[2] == 0 { 1 } else { self.inv_depths[2] as u128 };
        proof {
            lemma_product_bound(w.0 as int, q0 as int, WEIGHT_LIMIT as int, 0xFFFF_FFFF);
            lemma_product_bound(w.1 as int, q1 as int, WEIGHT_LIMIT as int, 0xFFFF_FFFF);
            lemma_product_bound(w.2 as int, q2 as int, WEIGHT_LIMIT as int, 0xFFFF_FFFF);
            assert(w.0 * q0 + w.1 * q1 + w.2 * q2 > 0) by (nonlinear_arith)
                requires
                    w.0 + w.1 + w.2 > 0,
                    q0 >= 1,
                    q1 >= 1,
                    q2 >= 1,
            ;
        }
        let p: (u128, u128, u128) = (w.0 * q0, w.1 * q1, w.2 * q2);
        proof {
            let pw = WEIGHT_LIMIT as int * 0xFFFF_FFFF;
            lemma_product_bound(p.0 as int, 0xFFFF, pw, 0xFFFF);
            lemma_product_bound(p.1 as int, 0xFFFF, pw, 0xFFFF);
            lemma_product_bound(p.2 as int, 0xFFFF, pw, 0xFFFF);
        }
        let u = blend_exec(
            p,
            self.tex_coords[0].u as u64,
            self.tex_coords[1].u as u64,
            self.tex_coords[2].u as u64,
            0xFFFF,
        );
        let v = blend_exec(
            p,
            self.tex_coords[0].v as u64,
            self.tex_coords[1].v as u64,
            self.tex_coords[2].v as u64,
            0xFFFF,
        );
        Tex2 { u: u as u16, v: v as u16 }
    }

    /// The corners ordered by row, top first.
    pub fn sorted_points(&self) -> (s: (Point, Point, Point))
        ensures
            s == self.sorted(),
            s.0.y <= s.1.y <= s.2.y,
    {
        let a = self.points[0];
        let b = self.points[1];
        let c = self.points[2];
        if a.y <= b.y {
            if b.y <= c.y {
                (a, b, c)
            } else if a.y <= c.y {
                (a, c, b)
            } else {
                (c, a, b)
            }
        } else {
            if a.y <= c.y {
                (b, a, c)
            } else if b.y <= c.y {
                (b, c, a)
            } else {
                (c, b, a)
            }
        }
    }
}

/// No weight of a corner is above this: twice the square of the largest coordinate.
pub const WEIGHT_LIMIT: u128 = 0x2_0000_0000_0000_0000;

/// No product of a weight and a blended value is above this.
pub const BLEND_LIMIT: u128 = 0x100_0000_0000_0000_0000_0000_0000_0000;

fn gap(a: u32, b: u32) -> (d: i64)
    ensures
        d == a - b,
        -0xFFFF_FFFF <= d <= 0xFFFF_FFFF,
{
    a as i64 - b as i64
}

fn positive_part(v: i128) -> (p: u128)
    requires
        -WEIGHT_LIMIT <= v <= WEIGHT_LIMIT,
    ensures
        p == clamp0(v as int),
        p <= WEIGHT_LIMIT,
{
    if v < 0 {
        0
    } else {
        v as u128
    }
}

fn cross_product(ux: i64, uy: i64, vx: i64, vy: i64) -> (r: i128)
    requires
        -0xFFFF_FFFF <= ux <= 0xFFFF_FFFF,
        -0xFFFF_FFFF <= uy <= 0xFFFF_FFFF,
        -0xFFFF_FFFF <= vx <= 0xFFFF_FFFF,
        -0xFFFF_FFFF <= vy <= 0xFFFF_FFFF,
    ensures
        r == cross(ux as int, uy as int, vx as int, vy as int),
        -WEIGHT_LIMIT < r < WEIGHT_LIMIT,
{
    proof {
        lemma_signed_product_bound(ux as int, vy as int, 0xFFFF_FFFF);
        lemma_signed_product_bound(uy as int, vx as int, 0xFFFF_FFFF);
    }
    (ux as i128) * (vy as i128) - (uy as i128) * (vx as i128)
}

proof fn lemma_signed_product_bound(a: int, b: int, m: int)
    requires
        -m <= a <= m,
        -m <= b <= m,
    ensures
        -(m * m) <= a * b <= m * m,
{
    assert((m - a) * (m - b) >= 0 && (m + a) * (m + b) >= 0 && (m - a) * (m + b) >= 0 && (m + a)
        * (m - b) >= 0) by (nonlinear_arith)
        requires
            -m <= a <= m,
            -m <= b <= m,
    ;
    assert(-(m * m) <= a * b <= m * m) by (nonlinear_arith)
        requires
            (m - a) * (m - b) >= 0,
            (m + a) * (m + b) >= 0,
            (m - a) * (m + b) >= 0,
            (m + a) * (m - b) >= 0,
    ;
}

/// The weighted mean of three values that are at most `limit`, rounded down.
fn blend_exec(w: (u128, u128, u128), a: u64, b: u64, c: u64, limit: u64) -> (r: u64)
    requires
        w.0 + w.1 + w.2 > 0,
        w.0 <= BLEND_LIMIT && w.1 <= BLEND_LIMIT && w.2 <= BLEND_LIMIT,
        w.0 * limit <= BLEND_LIMIT,
        w.1 * limit <= BLEND_LIMIT,
        w.2 * limit <= BLEND_LIMIT,
        a <= limit,
        b <= limit,
        c <= limit,
    ensures
        r == blend((w.0 as int, w.1 as int, w.2 as int), a as int, b as int, c as int),
        r <= limit,
{
    proof {
        lemma_product_bound(a as int, w.0 as int, limit as int, w.0 as int);
        lemma_product_bound(b as int, w.1 as int, limit as int, w.1 as int);
        lemma_product_bound(c as int, w.2 as int, limit as int, w.2 as int);
        assert(w.0 * a == a * w.0 && w.1 * b == b * w.1 && w.2 * c == c * w.2) by (nonlinear_arith);
        assert(w.0 * limit == limit * w.0 && w.1 * limit == limit * w.1 && w.2 * limit == limit * w.2) by (nonlinear_arith);
    }
    let total: u128 = w.0 + w.1 + w.2;
    let n: u128 = w.0 * (a as u128) + w.1 * (b as u128) + w.2 * (c as u128);
    proof {
        let q = n as int / total as int;
        let r = n as int % total as int;
        lemma_fundamental_div_mod(n as int, total as int);
        assert(n <= total * limit) by (nonlinear_arith)
            requires
                n <= w.0 * limit + w.1 * limit + w.2 * limit,
                total == w.0 + w.1 + w.2,
        ;
        assert(0 <= q <= limit) by (nonlinear_arith)
            requires
                n == total * q + r,
                0 <= r < total,
                0 <= n <= total * limit,
        ;
    }
    (n / total) as u64
}

/// The product of two bounded numbers is bounded by the product of the bounds.
pub proof fn lemma_product_bound(a: int, b: int, bound_a: int, bound_b: int)
    requires
        0 <= a <= bound_a,
        0 <= b <= bound_b,
    ensures
        0 <= a * b <= bound_a * bound_b,
{
    assert(0 <= a * b <= bound_a * bound_b) by (nonlinear_arith)
        requires
            0 <= a <= bound_a,
            0 <= b <= bound_b,
    ;
}

/// An edge crosses each of its rows between its two ends.
pub proof fn lemma_edge_x_bounds(a: Point, b: Point, y: int)
    requires
        a.y <= y <= b.y,
        a.y < b.y,
    ensures
        min2(a.x as int, b.x as int) <= edge_x(a, b, y) <= max2(a.x as int, b.x as int),
{
    let d = b.y - a.y;
    let k = y - a.y;
    let n = a.x * (b.y - y) + b.x * (y - a.y);
    let lo = min2(a.x as int, b.x as int);
    let hi = max2(a.x as int, b.x as int);
    let ax = a.x as int;
    let bx = b.x as int;
    assert(b.y - y == d - k);
    assert(lo * d <= n <= hi * d) by (nonlinear_arith)
        requires
            n == ax * (d - k) + bx * k,
            0 <= k <= d,
            lo <= ax <= hi,
            lo <= bx <= hi,
    ;
    lemma_fundamental_div_mod(n, d);
    let q = n / d;
    let r = n % d;
    assert(0 <= r < d);
    assert(lo <= q <= hi) by (nonlinear_arith)
        requires
            n == d * q + r,
            0 <= r < d,
            lo * d <= n <= hi * d,
    ;
}

/// An edge crosses the rows of its two ends at those ends.
pub proof fn lemma_edge_x_ends(a: Point, b: Point)
    requires
        a.y < b.y,
    ensures
        edge_x(a, b, a.y as int) == a.x,
        edge_x(a, b, b.y as int) == b.x,
{
    let d = b.y - a.y;
    lemma_div_multiples_vanish(a.x as int, d);
    lemma_div_multiples_vanish(b.x as int, d);
    assert(a.x * (b.y - a.y) + b.x * (a.y - a.y) == d * a.x) by (nonlinear_arith)
        requires
            d == b.y - a.y,
    ;
    assert(a.x * (b.y - b.y) + b.x * (b.y - a.y) == d * b.x) by (nonlinear_arith)
        requires
            d == b.y - a.y,
    ;
}

/// The column where the edge from `a` down to `b` crosses row `y`.
pub fn edge_column(a: Point, b: Point, y: u32) -> (x: u32)
    requires
        a.y <= y <= b.y,
        a.y < b.y,
    ensures
        x == edge_x(a, b, y as int),
        min2(a.x as int, b.x as int) <= x <= max2(a.x as int, b.x as int),
{
    proof {
        lemma_edge_x_bounds(a, b, y as int);
        lemma_product_bound(a.x as int, (b.y - y) as int, 0xFFFF_FFFF, 0xFFFF_FFFF);
        lemma_product_bound(b.x as int, (y - a.y) as int, 0xFFFF_FFFF, 0xFFFF_FFFF);
    }
    let n: u128 = (a.x as u128) * ((b.y - y) as u128) + (b.x as u128) * ((y - a.y) as u128);
    let d: u128 = (b.y - a.y) as u128;
    (n / d) as u32
}

/// A blend lies between the smallest and the largest of the blended values.
pub proof fn lemma_blend_between(w: (int, int, int), a: int, b: int, c: int)
    requires
        w.0 >= 0 && w.1 >= 0 && w.2 >= 0,
        w.0 + w.1 + w.2 > 0,
    ensures
        min2(a, min2(b, c)) <= blend(w, a, b, c) <= max2(a, max2(b, c)),
{
    let lo = min2(a, min2(b, c));
    let hi = max2(a, max2(b, c));
    let total = w.0 + w.1 + w.2;
    let n = w.0 * a + w.1 * b + w.2 * c;
    let (w0, w1, w2) = w;
    assert(lo * total <= n <= hi * total) by (nonlinear_arith)
        requires
            n == w0 * a + w1 * b + w2 * c,
            total == w0 + w1 + w2,
            w0 >= 0 && w1 >= 0 && w2 >= 0,
            lo <= a <= hi,
            lo <= b <= hi,
            lo <= c <= hi,
    ;
    lemma_fundamental_div_mod(n, total);
    let q = n / total;
    let r = n % total;
    assert(0 <= r < total);
    assert(lo <= q <= hi) by (nonlinear_arith)
        requires
            n == total * q + r,
            0 <= r < total,
            lo * total <= n <= hi * total,
    ;
}

/// At every pixel, inside the triangle or not, its depth lies between the
/// nearest and the farthest of its corners' depths.
pub proof fn lemma_depth_between_corners(triangle: Triangle, x: int, y: int)
    ensures
        min2(
            triangle.depths[0] as int,
            min2(triangle.depths[1] as int, triangle.depths[2] as int),
        ) <= triangle.depth_at(x, y) <= max2(
            triangle.depths[0] as int,
            max2(triangle.depths[1] as int, triangle.depths[2] as int),
        ),
{
    lemma_blend_between(
        triangle.weights(x, y),
        triangle.depths[0] as int,
        triangle.depths[1] as int,
        triangle.depths[2] as int,
    );
}

/// Filling reaches every row of a triangle: on each row from the top corner
/// to the bottom one, the pixel where the long edge crosses the row is covered.
pub proof fn lemma_fill_reaches_every_row(triangle: Triangle, y: int)
    requires
        triangle.sorted().0.y < triangle.sorted().2.y,
        triangle.sorted().0.y <= y <= triangle.sorted().2.y,
    ensures
        triangle.covers(edge_x(triangle.sorted().0, triangle.sorted().2, y), y),
        exists|x: int| triangle.covers(x, y),
{
    let (top, mid, bottom) = triangle.sorted();
    let x = edge_x(top, bottom, y);
    if y <= mid.y {
        if top.y < mid.y {
            assert(in_half(top, mid, top, bottom, x, y));
        } else {
            assert(in_half(mid, bottom, top, bottom, x, y));
        }
    } else {
        assert(in_half(mid, bottom, top, bottom, x, y));
    }
    assert(triangle.covers(x, y));
}

/// The two halves of a triangle meet without a gap: on the row of the middle
/// corner both fill the same pixels, those between that corner and the long edge.
pub proof fn lemma_halves_share_middle_row(triangle: Triangle, x: int)
    requires
        triangle.sorted().0.y < triangle.sorted().1.y < triangle.sorted().2.y,
    ensures
        ({
            let (top, mid, bottom) = triangle.sorted();
            let long_edge = edge_x(top, bottom, mid.y as int);
            &&& in_half(top, mid, top, bottom, x, mid.y as int) <==> in_half(
                mid,
                bottom,
                top,
                bottom,
                x,
                mid.y as int,
            )
            &&& triangle.covers(x, mid.y as int) <==> min2(mid.x as int, long_edge) <= x <= max2(
                mid.x as int,
                long_edge,
            )
        }),
{
    let (top, mid, bottom) = triangle.sorted();
    lemma_edge_x_ends(top, mid);
    lemma_edge_x_ends(mid, bottom);
}

/// A triangle whose two upper corners share a row is filled as its lower
/// half alone; one whose two lower corners share a row, as its upper half
/// alone; one with all corners on one row is not filled at all.
pub proof fn lemma_flat_triangle(triangle: Triangle, x: int, y: int)
    ensures
        ({
            let (top, mid, bottom) = triangle.sorted();
            &&& top.y == mid.y && mid.y < bottom.y ==> (triangle.covers(x, y) <==> in_half(
                mid,
                bottom,
                top,
                bottom,
                x,
                y,
            ))
            &&& top.y < mid.y && mid.y == bottom.y ==> (triangle.covers(x, y) <==> in_half(
                top,
                mid,
                top,
                bottom,
                x,
                y,
            ))
            &&& top.y == bottom.y ==> !triangle.covers(x, y)
        }),
{
}

/// Filling stays inside the triangle's bounding box, and so inside every
/// image that holds its corners.
pub proof fn lemma_covered_pixel_in_image(triangle: Triangle, width: int, height: int, x: int, y: int)
    requires
        triangle.fits(width, height),
        triangle.covers(x, y),
    ensures
        0 <= x < width,
        0 <= y < height,
{
    let (top, mid, bottom) = triangle.sorted();
    assert(triangle.points[0].x < width && triangle.points[1].x < width && triangle.points[2].x
        < width);
    assert(triangle.points[0].y < height && triangle.points[1].y < height && triangle.points[2].y
        < height);
    if top.y < mid.y && in_half(top, mid, top, bottom, x, y) {
        lemma_edge_x_bounds(top, mid, y);
        lemma_edge_x_bounds(top, bottom, y);
    } else {
        lemma_edge_x_bounds(mid, bottom, y);
        lemma_edge_x_bounds(top, bottom, y);
    }
}

} // verus!
