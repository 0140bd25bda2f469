//! What the preparation of a frame decides in whole numbers: which faces
//! look towards the camera, and where on the image a projected point lands.
//!
//! Positions are in view space, where the camera sits at the origin, as
//! fixed-point numbers. A face is front-facing when its corners run
//! counter-clockwise as seen from the camera.

use vstd::prelude::*;
use crate::mesh::Vec3;
use crate::triangle::{lemma_product_bound, Point};

verus! {

/// A face in view space: its three corners in winding order.
#[derive(Clone, Copy, Debug)]
pub struct ViewFace {
    pub a: Vec3,
    pub b: Vec3,
    pub c: Vec3,
}

/// The face's normal, the cross product of its sides `ab` and `ac`.
pub open spec fn normal(face: ViewFace) -> (int, int, int) {
    let (ux, uy, uz) = (face.b.x - face.a.x, face.b.y - face.a.y, face.b.z - face.a.z);
    let (vx, vy, vz) = (face.c.x - face.a.x, face.c.y - face.a.y, face.c.z - face.a.z);
    (uy * vz - uz * vy, uz * vx - ux * vz, ux * vy - uy * vx)
}

/// The dot product of the face's normal with the ray from its first corner
/// to the camera: negative where the face looks away.
pub open spec fn facing(face: ViewFace) -> int {
    let n = normal(face);
    n.0 * (0 - face.a.x) + n.1 * (0 - face.a.y) + n.2 * (0 - face.a.z)
}

/// Whether the face looks away from the camera.
pub open spec fn faces_away(face: ViewFace) -> bool {
    facing(face) < 0
}

/// Whether no corner of the face is nearer to the camera's plane than `near`.
/// A face that reaches behind that plane cannot be projected.
pub open spec fn in_front(face: ViewFace, near: i32) -> bool {
    face.a.z >= near && face.b.z >= near && face.c.z >= near
}

/// Whether the face is drawn. A face that reaches behind the near plane never
/// is. Of the others, without culling each is drawn; with culling, each but
/// those that look away.
pub open spec fn is_drawn(face: ViewFace, cull: bool, near: i32) -> bool {
    in_front(face, near) && (!cull || !faces_away(face))
}

/// The faces among the first `n` that are drawn, by their positions in the list.
pub open spec fn drawn_among(faces: Seq<ViewFace>, cull: bool, near: i32, n: nat) -> Seq<usize>
    decreases n,
{
    if n == 0 {
        Seq::empty()
    } else if is_drawn(faces[n - 1], cull, near) {
        drawn_among(faces, cull, near, (n - 1) as nat).push((n - 1) as usize)
    } else {
        drawn_among(faces, cull, near, (n - 1) as nat)
    }
}

/// Culling is what decides over a face in front of the near plane: with
/// culling it is drawn unless it looks away, and without culling it is drawn
/// whichever way it looks.
pub proof fn lemma_culling_decides(face: ViewFace, near: i32)
    requires
        in_front(face, near),
    ensures
        is_drawn(face, true, near) <==> !faces_away(face),
        is_drawn(face, false, near),
{
}

/// `v` pulled into `0 .. size`.
pub open spec fn clamp_index(v: int, size: int) -> int {
    if v < 0 {
        0
    } else if v >= size {
        size - 1
    } else {
        v
    }
}

const SPAN: i128 = 0x1_0000_0000;

proof fn lemma_signed_bound(a: int, b: int, m: int, n: int)
    requires
        -m <= a <= m,
        -n <= b <= n,
    ensures
        -(m * n) <= a * b <= m * n,
{
    if a >= 0 && b >= 0 {
        lemma_product_bound(a, b, m, n);
    } else if a >= 0 {
        lemma_product_bound(a, -b, m, n);
        assert(a * (-b) == -(a * b)) by (nonlinear_arith);
    } else if b >= 0 {
        lemma_product_bound(-a, b, m, n);
        assert((-a) * b == -(a * b)) by (nonlinear_arith);
    } else {
        lemma_product_bound(-a, -b, m, n);
        assert((-a) * (-b) == a * b) by (nonlinear_arith);
    }
}

/// `ux * vy - uy * vx` for sides of a face.
fn minor(ux: i128, uy: i128, vx: i128, vy: i128) -> (r: i128)
    requires
        -SPAN <= ux <= SPAN,
        -SPAN <= uy <= SPAN,
        -SPAN <= vx <= SPAN,
        -SPAN <= vy <= SPAN,
    ensures
        r == ux * vy - uy * vx,
        -2 * (SPAN * SPAN) <= r <= 2 * (SPAN * SPAN),
{
    proof {
        lemma_signed_bound(ux as int, vy as int, SPAN as int, SPAN as int);
        lemma_signed_bound(uy as int, vx as int, SPAN as int, SPAN as int);
    }
    ux * vy - uy * vx
}

/// One term of the dot product with the ray to the camera.
fn towards_camera(n: i128, coordinate: i32) -> (r: i128)
    requires
        -2 * (SPAN * SPAN) <= n <= 2 * (SPAN * SPAN),
    ensures
        r == n * (0 - coordinate),
        -2 * (SPAN * SPAN) * SPAN <= r <= 2 * (SPAN * SPAN) * SPAN,
{
    proof {
        lemma_signed_bound(n as int, 0 - coordinate as int, 2 * (SPAN * SPAN) as int, SPAN as int);
    }
    n * (0 - coordinate as i128)
}

impl ViewFace {
    /// Whether no corner of the face is nearer to the camera's plane than `near`.
    pub fn is_in_front(&self, near: i32) -> (front: bool)
        ensures
            front == in_front(*self, near),
    {
        self.a.z >= near && self.b.z >= near && self.c.z >= near
    }

    /// Whether the face looks away from the camera.
    pub fn looks_away(&self) -> (away: bool)
        ensures
            away == faces_away(*self),
    {
        let ux: i128 = self.b.x as i128 - self.a.x as i128;
        let uy: i128 = self.b.y as i128 - self.a.y as i128;
        let uz: i128 = self.b.z as i128 - self.a.z as i128;
        let vx: i128 = self.c.x as i128 - self.a.x as i128;
        let vy: i128 = self.c.y as i128 - self.a.y as i128;
        let vz: i128 = self.c.z as i128 - self.a.z as i128;
        let nx = minor(uy, uz, vy, vz);
        let ny = minor(uz, ux, vz, vx);
        let nz = minor(ux, uy, vx, vy);
        let dot = towards_camera(nx, self.a.x) + towards_camera(ny, self.a.y) + towards_camera(
            nz,
            self.a.z,
        );
        dot < 0
    }
}

/// The faces to draw, by their positions in the list and in the list's
/// order. Faces that reach behind the near plane are left out. With culling,
/// so are the faces that look away; without it, every other face is drawn.
pub fn visible_faces(faces: &Vec<ViewFace>, cull: bool, near: i32) -> (drawn: Vec<usize>)
    ensures
        drawn@ == drawn_among(faces@, cull, near, faces@.len()),
        forall|k: int| 0 <= k < drawn.len() ==> drawn[k] < faces.len(),
        forall|i: int|
            0 <= i < faces.len() ==> (drawn@.contains(i as usize) <==> is_drawn(
                #[trigger] faces[i],
                cull,
                near,
            )),
        forall|k: int, l: int| 0 <= k < l < drawn.len() ==> drawn[k] < drawn[l],
{
    let mut drawn: Vec<usize> = Vec::new();
    let mut i: usize = 0;
    while i < faces.len()
        invariant
            i <= faces.len(),
            drawn@ == drawn_among(faces@, cull, near, i as nat),
            forall|k: int| 0 <= k < drawn.len() ==> drawn[k] < i,
            forall|j: int|
                0 <= j < i ==> (drawn@.contains(j as usize) <==> is_drawn(
                    #[trigger] faces[j],
                    cull,
                    near,
                )),
            forall|k: int, l: int| 0 <= k < l < drawn.len() ==> drawn[k] < drawn[l],
        decreases faces.len() - i,
    {
        let ghost before = drawn@;
        if faces[i].is_in_front(near) && (!cull || !faces[i].looks_away()) {
            drawn.push(i);
            proof {
                assert(drawn@[drawn.len() - 1] == i);
                assert forall|j: int| 0 <= j < i + 1 implies (drawn@.contains(j as usize)
                    <==> is_drawn(#[trigger] faces[j], cull, near)) by {
                    if j < i && before.contains(j as usize) {
                        let k = choose|k: int| 0 <= k < before.len() && before[k] == j as usize;
                        assert(drawn@[k] == j as usize);
                    }
                    if drawn@.contains(j as usize) && j < i {
                        let k = choose|k: int| 0 <= k < drawn@.len() && drawn@[k] == j as usize;
                        assert(before[k] == j as usize);
                    }
                }
            }
        } else {
            proof {
                assert forall|j: int| 0 <= j < i + 1 implies (drawn@.contains(j as usize)
                    <==> is_drawn(#[trigger] faces[j], cull, near)) by {
                    if drawn@.contains(j as usize) && j == i {
                        let k = choose|k: int| 0 <= k < drawn@.len() && drawn@[k] == j as usize;
                        assert(drawn[k] < i);
                    }
                }
            }
        }
        i = i + 1;
    }
    drawn
}

/// The pixel of a `width` by `height` image that is nearest to the position
/// `(x, y)`, which may lie outside the image.
pub fn clamp_to_image(x: i64, y: i64, width: u32, height: u32) -> (p: Point)
    requires
        width > 0,
        height > 0,
    ensures
        p.x == clamp_index(x as int, width as int),
        p.y == clamp_index(y as int, height as int),
        p.x < width,
        p.y < height,
{
    let px: u32 = if x < 0 {
        0
    } else if x >= width as i64 {
        width - 1
    } else {
        x as u32
    };
    let py: u32 = if y < 0 {
        0
    } else if y >= height as i64 {
        height - 1
    } else {
        y as u32
    };
    Point { x: px, y: py }
}

} // verus!
