//! Meshes: vertices, the faces between them, and where the mesh stands.

use vstd::prelude::*;
use crate::geometry::ViewFace;
use crate::triangle::Tex2;

verus! {

/// Three fixed-point numbers: a position, a scale for each axis, or an angle
/// of rotation about each axis.
#[derive(Clone, Copy, Debug, PartialEq, Eq, Structural)]
pub struct Vec3 {
    pub x: i32,
    pub y: i32,
    pub z: i32,
}

/// The fixed-point number that stands for one.
pub const ONE: i32 = 0x1_0000;

/// A face: the positions of its three corners in the mesh's list of
/// vertices, in winding order, and the texture coordinate of each corner.
#[derive(Clone, Copy, Debug)]
pub struct Face {
    pub a: usize,
    pub b: usize,
    pub c: usize,
    pub a_uv: Tex2,
    pub b_uv: Tex2,
    pub c_uv: Tex2,
}

/// A mesh: its vertices in model space, its faces, and its transform: the
/// angles of rotation about the three axes, the scale along each, and the
/// translation.
pub struct Mesh {
    pub vertices: Vec<Vec3>,
    pub faces: Vec<Face>,
    pub rotation: Vec3,
    pub scale: Vec3,
    pub translation: Vec3,
}

impl Face {
    /// Every corner is one of `count` vertices.
    pub open spec fn within(self, count: int) -> bool {
        self.a < count && self.b < count && self.c < count
    }
}

impl Mesh {
    /// Every corner of every face is a vertex of the mesh.
    pub open spec fn wf(&self) -> bool {
        forall|i: int|
            0 <= i < self.faces.len() ==> (#[trigger] self.faces[i]).within(
                self.vertices.len() as int,
            )
    }

    /// The face at position `i` with its corners taken from `positions`.
    pub open spec fn face_at(&self, positions: Seq<Vec3>, i: int) -> ViewFace {
        ViewFace {
            a: positions[self.faces[i].a as int],
            b: positions[self.faces[i].b as int],
            c: positions[self.faces[i].c as int],
        }
    }

    /// A mesh at the origin, not rotated, in its own size; none where a face
    /// names a vertex that the mesh does not have.
    pub fn new(vertices: Vec<Vec3>, faces: Vec<Face>) -> (mesh: Option<Mesh>)
        ensures
            mesh.is_some() <==> (forall|i: int|
                0 <= i < faces.len() ==> (#[trigger] faces[i]).within(vertices.len() as int)),
            mesh.is_some() ==> {
                &&& mesh.unwrap().wf()
                &&& mesh.unwrap().vertices@ == vertices@
                &&& mesh.unwrap().faces@ == faces@
                &&& mesh.unwrap().rotation == (Vec3 { x: 0, y: 0, z: 0 })
                &&& mesh.unwrap().scale == (Vec3 { x: ONE, y: ONE, z: ONE })
                &&& mesh.unwrap().translation == (Vec3 { x: 0, y: 0, z: 0 })
            },
    {
        let ghost given = faces@;
        let ghost count = vertices.len() as int;
        let mesh = Mesh {
            vertices,
            faces,
            rotation: Vec3 { x: 0, y: 0, z: 0 },
            scale: Vec3 { x: ONE, y: ONE, z: ONE },
            translation: Vec3 { x: 0, y: 0, z: 0 },
        };
        let ok = mesh.is_well_formed();
        proof {
            assert(mesh.faces@ == given && mesh.vertices.len() == count);
            if ok {
                assert forall|i: int| 0 <= i < given.len() implies (#[trigger] given[i]).within(
                    count,
                ) by {
                    assert(mesh.faces[i].within(count));
                }
            } else {
                if forall|i: int| 0 <= i < given.len() ==> (#[trigger] given[i]).within(count) {
                    assert forall|i: int| 0 <= i < mesh.faces.len() implies (
                    #[trigger] mesh.faces[i]).within(mesh.vertices.len() as int) by {
                        assert(given[i].within(count));
                    }
                }
            }
        }
        if ok {
            Some(mesh)
        } else {
            None
        }
    }

    /// Whether every corner of every face is a vertex of the mesh.
    pub fn is_well_formed(&self) -> (ok: bool)
        ensures
            ok == self.wf(),
    {
        let count = self.vertices.len();
        let mut i: usize = 0;
        while i < self.faces.len()
            invariant
                i <= self.faces.len(),
                count == self.vertices.len(),
                forall|k: int| 0 <= k < i ==> (#[trigger] self.faces[k]).within(count as int),
            decreases self.faces.len() - i,
        {
            let face = self.faces[i];
            if face.a >= count || face.b >= count || face.c >= count {
                assert(!self.faces[i as int].within(count as int));
                return false;
            }
            i = i + 1;
        }
        true
    }

    /// The faces of the mesh with their corners taken from `positions`: the
    /// mesh's vertices after they were moved, one position for each vertex.
    pub fn view_faces(&self, positions: &Vec<Vec3>) -> (faces: Vec<ViewFace>)
        requires
            self.wf(),
            positions.len() == self.vertices.len(),
        ensures
            faces.len() == self.faces.len(),
            forall|i: int|
                0 <= i < faces.len() ==> #[trigger] faces[i] == self.face_at(positions@, i),
    {
        let mut faces: Vec<ViewFace> = Vec::new();
        let mut i: usize = 0;
        while i < self.faces.len()
            invariant
                i <= self.faces.len(),
                self.wf(),
                positions.len() == self.vertices.len(),
                faces.len() == i,
                forall|k: int| 0 <= k < i ==> #[trigger] faces[k] == self.face_at(positions@, k),
            decreases self.faces.len() - i,
        {
            let face = self.faces[i];
            assert(self.faces[i as int].within(self.vertices.len() as int));
            faces.push(ViewFace { a: positions[face.a], b: positions[face.b], c: positions[face.c] });
            i = i + 1;
        }
        faces
    }
}

} // verus!
