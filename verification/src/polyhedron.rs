use vstd::prelude::*;

verus! {

/// A triangle as three vertex numbers, in counter-clockwise order seen from outside.
pub type Triangle = (usize, usize, usize);

/// The faces of the regular icosahedron over its twelve vertices: five around
/// vertex 0, five around vertex 2, and the two rings of five in between.
pub open spec fn icosahedron_faces() -> Seq<Triangle> {
    seq![
        (0, 3, 4), (0, 7, 3), (0, 11, 7), (0, 8, 11), (0, 4, 8),
        (2, 1, 5), (2, 6, 1), (2, 10, 6), (2, 9, 10), (2, 5, 9),
        (10, 3, 7), (9, 4, 3), (5, 8, 4), (1, 11, 8), (6, 7, 11),
        (9, 3, 10), (5, 4, 9), (1, 8, 5), (6, 11, 1), (10, 7, 6),
    ]
}

/// The faces of the cube over its eight corners, two per side: front, right,
/// back, left, top, bottom.
pub open spec fn cube_faces() -> Seq<Triangle> {
    seq![
        (0, 1, 2), (2, 3, 0),
        (3, 2, 5), (5, 4, 3),
        (4, 5, 6), (6, 7, 4),
        (7, 6, 1), (1, 0, 7),
        (7, 0, 3), (3, 4, 7),
        (1, 6, 5), (5, 2, 1),
    ]
}

/// Every triangle names vertices that exist.
pub open spec fn faces_in_range(faces: Seq<Triangle>, vertex_count: nat) -> bool {
    forall|i: int|
        0 <= i < faces.len() ==> {
            &&& (#[trigger] faces[i]).0 < vertex_count
            &&& faces[i].1 < vertex_count
            &&& faces[i].2 < vertex_count
        }
}

/// The connectivity of a closed polyhedron: how many vertices it has and which
/// of them form its triangles.
pub struct Polyhedron {
    pub vertex_count: usize,
    pub triangles: Vec<Triangle>,
}

fn generate_icosahedron_triangles() -> (triangles: Vec<Triangle>)
    ensures
        triangles@ == icosahedron_faces(),
{
    let triangles: Vec<Triangle> = vec![
        (0, 3, 4), (0, 7, 3), (0, 11, 7), (0, 8, 11), (0, 4, 8),
        (2, 1, 5), (2, 6, 1), (2, 10, 6), (2, 9, 10), (2, 5, 9),
        (10, 3, 7), (9, 4, 3), (5, 8, 4), (1, 11, 8), (6, 7, 11),
        (9, 3, 10), (5, 4, 9), (1, 8, 5), (6, 11, 1), (10, 7, 6),
    ];
    assert(triangles@ =~= icosahedron_faces());
    triangles
}

fn generate_cube_triangles() -> (triangles: Vec<Triangle>)
    ensures
        triangles@ == cube_faces(),
{
    let triangles: Vec<Triangle> = vec![
        (0, 1, 2), (2, 3, 0),
        (3, 2, 5), (5, 4, 3),
        (4, 5, 6), (6, 7, 4),
        (7, 6, 1), (1, 0, 7),
        (7, 0, 3), (3, 4, 7),
        (1, 6, 5), (5, 2, 1),
    ];
    assert(triangles@ =~= cube_faces());
    triangles
}

impl Polyhedron {
    /// The regular icosahedron: twelve vertices and twenty triangles.
    pub fn regular_icosahedron() -> (polyhedron: Self)
        ensures
            polyhedron.vertex_count == 12,
            polyhedron.triangles@ == icosahedron_faces(),
            faces_in_range(polyhedron.triangles@, 12),
    {
        let triangles = generate_icosahedron_triangles();
        Self { vertex_count: 12, triangles }
    }

    /// The cube: eight corners and twelve triangles.
    pub fn cube() -> (polyhedron: Self)
        ensures
            polyhedron.vertex_count == 8,
            polyhedron.triangles@ == cube_faces(),
            faces_in_range(polyhedron.triangles@, 8),
    {
        let triangles = generate_cube_triangles();
        Self { vertex_count: 8, triangles }
    }

    /// Number of vertices.
    pub fn vertex_count(&self) -> (count: usize)
        ensures
            count == self.vertex_count,
    {
        self.vertex_count
    }

    /// The triangles, as vertex numbers.
    pub fn triangles(&self) -> (triangles: &Vec<Triangle>)
        ensures
            triangles@ == self.triangles@,
    {
        &self.triangles
    }
}

} // verus!
