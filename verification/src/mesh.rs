use vstd::prelude::*;

verus! {

/// The six indices that draw quad `q` (vertices `4q .. 4q + 3`, counter-clockwise)
/// as the triangles `(0, 1, 2)` and `(0, 2, 3)` of its corners.
pub open spec fn quad_index(k: int) -> u16 {
    let q = k / 6;
    let corner = k % 6;
    (4 * q + if corner == 0 || corner == 3 {
        0int
    } else if corner == 1 {
        1int
    } else if corner == 2 || corner == 4 {
        2int
    } else {
        3int
    }) as u16
}

/// Index data that draws `quads` consecutive quads as two triangles each.
pub fn quad_indices(quads: u16) -> (indices: Vec<u16>)
    requires
        4 * quads <= u16::MAX,
    ensures
        indices@.len() == 6 * quads,
        forall|k: int| 0 <= k < 6 * quads ==> #[trigger] indices@[k] == quad_index(k),
{
    let mut indices: Vec<u16> = Vec::new();
    let mut q: u16 = 0;
    while q < quads
        invariant
            q <= quads,
            4 * quads <= u16::MAX,
            indices@.len() == 6 * q,
            forall|k: int| 0 <= k < 6 * q ==> #[trigger] indices@[k] == quad_index(k),
        decreases quads - q,
    {
        let base = 4 * q;
        indices.push(base);
        indices.push(base + 1);
        indices.push(base + 2);
        indices.push(base);
        indices.push(base + 2);
        indices.push(base + 3);
        assert forall|k: int| 0 <= k < 6 * (q + 1) implies #[trigger] indices@[k] == quad_index(k) by {
            if k >= 6 * q {
                assert(k / 6 == q);
            }
        }
        q = q + 1;
    }
    indices
}

/// The index data of a cube whose 24 vertices list its six sides as quads.
pub fn initialize_indices() -> (indices: Vec<u16>)
    ensures
        indices@.len() == 36,
        forall|k: int| 0 <= k < 36 ==> #[trigger] indices@[k] == quad_index(k),
{
    quad_indices(6)
}

/// The faces of a mesh, as lists of vertex numbers.
pub open spec fn face_views(faces: Seq<Vec<u32>>) -> Seq<Seq<u32>> {
    faces.map_values(|face: Vec<u32>| face@)
}

/// The index data of a mesh: the vertex numbers of its faces, face after face.
pub fn face_indices(faces: &Vec<Vec<u32>>) -> (indices: Vec<u32>)
    ensures
        indices@ == face_views(faces@).flatten(),
{
    let mut indices: Vec<u32> = Vec::new();
    let mut f: usize = 0;
    while f < faces.len()
        invariant
            f <= faces@.len(),
            indices@ == face_views(faces@.take(f as int)).flatten(),
        decreases faces@.len() - f,
    {
        let face = &faces[f];
        let ghost before = indices@;
        let mut i: usize = 0;
        while i < face.len()
            invariant
                i <= face@.len(),
                indices@ == before + face@.take(i as int),
            decreases face@.len() - i,
        {
            indices.push(face[i]);
            assert(indices@ =~= before + face@.take(i + 1));
            i = i + 1;
        }
        proof {
            assert(face@.take(face@.len() as int) =~= face@);
            assert(face_views(faces@.take(f + 1)) =~= face_views(faces@.take(f as int)).push(face@));
            face_views(faces@.take(f as int)).lemma_flatten_push(face@);
        }
        f = f + 1;
    }
    assert(faces@.take(faces@.len() as int) =~= faces@);
    indices
}

} // verus!
