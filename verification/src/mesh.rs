//! The indexing of a triangle mesh: a list of vertex indices, three to a face,
//! into flat arrays that hold three coordinates for each vertex.

use vstd::prelude::*;

verus! {

/// The number of whole faces in a list of vertex indices; indices left over at
/// the end are not a face.
pub open spec fn face_count(indices: Seq<u32>) -> int {
    indices.len() as int / 3
}

/// Where the coordinates of a corner of a face start in a flat array.
pub open spec fn corner_offset(indices: Seq<u32>, face: int, corner: int) -> int
    recommends
        0 <= face < face_count(indices),
        0 <= corner < 3,
{
    3 * indices[3 * face + corner]
}

/// Every corner of every face has its three coordinates in an array of
/// `coordinates` numbers.
pub open spec fn indexable(indices: Seq<u32>, coordinates: usize) -> bool {
    forall|face: int, corner: int|
        0 <= face < face_count(indices) && 0 <= corner < 3 ==> #[trigger] corner_offset(
            indices,
            face,
            corner,
        ) + 2 < coordinates
}

/// For each face of the mesh, where the coordinates of its three corners start
/// in the arrays of positions and of normals; nothing if a corner of a face
/// lies beyond the end of either array.
pub fn triangle_offsets(indices: &[u32], positions: usize, normals: usize) -> (offsets: Option<
    Vec<[usize; 3]>,
>)
    ensures
        offsets is Some <==> indexable(indices@, positions) && indexable(indices@, normals),
        offsets is Some ==> offsets.unwrap()@.len() == face_count(indices@),
        offsets is Some ==> forall|face: int, corner: int|
            0 <= face < face_count(indices@) && 0 <= corner < 3 ==> (
            #[trigger] offsets.unwrap()@[face]@[corner]) == corner_offset(indices@, face, corner),
{
    let coordinates = if positions < normals {
        positions
    } else {
        normals
    };
    let count = indices.len();
    let faces = count / 3;
    let mut offsets: Vec<[usize; 3]> = Vec::with_capacity(faces);
    let mut face: usize = 0;
    while face < faces
        invariant
            faces == face_count(indices@),
            count == indices@.len(),
            3 * faces <= count,
            coordinates <= positions,
            coordinates <= normals,
            coordinates == positions || coordinates == normals,
            face <= faces,
            offsets@.len() == face,
            forall|f: int, corner: int|
                0 <= f < face && 0 <= corner < 3 ==> #[trigger] corner_offset(indices@, f, corner)
                    + 2 < coordinates,
            forall|f: int, corner: int|
                0 <= f < face && 0 <= corner < 3 ==> (#[trigger] offsets@[f]@[corner])
                    == corner_offset(indices@, f, corner),
        decreases faces - face,
    {
        let a = indices[3 * face] as usize;
        let b = indices[3 * face + 1] as usize;
        let c = indices[3 * face + 2] as usize;
        if coordinates < 3 || a > (coordinates - 3) / 3 || b > (coordinates - 3) / 3 || c > (
        coordinates - 3) / 3 {
            proof {
                let corner: int = if coordinates < 3 || a > (coordinates - 3) / 3 {
                    0
                } else if b > (coordinates - 3) / 3 {
                    1
                } else {
                    2
                };
                assert(!(corner_offset(indices@, face as int, corner) + 2 < coordinates));
            }
            return None;
        }
        let corners: [usize; 3] = [3 * a, 3 * b, 3 * c];
        proof {
            assert forall|corner: int| 0 <= corner < 3 implies #[trigger] corner_offset(
                indices@,
                face as int,
                corner,
            ) + 2 < coordinates && corners@[corner] == corner_offset(indices@, face as int, corner) by {
            }
        }
        offsets.push(corners);
        face += 1;
    }
    Some(offsets)
}

} // verus!
