//! The fixed connectivity of the cube: which corners make up each triangle.

use vstd::prelude::*;

verus! {

/// The number of corners of the cube.
pub const CUBE_CORNERS: usize = 8;

/// The twelve triangles of the cube, two for each face, each as the three
/// corners it joins in drawing order.
pub open spec fn cube_faces() -> Seq<(usize, usize, usize)> {
    seq![
        (0, 2, 1),
        (0, 3, 2),
        (4, 3, 0),
        (4, 7, 3),
        (5, 7, 4),
        (5, 6, 7),
        (1, 6, 5),
        (1, 2, 6),
        (0, 5, 4),
        (0, 1, 5),
        (3, 6, 2),
        (3, 7, 6),
    ]
}

/// Every triangle of the list joins three different corners out of `corners`.
pub open spec fn joins_corners(triangles: Seq<(usize, usize, usize)>, corners: int) -> bool {
    forall|i: int|
        0 <= i < triangles.len() ==> {
            let t = #[trigger] triangles[i];
            &&& t.0 < corners
            &&& t.1 < corners
            &&& t.2 < corners
            &&& t.0 != t.1
            &&& t.1 != t.2
            &&& t.2 != t.0
        }
}

/// The triangles of the cube. The list never changes; only the corners move.
pub fn cube_triangles() -> (triangles: Vec<(usize, usize, usize)>)
    ensures
        triangles@ == cube_faces(),
        joins_corners(triangles@, CUBE_CORNERS as int),
{
    let mut triangles: Vec<(usize, usize, usize)> = Vec::new();
    triangles.push((0, 2, 1));
    triangles.push((0, 3, 2));
    triangles.push((4, 3, 0));
    triangles.push((4, 7, 3));
    triangles.push((5, 7, 4));
    triangles.push((5, 6, 7));
    triangles.push((1, 6, 5));
    triangles.push((1, 2, 6));
    triangles.push((0, 5, 4));
    triangles.push((0, 1, 5));
    triangles.push((3, 6, 2));
    triangles.push((3, 7, 6));
    assert(triangles@ =~= cube_faces());
    triangles
}

} // verus!
