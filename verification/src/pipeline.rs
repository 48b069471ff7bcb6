//! Primitive assembly.
//!
//! A mesh is a list of vertices in which each run of three makes a triangle.
//! Vertices left over at the end, fewer than three, make none.

use vstd::prelude::*;

verus! {

/// The places in the vertex list of the corners of one triangle.
#[derive(Clone, Copy, Debug, PartialEq, Eq, Structural)]
pub struct Corners {
    pub a: usize,
    pub b: usize,
    pub c: usize,
}

/// The corners of the `k`-th triangle of a vertex list.
pub open spec fn spec_corners(k: int) -> (int, int, int) {
    (3 * k, 3 * k + 1, 3 * k + 2)
}

/// Groups a list of `vertex_count` vertices into triangles: one for each
/// full run of three, in the order of the list.
pub fn assemble(vertex_count: usize) -> (triangles: Vec<Corners>)
    ensures
        triangles@.len() == vertex_count / 3,
        forall|k: int|
            0 <= k < triangles@.len() ==> {
                &&& (#[trigger] triangles@[k]).a == spec_corners(k).0
                &&& triangles@[k].b == spec_corners(k).1
                &&& triangles@[k].c == spec_corners(k).2
                &&& triangles@[k].c < vertex_count
            },
{
    let mut triangles: Vec<Corners> = Vec::new();
    let mut i: usize = 0;
    while vertex_count - i >= 3
        invariant
            i % 3 == 0,
            i <= vertex_count,
            triangles@.len() == i / 3,
            forall|k: int|
                0 <= k < triangles@.len() ==> {
                    &&& (#[trigger] triangles@[k]).a == spec_corners(k).0
                    &&& triangles@[k].b == spec_corners(k).1
                    &&& triangles@[k].c == spec_corners(k).2
                    &&& triangles@[k].c < vertex_count
                },
        decreases vertex_count - i,
    {
        triangles.push(Corners { a: i, b: i + 1, c: i + 2 });
        i = i + 3;
    }
    triangles
}

} // verus!
