//! Topology of the sphere mesh every body is drawn with.
//!
//! The sphere is a latitude/longitude grid of `rings + 1` rows of
//! `segments + 1` vertices (the seam and the poles are duplicated so texture
//! coordinates run cleanly). Vertex `ring · (segments + 1) + segment` sits at
//! row `ring`, column `segment`. Each grid cell becomes two triangles,
//! counter-clockwise when seen from outside.

use vstd::prelude::*;
use vstd::arithmetic::div_mod::lemma_fundamental_div_mod_converse;

verus! {

/// Number of vertices in the grid of a sphere with `rings` latitude bands and
/// `segments` longitude divisions.
pub open spec fn sphere_vertex_count(rings: int, segments: int) -> int {
    (rings + 1) * (segments + 1)
}

/// Whether a sphere of this resolution can be built: at least three bands
/// each way, and every vertex index and the index count within `u32`.
pub open spec fn sphere_resolution_ok(rings: int, segments: int) -> bool {
    &&& rings >= 3
    &&& segments >= 3
    &&& sphere_vertex_count(rings, segments) <= u32::MAX
    &&& 6 * rings * segments <= u32::MAX
}

/// The `k`-th entry of the index buffer: cell `k / 6` of the grid, numbered
/// row by row, contributes the triangles (bottom-left, top-left,
/// bottom-right) and (bottom-right, top-left, top-right).
pub open spec fn sphere_index(rings: int, segments: int, k: int) -> int {
    let cell = k / 6;
    let ring = cell / segments;
    let segment = cell % segments;
    let row = segments + 1;
    let bottom_left = ring * row + segment;
    let corner = k % 6;
    if corner == 0 {
        bottom_left
    } else if corner == 1 || corner == 4 {
        bottom_left + row
    } else if corner == 2 || corner == 3 {
        bottom_left + 1
    } else {
        bottom_left + row + 1
    }
}

/// The cell and corner behind entry `6·(ring·segments + segment) + corner`.
proof fn lemma_entry_of_cell(segments: int, ring: int, segment: int, corner: int)
    requires
        segments > 0,
        ring >= 0,
        0 <= segment < segments,
        0 <= corner < 6,
    ensures
        ({
            let k = 6 * (ring * segments + segment) + corner;
            &&& k / 6 == ring * segments + segment
            &&& k % 6 == corner
            &&& (ring * segments + segment) / segments == ring
            &&& (ring * segments + segment) % segments == segment
        }),
{
    let cell = ring * segments + segment;
    lemma_fundamental_div_mod_converse(6 * cell + corner, 6, cell, corner);
    lemma_fundamental_div_mod_converse(cell, segments, ring, segment);
}

/// The triangle index buffer of a unit sphere with `rings` latitude bands and
/// `segments` longitude divisions: two triangles per grid cell, six indices
/// per cell, cells in row order.
#[verifier::rlimit(30)]
pub fn uv_sphere_indices(rings: u32, segments: u32) -> (indices: Vec<u32>)
    requires
        sphere_resolution_ok(rings as int, segments as int),
    ensures
        indices@.len() == 6 * rings * segments,
        forall|k: int|
            0 <= k < indices@.len() ==> indices@[k] == sphere_index(rings as int, segments as int, k),
        forall|k: int|
            0 <= k < indices@.len() ==> #[trigger] indices@[k] < sphere_vertex_count(rings as int, segments as int),
{
    assert(segments + 1 <= (rings + 1) * (segments + 1)) by (nonlinear_arith)
        requires
            rings >= 3,
            segments >= 3,
    ;
    assert(rings * segments <= rings * segments * 6 && rings * segments * 6 == 6 * rings * segments)
        by (nonlinear_arith)
        requires
            rings >= 3,
            segments >= 3,
    ;
    let row = segments + 1;
    let mut indices: Vec<u32> = Vec::with_capacity((rings * segments * 6) as usize);
    let mut ring: u32 = 0;
    while ring < rings
        invariant
            sphere_resolution_ok(rings as int, segments as int),
            row == segments + 1,
            ring <= rings,
            indices@.len() == 6 * (ring * segments),
            forall|k: int|
                0 <= k < indices@.len() ==> indices@[k] == sphere_index(rings as int, segments as int, k),
        decreases rings - ring,
    {
        let mut segment: u32 = 0;
        while segment < segments
            invariant
                sphere_resolution_ok(rings as int, segments as int),
                row == segments + 1,
                ring < rings,
                segment <= segments,
                indices@.len() == 6 * (ring * segments + segment),
                forall|k: int|
                    0 <= k < indices@.len() ==> indices@[k] == sphere_index(rings as int, segments as int, k),
            decreases segments - segment,
        {
            assert(ring * row + row <= rings * row) by (nonlinear_arith)
                requires
                    ring < rings,
                    row >= 0,
            ;
            assert(rings * row + row <= u32::MAX) by (nonlinear_arith)
                requires
                    (rings + 1) * (segments + 1) <= u32::MAX,
                    row == segments + 1,
            ;
            let bottom_left = ring * row + segment;
            let bottom_right = bottom_left + 1;
            let top_left = bottom_left + row;
            let top_right = top_left + 1;
            let ghost before = indices@;
            indices.push(bottom_left);
            indices.push(top_left);
            indices.push(bottom_right);
            indices.push(bottom_right);
            indices.push(top_left);
            indices.push(top_right);
            assert forall|k: int|
                0 <= k < indices@.len() implies indices@[k] == sphere_index(rings as int, segments as int, k) by {
                if k >= before.len() {
                    lemma_entry_of_cell(segments as int, ring as int, segment as int, k - before.len());
                }
            }
            segment += 1;
        }
        assert(ring * segments + segments == (ring + 1) * segments) by (nonlinear_arith);
        ring += 1;
    }
    assert forall|k: int|
        0 <= k < indices@.len() implies #[trigger] indices@[k] < sphere_vertex_count(rings as int, segments as int) by {
        lemma_sphere_indices_in_range(rings as int, segments as int, k);
    }
    indices
}

/// Row and column, in the vertex grid, of vertex `v`.
pub open spec fn grid_row(segments: int, v: int) -> int {
    v / (segments + 1)
}

/// Column of vertex `v` in the grid; columns run from 0 to `segments`, the
/// last one duplicating the first along the seam.
pub open spec fn grid_column(segments: int, v: int) -> int {
    v % (segments + 1)
}

/// Cell `(ring, segment)` is drawn as two triangles over its own four
/// corners: bottom-left at row `ring`, column `segment`; the top corners one
/// row up; the right corners one column to the right, in the same row — never
/// wrapped to column 0, since the seam column is duplicated. The first
/// triangle is (bottom-left, top-left, bottom-right), the second
/// (bottom-right, top-left, top-right).
pub proof fn lemma_cell_triangles_use_the_cell_corners(rings: int, segments: int, ring: int, segment: int)
    requires
        sphere_resolution_ok(rings, segments),
        0 <= ring < rings,
        0 <= segment < segments,
    ensures
        ({
            let k = 6 * (ring * segments + segment);
            let corner_at = |c: int| (grid_row(segments, sphere_index(rings, segments, k + c)),
                grid_column(segments, sphere_index(rings, segments, k + c)));
            &&& corner_at(0) == (ring, segment)
            &&& corner_at(1) == (ring + 1, segment)
            &&& corner_at(2) == (ring, segment + 1)
            &&& corner_at(3) == (ring, segment + 1)
            &&& corner_at(4) == (ring + 1, segment)
            &&& corner_at(5) == (ring + 1, segment + 1)
        }),
{
    lemma_corner_position(rings, segments, ring, segment, 0);
    lemma_corner_position(rings, segments, ring, segment, 1);
    lemma_corner_position(rings, segments, ring, segment, 2);
    lemma_corner_position(rings, segments, ring, segment, 3);
    lemma_corner_position(rings, segments, ring, segment, 4);
    lemma_corner_position(rings, segments, ring, segment, 5);
}

/// Grid position of corner `c` of cell `(ring, segment)`.
proof fn lemma_corner_position(rings: int, segments: int, ring: int, segment: int, c: int)
    requires
        sphere_resolution_ok(rings, segments),
        0 <= ring < rings,
        0 <= segment < segments,
        0 <= c < 6,
    ensures
        ({
            let v = sphere_index(rings, segments, 6 * (ring * segments + segment) + c);
            &&& grid_row(segments, v) == (if c == 0 || c == 2 || c == 3 {
                ring
            } else {
                ring + 1
            })
            &&& grid_column(segments, v) == (if c == 0 || c == 1 || c == 4 {
                segment
            } else {
                segment + 1
            })
        }),
{
    let row = segments + 1;
    let k = 6 * (ring * segments + segment) + c;
    lemma_entry_of_cell(segments, ring, segment, c);
    let r = if c == 0 || c == 2 || c == 3 {
        ring
    } else {
        ring + 1
    };
    let col = if c == 0 || c == 1 || c == 4 {
        segment
    } else {
        segment + 1
    };
    let v = sphere_index(rings, segments, k);
    assert(v == r * row + col) by (nonlinear_arith)
        requires
            v == (if c == 0 {
                ring * row + segment
            } else if c == 1 || c == 4 {
                ring * row + segment + row
            } else if c == 2 || c == 3 {
                ring * row + segment + 1
            } else {
                ring * row + segment + row + 1
            }),
            r == (if c == 0 || c == 2 || c == 3 {
                ring
            } else {
                ring + 1
            }),
            col == (if c == 0 || c == 1 || c == 4 {
                segment
            } else {
                segment + 1
            }),
    ;
    lemma_fundamental_div_mod_converse(r * row + col, row, r, col);
}

/// Every index in the buffer names a vertex of the grid.
pub proof fn lemma_sphere_indices_in_range(rings: int, segments: int, k: int)
    requires
        sphere_resolution_ok(rings, segments),
        0 <= k < 6 * rings * segments,
    ensures
        0 <= sphere_index(rings, segments, k) < sphere_vertex_count(rings, segments),
{
    let cell = k / 6;
    let ring = cell / segments;
    let segment = cell % segments;
    let row = segments + 1;
    assert(0 <= cell < rings * segments) by {
        assert(6 * rings * segments == 6 * (rings * segments)) by (nonlinear_arith);
    }
    assert(0 <= ring < rings) by (nonlinear_arith)
        requires
            0 <= cell < rings * segments,
            segments > 0,
            ring == cell / segments,
    ;
    assert(0 <= segment < segments);
    assert(ring * row + row <= rings * row) by (nonlinear_arith)
        requires
            0 <= ring < rings,
            row >= 0,
    ;
    assert(sphere_vertex_count(rings, segments) == rings * row + row) by (nonlinear_arith)
        requires
            row == segments + 1,
    ;
    assert(0 <= ring * row) by (nonlinear_arith)
        requires
            ring >= 0,
            row >= 0,
    ;
}

} // verus!
