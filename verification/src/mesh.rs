//! The triangles of the meshes that show the terrain and the roads, as
//! indices into their vertices. Where the vertices lie is the renderer's
//! business; which of them make a triangle is decided here.

use vstd::arithmetic::div_mod::lemma_fundamental_div_mod_converse;
use vstd::prelude::*;

verus! {

/// Index `j` of a strip of quads between cross-sections of two vertices
/// each, left then right, the first at `base`. Quad `j / 6` lies between
/// cross-sections `j / 6` and `j / 6 + 1` and is two triangles: near left,
/// near right, far left; far left, near right, far right.
pub open spec fn strip_index(base: int, j: int) -> int {
    let near = base + 2 * (j / 6);
    let far = near + 2;
    let k = j % 6;
    if k == 0 {
        near
    } else if k == 1 || k == 4 {
        near + 1
    } else if k == 2 || k == 3 {
        far
    } else {
        far + 1
    }
}

/// The triangles of a strip along `cross_sections` cross-sections of two
/// vertices each, the first at `base`.
pub fn strip_indices(base: u32, cross_sections: u32) -> (indices: Vec<u32>)
    requires
        base + 2 * cross_sections <= u32::MAX,
    ensures
        indices.len() == (if cross_sections == 0 {
            0
        } else {
            6 * (cross_sections - 1)
        }),
        forall|j: int| 0 <= j < indices.len() ==> #[trigger] indices[j] == strip_index(base as int, j),
{
    let mut indices: Vec<u32> = Vec::new();
    if cross_sections == 0 {
        return indices;
    }
    let mut i: u32 = 0;
    while i < cross_sections - 1
        invariant
            cross_sections >= 1,
            i <= cross_sections - 1,
            base + 2 * cross_sections <= u32::MAX,
            indices.len() == 6 * i,
            forall|j: int|
                0 <= j < indices.len() ==> #[trigger] indices[j] == strip_index(base as int, j),
        decreases cross_sections - 1 - i,
    {
        let near = base + 2 * i;
        let far = near + 2;
        proof {
            lemma_fundamental_div_mod_converse(6 * i + 0, 6, i as int, 0);
            lemma_fundamental_div_mod_converse(6 * i + 1, 6, i as int, 1);
            lemma_fundamental_div_mod_converse(6 * i + 2, 6, i as int, 2);
            lemma_fundamental_div_mod_converse(6 * i + 3, 6, i as int, 3);
            lemma_fundamental_div_mod_converse(6 * i + 4, 6, i as int, 4);
            lemma_fundamental_div_mod_converse(6 * i + 5, 6, i as int, 5);
        }
        indices.push(near);
        indices.push(near + 1);
        indices.push(far);
        indices.push(far);
        indices.push(near + 1);
        indices.push(far + 1);
        i += 1;
    }
    indices
}

/// Index `j` of a fan of `sides` triangles about the vertex at `base`,
/// whose rim follows it: triangle `j / 3` joins the centre, the rim vertex
/// after its own, and its own.
pub open spec fn fan_index(base: int, sides: int, j: int) -> int {
    let i = j / 3;
    let k = j % 3;
    if k == 0 {
        base
    } else if k == 1 {
        base + 1 + (i + 1) % sides
    } else {
        base + 1 + i
    }
}

/// The triangles of a fan of `sides` triangles about the vertex at `base`.
pub fn fan_indices(base: u32, sides: u32) -> (indices: Vec<u32>)
    requires
        base + sides < u32::MAX,
    ensures
        indices.len() == 3 * sides,
        forall|j: int|
            0 <= j < indices.len() ==> #[trigger] indices[j] == fan_index(
                base as int,
                sides as int,
                j,
            ),
{
    let mut indices: Vec<u32> = Vec::new();
    let mut i: u32 = 0;
    while i < sides
        invariant
            i <= sides,
            base + sides < u32::MAX,
            indices.len() == 3 * i,
            forall|j: int|
                0 <= j < indices.len() ==> #[trigger] indices[j] == fan_index(
                    base as int,
                    sides as int,
                    j,
                ),
        decreases sides - i,
    {
        let next = (i + 1) % sides;
        proof {
            lemma_fundamental_div_mod_converse(3 * i + 0, 3, i as int, 0);
            lemma_fundamental_div_mod_converse(3 * i + 1, 3, i as int, 1);
            lemma_fundamental_div_mod_converse(3 * i + 2, 3, i as int, 2);
        }
        indices.push(base);
        indices.push(base + 1 + next);
        indices.push(base + 1 + i);
        i += 1;
    }
    indices
}

/// Index `j` of a square grid of `resolution` vertices a side, row by row.
/// Cell `j / 6`, counted row by row over the `resolution - 1` cells of a
/// row, is two triangles: top left, bottom left, top right; top right,
/// bottom left, bottom right.
pub open spec fn grid_index(resolution: int, j: int) -> int {
    let cell = j / 6;
    let row = cell / (resolution - 1);
    let col = cell % (resolution - 1);
    let top_left = row * resolution + col;
    let bottom_left = (row + 1) * resolution + col;
    let k = j % 6;
    if k == 0 {
        top_left
    } else if k == 1 || k == 4 {
        bottom_left
    } else if k == 2 || k == 3 {
        top_left + 1
    } else {
        bottom_left + 1
    }
}

/// The triangles of a square grid of `resolution` vertices a side.
pub fn grid_indices(resolution: u32) -> (indices: Vec<u32>)
    requires
        resolution * resolution <= u32::MAX,
    ensures
        indices.len() == (if resolution == 0 {
            0
        } else {
            6 * ((resolution - 1) * (resolution - 1))
        }),
        forall|j: int|
            0 <= j < indices.len() ==> #[trigger] indices[j] == grid_index(resolution as int, j),
{
    let mut indices: Vec<u32> = Vec::new();
    if resolution < 2 {
        if resolution == 1 {
            assert((resolution - 1) * (resolution - 1) == 0) by (nonlinear_arith)
                requires
                    resolution == 1,
            ;
        }
        return indices;
    }
    let cells: u32 = resolution - 1;
    let mut row: u32 = 0;
    while row < cells
        invariant
            resolution >= 2,
            cells == resolution - 1,
            row <= cells,
            resolution * resolution <= u32::MAX,
            indices.len() == 6 * (row * cells),
            forall|j: int|
                0 <= j < indices.len() ==> #[trigger] indices[j] == grid_index(resolution as int, j),
        decreases cells - row,
    {
        let mut col: u32 = 0;
        while col < cells
            invariant
                resolution >= 2,
                cells == resolution - 1,
                row < cells,
                col <= cells,
                resolution * resolution <= u32::MAX,
                indices.len() == 6 * (row * cells + col),
                forall|j: int|
                    0 <= j < indices.len() ==> #[trigger] indices[j] == grid_index(
                        resolution as int,
                        j,
                    ),
            decreases cells - col,
        {
            proof {
                assert((row + 1) * resolution + col + 1 < resolution * resolution)
                    by (nonlinear_arith)
                    requires
                        row + 1 < resolution,
                        col + 1 < resolution,
                ;
                assert(row * resolution >= 0 && (row + 1) * resolution == row * resolution
                    + resolution) by (nonlinear_arith)
                    requires
                        row >= 0,
                        resolution >= 0,
                ;
                let cell = row * cells + col;
                lemma_fundamental_div_mod_converse(cell as int, cells as int, row as int, col as int);
                lemma_fundamental_div_mod_converse(6 * cell + 0, 6, cell as int, 0);
                lemma_fundamental_div_mod_converse(6 * cell + 1, 6, cell as int, 1);
                lemma_fundamental_div_mod_converse(6 * cell + 2, 6, cell as int, 2);
                lemma_fundamental_div_mod_converse(6 * cell + 3, 6, cell as int, 3);
                lemma_fundamental_div_mod_converse(6 * cell + 4, 6, cell as int, 4);
                lemma_fundamental_div_mod_converse(6 * cell + 5, 6, cell as int, 5);
            }
            let top_left = row * resolution + col;
            let bottom_left = (row + 1) * resolution + col;
            indices.push(top_left);
            indices.push(bottom_left);
            indices.push(top_left + 1);
            indices.push(top_left + 1);
            indices.push(bottom_left);
            indices.push(bottom_left + 1);
            col += 1;
        }
        assert((row + 1) * cells == row * cells + cells) by (nonlinear_arith);
        row += 1;
    }
    indices
}

} // verus!
