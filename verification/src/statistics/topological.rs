//! The lattice bookkeeping of the topological-charge estimate: the
//! five-cell finite-difference stencil around a unit cell, with periodic
//! boundaries, and whether all of its cells lie inside the mask.
use vstd::prelude::*;
use crate::utils::cpuspinarray::{
    lemma_wrap_offset_is_mod, offset_in_bounds, periodic, site_index, site_to_index, use_offset,
};

verus! {

/// The unit cells of the stencil around `(uc_x, uc_y)`: the cell itself,
/// then its neighbours at `-x`, `+x`, `-y` and `+y`, wrapped periodically.
pub open spec fn stencil_spec(uc_x: usize, uc_y: usize, x_cells: usize, y_cells: usize) -> Seq<(int, int)> {
    seq![
        (uc_x as int, uc_y as int),
        (periodic(uc_x, -1, x_cells), uc_y as int),
        (periodic(uc_x, 1, x_cells), uc_y as int),
        (uc_x as int, periodic(uc_y, -1, y_cells)),
        (uc_x as int, periodic(uc_y, 1, y_cells)),
    ]
}

/// The cells of a stencil array as pairs.
pub open spec fn stencil_cells(stencil: [[usize; 2]; 5]) -> Seq<(int, int)> {
    Seq::new(5, |k: int| (stencil[k][0] as int, stencil[k][1] as int))
}

/// The five-cell stencil around `(uc_x, uc_y)` on a periodic
/// `uc_dims[0] x uc_dims[1]` grid of unit cells.
pub fn get_stencil(uc_x: usize, uc_y: usize, uc_dims: [usize; 3]) -> (stencil: [[usize; 2]; 5])
    requires
        offset_in_bounds(uc_x, -1, uc_dims[0]),
        offset_in_bounds(uc_x, 1, uc_dims[0]),
        offset_in_bounds(uc_y, -1, uc_dims[1]),
        offset_in_bounds(uc_y, 1, uc_dims[1]),
    ensures
        stencil_cells(stencil) == stencil_spec(uc_x, uc_y, uc_dims[0], uc_dims[1]),
{
    let left_uc_x = use_offset(uc_x, -1, uc_dims[0]);
    let right_uc_x = use_offset(uc_x, 1, uc_dims[0]);
    let down_uc_y = use_offset(uc_y, -1, uc_dims[1]);
    let up_uc_y = use_offset(uc_y, 1, uc_dims[1]);

    let stencil = [
        [uc_x, uc_y],
        [left_uc_x, uc_y],
        [right_uc_x, uc_y],
        [uc_x, down_uc_y],
        [uc_x, up_uc_y],
    ];
    assert(stencil_cells(stencil) =~= stencil_spec(uc_x, uc_y, uc_dims[0], uc_dims[1]));
    stencil
}

/// Around a cell of the grid, the stencil holds the cell and its four
/// periodic neighbours, all inside the grid: `x - 1` and `x + 1` modulo the
/// grid's width, `y - 1` and `y + 1` modulo its height. (On grids wider
/// than half the `isize` range, `(v % r + r)` overflows.)
pub proof fn lemma_stencil_neighbours(uc_x: usize, uc_y: usize, x_cells: usize, y_cells: usize)
    requires
        uc_x < x_cells,
        uc_y < y_cells,
        2 * x_cells - 1 <= isize::MAX,
        2 * y_cells - 1 <= isize::MAX,
    ensures
        offset_in_bounds(uc_x, -1, x_cells),
        offset_in_bounds(uc_x, 1, x_cells),
        offset_in_bounds(uc_y, -1, y_cells),
        offset_in_bounds(uc_y, 1, y_cells),
        ({
            let st = stencil_spec(uc_x, uc_y, x_cells, y_cells);
            &&& forall|k: int| 0 <= k < 5 ==> 0 <= (#[trigger] st[k]).0 < x_cells && 0 <= st[k].1 < y_cells
            &&& st[1].0 == (uc_x - 1) % (x_cells as int)
            &&& st[2].0 == (uc_x + 1) % (x_cells as int)
            &&& st[3].1 == (uc_y - 1) % (y_cells as int)
            &&& st[4].1 == (uc_y + 1) % (y_cells as int)
        }),
{
    assert(uc_x as isize == uc_x);
    assert(uc_y as isize == uc_y);
    lemma_wrap_offset_is_mod(uc_x - 1, x_cells as int);
    lemma_wrap_offset_is_mod(uc_x + 1, x_cells as int);
    lemma_wrap_offset_is_mod(uc_y - 1, y_cells as int);
    lemma_wrap_offset_is_mod(uc_y + 1, y_cells as int);
}

/// The mask index of the first site of layer 0 in unit cell `(uc_x, uc_y)`.
pub open spec fn cell_mask_index(cell: (int, int), x_cells: int, y_cells: int) -> int {
    site_index(0, cell.0, cell.1, 0, x_cells, y_cells)
}

/// The mask entry of cell `k` of the stencil can be read without overflow.
pub open spec fn cell_readable(cells: Seq<(int, int)>, k: int, uc_dims: [usize; 3], mask: Seq<u32>) -> bool {
    &&& cell_mask_index(cells[k], uc_dims[0] as int, uc_dims[1] as int) <= usize::MAX
    &&& cell_mask_index(cells[k], uc_dims[0] as int, uc_dims[1] as int) < mask.len()
}

/// The mask entry of cell `k` of the stencil is set (nonzero).
pub open spec fn cell_allowed(cells: Seq<(int, int)>, k: int, uc_dims: [usize; 3], mask: Seq<u32>) -> bool {
    mask[cell_mask_index(cells[k], uc_dims[0] as int, uc_dims[1] as int)] != 0
}

/// A stencil cell is allowed exactly when the mask entry of the first site
/// of layer 0 in that cell is nonzero, whichever of the five cells it is.
pub proof fn lemma_cell_allowed(stencil: [[usize; 2]; 5], k: int, uc_dims: [usize; 3], mask: Seq<u32>)
    requires
        0 <= k < 5,
    ensures
        cell_allowed(stencil_cells(stencil), k, uc_dims, mask)
            == (mask[site_index(0, stencil[k][0] as int, stencil[k][1] as int, 0,
                uc_dims[0] as int, uc_dims[1] as int)] != 0),
{
}

/// Whether every cell of the stencil has a nonzero mask entry at its first
/// site of layer 0. The cells are tested in order and the test stops at the
/// first zero entry, so a cell after it need not be readable.
pub fn stencil_in_mask(stencil: [[usize; 2]; 5], uc_dims: [usize; 3], mask: &[u32]) -> (inside: bool)
    requires
        forall|k: int| 0 <= k < 5 ==>
            (forall|j: int| 0 <= j < k ==> cell_allowed(stencil_cells(stencil), j, uc_dims, mask@))
            ==> #[trigger] cell_readable(stencil_cells(stencil), k, uc_dims, mask@),
    ensures
        inside == (forall|k: int| 0 <= k < 5 ==> #[trigger] cell_allowed(stencil_cells(stencil), k, uc_dims, mask@)),
        inside == (forall|k: int| 0 <= k < 5 ==>
            mask@[site_index(0, (#[trigger] stencil[k])[0] as int, stencil[k][1] as int, 0,
                uc_dims[0] as int, uc_dims[1] as int)] != 0),
{
    let ghost cells = stencil_cells(stencil);
    let mut k: usize = 0;
    while k < 5
        invariant
            0 <= k <= 5,
            cells == stencil_cells(stencil),
            forall|j: int| 0 <= j < k ==> cell_allowed(cells, j, uc_dims, mask@),
            forall|k: int| 0 <= k < 5 ==>
                (forall|j: int| 0 <= j < k ==> cell_allowed(cells, j, uc_dims, mask@))
                ==> #[trigger] cell_readable(cells, k, uc_dims, mask@),
        decreases 5 - k,
    {
        let ux = stencil[k][0];
        let uy = stencil[k][1];
        assert(cell_readable(cells, k as int, uc_dims, mask@));
        let index = site_to_index(0, ux, uy, 0, uc_dims[0], uc_dims[1]);
        if mask[index] == 0 {
            assert(!cell_allowed(cells, k as int, uc_dims, mask@));
            assert(mask@[site_index(0, stencil[k as int][0] as int, stencil[k as int][1] as int, 0,
                uc_dims[0] as int, uc_dims[1] as int)] == 0);
            return false;
        }
        k += 1;
    }
    proof {
        assert forall|k: int| 0 <= k < 5 implies
            mask@[site_index(0, (#[trigger] stencil[k])[0] as int, stencil[k][1] as int, 0,
                uc_dims[0] as int, uc_dims[1] as int)] != 0 by {
            assert(cell_allowed(cells, k, uc_dims, mask@));
        }
    }
    true
}

} // verus!
