//! Addressing of the spin array as the GPU kernel sees it: 32-bit lattice
//! coordinates, three array components per spin.
use vstd::prelude::*;
use crate::utils::cpuspinarray::{
    site_index, valid_site, rust_rem, wrap_offset, lemma_site_decomposition, lemma_wrap_offset_is_mod,
};

verus! {

/// A three-component vector of spin-array elements.
#[derive(Clone, Copy)]
pub struct Vec3<F> {
    pub x: F,
    pub y: F,
    pub z: F,
}

/// The array index of the x component of a site's spin: three elements per
/// site, in flat site order.
pub fn get_array_index(layer: u32, uc_x: u32, uc_y: u32, site: u32, x_cells: u32, y_cells: u32) -> (index: usize)
    requires
        layer * x_cells <= usize::MAX,
        uc_x * y_cells <= usize::MAX,
        3 * site_index(layer as int, uc_x as int, uc_y as int, site as int, x_cells as int, y_cells as int)
            <= usize::MAX,
    ensures
        index as int == 3 * site_index(layer as int, uc_x as int, uc_y as int, site as int, x_cells as int, y_cells as int),
{
    proof {
        assert((layer as usize) * (x_cells as usize) * (y_cells as usize) <= usize::MAX
            && layer * x_cells * y_cells * 4 >= 0 && uc_x * y_cells * 4 >= 0
            && layer * x_cells * y_cells * 4 + uc_x * y_cells * 4 + uc_y * 4 + site <= usize::MAX)
        by (nonlinear_arith)
            requires
                layer * x_cells <= usize::MAX,
                3 * (layer * x_cells * y_cells * 4 + uc_x * y_cells * 4 + uc_y * 4 + site) <= usize::MAX,
                layer >= 0, x_cells >= 0, y_cells >= 0, uc_x >= 0, uc_y >= 0, site >= 0;
    }
    ((layer as usize) * x_cells as usize * y_cells as usize * 4
        + (uc_x as usize) * (y_cells as usize) * 4
        + (uc_y as usize) * 4
        + site as usize) * 3
}

/// The spin of a site, read from its three consecutive array elements.
pub fn get_spin<F: Copy>(
    spins: &[F],
    layer: u32,
    uc_x: u32,
    uc_y: u32,
    site: u32,
    x_cells: u32,
    y_cells: u32,
) -> (spin: Vec3<F>)
    requires
        layer * x_cells <= usize::MAX,
        uc_x * y_cells <= usize::MAX,
        3 * site_index(layer as int, uc_x as int, uc_y as int, site as int, x_cells as int, y_cells as int) + 2
            < spins@.len(),
    ensures
        ({
            let i = 3 * site_index(layer as int, uc_x as int, uc_y as int, site as int, x_cells as int, y_cells as int);
            spin.x == spins@[i] && spin.y == spins@[i + 1] && spin.z == spins@[i + 2]
        }),
{
    proof {
        assert(spins@.len() == spins.len());
    }
    let array_index = get_array_index(layer, uc_x, uc_y, site, x_cells, y_cells);
    Vec3 { x: spins[array_index], y: spins[array_index + 1], z: spins[array_index + 2] }
}

/// The inputs on which the 32-bit [`use_offset`] computes without
/// overflow: a range that fits in `i32`, and intermediate values in `i32`.
pub open spec fn offset_in_bounds32(value: u32, offset: int, range: u32) -> bool {
    &&& 0 < range <= i32::MAX
    &&& i32::MIN <= (value as i32) + offset <= i32::MAX
    &&& rust_rem((value as i32) + offset, range as int) + range <= i32::MAX
}

/// What the 32-bit [`use_offset`] returns.
pub open spec fn periodic32(value: u32, offset: int, range: u32) -> int {
    wrap_offset((value as i32) + offset, range as int)
}

/// Periodic wrap of `value + offset` into `[0, range)` in 32-bit arithmetic,
/// computed as `(v % r + r) % r` with `v = value as i32 + offset`. Where
/// `value` fits in `i32` the result is the residue of `value + offset`
/// modulo `range`.
pub fn use_offset(value: u32, offset: i32, range: u32) -> (res: u32)
    requires
        offset_in_bounds32(value, offset as int, range),
    ensures
        res as int == periodic32(value, offset as int, range),
        res < range,
        value <= i32::MAX ==> res as int == (value + offset) % (range as int),
{
    let r = range as i32;
    let v = value as i32 + offset;
    proof {
        if value <= i32::MAX {
            assert(value as i32 == value);
        }
        lemma_wrap_offset_is_mod(v as int, r as int);
    }
    ((v % r + r) % r) as u32
}

/// The site address `(layer, uc_x, uc_y, site)` of the flat site index
/// `index`.
pub fn pos_from_index(index: u32, x_cells: u32, y_cells: u32) -> (r: (u32, u32, u32, u32))
    requires
        0 < x_cells,
        0 < y_cells,
        x_cells * y_cells * 4 <= usize::MAX,
    ensures
        valid_site(r.0 as int, r.1 as int, r.2 as int, r.3 as int, x_cells as int, y_cells as int),
        index as int == site_index(r.0 as int, r.1 as int, r.2 as int, r.3 as int, x_cells as int, y_cells as int),
{
    proof {
        assert(y_cells * 4 <= x_cells * y_cells * 4) by (nonlinear_arith)
            requires x_cells > 0, y_cells > 0;
        lemma_site_decomposition(index as int, x_cells as int, y_cells as int);
        let c = x_cells * y_cells * 4;
        let i = index as int;
        let y4 = y_cells * 4;
        assert(c > 0) by (nonlinear_arith) requires c == x_cells * y_cells * 4, x_cells > 0, y_cells > 0;
        assert(i / c <= i) by (nonlinear_arith) requires c > 0, i >= 0;
        assert((i % c) / y4 <= i % c) by (nonlinear_arith) requires y4 > 0, i % c >= 0;
        assert(i % c <= i) by (nonlinear_arith) requires c > 0, i >= 0;
    }
    let cells_per_layer = x_cells as usize * y_cells as usize * 4;

    let layer = index as usize / cells_per_layer;
    let remainder = index as usize % cells_per_layer;

    let uc_x = remainder / (y_cells as usize * 4);
    let remainder = remainder % (y_cells as usize * 4);

    let uc_y = remainder / 4;
    let site = remainder % 4;

    (layer as u32, uc_x as u32, uc_y as u32, site as u32)
}

} // verus!
