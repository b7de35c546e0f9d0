//! The integer side of the interaction field: where in the packed
//! interaction arrays the kernel finds the pairs of a site, and which site
//! each pair partner is, with periodic boundaries.
use vstd::prelude::*;
use crate::simulation::accessgpuspins::{offset_in_bounds32, periodic32, use_offset};
use crate::simulation::interactions::{Interaction, PackedInteractions, lemma_packed_order, packed_order};

verus! {

/// The position in the packed interaction arrays of pair `pair` of a site
/// in `layer` (layers repeat every six) and `site`, with `n` pairs per site.
pub open spec fn interaction_position(layer: int, site: int, n: int, pair: int) -> int {
    ((layer % 6) * 4 + site) * n + pair
}

/// The position in the packed interaction arrays of pair `pair_atom` of
/// the site at `layer`, `site`.
pub fn interaction_index(layer: u32, site: u32, num_interactions: u32, pair_atom: usize) -> (index: usize)
    requires
        site * num_interactions <= u32::MAX,
        interaction_position(layer as int, site as int, num_interactions as int, pair_atom as int) <= usize::MAX,
    ensures
        index as int == interaction_position(layer as int, site as int, num_interactions as int, pair_atom as int),
{
    proof {
        let l6 = layer as int % 6;
        let n = num_interactions as int;
        assert(l6 * 4 * n + site * n + pair_atom == (l6 * 4 + site) * n + pair_atom
            && l6 * 4 * n >= 0 && site * n >= 0) by (nonlinear_arith)
            requires 0 <= l6 < 6, n >= 0, site >= 0;
    }
    (layer as usize % 6) * 4 * num_interactions as usize + (site * num_interactions) as usize + pair_atom
}

/// The site address of the partner of pair `pair_atom` of a site: the
/// stored layer and unit-cell offsets applied with periodic wrap-around,
/// and the stored partner site.
pub fn pair_address<T>(
    interactions: &PackedInteractions<T>,
    layer: u32,
    uc_x: u32,
    uc_y: u32,
    site: u32,
    layers: u32,
    x_cells: u32,
    y_cells: u32,
    num_interactions: u32,
    pair_atom: usize,
) -> (address: (u32, u32, u32, u32))
    requires
        site * num_interactions <= u32::MAX,
        ({
            let k = interaction_position(layer as int, site as int, num_interactions as int, pair_atom as int);
            &&& k < interactions.layer_offset@.len()
            &&& k < interactions.uc_x_offset@.len()
            &&& k < interactions.uc_y_offset@.len()
            &&& k < interactions.pair_site@.len()
            &&& offset_in_bounds32(layer, interactions.layer_offset@[k] as int, layers)
            &&& offset_in_bounds32(uc_x, interactions.uc_x_offset@[k] as int, x_cells)
            &&& offset_in_bounds32(uc_y, interactions.uc_y_offset@[k] as int, y_cells)
        }),
    ensures
        ({
            let k = interaction_position(layer as int, site as int, num_interactions as int, pair_atom as int);
            &&& address.0 as int == periodic32(layer, interactions.layer_offset@[k] as int, layers)
            &&& address.1 as int == periodic32(uc_x, interactions.uc_x_offset@[k] as int, x_cells)
            &&& address.2 as int == periodic32(uc_y, interactions.uc_y_offset@[k] as int, y_cells)
            &&& address.3 == interactions.pair_site@[k]
        }),
{
    proof {
        assert(interactions.layer_offset@.len() == interactions.layer_offset.len());
    }
    let k = interaction_index(layer, site, num_interactions, pair_atom);
    (
        use_offset(layer, interactions.layer_offset[k], layers),
        use_offset(uc_x, interactions.uc_x_offset[k], x_cells),
        use_offset(uc_y, interactions.uc_y_offset[k], y_cells),
        interactions.pair_site[k],
    )
}

/// The kernel reads back what the packing stored: position
/// `interaction_position(layer, site, n, pair)` of the packing order holds
/// pair `pair` of site `site` in layer `layer % 6`.
pub proof fn lemma_kernel_reads_packed<T>(
    interactions: [[Vec<Interaction<T>>; 4]; 6],
    n: int,
    layer: int,
    site: int,
    pair: int,
)
    requires
        0 <= n,
        0 <= layer,
        0 <= site < 4,
        0 <= pair < n,
        forall|l: int, s: int| 0 <= l < 6 && 0 <= s < 4 ==> (#[trigger] interactions[l][s])@.len() >= n,
    ensures
        packed_order(interactions, n, 24)[interaction_position(layer, site, n, pair)]
            == interactions[layer % 6][site]@[pair],
{
    lemma_packed_order(interactions, n, 24);
    let g = (layer % 6) * 4 + site;
    assert(g / 4 == layer % 6 && g % 4 == site);
    assert(packed_order(interactions, n, 24)[g * n + pair] == interactions[g / 4][g % 4]@[pair]);
}

} // verus!
