use hematite::simulation::field::{interaction_index, pair_address};
use hematite::simulation::interactions::{pack_to_arrays, ExchangeTensor, Interaction};

fn interaction(layer_offset: i32, uc_x_offset: i32, uc_y_offset: i32, pair_site: u32) -> Interaction<u8> {
    Interaction {
        layer_offset,
        uc_x_offset,
        uc_y_offset,
        pair_site,
        exchange_tensor: ExchangeTensor { jxx: 0, jxy: 0, jxz: 0, jyx: 0, jyy: 0, jyz: 0, jzx: 0, jzy: 0, jzz: 0 },
    }
}

#[test]
fn interaction_index_repeats_every_six_layers() {
    assert_eq!(interaction_index(0, 0, 5, 0), 0);
    assert_eq!(interaction_index(1, 2, 5, 3), (1 * 4 + 2) * 5 + 3);
    assert_eq!(interaction_index(7, 2, 5, 3), interaction_index(1, 2, 5, 3));
    assert_eq!(interaction_index(11, 3, 2, 1), (5 * 4 + 3) * 2 + 1);
}

#[test]
fn pair_address_wraps_neighbours() {
    // two interactions per site; layer 0 / site 1 has offsets that cross the edges
    let interactions: [[Vec<Interaction<u8>>; 4]; 6] = std::array::from_fn(|layer| {
        std::array::from_fn(|site| {
            if layer == 0 && site == 1 {
                vec![interaction(-1, -1, 1, 3), interaction(6, 1, -1, 0)]
            } else {
                vec![interaction(0, 0, 0, site as u32), interaction(1, 0, 0, site as u32)]
            }
        })
    });
    let packed = pack_to_arrays(interactions);
    // 12 layers, 3 x 2 unit cells; the site at layer 0, cell (0, 1), site 1
    assert_eq!(pair_address(&packed, 0, 0, 1, 1, 12, 3, 2, 2, 0), (11, 2, 0, 3));
    assert_eq!(pair_address(&packed, 0, 0, 1, 1, 12, 3, 2, 2, 1), (6, 1, 0, 0));
    // layer 6 reads the same interactions as layer 0
    assert_eq!(pair_address(&packed, 6, 2, 0, 1, 12, 3, 2, 2, 0), (5, 1, 1, 3));
    // another site: no offsets except one layer up
    assert_eq!(pair_address(&packed, 3, 1, 1, 2, 12, 3, 2, 2, 1), (4, 1, 1, 2));
}
