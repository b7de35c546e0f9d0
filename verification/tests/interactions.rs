use hematite::simulation::interactions::{
    apply_symmetric_exchange, pack_to_arrays, unit_cell_neighbour_offsets, ExchangeTensor, Interaction,
};

fn tensor(v: i64) -> ExchangeTensor<i64> {
    ExchangeTensor { jxx: v, jxy: v + 1, jxz: v + 2, jyx: v + 3, jyy: v + 4, jyz: v + 5, jzx: v + 6, jzy: v + 7, jzz: v + 8 }
}

fn interaction(tag: i32) -> Interaction<i64> {
    Interaction {
        layer_offset: tag,
        uc_x_offset: -tag,
        uc_y_offset: tag * 2,
        pair_site: tag as u32,
        exchange_tensor: tensor(tag as i64 * 100),
    }
}

#[test]
fn neighbour_offsets_enumerate_cube() {
    let offsets = unit_cell_neighbour_offsets();
    assert_eq!(offsets.len(), 27);
    assert_eq!(offsets[0], [-1, -1, -1]);
    assert_eq!(offsets[13], [0, 0, 0]);
    assert_eq!(offsets[26], [1, 1, 1]);
    assert_eq!(offsets[5], [-1, 0, 1]);
}

#[test]
fn symmetric_exchange_sets_diagonal() {
    let mut t = tensor(10);
    apply_symmetric_exchange(&mut t, -1);
    assert_eq!((t.jxx, t.jyy, t.jzz), (-1, -1, -1));
    assert_eq!((t.jxy, t.jxz, t.jyx, t.jyz, t.jzx, t.jzy), (11, 12, 13, 15, 16, 17));
}

#[test]
fn pack_orders_by_layer_site_pair() {
    let interactions: [[Vec<Interaction<i64>>; 4]; 6] = std::array::from_fn(|layer| {
        std::array::from_fn(|site| {
            // every site has two interactions; site (1, 2) has a third that is not packed
            let count = if layer == 1 && site == 2 { 3 } else { 2 };
            (0..count).map(|p| interaction((layer * 100 + site * 10 + p) as i32)).collect()
        })
    });
    let packed = pack_to_arrays(interactions);
    assert_eq!(packed.layer_offset.len(), 48);
    assert_eq!(packed.jzz.len(), 48);
    for layer in 0..6 {
        for site in 0..4 {
            for p in 0..2 {
                let k = (layer * 4 + site) * 2 + p;
                let tag = (layer * 100 + site * 10 + p) as i32;
                assert_eq!(packed.layer_offset[k], tag);
                assert_eq!(packed.uc_x_offset[k], -tag);
                assert_eq!(packed.uc_y_offset[k], tag * 2);
                assert_eq!(packed.pair_site[k], tag as u32);
                assert_eq!(packed.jxx[k], tag as i64 * 100);
                assert_eq!(packed.jyz[k], tag as i64 * 100 + 5);
                assert_eq!(packed.jzz[k], tag as i64 * 100 + 8);
            }
        }
    }
}
