use hematite::simulation::lithomask::allow_all_mask;
use hematite::utils::cpuspinarray::{
    index_to_site, masked_atoms, set_vector, site_to_index, spin_array_from_vectors, use_offset,
};

#[test]
fn index_to_site_decomposes_flat_index() {
    // 2 x 3 unit cells: 24 sites per layer, 12 per unit-cell column.
    assert_eq!(index_to_site(0, 2, 3), (0, 0, 0, 0));
    assert_eq!(index_to_site(29, 2, 3), (1, 0, 1, 1));
    assert_eq!(index_to_site(23, 2, 3), (0, 1, 2, 3));
    assert_eq!(index_to_site(24, 2, 3), (1, 0, 0, 0));
}

#[test]
fn site_to_index_composes_address() {
    assert_eq!(site_to_index(1, 0, 1, 1, 2, 3), 29);
    assert_eq!(site_to_index(2, 1, 2, 3, 4, 5), 2 * 4 * 5 * 4 + 1 * 5 * 4 + 2 * 4 + 3);
}

#[test]
fn site_address_roundtrip() {
    let (x, y) = (3usize, 5usize);
    for index in 0..(x * y * 4 * 7) {
        let (l, ux, uy, s) = index_to_site(index, x, y);
        assert!(ux < x && uy < y && s < 4);
        assert_eq!(site_to_index(l, ux, uy, s, x, y), index);
    }
    for l in 0..3 {
        for ux in 0..x {
            for uy in 0..y {
                for s in 0..4 {
                    let i = site_to_index(l, ux, uy, s, x, y);
                    assert_eq!(index_to_site(i, x, y), (l, ux, uy, s));
                }
            }
        }
    }
}

#[test]
fn use_offset_wraps_periodically() {
    assert_eq!(use_offset(0, -1, 5), 4);
    assert_eq!(use_offset(4, 1, 5), 0);
    assert_eq!(use_offset(2, 1, 5), 3);
    assert_eq!(use_offset(2, -7, 5), 0);
    assert_eq!(use_offset(3, 12, 5), 0);
    assert_eq!(use_offset(0, 0, 1), 0);
}

#[test]
fn use_offset_steps_back() {
    for range in 1..7usize {
        for value in 0..range {
            for offset in -9isize..10 {
                let there = use_offset(value, offset, range);
                assert!(there < range);
                assert_eq!(use_offset(there, -offset, range), value);
            }
        }
    }
}

#[test]
fn allow_all_mask_covers_every_site() {
    let mask = allow_all_mask([2, 3, 1]);
    assert_eq!(mask.len(), 2 * 3 * 1 * 24);
    assert!(mask.iter().all(|&m| m == 1));
    assert!(allow_all_mask([0, 3, 1]).is_empty());
}

#[test]
fn masked_atoms_lists_sites_with_mask_one() {
    let mut mask = vec![0u32; 24];
    mask[1] = 1;
    mask[5] = 2;
    mask[7] = 1;
    mask[23] = 1;
    assert_eq!(masked_atoms([1, 1, 1], &mask), vec![1, 7, 23]);
}

#[test]
fn spin_array_places_vectors_on_masked_sites() {
    let mut mask = vec![0u32; 24];
    mask[0] = 1;
    mask[3] = 1;
    let vectors = vec![[1, 2, 3], [4, 5, 6]];
    let (spins, count) = spin_array_from_vectors([1, 1, 1], &mask, 0, &vectors);
    assert_eq!(count, 2);
    assert_eq!(spins.len(), 72);
    assert_eq!(&spins[0..3], &[1, 2, 3]);
    assert_eq!(&spins[3..9], &[0, 0, 0, 0, 0, 0]);
    assert_eq!(&spins[9..12], &[4, 5, 6]);
    assert!(spins[12..].iter().all(|&v| v == 0));
}

#[test]
fn set_vector_writes_three_components() {
    let mut spins = vec![0.0f32; 9];
    set_vector(&mut spins, 1, [0.5, -0.5, 1.0]);
    assert_eq!(spins, vec![0.0, 0.0, 0.0, 0.5, -0.5, 1.0, 0.0, 0.0, 0.0]);
}
