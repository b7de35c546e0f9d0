use hematite::statistics::topological::{get_stencil, stencil_in_mask};

#[test]
fn stencil_wraps_at_edges() {
    assert_eq!(
        get_stencil(0, 0, [4, 3, 1]),
        [[0, 0], [3, 0], [1, 0], [0, 2], [0, 1]]
    );
    assert_eq!(
        get_stencil(3, 2, [4, 3, 1]),
        [[3, 2], [2, 2], [0, 2], [3, 1], [3, 0]]
    );
    assert_eq!(
        get_stencil(1, 1, [4, 3, 1]),
        [[1, 1], [0, 1], [2, 1], [1, 0], [1, 2]]
    );
}

#[test]
fn stencil_in_mask_checks_every_cell() {
    let uc_dims = [4, 3, 1];
    let mut mask = vec![1u32; 4 * 3 * 24];
    let stencil = get_stencil(1, 1, uc_dims);
    assert!(stencil_in_mask(stencil, uc_dims, &mask));
    // cell (2, 1): index 2 * 3 * 4 + 1 * 4 = 28
    mask[28] = 0;
    assert!(!stencil_in_mask(stencil, uc_dims, &mask));
    // any nonzero entry counts as inside
    mask[28] = 7;
    assert!(stencil_in_mask(stencil, uc_dims, &mask));
}

#[test]
fn stencil_in_mask_stops_at_first_zero() {
    // The centre cell (0, 0) is masked out; the other cells lie beyond the
    // end of the short mask and are never read.
    let mask = vec![0u32; 1];
    let stencil = get_stencil(0, 0, [4, 3, 1]);
    assert!(!stencil_in_mask(stencil, [4, 3, 1], &mask));
}
