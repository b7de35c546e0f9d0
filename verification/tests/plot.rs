use hematite::visualisation::createplot::{
    a_cut_layer_spins, c_cut_layer_spins, make_a_cut_points, make_c_cut_points,
};
use hematite::utils::cpuspinarray::site_to_index;

#[test]
fn c_cut_takes_one_layer() {
    // 2 x 1 unit cells, 2 layers
    let spins: Vec<u32> = (0..(2 * 1 * 4 * 2 * 3)).collect();
    let layer1 = c_cut_layer_spins(&spins, 1, 2, 1);
    assert_eq!(layer1.len(), 8);
    assert_eq!(layer1[0], [24, 25, 26]);
    assert_eq!(layer1[7], [45, 46, 47]);
}

#[test]
fn a_cut_walks_rows_layers_sites() {
    let uc_dims = [2usize, 2, 1];
    let sites = uc_dims[0] * uc_dims[1] * uc_dims[2] * 24;
    let spins: Vec<usize> = (0..sites * 3).collect();
    let cut = a_cut_layer_spins(&spins, 1, uc_dims);
    assert_eq!(cut.len(), 2 * 6 * 4);
    let mut k = 0;
    for uc_y in 0..2 {
        for c_layer in 0..6 {
            for site in 0..4 {
                let i = site_to_index(c_layer, 1, uc_y, site, 2, 2);
                assert_eq!(cut[k], [3 * i, 3 * i + 1, 3 * i + 2]);
                k += 1;
            }
        }
    }
}

#[test]
fn c_cut_points_pair_positions_and_spins() {
    let points = make_c_cut_points(&[[1, 2, 3], [4, 5, 6]], &[[10, 20, 30], [40, 50, 60], [0, 0, 0]]);
    assert_eq!(points.len(), 2);
    let p = points[1];
    assert_eq!((p.x, p.y, p.vx, p.vy, p.vz), (40, 50, 4, 5, 6));
}

#[test]
fn a_cut_points_use_y_z_plane() {
    let spins = [[1, 2, 3]];
    let positions = [[10, 20, 30]];
    let p = make_a_cut_points(&spins, &positions, false)[0];
    assert_eq!((p.x, p.y, p.vx, p.vy, p.vz), (20, 30, 1, 2, 3));
    let q = make_a_cut_points(&spins, &positions, true)[0];
    assert_eq!((q.x, q.y, q.vx, q.vy, q.vz), (20, 30, 2, 3, 1));
}

#[test]
fn a_cut_without_rows_is_empty() {
    let spins: Vec<u8> = vec![];
    assert!(a_cut_layer_spins(&spins, 0, [1, 0, usize::MAX]).is_empty());
}
