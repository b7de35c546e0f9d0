use hematite::simulation::accessgpuspins::{get_array_index, get_spin, pos_from_index, use_offset};
use hematite::utils::cpuspinarray::site_to_index;

#[test]
fn array_index_is_three_per_site() {
    assert_eq!(get_array_index(0, 0, 0, 0, 2, 3), 0);
    assert_eq!(get_array_index(1, 0, 1, 1, 2, 3), 3 * 29);
}

#[test]
fn gpu_and_host_layouts_agree() {
    let (x, y) = (3u32, 2u32);
    for index in 0..(x * y * 4 * 12) {
        let (l, ux, uy, s) = pos_from_index(index, x, y);
        assert!(ux < x && uy < y && s < 4);
        assert_eq!(get_array_index(l, ux, uy, s, x, y), 3 * index as usize);
        assert_eq!(
            site_to_index(l as usize, ux as usize, uy as usize, s as usize, x as usize, y as usize),
            index as usize
        );
    }
}

#[test]
fn get_spin_reads_three_components() {
    let spins: Vec<i32> = (0..72).collect();
    let v = get_spin(&spins, 0, 1, 0, 2, 2, 1);
    // site index 1 * 1 * 4 + 2 = 6
    assert_eq!((v.x, v.y, v.z), (18, 19, 20));
}

#[test]
fn gpu_use_offset_wraps_periodically() {
    assert_eq!(use_offset(0, -1, 6), 5);
    assert_eq!(use_offset(5, 1, 6), 0);
    assert_eq!(use_offset(1, -6, 6), 1);
    assert_eq!(use_offset(3, 7, 6), 4);
}
