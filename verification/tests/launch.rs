use hematite::simulation::launchgpu::{dispatch_dimensions, iteration_actions};

#[test]
fn dispatch_small_lattice() {
    assert_eq!(dispatch_dimensions(1), (1, 1));
    assert_eq!(dispatch_dimensions(256), (1, 1));
    assert_eq!(dispatch_dimensions(257), (2, 1));
    assert_eq!(dispatch_dimensions(1000), (4, 1));
}

#[test]
fn dispatch_splits_rows_beyond_limit() {
    assert_eq!(dispatch_dimensions(256 * 65535), (65535, 1));
    assert_eq!(dispatch_dimensions(256 * 65535 + 1), (65535, 2));
    assert_eq!(dispatch_dimensions(u32::MAX), (65535, 257));
}

#[test]
fn dispatch_covers_every_spin() {
    for n in [1u32, 255, 256, 511, 70_000, 16_777_216, 16_777_217, 3_000_000_000] {
        let (x, y) = dispatch_dimensions(n);
        assert!(n as u64 <= x as u64 * 256 * y as u64);
    }
}

#[test]
fn iteration_sample_slots_and_output() {
    // iters_per_plot 3, 2 samples per step
    assert_eq!(iteration_actions(1, 3, 2), (0, false));
    assert_eq!(iteration_actions(2, 3, 2), (2, false));
    assert_eq!(iteration_actions(3, 3, 2), (4, true));
    assert_eq!(iteration_actions(4, 3, 2), (0, false));
    assert_eq!(iteration_actions(6, 3, 2), (4, true));
    assert_eq!(iteration_actions(7, 1, 5), (0, true));
}
