use voxelspace::morton::{calc_z_order, test_z_curve};

#[test]
fn z_curve_round_trip() {
    assert!(test_z_curve());
}

#[test]
fn z_order_small_values() {
    assert_eq!(calc_z_order(0, 0), 0);
    assert_eq!(calc_z_order(1, 0), 1);
    assert_eq!(calc_z_order(0, 1), 2);
    assert_eq!(calc_z_order(1, 1), 3);
    assert_eq!(calc_z_order(2, 0), 4);
    assert_eq!(calc_z_order(3, 5), 39);
}

#[test]
fn z_order_largest_coordinates() {
    assert_eq!(calc_z_order(1023, 1023), 0xFFFFF);
    assert_eq!(calc_z_order(0xFFFF, 0), 0x5555_5555);
    assert_eq!(calc_z_order(0, 0xFFFF), 0xAAAA_AAAA);
    assert_eq!(calc_z_order(0xFFFF, 0xFFFF), 0xFFFF_FFFF);
}

#[test]
fn z_order_distinct_on_small_square() {
    let mut seen = vec![false; 64 * 64];
    for x in 0..64usize {
        for y in 0..64usize {
            let n = calc_z_order(x, y);
            assert!(n < 64 * 64);
            assert!(!seen[n]);
            seen[n] = true;
        }
    }
}
