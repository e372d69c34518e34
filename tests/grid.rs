use voxelspace::grid::{is_power_of_two, load_map, GridError, TerrainGrid};
use voxelspace::morton::calc_z_order;
use voxelspace::texel::{or_into_half, pack_half, unpack_half, Texel};
use voxelspace::wrap::wrap_coordinate;

fn texel(color: u8, altitude: u8) -> Texel {
    Texel { color, altitude }
}

fn loaded_4x4() -> TerrainGrid {
    let mut grid = TerrainGrid::new(4, 4).unwrap();
    let colors: Vec<u8> = (0..16u8).map(|i| i * 10).collect();
    let altitudes: Vec<u8> = (0..16u8).map(|i| 200 - i).collect();
    assert_eq!(load_map(&colors, &altitudes, &mut grid), Ok(()));
    grid
}

#[test]
fn packing_layout() {
    assert_eq!(pack_half(0, false, texel(0xAB, 0xCD)), 0x0000_ABCD);
    assert_eq!(pack_half(0, true, texel(0xAB, 0xCD)), 0xABCD_0000);
    assert_eq!(pack_half(0x1234_5678, false, texel(0xAB, 0xCD)), 0x1234_ABCD);
    assert_eq!(pack_half(0x1234_5678, true, texel(0xAB, 0xCD)), 0xABCD_5678);
    assert_eq!(unpack_half(0x1234_5678, false), texel(0x56, 0x78));
    assert_eq!(unpack_half(0x1234_5678, true), texel(0x12, 0x34));
    assert_eq!(or_into_half(0x0000_0101, false, texel(0x10, 0x20)), 0x0000_1121);
}

#[test]
fn packing_round_trip_keeps_sibling() {
    let mut grid = TerrainGrid::new(4, 4).unwrap();
    for n in 0..16usize {
        grid.set_texel_at(n, texel(n as u8, 255 - n as u8));
    }
    for n in 0..16usize {
        assert_eq!(grid.texel_at(n), texel(n as u8, 255 - n as u8));
    }
    grid.set_texel_at(6, texel(1, 2));
    assert_eq!(grid.texel_at(6), texel(1, 2));
    assert_eq!(grid.texel_at(6 ^ 1), texel(7, 248));
    grid.set_texel_at(7, texel(255, 255));
    assert_eq!(grid.texel_at(7), texel(255, 255));
    assert_eq!(grid.texel_at(6), texel(1, 2));
}

#[test]
fn power_of_two_test() {
    assert!(!is_power_of_two(0));
    assert!(is_power_of_two(1));
    assert!(is_power_of_two(2));
    assert!(!is_power_of_two(3));
    assert!(is_power_of_two(1024));
    assert!(!is_power_of_two(1000));
}

#[test]
fn new_grid_rejects_bad_sides() {
    assert_eq!(TerrainGrid::new(3, 4).err(), Some(GridError::NotPowerOfTwo));
    assert_eq!(TerrainGrid::new(4, 0).err(), Some(GridError::NotPowerOfTwo));
    assert_eq!(TerrainGrid::new(0x20000, 4).err(), Some(GridError::TooLarge));
    assert_eq!(TerrainGrid::new(0x30000, 4).err(), Some(GridError::NotPowerOfTwo));
    let grid = TerrainGrid::new(8, 2).unwrap();
    assert_eq!(grid.width(), 8);
    assert_eq!(grid.height(), 2);
}

#[test]
fn new_grid_is_zero() {
    let grid = TerrainGrid::new(4, 2).unwrap();
    for x in 0..4 {
        for y in 0..2 {
            assert_eq!(grid.lookup(x, y), texel(0, 0));
        }
    }
}

#[test]
fn load_then_lookup() {
    let grid = loaded_4x4();
    for y in 0..4usize {
        for x in 0..4usize {
            let i = (y * 4 + x) as u8;
            assert_eq!(grid.lookup(x, y), texel(i * 10, 200 - i));
            assert_eq!(grid.texel_at(calc_z_order(x, y)), texel(i * 10, 200 - i));
        }
    }
}

#[test]
fn load_ors_into_existing_texels() {
    let mut grid = TerrainGrid::new(2, 2).unwrap();
    assert_eq!(load_map(&[1, 2, 4, 8], &[16, 32, 64, 128], &mut grid), Ok(()));
    assert_eq!(load_map(&[0x10, 0x10, 0x10, 0x10], &[1, 1, 1, 1], &mut grid), Ok(()));
    assert_eq!(grid.lookup(0, 0), texel(0x11, 17));
    assert_eq!(grid.lookup(1, 1), texel(0x18, 129));
}

#[test]
fn load_rectangular_grid() {
    let mut grid = TerrainGrid::new(4, 2).unwrap();
    let colors = [1, 2, 3, 4, 5, 6, 7, 8];
    let altitudes = [9, 10, 11, 12, 13, 14, 15, 16];
    assert_eq!(load_map(&colors, &altitudes, &mut grid), Ok(()));
    assert_eq!(grid.lookup(3, 0), texel(4, 12));
    assert_eq!(grid.lookup(0, 1), texel(5, 13));
    assert_eq!(grid.lookup(3, 1), texel(8, 16));
}

#[test]
fn load_rejects_wrong_sizes() {
    let mut grid = TerrainGrid::new(2, 2).unwrap();
    assert_eq!(load_map(&[1, 2, 3], &[1, 2, 3, 4], &mut grid), Err(GridError::SizeMismatch));
    assert_eq!(load_map(&[1, 2, 3, 4], &[1, 2, 3, 4, 5], &mut grid), Err(GridError::SizeMismatch));
    for x in 0..2 {
        for y in 0..2 {
            assert_eq!(grid.lookup(x, y), texel(0, 0));
        }
    }
}

#[test]
fn wrap_coordinates() {
    assert_eq!(wrap_coordinate(5, 4), 1);
    assert_eq!(wrap_coordinate(-1, 4), 3);
    assert_eq!(wrap_coordinate(-4, 4), 0);
    assert_eq!(wrap_coordinate(-5, 1024), 1019);
    assert_eq!(wrap_coordinate(i32::MIN, 1024), 0);
    assert_eq!(wrap_coordinate(i32::MAX, 1024), 1023);
}

#[test]
fn wrapped_lookup_repeats_with_period() {
    let grid = loaded_4x4();
    for k in 0..4i32 {
        for y in 0..4i32 {
            assert_eq!(grid.lookup_wrapped(4 + k, y), grid.lookup_wrapped(k, y));
            assert_eq!(grid.lookup_wrapped(y, 4 + k), grid.lookup_wrapped(y, k));
            assert_eq!(grid.lookup_wrapped(k - 4, y), grid.lookup_wrapped(k, y));
        }
    }
    assert_eq!(grid.lookup_wrapped(-1, -1), grid.lookup(3, 3));
}
