use voxelspace::camera::{collide, intent_from_buttons, Intent, CLEARANCE};
use voxelspace::grid::{load_map, TerrainGrid};

fn hills() -> TerrainGrid {
    let mut grid = TerrainGrid::new(2, 2).unwrap();
    assert_eq!(load_map(&[0, 0, 0, 0], &[5, 50, 250, 0], &mut grid), Ok(()));
    grid
}

#[test]
fn collide_lifts_low_camera() {
    let grid = hills();
    assert_eq!(CLEARANCE, 10);
    assert_eq!(collide(&grid, 0, 0, 3), Some(15));
    assert_eq!(collide(&grid, 1, 0, 59), Some(60));
    assert_eq!(collide(&grid, 0, 1, 100), Some(260));
    assert_eq!(collide(&grid, 1, 1, -7), Some(10));
}

#[test]
fn collide_keeps_clear_camera() {
    let grid = hills();
    assert_eq!(collide(&grid, 0, 0, 15), None);
    assert_eq!(collide(&grid, 1, 0, 60), None);
    assert_eq!(collide(&grid, 0, 1, 1000), None);
}

#[test]
fn collide_wraps_position() {
    let grid = hills();
    assert_eq!(collide(&grid, 2, 2, 0), collide(&grid, 0, 0, 0));
    assert_eq!(collide(&grid, -1, -2, 0), Some(60));
    assert_eq!(collide(&grid, -1, -1, 0), Some(10));
    assert_eq!(collide(&grid, -2, -1, 0), Some(260));
}

#[test]
fn collision_clamp_law_on_values() {
    let grid = hills();
    for height in -20..300i32 {
        for x in 0..2 {
            for y in 0..2 {
                let settled = match collide(&grid, x, y, height) {
                    Some(h) => h as i32,
                    None => height,
                };
                let floor = grid.lookup(x as usize, y as usize).altitude as i32 + 10;
                assert!(settled >= floor);
                if height >= floor {
                    assert_eq!(settled, height);
                }
            }
        }
    }
}

#[test]
fn buttons_to_intent() {
    let idle = intent_from_buttons(false, false, false, false, false);
    assert_eq!(
        idle,
        Intent { forwardbackward: 0, leftright: 0, updown: 0, lookup: false, lookdown: false }
    );
    assert!(!idle.is_active());
    let all = intent_from_buttons(true, true, true, true, true);
    assert_eq!(all.forwardbackward, 3);
    assert_eq!(all.leftright, 1);
    assert_eq!(all.updown, 1);
    assert!(all.is_active());
    let right_down = intent_from_buttons(false, false, true, false, true);
    assert_eq!(right_down.leftright, -1);
    assert_eq!(right_down.updown, -1);
    assert!(right_down.is_active());
    let look = Intent { forwardbackward: 0, leftright: 0, updown: 0, lookup: true, lookdown: false };
    assert!(look.is_active());
}
