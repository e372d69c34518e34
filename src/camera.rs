use vstd::prelude::*;
use crate::grid::TerrainGrid;

verus! {

/// The least height the camera keeps above the terrain under it.
pub const CLEARANCE: u16 = 10;

/// The height the camera must be raised to over terrain of altitude `altitude`, when
/// its height is `height`; `None` when it already clears the terrain.
pub open spec fn collision_clamp(altitude: u8, height: int) -> Option<int> {
    if height < altitude + CLEARANCE {
        Some(altitude + CLEARANCE)
    } else {
        None
    }
}

/// The camera height once the clamp is applied.
pub open spec fn settled_height(altitude: u8, height: int) -> int {
    match collision_clamp(altitude, height) {
        Some(h) => h,
        None => height,
    }
}

/// After the clamp the camera clears the terrain by at least `CLEARANCE`, and a camera
/// that already did keeps its height: the clamp lifts, it never lowers.
pub proof fn lemma_collision_clamp(altitude: u8, height: int)
    ensures
        settled_height(altitude, height) >= altitude + CLEARANCE,
        settled_height(altitude, height) >= height,
        height >= altitude + CLEARANCE ==> settled_height(altitude, height) == height,
{
}

/// The collision step of a camera update. The camera stands at `(x, y)`, its position
/// truncated toward zero and wrapped into the grid, at height `height`, likewise
/// truncated. Returns the height to lift it to when it sits less than `CLEARANCE` above
/// the terrain there, `None` when it may stay.
pub fn collide(grid: &TerrainGrid, x: i32, y: i32, height: i32) -> (r: Option<u16>)
    requires
        grid.wf(),
    ensures
        r == match collision_clamp(grid.wrapped_texel(x as int, y as int).altitude, height as int) {
            Some(h) => Some(h as u16),
            None => None::<u16>,
        },
        r.is_some() ==> r.unwrap() as int == grid.wrapped_texel(x as int, y as int).altitude
            + CLEARANCE,
{
    let altitude = grid.lookup_wrapped(x, y).altitude;
    let floor = altitude as u16 + CLEARANCE;
    if (height as i64) < floor as i64 {
        Some(floor)
    } else {
        None
    }
}

/// What the player asks of the camera for one frame.
#[derive(Clone, Copy, Debug, PartialEq, Eq, Structural)]
pub struct Intent {
    /// Forward speed: positive moves the camera forward.
    pub forwardbackward: i32,
    /// Turning: positive turns left, negative right.
    pub leftright: i32,
    /// Climbing: positive raises the camera, negative lowers it.
    pub updown: i32,
    pub lookup: bool,
    pub lookdown: bool,
}

/// The intent that the held buttons express: `A` drives forward at speed 3; left wins
/// over right and up over down.
pub fn intent_from_buttons(a: bool, left: bool, right: bool, up: bool, down: bool) -> (r: Intent)
    ensures
        r.forwardbackward == if a {
            3int
        } else {
            0int
        },
        r.leftright == if left {
            1int
        } else if right {
            -1int
        } else {
            0int
        },
        r.updown == if up {
            1int
        } else if down {
            -1int
        } else {
            0int
        },
        !r.lookup,
        !r.lookdown,
{
    let forwardbackward: i32 = if a {
        3
    } else {
        0
    };
    let leftright: i32 = if left {
        1
    } else if right {
        -1
    } else {
        0
    };
    let updown: i32 = if up {
        1
    } else if down {
        -1
    } else {
        0
    };
    Intent { forwardbackward, leftright, updown, lookup: false, lookdown: false }
}

impl Intent {
    /// Whether the intent moves, turns or tilts the camera at all.
    pub fn is_active(&self) -> (r: bool)
        ensures
            r == (self.forwardbackward != 0 || self.leftright != 0 || self.updown != 0
                || self.lookup || self.lookdown),
    {
        self.forwardbackward != 0 || self.leftright != 0 || self.updown != 0 || self.lookup
            || self.lookdown
    }
}

} // verus!
