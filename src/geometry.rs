use vstd::prelude::*;

verus! {

/// Fixed-point steps per world unit (and per pixel).
pub const UNIT: i64 = 1000;

/// A point of the world plane, in fixed-point steps.
#[derive(Clone, Copy, Debug, PartialEq, Eq, Structural)]
pub struct WorldPoint {
    pub x: i64,
    pub y: i64,
}

impl WorldPoint {
    pub fn new(x: i64, y: i64) -> (r: WorldPoint)
        ensures
            r.x == x,
            r.y == y,
    {
        WorldPoint { x, y }
    }
}

/// `c` lies in the closed interval of length `extent` centred on `center`:
/// `center - extent / 2 <= c <= center + extent / 2`, stated without halving.
pub open spec fn within(c: int, center: int, extent: int) -> bool {
    2 * center - extent <= 2 * c && 2 * c <= 2 * center + extent
}

/// `p` lies in the closed axis-aligned box centred on `center`, `width` wide
/// along x and `height` tall along y.
pub open spec fn in_box(center: WorldPoint, width: int, height: int, p: WorldPoint) -> bool {
    within(p.x as int, center.x as int, width) && within(p.y as int, center.y as int, height)
}

fn within_exec(c: i64, center: i64, extent: i64) -> (r: bool)
    ensures
        r == within(c as int, center as int, extent as int),
{
    let c2: i128 = 2 * (c as i128);
    let m2: i128 = 2 * (center as i128);
    m2 - (extent as i128) <= c2 && c2 <= m2 + (extent as i128)
}

/// Whether `p` lies in the closed box of the given size centred on `center`.
pub fn box_contains(center: WorldPoint, width: i64, height: i64, p: WorldPoint) -> (r: bool)
    ensures
        r == in_box(center, width as int, height as int, p),
{
    within_exec(p.x, center.x, width) && within_exec(p.y, center.y, height)
}

} // verus!
