use vstd::prelude::*;
use vstd::arithmetic::div_mod::{
    lemma_hoist_over_denominator,
    lemma_div_is_ordered,
    lemma_div_multiples_vanish,
};
use crate::geometry::{WorldPoint, UNIT};

verus! {

/// A pointer position in a window, in fixed-point steps of a pixel, from the
/// window's bottom-left corner.
#[derive(Clone, Copy, Debug, PartialEq, Eq, Structural)]
pub struct PixelPoint {
    pub x: i32,
    pub y: i32,
}

/// A window's size, in fixed-point steps of a pixel.
#[derive(Clone, Copy, Debug, PartialEq, Eq, Structural)]
pub struct WindowSize {
    pub width: i32,
    pub height: i32,
}

/// One column of the device-to-world matrix, in fixed-point world steps per
/// device unit.
#[derive(Clone, Copy, Debug, PartialEq, Eq, Structural)]
pub struct Column {
    pub x: i32,
    pub y: i32,
}

/// The x and y rows of the affine map from device-normalized coordinates to
/// the world: the camera's world transform after the inverse of its
/// orthographic projection. A device point `(nx, ny, nz)` goes to
/// `nx * x_axis + ny * y_axis + nz * z_axis + w_axis`.
#[derive(Clone, Copy, Debug, PartialEq, Eq, Structural)]
pub struct NdcToWorld {
    pub x_axis: Column,
    pub y_axis: Column,
    pub z_axis: Column,
    pub w_axis: Column,
}

/// A point in device-normalized coordinates, in fixed-point steps: each axis
/// runs over `[-UNIT, UNIT]` across the window.
#[derive(Clone, Copy, Debug, PartialEq, Eq, Structural)]
pub struct Ndc {
    pub x: i64,
    pub y: i64,
}

/// Why no camera mapping could be chosen.
#[derive(Clone, Copy, Debug, PartialEq, Eq, Structural)]
pub enum CameraError {
    NoCamera,
    SeveralCameras,
}

/// The window has an area and the pointer lies on it, edges included.
pub open spec fn on_window(p: PixelPoint, win: WindowSize) -> bool {
    &&& win.width > 0
    &&& win.height > 0
    &&& 0 <= p.x <= win.width
    &&& 0 <= p.y <= win.height
}

/// Device coordinate of `c` on an axis of length `len`, times `len`:
/// `ndc = 2 * c / len - 1`.
pub open spec fn scaled_ndc(c: int, len: int) -> int {
    2 * c - len
}

/// The device point of a pixel, in fixed-point steps, rounded down.
pub open spec fn ndc_of(p: PixelPoint, win: WindowSize) -> Ndc {
    Ndc {
        x: (UNIT * scaled_ndc(p.x as int, win.width as int) / (win.width as int)) as i64,
        y: (UNIT * scaled_ndc(p.y as int, win.height as int) / (win.height as int)) as i64,
    }
}

/// `a * ndc.x + b * ndc.y`, times `width * height`, for the pixel `p`.
pub open spec fn linear_part(a: int, b: int, p: PixelPoint, win: WindowSize) -> int {
    a * scaled_ndc(p.x as int, win.width as int) * win.height + b * scaled_ndc(
        p.y as int,
        win.height as int,
    ) * win.width
}

/// The world point under the pixel `p`: the map applied to the device point
/// `(ndc.x, ndc.y, -1)` on the near plane, z dropped, rounded down to a step.
pub open spec fn world_of(m: NdcToWorld, p: PixelPoint, win: WindowSize) -> WorldPoint {
    let area = win.width * win.height;
    WorldPoint {
        x: (m.w_axis.x - m.z_axis.x + linear_part(m.x_axis.x as int, m.y_axis.x as int, p, win)
            / area) as i64,
        y: (m.w_axis.y - m.z_axis.y + linear_part(m.x_axis.y as int, m.y_axis.y as int, p, win)
            / area) as i64,
    }
}

/// `w` is the exact image of `p`: the map sends the device point of `p` to `w`
/// with no rounding (the equation of `world_of`, times the window's area).
pub open spec fn exact_image(m: NdcToWorld, p: PixelPoint, win: WindowSize, w: WorldPoint) -> bool {
    let area = win.width * win.height;
    &&& (w.x - m.w_axis.x + m.z_axis.x) * area == linear_part(
        m.x_axis.x as int,
        m.y_axis.x as int,
        p,
        win,
    )
    &&& (w.y - m.w_axis.y + m.z_axis.y) * area == linear_part(
        m.x_axis.y as int,
        m.y_axis.y as int,
        p,
        win,
    )
}

/// `num / d`, rounded down, for `num` in `[-k * d, k * d]`.
fn floor_div(num: i128, d: i128, k: i128) -> (r: i128)
    requires
        d > 0,
        k >= 0,
        k * d <= 0x1_0000_0000_0000_0000_0000_0000,
        -(k * d) <= num <= k * d,
    ensures
        r == num / d,
        -k <= r <= k,
{
    proof {
        lemma_hoist_over_denominator(num as int, k as int, d as nat);
        assert(d * (2 * k) == 2 * (k * d)) by (nonlinear_arith);
        lemma_div_is_ordered(num + k * d, d * (2 * k), d as int);
        lemma_div_multiples_vanish(2 * k, d as int);
        lemma_div_is_ordered(0, num + k * d, d as int);
        assert(0int / (d as int) == 0);
    }
    let shifted: u128 = (num + k * d) as u128;
    let q: u128 = shifted / (d as u128);
    (q as i128) - k
}

proof fn lemma_term_bound(a: int, s: int, len: int, other: int)
    requires
        -0x8000_0000 <= a < 0x8000_0000,
        -len <= s <= len,
        len > 0,
        other > 0,
    ensures
        -0x8000_0000 * len <= a * s <= 0x8000_0000 * len,
        -0x8000_0000 * (len * other) <= a * s * other <= 0x8000_0000 * (len * other),
{
    assert(-0x8000_0000 * len <= a * s <= 0x8000_0000 * len) by (nonlinear_arith)
        requires
            -0x8000_0000 <= a < 0x8000_0000,
            -len <= s <= len,
    ;
    assert(-0x8000_0000 * (len * other) <= a * s * other <= 0x8000_0000 * (len * other))
        by (nonlinear_arith)
        requires
            -0x8000_0000 * len <= a * s <= 0x8000_0000 * len,
            other > 0,
    ;
}

/// One axis of `world_of`: `base + linear_part(a, b, p, win) / area`.
fn world_axis(base: i32, back: i32, a: i32, b: i32, p: PixelPoint, win: WindowSize) -> (r: i64)
    requires
        on_window(p, win),
    ensures
        r as int == base - back + linear_part(a as int, b as int, p, win) / (win.width
            * win.height),
{
    let w: i128 = win.width as i128;
    let h: i128 = win.height as i128;
    let sx: i128 = 2 * (p.x as i128) - w;
    let sy: i128 = 2 * (p.y as i128) - h;
    proof {
        lemma_term_bound(a as int, sx as int, w as int, h as int);
        lemma_term_bound(b as int, sy as int, h as int, w as int);
        assert(h * w == w * h) by (nonlinear_arith);
        assert(0 < w * h <= 0x8000_0000 * 0x8000_0000) by (nonlinear_arith)
            requires
                0 < w <= 0x7fff_ffff,
                0 < h <= 0x7fff_ffff,
        ;
    }
    let area: i128 = w * h;
    let num: i128 = (a as i128) * sx * h + (b as i128) * sy * w;
    let q: i128 = floor_div(num, area, 0x1_0000_0000);
    ((base as i128) - (back as i128) + q) as i64
}

/// The device point of a pixel on the window, in fixed-point steps, rounded
/// down; `None` when the window has no area or the pointer is off it.
pub fn to_ndc(p: PixelPoint, win: WindowSize) -> (r: Option<Ndc>)
    ensures
        r == (if on_window(p, win) {
            Some(ndc_of(p, win))
        } else {
            None
        }),
{
    if !(win.width > 0 && win.height > 0 && 0 <= p.x && p.x <= win.width && 0 <= p.y && p.y
        <= win.height) {
        return None;
    }
    let w: i128 = win.width as i128;
    let h: i128 = win.height as i128;
    let sx: i128 = 2 * (p.x as i128) - w;
    let sy: i128 = 2 * (p.y as i128) - h;
    proof {
        assert(-(1000 * w) <= 1000 * sx <= 1000 * w);
        assert(-(1000 * h) <= 1000 * sy <= 1000 * h);
    }
    let x: i128 = floor_div((UNIT as i128) * sx, w, UNIT as i128);
    let y: i128 = floor_div((UNIT as i128) * sy, h, UNIT as i128);
    Some(Ndc { x: x as i64, y: y as i64 })
}

/// The world point under the pointer, through the camera map `m`; `None` when
/// the window has no area or the pointer is off it.
pub fn cursor_to_world(p: PixelPoint, win: WindowSize, m: NdcToWorld) -> (r: Option<WorldPoint>)
    ensures
        r == (if on_window(p, win) {
            Some(world_of(m, p, win))
        } else {
            None
        }),
{
    if !(win.width > 0 && win.height > 0 && 0 <= p.x && p.x <= win.width && 0 <= p.y && p.y
        <= win.height) {
        return None;
    }
    let x = world_axis(m.w_axis.x, m.z_axis.x, m.x_axis.x, m.y_axis.x, p, win);
    let y = world_axis(m.w_axis.y, m.z_axis.y, m.x_axis.y, m.y_axis.y, p, win);
    Some(WorldPoint { x, y })
}

/// The one camera map to pick with: an error when there is none, or more than one.
pub fn unique_camera(cameras: &Vec<NdcToWorld>) -> (r: Result<NdcToWorld, CameraError>)
    ensures
        r == (if cameras@.len() == 0 {
            Err(CameraError::NoCamera)
        } else if cameras@.len() == 1 {
            Ok(cameras@[0])
        } else {
            Err(CameraError::SeveralCameras)
        }),
{
    if cameras.len() == 0 {
        Err(CameraError::NoCamera)
    } else if cameras.len() == 1 {
        Ok(cameras[0])
    } else {
        Err(CameraError::SeveralCameras)
    }
}

/// A world point that the camera sends exactly onto a pixel of the window is
/// recovered, with no error, by mapping that pixel back to the world.
pub proof fn lemma_round_trip(m: NdcToWorld, p: PixelPoint, win: WindowSize, w: WorldPoint)
    requires
        on_window(p, win),
        exact_image(m, p, win, w),
    ensures
        world_of(m, p, win) == w,
{
    let area = win.width * win.height;
    assert(win.width * win.height > 0) by (nonlinear_arith)
        requires
            win.width > 0,
            win.height > 0,
    ;
    lemma_div_multiples_vanish(w.x - m.w_axis.x + m.z_axis.x, area);
    lemma_div_multiples_vanish(w.y - m.w_axis.y + m.z_axis.y, area);
    assert(area * (w.x - m.w_axis.x + m.z_axis.x) == (w.x - m.w_axis.x + m.z_axis.x) * area)
        by (nonlinear_arith);
    assert(area * (w.y - m.w_axis.y + m.z_axis.y) == (w.y - m.w_axis.y + m.z_axis.y) * area)
        by (nonlinear_arith);
}

} // verus!
