use agent_zones::camera::{
    cursor_to_world, to_ndc, unique_camera, CameraError, Column, Ndc, NdcToWorld, PixelPoint,
    WindowSize,
};
use agent_zones::geometry::{WorldPoint, UNIT};

const U: i32 = UNIT as i32;

fn identity_camera() -> NdcToWorld {
    NdcToWorld {
        x_axis: Column { x: 400 * U, y: 0 },
        y_axis: Column { x: 0, y: 300 * U },
        z_axis: Column { x: 0, y: 0 },
        w_axis: Column { x: 0, y: 0 },
    }
}

fn window() -> WindowSize {
    WindowSize { width: 800 * U, height: 600 * U }
}

#[test]
fn window_centre_is_origin() {
    let p = PixelPoint { x: 400 * U, y: 300 * U };
    assert_eq!(to_ndc(p, window()), Some(Ndc { x: 0, y: 0 }));
    assert_eq!(cursor_to_world(p, window(), identity_camera()), Some(WorldPoint::new(0, 0)));
}

#[test]
fn window_corners_are_unit_square() {
    let low = PixelPoint { x: 0, y: 0 };
    let high = PixelPoint { x: 800 * U, y: 600 * U };
    assert_eq!(to_ndc(low, window()), Some(Ndc { x: -UNIT, y: -UNIT }));
    assert_eq!(to_ndc(high, window()), Some(Ndc { x: UNIT, y: UNIT }));
    assert_eq!(
        cursor_to_world(low, window(), identity_camera()),
        Some(WorldPoint::new(-400 * UNIT, -300 * UNIT))
    );
}

#[test]
fn ndc_rounds_down() {
    let win = WindowSize { width: 3, height: 3 };
    // 2 * 1 / 3 - 1 = -1/3, so -333.3 steps, rounded down
    assert_eq!(to_ndc(PixelPoint { x: 1, y: 2 }, win), Some(Ndc { x: -334, y: 333 }));
}

#[test]
fn pointer_off_window_has_no_world_point() {
    let cam = identity_camera();
    assert_eq!(cursor_to_world(PixelPoint { x: -1, y: 0 }, window(), cam), None);
    assert_eq!(cursor_to_world(PixelPoint { x: 0, y: 600 * U + 1 }, window(), cam), None);
    assert_eq!(to_ndc(PixelPoint { x: 0, y: 0 }, WindowSize { width: 0, height: 10 }), None);
}

#[test]
fn moved_and_zoomed_camera_round_trip() {
    // camera at (1000, -2000), showing twice as much of the world
    let cam = NdcToWorld {
        x_axis: Column { x: 800 * U, y: 0 },
        y_axis: Column { x: 0, y: 600 * U },
        z_axis: Column { x: 0, y: 0 },
        w_axis: Column { x: 1000 * U, y: -2000 * U },
    };
    // world (1400, -1850) is at ndc (0.5, 0.25): pixel (600, 375)
    let p = PixelPoint { x: 600 * U, y: 375 * U };
    assert_eq!(
        cursor_to_world(p, window(), cam),
        Some(WorldPoint::new(1400 * UNIT, -1850 * UNIT))
    );
}

#[test]
fn rotated_camera_uses_both_columns() {
    // a quarter turn: device x runs along world y, device y against world x
    let cam = NdcToWorld {
        x_axis: Column { x: 0, y: 400 * U },
        y_axis: Column { x: -300 * U, y: 0 },
        z_axis: Column { x: 10 * U, y: 20 * U },
        w_axis: Column { x: 0, y: 0 },
    };
    let p = PixelPoint { x: 600 * U, y: 450 * U };
    // ndc (0.5, 0.5), near plane z = -1
    assert_eq!(
        cursor_to_world(p, window(), cam),
        Some(WorldPoint::new(-150 * UNIT - 10 * UNIT, 200 * UNIT - 20 * UNIT))
    );
}

#[test]
fn one_camera_is_required() {
    assert_eq!(unique_camera(&vec![]), Err(CameraError::NoCamera));
    assert_eq!(unique_camera(&vec![identity_camera()]), Ok(identity_camera()));
    assert_eq!(
        unique_camera(&vec![identity_camera(), identity_camera()]),
        Err(CameraError::SeveralCameras)
    );
}
