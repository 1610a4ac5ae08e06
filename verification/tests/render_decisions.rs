use softrender::{
    camera_action, is_drawn, pyramid_tiles, triangle_pixels, Axis, CameraAction, CullingEnum,
    Facing, PixelBounds, PlaneGame, RenderConfig, Step, TileBounds,
};

#[test]
fn culling_table() {
    for c in [CullingEnum::Neither, CullingEnum::Front, CullingEnum::Back, CullingEnum::Both] {
        assert!(!is_drawn(c, Facing::Degenerate));
    }
    assert!(is_drawn(CullingEnum::Neither, Facing::Positive) && is_drawn(CullingEnum::Neither, Facing::Negative));
    assert!(!is_drawn(CullingEnum::Both, Facing::Positive) && !is_drawn(CullingEnum::Both, Facing::Negative));
    assert!(!is_drawn(CullingEnum::Front, Facing::Positive) && is_drawn(CullingEnum::Front, Facing::Negative));
    assert!(is_drawn(CullingEnum::Back, Facing::Positive) && !is_drawn(CullingEnum::Back, Facing::Negative));
}

#[test]
fn render_config_holds_its_flags() {
    let cfg = RenderConfig { face_culling: CullingEnum::Back, debug_bounding_boxes: false, z_pyramid: true, affine_color: true };
    assert!(is_drawn(cfg.face_culling, Facing::Positive));
    assert!(cfg.z_pyramid && cfg.affine_color && !cfg.debug_bounding_boxes);
}

#[test]
fn triangle_pixels_are_clamped_to_the_screen() {
    assert_eq!(
        triangle_pixels([10, 50, 30], [5, 7, 40], 100, 80),
        Some(PixelBounds { min_x: 10, min_y: 5, max_x: 50, max_y: 40 })
    );
    assert_eq!(
        triangle_pixels([0, 500, 30], [0, 7, 400], 100, 80),
        Some(PixelBounds { min_x: 0, min_y: 0, max_x: 99, max_y: 79 })
    );
}

#[test]
fn triangles_off_screen_have_no_pixels() {
    // entirely right of the screen
    assert_eq!(triangle_pixels([100, 120, 130], [5, 7, 40], 100, 80), None);
    // squashed into the first column
    assert_eq!(triangle_pixels([0, 0, 0], [5, 7, 40], 100, 80), None);
    // below the screen
    assert_eq!(triangle_pixels([1, 2, 3], [80, 90, 95], 100, 80), None);
}

#[test]
fn pyramid_tiles_of_a_box() {
    assert_eq!(
        pyramid_tiles(10, 3, 70, 33, 640, 480),
        TileBounds { start_x: 1, end_x: 8, start_y: 0, end_y: 4 }
    );
    // clamped to the last tile
    assert_eq!(
        pyramid_tiles(600, 0, 5000, 5000, 640, 480),
        TileBounds { start_x: 75, end_x: 79, start_y: 0, end_y: 59 }
    );
    // a screen narrower than a tile has only tile 0
    assert_eq!(
        pyramid_tiles(3, 3, 6, 6, 7, 7),
        TileBounds { start_x: 0, end_x: 0, start_y: 0, end_y: 0 }
    );
}

#[test]
fn camera_keys() {
    let mv = |a, s| Some(CameraAction::Move(a, s));
    let turn = |a, s| Some(CameraAction::Turn(a, s));
    assert_eq!(camera_action(b'w'), mv(Axis::Z, Step::Decrease));
    assert_eq!(camera_action(b's'), mv(Axis::Z, Step::Increase));
    assert_eq!(camera_action(b'a'), mv(Axis::X, Step::Decrease));
    assert_eq!(camera_action(b'd'), mv(Axis::X, Step::Increase));
    assert_eq!(camera_action(b'q'), mv(Axis::Y, Step::Decrease));
    assert_eq!(camera_action(b'e'), mv(Axis::Y, Step::Increase));
    assert_eq!(camera_action(b'j'), turn(Axis::Y, Step::Increase));
    assert_eq!(camera_action(b'l'), turn(Axis::Y, Step::Decrease));
    assert_eq!(camera_action(b'i'), turn(Axis::X, Step::Increase));
    assert_eq!(camera_action(b'k'), turn(Axis::X, Step::Decrease));
    assert_eq!(camera_action(b'W'), None);
    assert_eq!(camera_action(b'x'), None);
}

#[test]
fn plane_game_runs_while_asked_to() {
    assert!(PlaneGame { should_run: true }.should_run());
    assert!(!PlaneGame { should_run: false }.should_run());
}
