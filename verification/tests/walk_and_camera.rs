use ants::camera::{camera_controls, CameraMode, CameraView, ViewKeys};
use ants::creature::appearance::{update_walk_animation, Bounce, WalkStep};

fn no_keys() -> ViewKeys {
    ViewKeys { key1: false, key2: false, key3: false, key4: false, key5: false }
}

#[test]
fn walk_advances_when_the_frame_is_due() {
    assert_eq!(
        update_walk_animation(0, true, true),
        WalkStep { current_frame: 1, is_moving: true, restart_timer: true, bounce: Bounce::Grounded }
    );
    assert_eq!(
        update_walk_animation(1, true, true),
        WalkStep { current_frame: 2, is_moving: true, restart_timer: true, bounce: Bounce::Raised }
    );
    assert_eq!(update_walk_animation(3, true, true).current_frame, 0);
    assert_eq!(update_walk_animation(3, true, true).bounce, Bounce::Raised);
}

#[test]
fn walk_waits_for_the_frame() {
    assert_eq!(
        update_walk_animation(2, true, false),
        WalkStep { current_frame: 2, is_moving: true, restart_timer: false, bounce: Bounce::Unchanged }
    );
}

#[test]
fn standing_still_resets_the_walk() {
    for due in [false, true] {
        assert_eq!(
            update_walk_animation(3, false, due),
            WalkStep { current_frame: 0, is_moving: false, restart_timer: false, bounce: Bounce::Grounded }
        );
    }
}

#[test]
fn four_frames_make_a_cycle() {
    for start in 0..4 {
        let mut f = start;
        for _ in 0..4 {
            f = update_walk_animation(f, true, true).current_frame;
            assert!(f < 4);
        }
        assert_eq!(f, start);
    }
}

#[test]
fn number_keys_select_views() {
    let mut mode = CameraMode { current: 0 };
    assert_eq!(camera_controls(&mut mode, no_keys()), Some(CameraView::TopDown));
    let mut keys = no_keys();
    keys.key3 = true;
    assert_eq!(camera_controls(&mut mode, keys), Some(CameraView::Side));
    assert_eq!(mode.current, 2);
    keys.key5 = true;
    keys.key2 = true;
    assert_eq!(camera_controls(&mut mode, keys), Some(CameraView::Isometric));
    assert_eq!(mode.current, 1);
    let mut keys = no_keys();
    keys.key4 = true;
    assert_eq!(camera_controls(&mut mode, keys), Some(CameraView::Close));
    let mut keys = no_keys();
    keys.key5 = true;
    assert_eq!(camera_controls(&mut mode, keys), Some(CameraView::Far));
    assert_eq!(mode.current, 4);
}

#[test]
fn unknown_mode_has_no_view_until_a_key() {
    let mut mode = CameraMode { current: 9 };
    assert_eq!(camera_controls(&mut mode, no_keys()), None);
    assert_eq!(mode.current, 9);
    let mut keys = no_keys();
    keys.key1 = true;
    assert_eq!(camera_controls(&mut mode, keys), Some(CameraView::TopDown));
    assert_eq!(mode.current, 0);
}
