//! The camera's view modes and the number keys that switch between them.

use vstd::prelude::*;

verus! {

/// The camera views, one per view mode.
#[derive(Clone, Copy, Debug, PartialEq, Eq)]
pub enum CameraView {
    /// Mode 0: straight down on the whole map.
    TopDown,
    /// Mode 1: from a corner, at an angle.
    Isometric,
    /// Mode 2: from the side.
    Side,
    /// Mode 3: close up.
    Close,
    /// Mode 4: far above.
    Far,
}

/// The current view mode.
pub struct CameraMode {
    pub current: u8,
}

/// The number keys 1 to 5 pressed in this frame.
#[derive(Clone, Copy, Debug, PartialEq, Eq)]
pub struct ViewKeys {
    pub key1: bool,
    pub key2: bool,
    pub key3: bool,
    pub key4: bool,
    pub key5: bool,
}

/// The mode after the keys: the lowest pressed key `k` selects mode `k - 1`;
/// with no key pressed the mode stays.
pub open spec fn selected_mode(current: u8, keys: ViewKeys) -> u8 {
    if keys.key1 {
        0
    } else if keys.key2 {
        1
    } else if keys.key3 {
        2
    } else if keys.key4 {
        3
    } else if keys.key5 {
        4
    } else {
        current
    }
}

/// The view of a mode; modes above 4 have none.
pub open spec fn view_of(mode: u8) -> Option<CameraView> {
    if mode == 0 {
        Some(CameraView::TopDown)
    } else if mode == 1 {
        Some(CameraView::Isometric)
    } else if mode == 2 {
        Some(CameraView::Side)
    } else if mode == 3 {
        Some(CameraView::Close)
    } else if mode == 4 {
        Some(CameraView::Far)
    } else {
        None
    }
}

/// Switches the view mode by the number keys pressed in this frame and returns
/// the view the camera takes in the resulting mode.
pub fn camera_controls(mode: &mut CameraMode, keys: ViewKeys) -> (view: Option<CameraView>)
    ensures
        final(mode).current == selected_mode(old(mode).current, keys),
        view == view_of(final(mode).current),
{
    if keys.key1 {
        mode.current = 0;
    } else if keys.key2 {
        mode.current = 1;
    } else if keys.key3 {
        mode.current = 2;
    } else if keys.key4 {
        mode.current = 3;
    } else if keys.key5 {
        mode.current = 4;
    }
    match mode.current {
        0 => Some(CameraView::TopDown),
        1 => Some(CameraView::Isometric),
        2 => Some(CameraView::Side),
        3 => Some(CameraView::Close),
        4 => Some(CameraView::Far),
        _ => None,
    }
}

/// Law: from a valid mode the camera always has a view; any pressed number key
/// makes the mode valid.
pub proof fn law_camera_mode_stays_valid(current: u8, keys: ViewKeys)
    ensures
        current <= 4 ==> selected_mode(current, keys) <= 4,
        (keys.key1 || keys.key2 || keys.key3 || keys.key4 || keys.key5) ==> selected_mode(current, keys) <= 4,
        selected_mode(current, keys) <= 4 <==> view_of(selected_mode(current, keys)) is Some,
{
}

} // verus!
