use vstd::prelude::*;

verus! {

/// The state of the plane game.
pub struct PlaneGame {
    pub should_run: bool,
}

/// A camera axis.
#[derive(Debug, Clone, Copy, PartialEq, Eq, Structural)]
pub enum Axis {
    X,
    Y,
    Z,
}

/// Which way a camera coordinate moves by one step.
#[derive(Debug, Clone, Copy, PartialEq, Eq, Structural)]
pub enum Step {
    Increase,
    Decrease,
}

/// A one-step change of the camera: of its position or of its rotation, along one axis.
#[derive(Debug, Clone, Copy, PartialEq, Eq, Structural)]
pub enum CameraAction {
    Move(Axis, Step),
    Turn(Axis, Step),
}

/// The camera change a pressed key stands for, by the first byte of the key's text:
/// `w`/`s` move along z (down/up), `a`/`d` along x, `q`/`e` along y; `j`/`l` turn about
/// y (up/down) and `i`/`k` about x. Every other key stands for none.
pub open spec fn spec_camera_action(key: u8) -> Option<CameraAction> {
    if key == 119 {
        Some(CameraAction::Move(Axis::Z, Step::Decrease))
    } else if key == 115 {
        Some(CameraAction::Move(Axis::Z, Step::Increase))
    } else if key == 97 {
        Some(CameraAction::Move(Axis::X, Step::Decrease))
    } else if key == 100 {
        Some(CameraAction::Move(Axis::X, Step::Increase))
    } else if key == 113 {
        Some(CameraAction::Move(Axis::Y, Step::Decrease))
    } else if key == 101 {
        Some(CameraAction::Move(Axis::Y, Step::Increase))
    } else if key == 106 {
        Some(CameraAction::Turn(Axis::Y, Step::Increase))
    } else if key == 108 {
        Some(CameraAction::Turn(Axis::Y, Step::Decrease))
    } else if key == 105 {
        Some(CameraAction::Turn(Axis::X, Step::Increase))
    } else if key == 107 {
        Some(CameraAction::Turn(Axis::X, Step::Decrease))
    } else {
        None
    }
}

/// The camera change a pressed key stands for, as [`spec_camera_action`] says.
pub fn camera_action(key: u8) -> (action: Option<CameraAction>)
    ensures
        action == spec_camera_action(key),
{
    match key {
        119 => Some(CameraAction::Move(Axis::Z, Step::Decrease)),
        115 => Some(CameraAction::Move(Axis::Z, Step::Increase)),
        97 => Some(CameraAction::Move(Axis::X, Step::Decrease)),
        100 => Some(CameraAction::Move(Axis::X, Step::Increase)),
        113 => Some(CameraAction::Move(Axis::Y, Step::Decrease)),
        101 => Some(CameraAction::Move(Axis::Y, Step::Increase)),
        106 => Some(CameraAction::Turn(Axis::Y, Step::Increase)),
        108 => Some(CameraAction::Turn(Axis::Y, Step::Decrease)),
        105 => Some(CameraAction::Turn(Axis::X, Step::Increase)),
        107 => Some(CameraAction::Turn(Axis::X, Step::Decrease)),
        _ => None,
    }
}

impl PlaneGame {
    /// Whether the game wants to keep running.
    pub fn should_run(&self) -> (run: bool)
        ensures
            run == self.should_run,
    {
        self.should_run
    }
}

} // verus!
