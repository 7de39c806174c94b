//! Camera movement commands. The camera's float-vector state and view-matrix
//! math live outside the core; the core only needs the closed vocabulary of
//! movement directions that input handling translates into.

use vstd::prelude::*;

verus! {

/// A movement command applied to the camera by input handling.
#[allow(non_camel_case_types)]
#[derive(PartialEq, Eq, Structural, Clone, Copy, Debug)]
pub enum CameraMovement {
    FORWARD,
    BACKWARD,
    LEFT,
    RIGHT,
    UP,
    DOWN,
}

} // verus!
