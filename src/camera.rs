//! The camera's lens.

use vstd::prelude::*;

verus! {

/// The outline of the lens aperture, which shapes out-of-focus highlights.
#[derive(Clone, Copy, Debug, PartialEq, Eq)]
pub enum ApertureShape {
    Circle,
    Hexagon,
}

} // verus!
