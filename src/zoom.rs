//! Errors of the zoom level.

use vstd::prelude::*;

verus! {

/// A zoom level outside the range that the map supports.
#[derive(Debug, Clone, Copy, PartialEq, Eq, Structural)]
pub struct InvalidZoom;

} // verus!
