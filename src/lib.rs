//! Escape-time fractal core: screen coordinates, raster enumeration of a
//! frame, the integer part of the screen-to-plane mapping, the zoom policy of
//! the view, and the decisions of the escape-time iteration.
use vstd::prelude::*;

pub mod coord;
pub mod escape;
pub mod view;

verus! {

} // verus!
