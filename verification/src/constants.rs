//! The size of the grid.

use vstd::prelude::*;

verus! {

/// Number of columns of the grid. A push to the right scans up to and
/// including this column.
pub const MAP_WIDTH: u8 = 8;

/// Number of rows of the grid. A push downwards scans up to and including
/// this row.
pub const MAP_HEIGHT: u8 = 9;

} // verus!
