//! Steps between neighbouring squares, as differences of square indices.

use vstd::prelude::*;

verus! {

pub const NORTH_WEST: i8 = 7;

pub const NORTH: i8 = 8;

pub const NORTH_EAST: i8 = 9;

pub const EAST: i8 = 1;

pub const SOUTH_EAST: i8 = -7;

pub const SOUTH: i8 = -8;

pub const SOUTH_WEST: i8 = -9;

pub const WEST: i8 = -1;

} // verus!
