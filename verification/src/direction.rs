//! Compass classification of the hidden position relative to a probed cell.

use vstd::prelude::*;

verus! {

/// Exact compass hint describing where the hidden position lies relative to
/// a probed coordinate.
///
/// The sign mapping is fixed: the first coordinate (`x`) runs north to
/// south, so a hidden `x` smaller than the probe's `x` is a `North`-class
/// hint; the second coordinate (`y`) runs west to east, so a hidden `y`
/// smaller than the probe's `y` is a `West`-class hint. `Exact` means the
/// probe sits precisely on the hidden cell.
#[derive(Clone, Copy, Debug, PartialEq, Eq, Structural)]
pub enum Direction {
    North,
    South,
    East,
    West,
    NorthEast,
    NorthWest,
    SouthEast,
    SouthWest,
    Exact,
}

/// The compass hint for a hidden position `(ghost_x, ghost_y)` as seen from
/// the probed coordinate `(x, y)`, by strict sign comparison of the deltas.
pub open spec fn direction_of(x: int, y: int, ghost_x: int, ghost_y: int) -> Direction {
    if ghost_x < x {
        if ghost_y < y {
            Direction::NorthWest
        } else if ghost_y > y {
            Direction::NorthEast
        } else {
            Direction::North
        }
    } else if ghost_x > x {
        if ghost_y < y {
            Direction::SouthWest
        } else if ghost_y > y {
            Direction::SouthEast
        } else {
            Direction::South
        }
    } else {
        if ghost_y < y {
            Direction::West
        } else if ghost_y > y {
            Direction::East
        } else {
            Direction::Exact
        }
    }
}

/// Compass hint of `(ghost_x, ghost_y)` relative to the probe `(x, y)`.
///
/// Later stages compare hints for equality, so the axis-sign-to-label
/// mapping documented on [`Direction`] is fixed.
pub fn relative_direction(x: i32, y: i32, ghost_x: i32, ghost_y: i32) -> (d: Direction)
    ensures
        d == direction_of(x as int, y as int, ghost_x as int, ghost_y as int),
{
    if ghost_x < x {
        if ghost_y < y {
            Direction::NorthWest
        } else if ghost_y > y {
            Direction::NorthEast
        } else {
            Direction::North
        }
    } else if ghost_x > x {
        if ghost_y < y {
            Direction::SouthWest
        } else if ghost_y > y {
            Direction::SouthEast
        } else {
            Direction::South
        }
    } else {
        if ghost_y < y {
            Direction::West
        } else if ghost_y > y {
            Direction::East
        } else {
            Direction::Exact
        }
    }
}

} // verus!
