//! A compass needle on a five-by-five LED frame: the cell that points the
//! way of a magnetometer reading.

use vstd::prelude::*;

verus! {

/// Readings are compared in steps of this many units.
pub const STEP: i32 = 500;

/// A coarse reading below this many steps, either way, is near the axis.
pub const NEAR: i32 = 5;

/// A reading in whole steps, rounded towards zero.
pub open spec fn coarse(v: int) -> int {
    if v >= 0 {
        v / (STEP as int)
    } else {
        -((-v) / (STEP as int))
    }
}

/// The frame cell, as row and column, for a coarse reading `(x, y)`.
///
/// North is the top row and East the left column.  On an axis the needle
/// points at the middle of an edge, and with no field at the centre.  Off
/// the axes it points at a corner when both readings are far from zero and
/// at a cell next to a corner when one is near: in the northern half and in
/// the south-east a near `x` decides before a near `y`, in the south-west a
/// near `y` decides before a near `x`.
pub open spec fn needle(x: int, y: int) -> (int, int) {
    if y == 0 {
        if x == 0 {
            (2, 2)
        } else if x < 0 {
            (2, 4)
        } else {
            (2, 0)
        }
    } else if x == 0 {
        if y > 0 {
            (0, 2)
        } else {
            (4, 2)
        }
    } else if y > 0 {
        if 0 < x < NEAR {
            (0, 1)
        } else if -NEAR < x < 0 {
            (0, 3)
        } else if y < NEAR {
            (1, if x < 0 { 4int } else { 0int })
        } else {
            (0, if x < 0 { 4int } else { 0int })
        }
    } else if x > 0 {
        if x < NEAR {
            (4, 1)
        } else if -NEAR < y {
            (3, 0)
        } else {
            (4, 0)
        }
    } else {
        if -NEAR < y {
            (3, 4)
        } else if -NEAR < x {
            (4, 3)
        } else {
            (4, 4)
        }
    }
}

/// Divides a reading by the step, rounding towards zero.
pub fn coarsen(v: i32) -> (q: i32)
    ensures
        q == coarse(v as int),
{
    v / STEP
}

/// The cell that the needle lights for the reading `(x, y)`.
pub fn needle_cell(x: i32, y: i32) -> (cell: (usize, usize))
    ensures
        cell.0 == needle(coarse(x as int), coarse(y as int)).0,
        cell.1 == needle(coarse(x as int), coarse(y as int)).1,
        cell.0 < 5,
        cell.1 < 5,
{
    let x = coarsen(x);
    let y = coarsen(y);
    if x == 0 && y == 0 {
        (2, 2)
    } else if x == 0 && y > 0 {
        (0, 2)
    } else if x == 0 && y < 0 {
        (4, 2)
    } else if x < 0 && y == 0 {
        (2, 4)
    } else if x > 0 && y == 0 {
        (2, 0)
    } else if x > 0 && x < NEAR && y > 0 {
        (0, 1)
    } else if x < 0 && x > -NEAR && y > 0 {
        (0, 3)
    } else if x < 0 && y > 0 && y < NEAR {
        (1, 4)
    } else if x < 0 && y > -NEAR && y < 0 {
        (3, 4)
    } else if x > -NEAR && x < 0 && y < 0 {
        (4, 3)
    } else if x < NEAR && x > 0 && y < 0 {
        (4, 1)
    } else if x > 0 && y > -NEAR && y < 0 {
        (3, 0)
    } else if x > 0 && y < NEAR && y > 0 {
        (1, 0)
    } else if x > 0 && y > 0 {
        (0, 0)
    } else if x < 0 && y > 0 {
        (0, 4)
    } else if x < 0 && y < 0 {
        (4, 4)
    } else {
        (4, 0)
    }
}

/// The frame for the reading `(x, y)`: the centre and the needle's cell are
/// lit, every other cell is dark.
pub fn compass_frame(x: i32, y: i32) -> (out: [[u8; 5]; 5])
    ensures
        forall|r: int, c: int|
            0 <= r < 5 && 0 <= c < 5 ==> #[trigger] out[r][c] == (if (r, c) == (2int, 2int) || (r, c) == needle(
                coarse(x as int),
                coarse(y as int),
            ) {
                1u8
            } else {
                0u8
            }),
{
    let mut out: [[u8; 5]; 5] = [[0, 0, 0, 0, 0], [0, 0, 0, 0, 0], [0, 0, 1, 0, 0], [0, 0, 0, 0, 0], [0, 0, 0, 0, 0]];
    let cell = needle_cell(x, y);
    let mut line = out[cell.0];
    line[cell.1] = 1;
    out[cell.0] = line;
    out
}

} // verus!
