//! Where a marker goes next: one cell forward, or, at the edge of the grid,
//! one cell along the first heading in turning order that stays inside.

use vstd::prelude::*;
use crate::heading::{heading_info, Displacement, Heading};

verus! {

/// A cell of the grid, by row and column.
#[derive(Clone, Copy, Debug, PartialEq, Eq, Structural)]
pub struct Position {
    pub row: usize,
    pub col: usize,
}

/// The extent of a grid.  It need not be square.
#[derive(Clone, Copy, Debug, PartialEq, Eq, Structural)]
pub struct GridBounds {
    pub rows: usize,
    pub cols: usize,
}

/// Why no step could be taken.
#[derive(Clone, Copy, Debug, PartialEq, Eq, Structural)]
pub enum StepError {
    /// All four neighbouring cells lie outside the grid.
    Blocked,
}

impl GridBounds {
    /// Whether row `row`, column `col` names a cell of the grid.
    pub open spec fn holds(self, row: int, col: int) -> bool {
        0 <= row < self.rows && 0 <= col < self.cols
    }

    /// Whether `pos` is a cell of the grid.
    pub open spec fn contains(self, pos: Position) -> bool {
        self.holds(pos.row as int, pos.col as int)
    }
}

/// Whether one step from `pos` in heading `h` lands on a cell of the grid.
/// The sum is taken over the integers, so a step off the top or the left
/// edge gives a negative coordinate, which no grid holds.
pub open spec fn can_move(pos: Position, h: Heading, bounds: GridBounds) -> bool {
    bounds.holds(pos.row + h.delta().0, pos.col + h.delta().1)
}

/// Whether a marker at `pos` is shut in: none of the four headings leads
/// onto the grid.
pub open spec fn blocked(pos: Position, bounds: GridBounds) -> bool {
    &&& !can_move(pos, Heading::East, bounds)
    &&& !can_move(pos, Heading::South, bounds)
    &&& !can_move(pos, Heading::West, bounds)
    &&& !can_move(pos, Heading::North, bounds)
}

/// Whether `h.rotated(turns)` is the first heading in turning order from
/// `h` along which a marker at `pos` can move.
pub open spec fn first_open(pos: Position, h: Heading, bounds: GridBounds, turns: nat) -> bool {
    &&& turns < 4
    &&& can_move(pos, h.rotated(turns), bounds)
    &&& forall|j: nat| j < turns ==> !can_move(pos, #[trigger] h.rotated(j), bounds)
}

/// The cell one step from `pos` in heading `h`.  It is meaningful where
/// `can_move` holds.
pub open spec fn target(pos: Position, h: Heading) -> Position {
    Position { row: (pos.row + h.delta().0) as usize, col: (pos.col + h.delta().1) as usize }
}

/// The outcome of trying `attempts` headings in turning order, `h` first:
/// the first one that can move decides, and the marker keeps that heading.
/// Every attempt starts from `pos` itself.
pub open spec fn resolve(pos: Position, h: Heading, bounds: GridBounds, attempts: nat) -> Result<
    (Position, Heading),
    StepError,
>
    decreases attempts,
{
    if attempts == 0 {
        Err(StepError::Blocked)
    } else if can_move(pos, h, bounds) {
        Ok((target(pos, h), h))
    } else {
        resolve(pos, h.successor(), bounds, (attempts - 1) as nat)
    }
}

/// The next position and heading of a marker at `pos` with heading `h`.
pub open spec fn spec_next_step(pos: Position, h: Heading, bounds: GridBounds) -> Result<
    (Position, Heading),
    StepError,
> {
    resolve(pos, h, bounds, 4)
}

/// Adds `d` to `pos` in a signed domain and keeps the sum only if it is a
/// cell of the grid.
pub fn displaced(pos: Position, d: Displacement, bounds: GridBounds) -> (r: Option<Position>)
    ensures
        bounds.holds(pos.row + d.d_row, pos.col + d.d_col) ==> r == Some(
            Position { row: (pos.row + d.d_row) as usize, col: (pos.col + d.d_col) as usize },
        ),
        !bounds.holds(pos.row + d.d_row, pos.col + d.d_col) ==> r is None,
{
    let row: i128 = pos.row as i128 + d.d_row as i128;
    let col: i128 = pos.col as i128 + d.d_col as i128;
    if 0 <= row && row < bounds.rows as i128 && 0 <= col && col < bounds.cols as i128 {
        Some(Position { row: row as usize, col: col as usize })
    } else {
        None
    }
}

/// Computes the next position and heading of a marker.
///
/// The marker moves one cell in its heading if that cell is inside the
/// grid, and keeps its heading.  Otherwise it turns, once, twice or three
/// times, to the first heading whose neighbouring cell is inside, and moves
/// there.  With all four neighbours outside it reports `Blocked`.
pub fn next_step(pos: Position, heading: Heading, bounds: GridBounds) -> (r: Result<
    (Position, Heading),
    StepError,
>)
    ensures
        r == spec_next_step(pos, heading, bounds),
        r is Err <==> blocked(pos, bounds),
        r matches Ok((p, h)) ==> bounds.contains(p) && p == target(pos, h) && exists|turns: nat|
            first_open(pos, heading, bounds, turns) && h == heading.rotated(turns),
{
    proof {
        lemma_step_fails_when_blocked(pos, heading, bounds);
    }
    let mut h = heading;
    let mut tried: u8 = 0;
    while tried < 4
        invariant
            tried <= 4,
            resolve(pos, h, bounds, (4 - tried) as nat) == spec_next_step(pos, heading, bounds),
        decreases 4 - tried,
    {
        let info = heading_info(h);
        match displaced(pos, info.displacement, bounds) {
            Some(p) => {
                proof {
                    lemma_step_takes_first_open_heading(pos, heading, bounds);
                }
                return Ok((p, h));
            },
            None => {
                h = info.next;
                tried = tried + 1;
            },
        }
    }
    Err(StepError::Blocked)
}

/// A step never leaves the grid: whatever the position it starts from, the
/// position it yields is a cell of the grid.
pub proof fn lemma_step_stays_in_bounds(pos: Position, h: Heading, bounds: GridBounds)
    ensures
        spec_next_step(pos, h, bounds) matches Ok((p, _)) ==> bounds.contains(p),
{
    reveal_with_fuel(resolve, 5);
}

/// A step goes along the first heading in turning order that stays inside
/// the grid, from the position the marker had: turning never displaces it.
/// The step fails exactly when none of the four headings stays inside.
pub proof fn lemma_step_takes_first_open_heading(pos: Position, h: Heading, bounds: GridBounds)
    ensures
        forall|turns: nat| #[trigger]
            first_open(pos, h, bounds, turns) ==> spec_next_step(pos, h, bounds) == Ok::<
                (Position, Heading),
                StepError,
            >((target(pos, h.rotated(turns)), h.rotated(turns))),
        spec_next_step(pos, h, bounds) matches Ok((p, to)) ==> p == target(pos, to) && exists|turns: nat|
            first_open(pos, h, bounds, turns) && to == h.rotated(turns),
        spec_next_step(pos, h, bounds) is Err <==> forall|turns: nat|
            turns < 4 ==> !can_move(pos, #[trigger] h.rotated(turns), bounds),
{
    reveal_with_fuel(resolve, 5);
    reveal_with_fuel(Heading::rotated, 5);
    let h0 = h.rotated(0);
    let h1 = h.rotated(1);
    let h2 = h.rotated(2);
    let h3 = h.rotated(3);
    if can_move(pos, h0, bounds) {
        assert(first_open(pos, h, bounds, 0));
    } else if can_move(pos, h1, bounds) {
        assert(first_open(pos, h, bounds, 1));
    } else if can_move(pos, h2, bounds) {
        assert(first_open(pos, h, bounds, 2));
    } else if can_move(pos, h3, bounds) {
        assert(first_open(pos, h, bounds, 3));
    }
}

/// The step is a function of the position, the heading and the extent of
/// the grid: equal inputs give equal steps, whatever happened before.
pub proof fn lemma_step_is_determined(
    pos: Position,
    h: Heading,
    bounds: GridBounds,
    pos2: Position,
    h2: Heading,
    bounds2: GridBounds,
)
    requires
        pos == pos2,
        h == h2,
        bounds == bounds2,
    ensures
        spec_next_step(pos, h, bounds) == spec_next_step(pos2, h2, bounds2),
{
}

/// A marker whose way is free moves one cell and keeps its heading.
pub proof fn lemma_open_heading_is_kept(pos: Position, h: Heading, bounds: GridBounds)
    requires
        can_move(pos, h, bounds),
    ensures
        spec_next_step(pos, h, bounds) == Ok::<(Position, Heading), StepError>((target(pos, h), h)),
{
    reveal_with_fuel(resolve, 2);
}

/// A step fails exactly when the marker is shut in, whatever its heading.
pub proof fn lemma_step_fails_when_blocked(pos: Position, h: Heading, bounds: GridBounds)
    ensures
        spec_next_step(pos, h, bounds) is Err <==> blocked(pos, bounds),
{
    reveal_with_fuel(resolve, 5);
}

/// A marker on the grid can step exactly when the grid has a second row or
/// a second column; on a grid of one cell it is blocked.
pub proof fn lemma_step_exists(pos: Position, h: Heading, bounds: GridBounds)
    requires
        bounds.contains(pos),
    ensures
        spec_next_step(pos, h, bounds) is Ok <==> bounds.rows >= 2 || bounds.cols >= 2,
{
    reveal_with_fuel(resolve, 5);
}

/// Every step moves the marker to one of the four cells next to it.
pub proof fn lemma_step_moves_one_cell(pos: Position, h: Heading, bounds: GridBounds)
    ensures
        spec_next_step(pos, h, bounds) matches Ok((p, to)) ==> {
            &&& p != pos
            &&& p.row == pos.row + to.delta().0
            &&& p.col == pos.col + to.delta().1
        },
{
    reveal_with_fuel(resolve, 5);
}

/// A marker heading East in the last column turns South and moves one row
/// down in the same column, provided there is a row below it.
pub proof fn lemma_east_edge_turns_south(pos: Position, bounds: GridBounds)
    requires
        bounds.contains(pos),
        pos.col + 1 == bounds.cols,
        pos.row + 1 < bounds.rows,
    ensures
        spec_next_step(pos, Heading::East, bounds) == Ok::<(Position, Heading), StepError>(
            (Position { row: (pos.row + 1) as usize, col: pos.col }, Heading::South),
        ),
{
    reveal_with_fuel(resolve, 3);
}


} // verus!
