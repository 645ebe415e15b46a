//! The animation: markers that each take one step per tick, and the grid
//! that shows where they are.

use vstd::prelude::*;
use crate::grid::Grid;
use crate::heading::Heading;
use crate::step::{next_step, spec_next_step, GridBounds, Position};
use crate::tick_laws::lemma_tick_shows_markers;

verus! {

/// A marker: where it is and which way it is going.  Markers are told apart
/// by their place in the engine's list.
#[derive(Clone, Copy, Debug, PartialEq, Eq, Structural)]
pub struct Marker {
    pub position: Position,
    pub heading: Heading,
}

/// What an engine is started with.
#[derive(Debug)]
pub struct Config {
    /// The number of rows, and of columns, of the grid.
    pub size: usize,
    /// The markers in the order in which each tick moves them.
    pub markers: Vec<Marker>,
    /// How long each frame is to be shown, in milliseconds.
    pub frame_duration_ms: u32,
}

/// Why a configuration was refused.
#[derive(Clone, Copy, Debug, PartialEq, Eq, Structural)]
pub enum ConfigError {
    /// The grid has fewer than two rows and columns, so no marker could
    /// ever move on it.
    GridTooSmall,
    /// A marker starts outside the grid.
    MarkerOutOfBounds,
}

/// The marker `m` after one step on a grid of the given extent.  A marker
/// that is blocked on every side stays as it is.
pub open spec fn stepped(m: Marker, bounds: GridBounds) -> Marker {
    match spec_next_step(m.position, m.heading, bounds) {
        Ok((position, heading)) => Marker { position, heading },
        Err(_) => m,
    }
}

/// Every marker after one step.  Each one's step depends on that marker and
/// on the extent of the grid, and on nothing else.
pub open spec fn step_all(markers: Seq<Marker>, bounds: GridBounds) -> Seq<Marker> {
    Seq::new(markers.len(), |i: int| stepped(markers[i], bounds))
}

/// The lit cells after the first `n` markers were moved in turn, each by
/// darkening the cell it left and then lighting the cell it reached.
pub open spec fn repaint(lit: Set<Position>, before: Seq<Marker>, after: Seq<Marker>, n: nat) -> Set<
    Position,
>
    decreases n,
{
    if n == 0 {
        lit
    } else {
        repaint(lit, before, after, (n - 1) as nat).remove(before[n - 1].position).insert(
            after[n - 1].position,
        )
    }
}

/// The cells on which at least one marker stands.
pub open spec fn cells_of(markers: Seq<Marker>) -> Set<Position> {
    Set::new(|p: Position| exists|i: int| 0 <= i < markers.len() && (#[trigger] markers[i]).position == p)
}

/// Whether the cell that marker `i` reached was darkened again within the
/// tick: a marker moved later started there, and none moved after that one
/// came to rest there.
pub open spec fn overwritten(before: Seq<Marker>, after: Seq<Marker>, i: int) -> bool {
    exists|j: int|
        i < j < before.len() && (#[trigger] before[j]).position == after[i].position && forall|k: int|
            j < k < after.len() ==> (#[trigger] after[k]).position != after[i].position
}

/// The state of an engine as plain values.
pub struct EngineView {
    pub size: usize,
    pub markers: Seq<Marker>,
    pub lit: Set<Position>,
    pub frame_duration_ms: u32,
}

impl EngineView {
    /// The extent of the square grid.
    pub open spec fn bounds(self) -> GridBounds {
        GridBounds { rows: self.size, cols: self.size }
    }

    /// The grid has room to move in, and every marker and every lit cell is
    /// on it.
    pub open spec fn wf(self) -> bool {
        &&& self.size >= 2
        &&& forall|i: int| 0 <= i < self.markers.len() ==> self.bounds().contains((#[trigger] self.markers[i]).position)
        &&& forall|p: Position| self.lit.contains(p) ==> self.bounds().contains(p)
    }

    /// Exactly the cells with a marker on them are lit.
    pub open spec fn shows_markers(self) -> bool {
        self.lit == cells_of(self.markers)
    }

    /// The state after one tick.
    pub open spec fn tick(self) -> EngineView {
        let after = step_all(self.markers, self.bounds());
        EngineView {
            size: self.size,
            markers: after,
            lit: repaint(self.lit, self.markers, after, self.markers.len()),
            frame_duration_ms: self.frame_duration_ms,
        }
    }
}

/// The cells of the first `i + 1` markers are those of the first `i` and
/// the cell of marker `i`.
proof fn lemma_cells_of_longer_prefix(markers: Seq<Marker>, i: int)
    requires
        0 <= i < markers.len(),
    ensures
        cells_of(markers.take(i + 1)) == cells_of(markers.take(i)).insert(markers[i].position),
{
    let shorter = markers.take(i);
    let longer = markers.take(i + 1);
    assert(longer[i] == markers[i]);
    assert forall|p: Position| cells_of(longer).contains(p) <==> cells_of(shorter).insert(
        markers[i].position,
    ).contains(p) by {
        if cells_of(longer).contains(p) {
            let k = choose|k: int| 0 <= k < longer.len() && (#[trigger] longer[k]).position == p;
            if k < i {
                assert(shorter[k].position == p);
            }
        }
        if cells_of(shorter).contains(p) {
            let k = choose|k: int| 0 <= k < shorter.len() && (#[trigger] shorter[k]).position == p;
            assert(longer[k].position == p);
        }
    }
    assert(cells_of(longer) =~= cells_of(shorter).insert(markers[i].position));
}

/// The markers and the grid they are drawn on.
#[derive(Debug)]
pub struct Engine {
    grid: Grid,
    markers: Vec<Marker>,
    frame_duration_ms: u32,
}

impl View for Engine {
    type V = EngineView;

    closed spec fn view(&self) -> EngineView {
        EngineView {
            size: self.grid.spec_bounds().rows,
            markers: self.markers@,
            lit: self.grid@,
            frame_duration_ms: self.frame_duration_ms,
        }
    }
}

impl Engine {
    /// The grid is square and sound, and the state is well-formed.
    pub closed spec fn wf(&self) -> bool {
        &&& self.grid.wf()
        &&& self.grid.spec_bounds() == self@.bounds()
        &&& self@.wf()
    }

    /// What `wf` promises of the view.
    pub proof fn lemma_wf_view(&self)
        requires
            self.wf(),
        ensures
            self@.wf(),
    {
    }

    /// Builds an engine with every marker's cell lit and all others dark.
    ///
    /// A grid smaller than two by two is refused, and so is, on a grid of
    /// sufficient size, a marker that starts outside it.
    pub fn new(config: Config) -> (r: Result<Engine, ConfigError>)
        ensures
            match r {
                Ok(e) => {
                    &&& config.size >= 2
                    &&& forall|i: int|
                        0 <= i < config.markers@.len() ==> (GridBounds {
                            rows: config.size,
                            cols: config.size,
                        }).contains((#[trigger] config.markers@[i]).position)
                    &&& e.wf()
                    &&& e@.shows_markers()
                    &&& e@.size == config.size
                    &&& e@.markers == config.markers@
                    &&& e@.frame_duration_ms == config.frame_duration_ms
                },
                Err(ConfigError::GridTooSmall) => config.size < 2,
                Err(ConfigError::MarkerOutOfBounds) => config.size >= 2 && exists|i: int|
                    0 <= i < config.markers@.len() && !(GridBounds {
                        rows: config.size,
                        cols: config.size,
                    }).contains((#[trigger] config.markers@[i]).position),
            },
    {
        if config.size < 2 {
            return Err(ConfigError::GridTooSmall);
        }
        let mut grid = Grid::new(config.size, config.size);
        let ghost bounds = GridBounds { rows: config.size, cols: config.size };
        let n = config.markers.len();
        let mut i: usize = 0;
        while i < n
            invariant
                i <= n,
                n == config.markers@.len(),
                config.size >= 2,
                grid.wf(),
                grid.spec_bounds() == bounds,
                bounds == (GridBounds { rows: config.size, cols: config.size }),
                forall|j: int| 0 <= j < i ==> bounds.contains((#[trigger] config.markers@[j]).position),
                grid@ == cells_of(config.markers@.take(i as int)),
            decreases n - i,
        {
            let m = config.markers[i];
            match grid.set_cell(m.position, true) {
                Ok(()) => {},
                Err(_) => {
                    assert(!bounds.contains(config.markers@[i as int].position));
                    return Err(ConfigError::MarkerOutOfBounds);
                },
            }
            proof {
                lemma_cells_of_longer_prefix(config.markers@, i as int);
            }
            i = i + 1;
        }
        proof {
            assert(config.markers@.take(n as int) =~= config.markers@);
            grid.lemma_lit_cells_are_in_bounds();
        }
        Ok(Engine { grid, markers: config.markers, frame_duration_ms: config.frame_duration_ms })
    }

    /// Moves every marker one step, in list order, and redraws the grid:
    /// for each marker in turn the cell it leaves is darkened, its next
    /// position and heading are computed from its own position and heading
    /// and the extent of the grid alone, and the cell it reaches is lit.
    ///
    /// Every marker ends on the grid.  If the picture showed the markers
    /// before, it shows them afterwards too, unless a marker's new cell was
    /// overwritten by a marker moved after it.
    pub fn tick(&mut self)
        requires
            old(self).wf(),
        ensures
            final(self).wf(),
            final(self)@ == old(self)@.tick(),
            forall|i: int|
                0 <= i < final(self)@.markers.len() ==> final(self)@.bounds().contains(
                    (#[trigger] final(self)@.markers[i]).position,
                ),
            old(self)@.shows_markers() ==> (final(self)@.shows_markers() <==> forall|i: int|
                0 <= i < old(self)@.markers.len() ==> !overwritten(old(self)@.markers, final(self)@.markers, i)),
    {
        let ghost start = self@;
        proof {
            if start.shows_markers() {
                lemma_tick_shows_markers(start);
            }
        }
        let ghost goal = step_all(start.markers, start.bounds());
        let bounds = self.grid.bounds();
        let n = self.markers.len();
        let mut i: usize = 0;
        while i < n
            invariant
                i <= n,
                n == start.markers.len(),
                start.wf(),
                bounds == start.bounds(),
                goal == step_all(start.markers, bounds),
                self.grid.wf(),
                self.grid.spec_bounds() == bounds,
                self.frame_duration_ms == start.frame_duration_ms,
                self.markers@.len() == n,
                forall|j: int| 0 <= j < i ==> #[trigger] self.markers@[j] == goal[j],
                forall|j: int| i <= j < n ==> #[trigger] self.markers@[j] == start.markers[j],
                forall|j: int| 0 <= j < n ==> bounds.contains((#[trigger] self.markers@[j]).position),
                self.grid@ == repaint(start.lit, start.markers, goal, i as nat),
            decreases n - i,
        {
            // Every marker is on the grid, so neither write is refused.
            let m = self.markers[i];
            let cleared = self.grid.set_cell(m.position, false);
            assert(cleared is Ok);
            let moved = match next_step(m.position, m.heading, bounds) {
                Ok((position, heading)) => Marker { position, heading },
                Err(_) => m,
            };
            assert(moved == goal[i as int]);
            self.markers[i] = moved;
            let drawn = self.grid.set_cell(moved.position, true);
            assert(drawn is Ok);
            i = i + 1;
        }
        proof {
            assert(self.markers@ =~= goal);
            self.grid.lemma_lit_cells_are_in_bounds();
        }
    }

    /// A copy of the grid as rows of cells, `true` for lit, to hand to
    /// whatever presents the frame.
    pub fn snapshot(&self) -> (rows: Vec<Vec<bool>>)
        requires
            self.wf(),
        ensures
            rows@.len() == self@.size,
            forall|r: int| 0 <= r < rows@.len() ==> (#[trigger] rows@[r])@.len() == self@.size,
            forall|r: int, c: int|
                0 <= r < self@.size && 0 <= c < self@.size ==> (#[trigger] rows@[r]@[c]) == self@.lit.contains(
                    Position { row: r as usize, col: c as usize },
                ),
    {
        self.grid.snapshot()
    }

    /// The markers as they stand, in the order in which a tick moves them.
    pub fn markers(&self) -> (m: &Vec<Marker>)
        ensures
            m@ == self@.markers,
    {
        &self.markers
    }

    /// The number of rows, and of columns, of the grid.
    pub fn size(&self) -> (n: usize)
        ensures
            n == self@.size,
    {
        self.grid.bounds().rows
    }

    /// How long each frame is to be shown, in milliseconds.
    pub fn frame_duration_ms(&self) -> (ms: u32)
        ensures
            ms == self@.frame_duration_ms,
    {
        self.frame_duration_ms
    }
}

} // verus!
