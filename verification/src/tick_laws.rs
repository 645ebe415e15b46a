//! What holds of every tick: markers stay on the grid, the picture shows
//! the markers unless one overwrites another, and the order in which the
//! markers are moved matters only then.

use vstd::prelude::*;
use crate::engine::{cells_of, overwritten, repaint, step_all, stepped, EngineView, Marker};
use crate::heading::Heading;
use crate::step::{
    lemma_step_exists, lemma_step_moves_one_cell, lemma_step_stays_in_bounds, spec_next_step,
    GridBounds, Position, StepError,
};

verus! {

/// Whether one of the first `n` markers came to rest on the cell `c` and
/// none of those moved after it started from `c`.
pub open spec fn lit_by(before: Seq<Marker>, after: Seq<Marker>, n: int, c: Position) -> bool {
    exists|k: int|
        0 <= k < n && (#[trigger] after[k]).position == c && forall|j: int|
            k < j < n ==> (#[trigger] before[j]).position != c
}

/// Whether none of the first `n` markers started from the cell `c`.
pub open spec fn untouched(before: Seq<Marker>, n: int, c: Position) -> bool {
    forall|j: int| 0 <= j < n ==> (#[trigger] before[j]).position != c
}

/// The state after `ticks` ticks.
pub open spec fn after_ticks(v: EngineView, ticks: nat) -> EngineView
    decreases ticks,
{
    if ticks == 0 {
        v
    } else {
        after_ticks(v, (ticks - 1) as nat).tick()
    }
}

/// The greatest index below `n` of a marker standing on `c`, or -1.
spec fn last_on(markers: Seq<Marker>, c: Position, n: int) -> int
    decreases n,
{
    if n <= 0 {
        -1
    } else if markers[n - 1].position == c {
        n - 1
    } else {
        last_on(markers, c, n - 1)
    }
}

/// `last_on` names a marker on `c` if there is one below `n`, and no marker
/// after it stands on `c`.
proof fn lemma_last_on(markers: Seq<Marker>, c: Position, n: int)
    requires
        0 <= n <= markers.len(),
    ensures
        -1 <= last_on(markers, c, n) < n,
        last_on(markers, c, n) >= 0 ==> markers[last_on(markers, c, n)].position == c,
        forall|k: int| last_on(markers, c, n) < k < n ==> (#[trigger] markers[k]).position != c,
    decreases n,
{
    if n > 0 && markers[n - 1].position != c {
        lemma_last_on(markers, c, n - 1);
    }
}

/// A cell is lit after the first `n` markers moved exactly when one of them
/// came to rest on it and none moved after that one started from it, or
/// when it was lit before and none of them started from it.
pub proof fn lemma_repaint_cell(
    lit: Set<Position>,
    before: Seq<Marker>,
    after: Seq<Marker>,
    n: nat,
    c: Position,
)
    requires
        n <= before.len(),
        n <= after.len(),
    ensures
        repaint(lit, before, after, n).contains(c) <==> lit_by(before, after, n as int, c) || (lit.contains(c)
            && untouched(before, n as int, c)),
    decreases n,
{
    if n > 0 {
        let m = (n - 1) as nat;
        lemma_repaint_cell(lit, before, after, m, c);
        if after[m as int].position == c {
            assert(lit_by(before, after, n as int, c));
        } else if before[m as int].position == c {
            assert(!untouched(before, n as int, c));
            assert(!lit_by(before, after, n as int, c));
        } else {
            if lit_by(before, after, m as int, c) {
                let k = choose|k: int|
                    0 <= k < m && (#[trigger] after[k]).position == c && forall|j: int|
                        k < j < m ==> (#[trigger] before[j]).position != c;
                assert(forall|j: int| k < j < n ==> (#[trigger] before[j]).position != c);
                assert(lit_by(before, after, n as int, c));
            }
            if lit_by(before, after, n as int, c) {
                let k = choose|k: int|
                    0 <= k < n && (#[trigger] after[k]).position == c && forall|j: int|
                        k < j < n ==> (#[trigger] before[j]).position != c;
                assert(k < m);
                assert(lit_by(before, after, m as int, c));
            }
            assert(untouched(before, m as int, c) <==> untouched(before, n as int, c));
        }
    }
}

/// A tick keeps the state well-formed: the grid keeps its size, no marker
/// comes or goes, and every marker and every lit cell is on the grid.
pub proof fn lemma_tick_preserves_wf(v: EngineView)
    requires
        v.wf(),
    ensures
        v.tick().wf(),
        v.tick().size == v.size,
        v.tick().markers.len() == v.markers.len(),
        v.tick().frame_duration_ms == v.frame_duration_ms,
{
    let before = v.markers;
    let after = v.tick().markers;
    assert forall|i: int| 0 <= i < after.len() implies v.bounds().contains((#[trigger] after[i]).position) by {
        lemma_step_stays_in_bounds(before[i].position, before[i].heading, v.bounds());
    }
    assert forall|p: Position| v.tick().lit.contains(p) implies v.bounds().contains(p) by {
        lemma_repaint_cell(v.lit, before, after, before.len(), p);
        if lit_by(before, after, before.len() as int, p) {
            let k = choose|k: int| 0 <= k < before.len() && (#[trigger] after[k]).position == p;
        }
    }
}

/// However many ticks have passed, every marker is on the grid.
pub proof fn lemma_markers_stay_on_grid(v: EngineView, ticks: nat)
    requires
        v.wf(),
    ensures
        after_ticks(v, ticks).wf(),
        after_ticks(v, ticks).size == v.size,
        after_ticks(v, ticks).markers.len() == v.markers.len(),
        forall|i: int|
            0 <= i < v.markers.len() ==> v.bounds().contains((#[trigger] after_ticks(v, ticks).markers[i]).position),
    decreases ticks,
{
    if ticks > 0 {
        lemma_markers_stay_on_grid(v, (ticks - 1) as nat);
        lemma_tick_preserves_wf(after_ticks(v, (ticks - 1) as nat));
    }
}

/// In every tick every marker moves to a cell next to the one it was on.
pub proof fn lemma_every_marker_moves(v: EngineView, i: int)
    requires
        v.wf(),
        0 <= i < v.markers.len(),
    ensures
        spec_next_step(v.markers[i].position, v.markers[i].heading, v.bounds()) == Ok::<
            (Position, Heading),
            StepError,
        >((v.tick().markers[i].position, v.tick().markers[i].heading)),
        v.tick().markers[i].position != v.markers[i].position,
{
    lemma_step_exists(v.markers[i].position, v.markers[i].heading, v.bounds());
    lemma_step_moves_one_cell(v.markers[i].position, v.markers[i].heading, v.bounds());
}

/// A marker's step does not depend on the other markers: two states with
/// grids of one size that hold the same marker, at whatever places in their
/// lists and among whatever others, move it alike.
pub proof fn lemma_marker_steps_alone(a: EngineView, b: EngineView, i: int, j: int)
    requires
        a.size == b.size,
        0 <= i < a.markers.len(),
        0 <= j < b.markers.len(),
        a.markers[i] == b.markers[j],
    ensures
        a.tick().markers[i] == b.tick().markers[j],
{
}

/// Where every marker moved and a cell is lit exactly when `lit_by` says
/// so, a marker whose cell is overwritten stands on a dark cell.
proof fn lemma_overwritten_is_dark(lit: Set<Position>, before: Seq<Marker>, after: Seq<Marker>, i: int)
    requires
        before.len() == after.len(),
        forall|k: int| 0 <= k < after.len() ==> (#[trigger] after[k]).position != before[k].position,
        forall|c: Position| #[trigger] lit.contains(c) <==> lit_by(before, after, after.len() as int, c),
        0 <= i < after.len(),
        overwritten(before, after, i),
    ensures
        !lit.contains(after[i].position),
{
    let n = after.len() as int;
    let c = after[i].position;
    let j = choose|j: int|
        i < j < before.len() && (#[trigger] before[j]).position == c && forall|k: int|
            j < k < after.len() ==> (#[trigger] after[k]).position != c;
    if lit.contains(c) {
        let k = choose|k: int|
            0 <= k < n && (#[trigger] after[k]).position == c && forall|jj: int|
                k < jj < n ==> (#[trigger] before[jj]).position != c;
        assert(after[j].position != before[j].position);
        assert(k < j);
        assert(before[j].position != c);
    }
}

/// Where no marker's cell is overwritten, the cell `c` of a marker is lit.
proof fn lemma_not_overwritten_is_lit(before: Seq<Marker>, after: Seq<Marker>, c: Position)
    requires
        before.len() == after.len(),
        forall|i: int| 0 <= i < after.len() ==> !overwritten(before, after, i),
        cells_of(after).contains(c),
    ensures
        lit_by(before, after, after.len() as int, c),
{
    let n = after.len() as int;
    let i0 = choose|i: int| 0 <= i < after.len() && (#[trigger] after[i]).position == c;
    let k = last_on(after, c, n);
    lemma_last_on(after, c, n);
    if k < 0 {
        assert(after[i0].position != c);
    }
    if exists|j: int| k < j < n && (#[trigger] before[j]).position == c {
        let j = choose|j: int| k < j < n && (#[trigger] before[j]).position == c;
        assert(overwritten(before, after, k));
    }
}

/// From a state in which exactly the markers' cells are lit, a tick leads
/// to such a state again if and only if no marker's new cell is overwritten.
pub proof fn lemma_tick_shows_markers(v: EngineView)
    requires
        v.wf(),
        v.shows_markers(),
    ensures
        v.tick().shows_markers() <==> forall|i: int|
            0 <= i < v.markers.len() ==> !overwritten(v.markers, v.tick().markers, i),
{
    let before = v.markers;
    let after = v.tick().markers;
    let lit = v.tick().lit;
    let n = before.len() as int;
    assert forall|k: int| 0 <= k < n implies (#[trigger] after[k]).position != before[k].position by {
        lemma_every_marker_moves(v, k);
    }
    assert forall|c: Position| #[trigger] lit.contains(c) <==> lit_by(before, after, n, c) by {
        lemma_repaint_cell(v.lit, before, after, n as nat, c);
        if v.lit.contains(c) {
            let i = choose|i: int| 0 <= i < before.len() && (#[trigger] before[i]).position == c;
            assert(!untouched(before, n, c));
        }
    }
    if forall|i: int| 0 <= i < n ==> !overwritten(before, after, i) {
        assert forall|c: Position| cells_of(after).contains(c) implies lit.contains(c) by {
            lemma_not_overwritten_is_lit(before, after, c);
        }
        assert forall|c: Position| lit.contains(c) implies cells_of(after).contains(c) by {
            let k = choose|k: int| 0 <= k < n && (#[trigger] after[k]).position == c;
        }
        assert(lit =~= cells_of(after));
    }
    if lit == cells_of(after) {
        assert forall|i: int| 0 <= i < n implies !overwritten(before, after, i) by {
            if overwritten(before, after, i) {
                lemma_overwritten_is_dark(lit, before, after, i);
            }
        }
    }
}

/// Whether in none of the first `ticks` ticks from `v` a marker's new cell
/// is overwritten.
pub open spec fn never_overwritten(v: EngineView, ticks: nat) -> bool {
    forall|t: nat, i: int|
        t < ticks && 0 <= i < v.markers.len() ==> !#[trigger] overwritten(
            after_ticks(v, t).markers,
            after_ticks(v, t).tick().markers,
            i,
        )
}

/// A picture that shows the markers goes on showing them tick after tick,
/// for as long as no marker's new cell is overwritten.
pub proof fn lemma_picture_follows_markers(v: EngineView, ticks: nat)
    requires
        v.wf(),
        v.shows_markers(),
        never_overwritten(v, ticks),
    ensures
        after_ticks(v, ticks).shows_markers(),
    decreases ticks,
{
    if ticks > 0 {
        let earlier = (ticks - 1) as nat;
        let u = after_ticks(v, earlier);
        assert(never_overwritten(v, earlier));
        lemma_picture_follows_markers(v, earlier);
        lemma_markers_stay_on_grid(v, earlier);
        assert forall|i: int| 0 <= i < u.markers.len() implies !overwritten(u.markers, u.tick().markers, i) by {
            assert(earlier < ticks);
        }
        lemma_tick_shows_markers(u);
    }
}

/// A marker of a list is a marker of every rearrangement of that list.
proof fn lemma_rearranged_list_holds(ms: Seq<Marker>, ws: Seq<Marker>, m: Marker)
    requires
        ms.to_multiset() == ws.to_multiset(),
        ms.contains(m),
    ensures
        ws.contains(m),
{
    ms.to_multiset_ensures();
    ws.to_multiset_ensures();
    assert(ms.to_multiset().count(m) > 0);
    assert(ws.to_multiset().count(m) > 0);
}

/// A cell reached by one of `ms` is reached by one of `ws`, where every
/// marker of `ms` is among `ws`.
proof fn lemma_same_markers_reach_same_cells(
    ms: Seq<Marker>,
    ws: Seq<Marker>,
    bounds: GridBounds,
    c: Position,
)
    requires
        forall|i: int| 0 <= i < ms.len() ==> ws.contains(#[trigger] ms[i]),
        cells_of(step_all(ms, bounds)).contains(c),
    ensures
        cells_of(step_all(ws, bounds)).contains(c),
{
    let i = choose|i: int| 0 <= i < step_all(ms, bounds).len() && (#[trigger] step_all(ms, bounds)[i]).position == c;
    assert(ws.contains(ms[i]));
    let j = choose|j: int| 0 <= j < ws.len() && ws[j] == ms[i];
    assert(step_all(ws, bounds)[j].position == c);
}

/// Stepping every marker of a rearranged list rearranges the stepped list.
proof fn lemma_step_all_of_permutation(ms: Seq<Marker>, ws: Seq<Marker>, bounds: GridBounds)
    requires
        ms.to_multiset() == ws.to_multiset(),
    ensures
        step_all(ms, bounds).to_multiset() == step_all(ws, bounds).to_multiset(),
    decreases ms.len(),
{
    let sm = step_all(ms, bounds);
    let sw = step_all(ws, bounds);
    ms.to_multiset_ensures();
    ws.to_multiset_ensures();
    if ms.len() == 0 {
        assert(sm =~= sw);
    } else {
        // Take the last marker of `ms` out of both lists, and its step out
        // of both stepped lists.
        let last = ms.last();
        assert(ms.contains(last));
        lemma_rearranged_list_holds(ms, ws, last);
        let j = choose|j: int| 0 <= j < ws.len() && ws[j] == last;
        assert(ms.drop_last().to_multiset() =~= ms.to_multiset().remove(last)) by {
            assert(ms =~= ms.drop_last().push(last));
            ms.drop_last().to_multiset_ensures();
        }
        lemma_step_all_of_permutation(ms.drop_last(), ws.remove(j), bounds);
        assert(step_all(ms.drop_last(), bounds) =~= sm.drop_last());
        assert(step_all(ws.remove(j), bounds) =~= sw.remove(j));
        assert(sm =~= sm.drop_last().push(sm.last()));
        sm.drop_last().to_multiset_ensures();
        sw.to_multiset_ensures();
        assert(sw.to_multiset() =~= sw.remove(j).to_multiset().insert(sw[j])) by {
            assert(sw.to_multiset().count(sw[j]) > 0) by {
                assert(sw.contains(sw[j]));
            }
        }
    }
}

/// Moving the same markers in another order gives the same picture, as
/// long as in neither order a marker's new cell is overwritten.
pub proof fn lemma_order_of_markers_is_immaterial(v: EngineView, w: EngineView)
    requires
        v.wf(),
        w.wf(),
        v.shows_markers(),
        w.shows_markers(),
        v.size == w.size,
        v.markers.to_multiset() == w.markers.to_multiset(),
        forall|i: int| 0 <= i < v.markers.len() ==> !overwritten(v.markers, v.tick().markers, i),
        forall|i: int| 0 <= i < w.markers.len() ==> !overwritten(w.markers, w.tick().markers, i),
    ensures
        v.tick().lit == w.tick().lit,
        v.tick().markers.to_multiset() == w.tick().markers.to_multiset(),
{
    lemma_tick_shows_markers(v);
    lemma_tick_shows_markers(w);
    let bounds = v.bounds();
    assert forall|i: int| 0 <= i < v.markers.len() implies w.markers.contains(#[trigger] v.markers[i]) by {
        assert(v.markers.contains(v.markers[i]));
        lemma_rearranged_list_holds(v.markers, w.markers, v.markers[i]);
    }
    assert forall|i: int| 0 <= i < w.markers.len() implies v.markers.contains(#[trigger] w.markers[i]) by {
        assert(w.markers.contains(w.markers[i]));
        lemma_rearranged_list_holds(w.markers, v.markers, w.markers[i]);
    }
    assert forall|c: Position| cells_of(v.tick().markers).contains(c) implies cells_of(
        w.tick().markers,
    ).contains(c) by {
        lemma_same_markers_reach_same_cells(v.markers, w.markers, bounds, c);
    }
    assert forall|c: Position| cells_of(w.tick().markers).contains(c) implies cells_of(
        v.tick().markers,
    ).contains(c) by {
        lemma_same_markers_reach_same_cells(w.markers, v.markers, bounds, c);
    }
    assert(cells_of(v.tick().markers) =~= cells_of(w.tick().markers));
    lemma_step_all_of_permutation(v.markers, w.markers, bounds);
}

/// Two markers on a grid that shows just them may be moved in either order
/// with the same picture as the result, unless one of them steps onto the
/// cell that the other starts from: then, and only then, the two orders
/// give different pictures.
pub proof fn lemma_two_markers_in_either_order(a: Marker, b: Marker, size: usize, frame_duration_ms: u32)
    requires
        size >= 2,
        (GridBounds { rows: size, cols: size }).contains(a.position),
        (GridBounds { rows: size, cols: size }).contains(b.position),
    ensures
        ({
            let bounds = GridBounds { rows: size, cols: size };
            let ab = EngineView { size, markers: seq![a, b], lit: cells_of(seq![a, b]), frame_duration_ms };
            let ba = EngineView { size, markers: seq![b, a], lit: cells_of(seq![b, a]), frame_duration_ms };
            &&& ab.tick().markers == seq![stepped(a, bounds), stepped(b, bounds)]
            &&& ba.tick().markers == seq![stepped(b, bounds), stepped(a, bounds)]
            &&& ab.tick().lit == ba.tick().lit <==> stepped(a, bounds).position != b.position && stepped(
                b,
                bounds,
            ).position != a.position
        }),
{
    let bounds = GridBounds { rows: size, cols: size };
    let ab = EngineView { size, markers: seq![a, b], lit: cells_of(seq![a, b]), frame_duration_ms };
    let ba = EngineView { size, markers: seq![b, a], lit: cells_of(seq![b, a]), frame_duration_ms };
    let a1 = stepped(a, bounds);
    let b1 = stepped(b, bounds);
    assert(ab.tick().markers =~= seq![a1, b1]);
    assert(ba.tick().markers =~= seq![b1, a1]);
    lemma_every_marker_moves(ab, 0);
    lemma_every_marker_moves(ab, 1);
    assert(a1.position != a.position);
    assert(b1.position != b.position);
    let both = Set::<Position>::empty().insert(a.position).insert(b.position);
    assert(ab.lit =~= both) by {
        assert(seq![a, b][0] == a && seq![a, b][1] == b);
    }
    assert(ba.lit =~= both) by {
        assert(seq![b, a][0] == b && seq![b, a][1] == a);
    }
    reveal_with_fuel(repaint, 3);
    let lit_ab = both.remove(a.position).insert(a1.position).remove(b.position).insert(b1.position);
    let lit_ba = both.remove(b.position).insert(b1.position).remove(a.position).insert(a1.position);
    assert(ab.tick().lit == lit_ab);
    assert(ba.tick().lit == lit_ba);
    if a1.position != b.position && b1.position != a.position {
        assert(lit_ab =~= lit_ba);
    } else if a1.position == b.position {
        assert(lit_ba.contains(a1.position));
        assert(!lit_ab.contains(a1.position));
    } else {
        assert(lit_ab.contains(b1.position));
        assert(!lit_ba.contains(b1.position));
    }
}

} // verus!
