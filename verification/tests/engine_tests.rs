use led_roulette::engine::{Config, ConfigError, Engine, Marker};
use led_roulette::heading::Heading;
use led_roulette::step::Position;

fn marker(row: usize, col: usize, heading: Heading) -> Marker {
    Marker { position: Position { row, col }, heading }
}

fn engine(size: usize, markers: Vec<Marker>) -> Engine {
    match Engine::new(Config { size, markers, frame_duration_ms: 100 }) {
        Ok(e) => e,
        Err(e) => panic!("refused: {:?}", e),
    }
}

fn refusal(size: usize, markers: Vec<Marker>) -> Option<ConfigError> {
    Engine::new(Config { size, markers, frame_duration_ms: 100 }).err()
}

fn lit(rows: &Vec<Vec<bool>>) -> Vec<(usize, usize)> {
    let mut cells = Vec::new();
    for (r, row) in rows.iter().enumerate() {
        for (c, on) in row.iter().enumerate() {
            if *on {
                cells.push((r, c));
            }
        }
    }
    cells
}

fn cells_of(markers: &Vec<Marker>) -> Vec<(usize, usize)> {
    let mut cells: Vec<(usize, usize)> = markers.iter().map(|m| (m.position.row, m.position.col)).collect();
    cells.sort();
    cells.dedup();
    cells
}

#[test]
fn a_grid_smaller_than_two_is_refused() {
    assert_eq!(refusal(0, vec![]), Some(ConfigError::GridTooSmall));
    assert_eq!(refusal(1, vec![]), Some(ConfigError::GridTooSmall));
    assert_eq!(refusal(1, vec![marker(0, 0, Heading::East)]), Some(ConfigError::GridTooSmall));
    assert_eq!(refusal(1, vec![marker(3, 3, Heading::East)]), Some(ConfigError::GridTooSmall));
    assert_eq!(refusal(2, vec![]), None);
}

#[test]
fn a_marker_outside_the_grid_is_refused() {
    assert_eq!(refusal(5, vec![marker(5, 0, Heading::East)]), Some(ConfigError::MarkerOutOfBounds));
    assert_eq!(refusal(5, vec![marker(0, 5, Heading::East)]), Some(ConfigError::MarkerOutOfBounds));
    assert_eq!(
        refusal(5, vec![marker(0, 0, Heading::East), marker(4, 4, Heading::West), marker(9, 9, Heading::North)]),
        Some(ConfigError::MarkerOutOfBounds)
    );
    assert_eq!(refusal(5, vec![marker(4, 4, Heading::East)]), None);
}

#[test]
fn a_new_engine_shows_its_markers() {
    let e = engine(5, vec![marker(0, 0, Heading::East), marker(4, 4, Heading::West)]);
    assert_eq!(e.size(), 5);
    assert_eq!(e.frame_duration_ms(), 100);
    assert_eq!(e.markers(), &vec![marker(0, 0, Heading::East), marker(4, 4, Heading::West)]);
    let rows = e.snapshot();
    assert_eq!(rows.len(), 5);
    assert!(rows.iter().all(|row| row.len() == 5));
    assert_eq!(lit(&rows), vec![(0, 0), (4, 4)]);
}

#[test]
fn an_engine_without_markers_stays_dark() {
    let mut e = engine(3, vec![]);
    e.tick();
    assert_eq!(e.snapshot(), vec![vec![false; 3]; 3]);
    assert_eq!(e.markers().len(), 0);
}

#[test]
fn the_frame_duration_is_kept() {
    let mut e = match Engine::new(Config { size: 2, markers: vec![marker(0, 0, Heading::East)], frame_duration_ms: 250 }) {
        Ok(e) => e,
        Err(e) => panic!("refused: {:?}", e),
    };
    e.tick();
    assert_eq!(e.frame_duration_ms(), 250);
    assert_eq!(e.size(), 2);
}

#[test]
fn one_marker_goes_along_the_top_row_and_turns_down() {
    let mut e = engine(5, vec![marker(0, 0, Heading::East)]);
    e.tick();
    assert_eq!(e.markers(), &vec![marker(0, 1, Heading::East)]);
    assert_eq!(lit(&e.snapshot()), vec![(0, 1)]);
    e.tick();
    e.tick();
    e.tick();
    assert_eq!(e.markers(), &vec![marker(0, 4, Heading::East)]);
    assert_eq!(lit(&e.snapshot()), vec![(0, 4)]);
    e.tick();
    assert_eq!(e.markers(), &vec![marker(1, 4, Heading::South)]);
    assert_eq!(lit(&e.snapshot()), vec![(1, 4)]);
}

#[test]
fn one_marker_goes_round_the_edge_in_sixteen_ticks() {
    let mut e = engine(5, vec![marker(0, 0, Heading::East)]);
    let mut seen = Vec::new();
    for _ in 0..16 {
        e.tick();
        let m = e.markers()[0];
        assert!(m.position.row == 0 || m.position.row == 4 || m.position.col == 0 || m.position.col == 4);
        seen.push((m.position.row, m.position.col));
    }
    assert_eq!(e.markers(), &vec![marker(0, 0, Heading::North)]);
    seen.sort();
    seen.dedup();
    assert_eq!(seen.len(), 16);
    e.tick();
    assert_eq!(e.markers(), &vec![marker(0, 1, Heading::East)]);
}

#[test]
fn on_the_smallest_grid_a_marker_circles() {
    let mut e = engine(2, vec![marker(0, 0, Heading::East)]);
    e.tick();
    assert_eq!(e.markers(), &vec![marker(0, 1, Heading::East)]);
    e.tick();
    assert_eq!(e.markers(), &vec![marker(1, 1, Heading::South)]);
    e.tick();
    assert_eq!(e.markers(), &vec![marker(1, 0, Heading::West)]);
    e.tick();
    assert_eq!(e.markers(), &vec![marker(0, 0, Heading::North)]);
}

#[test]
fn two_markers_from_opposite_corners_are_both_shown_after_every_tick() {
    let mut e = engine(5, vec![marker(0, 0, Heading::East), marker(4, 4, Heading::West)]);
    for _ in 0..200 {
        e.tick();
        let rows = e.snapshot();
        assert_eq!(lit(&rows), cells_of(e.markers()));
        assert_eq!(lit(&rows).len(), 2);
        for m in e.markers() {
            assert!(m.position.row < 5 && m.position.col < 5);
        }
    }
}

#[test]
fn two_markers_from_opposite_corners_may_be_moved_in_either_order() {
    let a = marker(0, 0, Heading::East);
    let b = marker(4, 4, Heading::West);
    let mut first = engine(5, vec![a, b]);
    let mut second = engine(5, vec![b, a]);
    for _ in 0..200 {
        first.tick();
        second.tick();
        assert_eq!(first.snapshot(), second.snapshot());
        assert_eq!(first.markers()[0], second.markers()[1]);
        assert_eq!(first.markers()[1], second.markers()[0]);
    }
}

#[test]
fn a_marker_moves_the_same_way_whatever_the_others_do() {
    let a = marker(2, 4, Heading::East);
    let mut alone = engine(5, vec![a]);
    let mut crowded = engine(5, vec![marker(3, 4, Heading::North), a, marker(2, 3, Heading::East)]);
    for _ in 0..50 {
        alone.tick();
        crowded.tick();
        assert_eq!(alone.markers()[0], crowded.markers()[1]);
    }
}

#[test]
fn markers_on_one_cell_light_it_once() {
    let mut e = engine(5, vec![marker(2, 2, Heading::East), marker(2, 2, Heading::East)]);
    assert_eq!(lit(&e.snapshot()), vec![(2, 2)]);
    e.tick();
    assert_eq!(lit(&e.snapshot()), vec![(2, 3)]);
    assert_eq!(e.markers(), &vec![marker(2, 3, Heading::East), marker(2, 3, Heading::East)]);
}

#[test]
fn a_cell_reached_first_and_left_later_ends_dark() {
    let mut e = engine(5, vec![marker(2, 1, Heading::East), marker(2, 2, Heading::East)]);
    e.tick();
    assert_eq!(e.markers(), &vec![marker(2, 2, Heading::East), marker(2, 3, Heading::East)]);
    assert_eq!(lit(&e.snapshot()), vec![(2, 3)]);
}

#[test]
fn a_cell_left_first_and_reached_later_ends_lit() {
    let mut e = engine(5, vec![marker(2, 2, Heading::East), marker(2, 1, Heading::East)]);
    e.tick();
    assert_eq!(e.markers(), &vec![marker(2, 3, Heading::East), marker(2, 2, Heading::East)]);
    assert_eq!(lit(&e.snapshot()), vec![(2, 2), (2, 3)]);
}

#[test]
fn markers_that_swap_cells_show_a_picture_that_depends_on_the_order() {
    let a = marker(0, 0, Heading::East);
    let b = marker(0, 1, Heading::West);
    let mut first = engine(5, vec![a, b]);
    let mut second = engine(5, vec![b, a]);
    first.tick();
    second.tick();
    assert_eq!(lit(&first.snapshot()), vec![(0, 0)]);
    assert_eq!(lit(&second.snapshot()), vec![(0, 1)]);
}

#[test]
fn a_cell_overwritten_and_reached_again_ends_lit() {
    let mut e = engine(
        5,
        vec![marker(2, 1, Heading::East), marker(2, 2, Heading::East), marker(1, 2, Heading::South)],
    );
    e.tick();
    assert_eq!(lit(&e.snapshot()), vec![(2, 2), (2, 3)]);
}
