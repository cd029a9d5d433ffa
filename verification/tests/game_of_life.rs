use gridlife::{CellState, Grid, NeighbourState, Point};

#[test]
fn test_grid_try_get() {
    let g = Grid::new_empty(0, 0);
    assert!(g.try_get(Point { x: 10, y: 10 }) == None);
}

#[test]
fn test_grid_new_random() {
    let rand_g = Grid::new_random(10, 10);
    assert_eq!(rand_g.cells.len(), 100);
}

#[test]
fn test_get_neighbours_state() {
    let mut g = Grid::new_empty(3, 3);
    g.cells[1] = CellState::Alive;
    // x 0 x
    // x x x
    // x x x
    let state = g.get_neighbours_state(Point { x: 0, y: 0 });
    assert_eq!(state.dead, 2);
    assert_eq!(state.alive, 1);
}

#[test]
fn test_get_neighbours_state_unknown_point() {
    let g = Grid::new_empty(3, 3);
    let state = g.get_neighbours_state(Point { x: 5, y: 5 });
    assert_eq!(state.dead, 0);
    assert_eq!(state.alive, 0);
}

#[test]
fn test_grid_display() {
    let mut g = Grid::new_empty(3, 3);
    g.cells[4] = CellState::Alive;
    let s = g.render();
    assert_eq!(s, "   \n 0 \n   \n".to_string());
}

#[test]
fn test_grid_debug() {
    let mut g = Grid::new_empty(3, 3);
    g.cells[4] = CellState::Alive;
    let s = format!("{:?}", g);
    assert_eq!(s, "Grid { width: 3, height: 3, cells: [Dead, Dead, Dead, Dead, Alive, Dead, Dead, Dead, Dead] }".to_string());
}

#[test]
fn test_update_state() {
    let mut g = Grid::new_random(10, 10);
    g.update_states();
}

#[test]
fn test_get_cell_state() {
    let g = Grid::new_empty(3, 3);
    // Any live cell with 0 or 1 live neighbors becomes dead, because of underpopulation
    assert_eq!(
        g.get_cell_state(&CellState::Alive, NeighbourState { alive: 1, dead: 0 }),
        CellState::Dead
    );
    // Any live cell with 2 or 3 live neighbors stays alive, because its neighborhood is just right
    assert_eq!(
        g.get_cell_state(&CellState::Alive, NeighbourState { alive: 3, dead: 0 }),
        CellState::Alive
    );
    // Any live cell with more than 3 live neighbors becomes dead, because of overpopulation
    assert_eq!(
        g.get_cell_state(&CellState::Alive, NeighbourState { alive: 5, dead: 1 }),
        CellState::Dead
    );
    // Any dead cell with exactly 3 live neighbors becomes alive, by reproduction
    assert_eq!(
        g.get_cell_state(&CellState::Dead, NeighbourState { alive: 3, dead: 0 }),
        CellState::Alive
    );
}

#[test]
fn test_transition_table_boundaries() {
    let g = Grid::new_empty(1, 1);
    let expected_alive = [
        (0, CellState::Dead),
        (1, CellState::Dead),
        (2, CellState::Alive),
        (3, CellState::Alive),
        (4, CellState::Dead),
        (8, CellState::Dead),
    ];
    for (count, next) in expected_alive {
        assert_eq!(
            g.get_cell_state(&CellState::Alive, NeighbourState { alive: count, dead: 0 }),
            next
        );
    }
    let expected_dead = [
        (0, CellState::Dead),
        (1, CellState::Dead),
        (2, CellState::Dead),
        (3, CellState::Alive),
        (4, CellState::Dead),
        (8, CellState::Dead),
    ];
    for (count, next) in expected_dead {
        assert_eq!(
            g.get_cell_state(&CellState::Dead, NeighbourState { alive: count, dead: 0 }),
            next
        );
    }
}

#[test]
fn test_neighbour_order_interior() {
    let g = Grid::new_empty(3, 3);
    let nbrs = g.get_neighbours(Point { x: 1, y: 1 });
    let expected = vec![
        Point { x: 1, y: 0 },
        Point { x: 2, y: 0 },
        Point { x: 2, y: 1 },
        Point { x: 2, y: 2 },
        Point { x: 1, y: 2 },
        Point { x: 0, y: 2 },
        Point { x: 0, y: 1 },
        Point { x: 0, y: 0 },
    ];
    assert_eq!(nbrs, expected);
}

#[test]
fn test_neighbour_order_corner() {
    let g = Grid::new_empty(3, 3);
    let nbrs = g.get_neighbours(Point { x: 0, y: 0 });
    let expected = vec![Point { x: 1, y: 0 }, Point { x: 1, y: 1 }, Point { x: 0, y: 1 }];
    assert_eq!(nbrs, expected);
}

#[test]
fn test_neighbour_tally_sums() {
    let mut g = Grid::new_random(5, 4);
    let interior = g.get_neighbours_state(Point { x: 2, y: 2 });
    assert_eq!(interior.alive + interior.dead, 8);
    let corner = g.get_neighbours_state(Point { x: 4, y: 3 });
    assert_eq!(corner.alive + corner.dead, 3);
    g.update_states();
    assert_eq!(g.cells.len(), 20);
}

#[test]
fn test_still_life_block() {
    // A 2x2 block in the corner of a 3x3 grid is a still life: every alive
    // cell has exactly 3 alive neighbours and no dead cell has exactly 3.
    let mut g = Grid::new_empty(3, 3);
    g.cells[0] = CellState::Alive;
    g.cells[1] = CellState::Alive;
    g.cells[3] = CellState::Alive;
    g.cells[4] = CellState::Alive;
    let before = g.cells.clone();
    let alive = g.update_states();
    assert_eq!(alive, 4);
    assert_eq!(g.cells, before);
    g.update_states();
    assert_eq!(g.cells, before);
}

#[test]
fn test_blinker_oscillates() {
    // A horizontal row of three alive cells flips to a vertical column and back.
    let mut g = Grid::new_empty(3, 3);
    g.cells[3] = CellState::Alive;
    g.cells[4] = CellState::Alive;
    g.cells[5] = CellState::Alive;
    let horizontal = g.cells.clone();
    let alive = g.update_states();
    assert_eq!(alive, 3);
    assert_eq!(g.render(), " 0 \n 0 \n 0 \n");
    g.update_states();
    assert_eq!(g.cells, horizontal);
}

#[test]
fn test_step_deterministic() {
    let mut a = Grid::new_empty(4, 4);
    let mut b = Grid::new_empty(4, 4);
    for i in [1usize, 2, 5, 6, 10, 11] {
        a.cells[i] = CellState::Alive;
        b.cells[i] = CellState::Alive;
    }
    for _ in 0..3 {
        let ca = a.update_states();
        let cb = b.update_states();
        assert_eq!(ca, cb);
        assert_eq!(a.cells, b.cells);
    }
}

#[test]
fn test_lone_corner_cell_dies() {
    // All dead but (0, 0): its three in-bounds neighbours are all dead, the
    // cell itself is never counted, and one step kills the whole grid.
    let mut g = Grid::new_empty(3, 3);
    g.cells[0] = CellState::Alive;
    let state = g.get_neighbours_state(Point { x: 0, y: 0 });
    assert_eq!(state.alive, 0);
    assert_eq!(state.dead, 3);
    let alive = g.update_states();
    assert_eq!(alive, 0);
    assert!(g.cells.iter().all(|c| *c == CellState::Dead));
}

#[test]
fn test_render_shape() {
    let g = Grid::new_random(5, 3);
    let s = g.render();
    assert_eq!(s.lines().count(), 3);
    assert_eq!(s.chars().filter(|c| *c == '\n').count(), 3);
    for line in s.lines() {
        assert_eq!(line.chars().count(), 5);
        assert!(line.chars().all(|c| c == '0' || c == ' '));
    }
}

#[test]
fn test_zero_sized_grid() {
    let mut g = Grid::new_empty(0, 5);
    assert_eq!(g.cells.len(), 0);
    assert_eq!(g.update_states(), 0);
    // Five rows of zero cells: each row is still closed by its line break.
    assert_eq!(g.render(), "\n\n\n\n\n");
    assert!(!g.contains(&Point { x: 0, y: 0 }));
    let mut h = Grid::new_empty(5, 0);
    assert_eq!(h.cells.len(), 0);
    assert_eq!(h.update_states(), 0);
    assert_eq!(h.render(), "");
}

#[test]
fn test_default_grid() {
    let g: Grid<CellState> = Default::default();
    assert_eq!(g.width, 10);
    assert_eq!(g.height, 10);
    assert_eq!(g.cells.len(), 100);
    assert!(g.cells.iter().all(|c| *c == CellState::Dead));
}

#[test]
fn test_try_get_in_bounds() {
    let mut g = Grid::new_empty(3, 2);
    g.cells[5] = CellState::Alive;
    assert_eq!(g.try_get(Point { x: 2, y: 1 }), Some(&CellState::Alive));
    assert_eq!(g.try_get(Point { x: 0, y: 0 }), Some(&CellState::Dead));
    assert_eq!(g.try_get(Point { x: 3, y: 0 }), None);
    assert_eq!(g.try_get(Point { x: 0, y: -1 }), None);
}

#[test]
fn test_point_plus() {
    let p = Point::new(2, -3).plus(&Point::new(-1, 4));
    assert_eq!(p, Point { x: 1, y: 1 });
}

#[test]
fn test_glyphs() {
    assert_eq!(CellState::Alive.glyph(), '0');
    assert_eq!(CellState::Dead.glyph(), ' ');
}
