use sandflakes::flake::{initialize_sandflakes, Sandflake, INITIAL_SPEED, MAX_FALL_SPEED};
use sandflakes::grid::Grid;
use sandflakes::push::push_sand;
use sandflakes::step::update_sandflakes;
use sandflakes::{coord_to_index, to_cell, CELL_SIZE, GRID_SIZE, MAX_COORD, SCALE};

fn flake(x: i64, y: i64, speed: i64) -> Sandflake {
    Sandflake { x, y, speed }
}

#[test]
fn quantize_center_and_edges() {
    assert_eq!(to_cell(0, 0), (500, 500));
    assert_eq!(coord_to_index(-SCALE), 0);
    assert_eq!(coord_to_index(-SCALE + CELL_SIZE - 1), 0);
    assert_eq!(coord_to_index(-SCALE + CELL_SIZE), 1);
    assert_eq!(coord_to_index(SCALE - 1), GRID_SIZE - 1);
}

#[test]
fn quantize_clamps_outside_coordinates() {
    // Positions outside [-1, 1] still land inside [0, GRID_SIZE - 1].
    assert_eq!(to_cell(-5 * SCALE, 3 * SCALE), (0, GRID_SIZE - 1));
    assert_eq!(to_cell(2 * SCALE, -2 * SCALE), (GRID_SIZE - 1, 0));
    assert_eq!(coord_to_index(-MAX_COORD), 0);
    assert_eq!(coord_to_index(MAX_COORD), GRID_SIZE - 1);
}

#[test]
fn grid_set_and_get() {
    let mut g = Grid::new();
    assert!(!g.get(3, 7));
    g.set(3, 7, true);
    assert!(g.get(3, 7));
    assert!(!g.get(7, 3));
    g.set(3, 7, false);
    assert!(!g.get(3, 7));
}

#[test]
fn initialize_scatters_in_ranges() {
    let flakes = initialize_sandflakes(200);
    assert_eq!(flakes.len(), 200);
    for f in &flakes {
        assert!(-SCALE <= f.x && f.x < SCALE);
        assert!(-SCALE / 2 <= f.y && f.y < 5 * SCALE / 2);
        assert_eq!(f.speed, INITIAL_SPEED);
    }
}

#[test]
fn top_row_flake_is_skipped() {
    let mut g = Grid::new();
    // y = -SCALE quantizes to row 0: the flake is outside the simulated band.
    let mut flakes = vec![flake(0, -SCALE, INITIAL_SPEED)];
    update_sandflakes(&mut g, &mut flakes, 1_000_000);
    assert_eq!(flakes[0].x, 0);
    assert_eq!(flakes[0].y, -SCALE);
    assert_eq!(flakes[0].speed, INITIAL_SPEED);
    // Nothing was stamped: its own cell stays free.
    assert!(!g.get(500, 0));
}

#[test]
fn speed_is_monotone_and_capped() {
    let mut g = Grid::new();
    let mut flakes = vec![flake(0, 2 * SCALE, INITIAL_SPEED)];
    let mut last = flakes[0].speed;
    for _ in 0..30 {
        update_sandflakes(&mut g, &mut flakes, 1_000_000);
        let s = flakes[0].speed;
        assert!(s >= last);
        assert!(s <= MAX_FALL_SPEED);
        last = s;
    }
}

#[test]
fn speed_hits_cap_exactly() {
    let mut g = Grid::new();
    let mut flakes = vec![flake(0, 2 * SCALE, 990_000)];
    update_sandflakes(&mut g, &mut flakes, 1_000_000);
    // 990_000 + 0.05 * 1.0 in fixed point would pass the cap: it is clamped.
    assert_eq!(flakes[0].speed, MAX_FALL_SPEED);
}

#[test]
fn settled_flake_keeps_its_position() {
    let mut g = Grid::new();
    // The flake sits in cell (500, 250); block the row above it.
    g.set(499, 249, true);
    g.set(500, 249, true);
    g.set(501, 249, true);
    let mut flakes = vec![flake(0, -SCALE / 2, INITIAL_SPEED)];
    for _ in 0..3 {
        update_sandflakes(&mut g, &mut flakes, 1_000_000);
        assert_eq!(flakes[0].x, 0);
        assert_eq!(flakes[0].y, -SCALE / 2);
        assert!(g.get(500, 250));
    }
}

#[test]
fn blocked_straight_spills_left_not_right() {
    let mut g = Grid::new();
    // Only the cell straight above row 250 is occupied; both diagonals free.
    g.set(500, 249, true);
    let mut flakes = vec![flake(0, -SCALE / 2, INITIAL_SPEED)];
    update_sandflakes(&mut g, &mut flakes, 1_000_000);
    assert_eq!(flakes[0].x, -CELL_SIZE);
    assert_eq!(flakes[0].y, -SCALE / 2 - 60_000);
}

#[test]
fn free_fall_moves_one_tick() {
    let mut g = Grid::new();
    // One flake at world (0, -0.5) with speed 0.01; one tick of one time unit.
    let mut flakes = vec![flake(0, -SCALE / 2, INITIAL_SPEED)];
    update_sandflakes(&mut g, &mut flakes, 1_000_000);
    // Speed becomes 0.06, the flake falls 0.06 world units: 30 cells.
    assert_eq!(flakes[0].speed, 60_000);
    assert_eq!(flakes[0].x, 0);
    assert_eq!(flakes[0].y, -560_000);
    let (cx, cy) = to_cell(flakes[0].x, flakes[0].y);
    assert_eq!((cx, cy), (500, 220));
    assert!(g.get(500, 220));
    assert!(!g.get(500, 250));
}

#[test]
fn two_flakes_in_one_cell_spill_in_buffer_order() {
    let mut g = Grid::new();
    g.set(500, 249, true);
    let mut flakes = vec![flake(0, -SCALE / 2, INITIAL_SPEED), flake(0, -SCALE / 2, INITIAL_SPEED)];
    update_sandflakes(&mut g, &mut flakes, 1_000_000);
    // The first flake spills left and vacates the shared cell; the second,
    // processed against the updated grid, finds the left diagonal still free
    // (the first one's new cell is thirty rows further down) and follows.
    assert_eq!(flakes[0].x, -CELL_SIZE);
    assert_eq!(flakes[1].x, -CELL_SIZE);
    assert_eq!(flakes[0].y, -SCALE / 2 - 60_000);
    assert_eq!(flakes[1].y, -SCALE / 2 - 60_000);
    assert!(g.get(499, 220));
    assert!(!g.get(500, 250));
}

#[test]
fn push_outside_cursor_is_noop() {
    let mut g = Grid::new();
    g.set(300, 500, true);
    let mut flakes = vec![flake(0, 123_456, 42_000)];
    // Out of range on the right, below, and past either axis.
    push_sand(&mut g, &mut flakes, SCALE, 0, 1);
    push_sand(&mut g, &mut flakes, 0, SCALE, 1);
    push_sand(&mut g, &mut flakes, -SCALE - 1, 0, -1);
    push_sand(&mut g, &mut flakes, 0, -2 * SCALE, 1);
    assert!(g.get(300, 500));
    assert!(!g.get(301, 500));
    assert_eq!(flakes[0].x, 0);
    assert_eq!(flakes[0].y, 123_456);
    assert_eq!(flakes[0].speed, 42_000);
}

#[test]
fn push_moves_grain_and_flake() {
    let mut g = Grid::new();
    // One grain settled at cell (300, 500); a flake resting in row 500.
    g.set(300, 500, true);
    let fx = 300 * CELL_SIZE - SCALE; // a coordinate that quantizes to column 300
    let fy = 500 * CELL_SIZE - SCALE; // and row 500
    let mut flakes = vec![flake(fx, fy, 0)];
    // Cursor at world (0, 0): row 500, well inside the grid.
    push_sand(&mut g, &mut flakes, 0, 0, 1);
    assert!(!g.get(300, 500));
    assert!(g.get(301, 500));
    assert_eq!(flakes[0].x, fx + CELL_SIZE);
    assert_eq!(flakes[0].y, fy);
}

#[test]
fn push_left_mirrors_right() {
    let mut g = Grid::new();
    g.set(300, 500, true);
    let mut flakes: Vec<Sandflake> = Vec::new();
    push_sand(&mut g, &mut flakes, 0, 0, -1);
    assert!(!g.get(300, 500));
    assert!(g.get(299, 500));
}

#[test]
fn fully_packed_cursor_row_jams_everything() {
    let mut g = Grid::new();
    // Pack the cursor row completely against the push direction.
    for x in 0..GRID_SIZE {
        g.set(x, 500, true);
    }
    // A grain above the cursor row, and a flake resting in the row above.
    g.set(100, 499, true);
    let mut flakes = vec![flake(0, 499 * CELL_SIZE - SCALE, 0)];
    push_sand(&mut g, &mut flakes, 0, 0, 1);
    for x in 0..GRID_SIZE {
        assert!(g.get(x, 500));
    }
    assert!(g.get(100, 499));
    assert!(!g.get(101, 499));
    assert_eq!(flakes[0].x, 0);
}

#[test]
fn jam_in_middle_row_stops_propagation() {
    let mut g = Grid::new();
    // Row 500 can shift; row 499 has two adjacent grains and jams; row 498
    // would be free to shift but must stay untouched.
    g.set(300, 500, true);
    g.set(200, 499, true);
    g.set(201, 499, true);
    g.set(400, 498, true);
    let mut flakes: Vec<Sandflake> = Vec::new();
    push_sand(&mut g, &mut flakes, 0, 0, 1);
    assert!(g.get(301, 500));
    assert!(!g.get(300, 500));
    assert!(g.get(200, 499) && g.get(201, 499));
    assert!(!g.get(202, 499));
    assert!(g.get(400, 498));
    assert!(!g.get(401, 498));
}

#[test]
fn push_does_not_touch_rows_below_cursor() {
    let mut g = Grid::new();
    g.set(300, 501, true);
    let mut flakes: Vec<Sandflake> = Vec::new();
    push_sand(&mut g, &mut flakes, 0, 0, 1);
    assert!(g.get(300, 501));
    assert!(!g.get(301, 501));
}

#[test]
fn push_edge_cell_occupied_jams() {
    let mut g = Grid::new();
    // A grain sitting against the right edge leaves the row no room.
    g.set(GRID_SIZE - 1, 500, true);
    g.set(300, 500, true);
    let mut flakes: Vec<Sandflake> = Vec::new();
    push_sand(&mut g, &mut flakes, 0, 0, 1);
    assert!(g.get(GRID_SIZE - 1, 500));
    assert!(g.get(300, 500));
    assert!(!g.get(301, 500));
}
