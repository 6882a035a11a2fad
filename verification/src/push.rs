//! The lateral shove: from the cursor's row upward to the top row, each row
//! that can absorb a one-cell shift is translated one cell in the push
//! direction, and the flakes resting in it are carried along; the first row
//! that cannot shift jams, and it and every row above it stay untouched.

use vstd::prelude::*;

use crate::flake::{valid_flake, views, FlakeView, Sandflake};
use crate::grid::{grid_wf, Grid};
use crate::{coord_to_index, quantize, CELL_SIZE, GRID_SIZE, MAX_COORD, SCALE};

verus! {

/// A row can shift one cell in direction `dir` (`1` right, `-1` left): the
/// edge cell it shifts toward is free, and no two adjacent occupied cells
/// would be driven into each other.
pub open spec fn row_feasible(row: Seq<bool>, dir: int) -> bool {
    &&& !row[if dir == 1 { GRID_SIZE as int - 1 } else { 0 }]
    &&& forall|x: int| 0 <= x < GRID_SIZE as int - 1 ==> !((#[trigger] row[x]) && row[x + 1])
}

/// The row translated one cell in direction `dir`; the vacated edge cell is
/// cleared.
pub open spec fn shift_row(row: Seq<bool>, dir: int) -> Seq<bool> {
    Seq::new(
        GRID_SIZE as nat,
        |x: int|
            if dir == 1 {
                if x == 0 {
                    false
                } else {
                    row[x - 1]
                }
            } else {
                if x == GRID_SIZE as int - 1 {
                    false
                } else {
                    row[x + 1]
                }
            },
    )
}

/// Row `y` moves under a push at cursor row `cy` exactly when it lies between
/// the top row and the cursor row and it, and every row below it down to the
/// cursor row, can shift: a jam anywhere below blocks it.
pub open spec fn row_is_pushed(g: Seq<Seq<bool>>, cy: int, dir: int, y: int) -> bool {
    &&& 0 <= y <= cy
    &&& forall|r: int| y <= r <= cy ==> row_feasible(#[trigger] g[r], dir)
}

/// The grid after a push at cursor row `cy`: every pushed row is shifted,
/// every other row is untouched.
pub open spec fn push_grid(g: Seq<Seq<bool>>, cy: int, dir: int) -> Seq<Seq<bool>> {
    Seq::new(
        g.len(),
        |y: int|
            if row_is_pushed(g, cy, dir, y) {
                shift_row(g[y], dir)
            } else {
                g[y]
            },
    )
}

/// One flake after a push: carried one cell sideways when its quantized row
/// is pushed, untouched otherwise; `y` and `speed` never change.
pub open spec fn push_flake(g: Seq<Seq<bool>>, cy: int, dir: int, f: FlakeView) -> FlakeView {
    if row_is_pushed(g, cy, dir, quantize(f.y)) {
        FlakeView { x: f.x + dir * CELL_SIZE as int, y: f.y, speed: f.speed }
    } else {
        f
    }
}

/// The whole buffer after a push.
pub open spec fn push_flakes(
    g: Seq<Seq<bool>>,
    cy: int,
    dir: int,
    fs: Seq<FlakeView>,
) -> Seq<FlakeView> {
    fs.map_values(|f: FlakeView| push_flake(g, cy, dir, f))
}

/// Whether a cursor coordinate quantizes into the grid at all. Unlike flake
/// quantization, the cursor is not clamped: outside coordinates make the
/// push a no-op.
pub open spec fn cursor_in_grid(c: int) -> bool {
    &&& c >= -(SCALE as int)
    &&& (c + SCALE as int) / (CELL_SIZE as int) < GRID_SIZE as int
}

/// The cell index of an in-grid cursor coordinate.
pub open spec fn cursor_cell(c: int) -> int {
    (c + SCALE as int) / (CELL_SIZE as int)
}

/// Jam propagation: when the cursor row itself cannot shift, the push moves
/// no row and no flake.
pub proof fn lemma_push_jam(g: Seq<Seq<bool>>, fs: Seq<FlakeView>, cy: int, dir: int)
    requires
        grid_wf(g),
        0 <= cy < GRID_SIZE as int,
        !row_feasible(g[cy], dir),
    ensures
        push_grid(g, cy, dir) == g,
        push_flakes(g, cy, dir, fs) == fs,
{
    assert forall|y: int| !row_is_pushed(g, cy, dir, y) by {
        if 0 <= y <= cy {
            assert(!row_feasible(g[cy], dir));
        }
    }
    assert(push_grid(g, cy, dir) =~= g);
    assert(push_flakes(g, cy, dir, fs) =~= fs);
}

/// Whether row `y` can shift one cell in the given direction.
fn row_can_move(grid: &Grid, y: usize, dir_right: bool) -> (r: bool)
    requires
        grid.wf(),
        y < GRID_SIZE,
    ensures
        r == row_feasible(grid@[y as int], if dir_right { 1int } else { -1int }),
{
    let edge: usize = if dir_right {
        GRID_SIZE - 1
    } else {
        0
    };
    let mut ok = !grid.get(edge, y);
    let mut x: usize = 0;
    while x < GRID_SIZE - 1
        invariant
            grid.wf(),
            y < GRID_SIZE,
            x <= GRID_SIZE - 1,
            edge as int == (if dir_right { GRID_SIZE as int - 1 } else { 0int }),
            ok == (!grid@[y as int][edge as int] && (forall|k: int|
                0 <= k < x as int ==> !((#[trigger] grid@[y as int][k]) && grid@[y as int][k + 1]))),
        decreases GRID_SIZE - 1 - x,
    {
        if grid.get(x, y) && grid.get(x + 1, y) {
            ok = false;
        }
        x = x + 1;
    }
    ok
}

/// Translates row `y` one cell sideways in place, clearing the vacated edge
/// cell; the cell at the far edge falls off.
fn shift_one_row(grid: &mut Grid, y: usize, dir_right: bool)
    requires
        old(grid).wf(),
        y < GRID_SIZE,
    ensures
        final(grid).wf(),
        final(grid)@ == old(grid)@.update(
            y as int,
            shift_row(old(grid)@[y as int], if dir_right { 1int } else { -1int }),
        ),
{
    let ghost row0 = old(grid)@[y as int];
    if dir_right {
        let mut x: usize = GRID_SIZE - 1;
        while x > 0
            invariant
                grid.wf(),
                grid_wf(old(grid)@),
                row0 == old(grid)@[y as int],
                y < GRID_SIZE,
                x <= GRID_SIZE - 1,
                x == GRID_SIZE - 1 ==> grid@ == old(grid)@,
                x < GRID_SIZE - 1 ==> grid@ == old(grid)@.update(
                    y as int,
                    Seq::new(
                        GRID_SIZE as nat,
                        |j: int|
                            if j < x as int {
                                row0[j]
                            } else if j == x as int {
                                false
                            } else {
                                row0[j - 1]
                            },
                    ),
                ),
            decreases x,
        {
            let v = grid.get(x - 1, y);
            grid.set(x, y, v);
            grid.set(x - 1, y, false);
            proof {
                assert(grid@ =~~= old(grid)@.update(
                    y as int,
                    Seq::new(
                        GRID_SIZE as nat,
                        |j: int|
                            if j < x as int - 1 {
                                row0[j]
                            } else if j == x as int - 1 {
                                false
                            } else {
                                row0[j - 1]
                            },
                    ),
                ));
            }
            x = x - 1;
        }
        proof {
            assert(grid@ =~~= old(grid)@.update(y as int, shift_row(row0, 1)));
        }
    } else {
        let mut x: usize = 0;
        while x < GRID_SIZE - 1
            invariant
                grid.wf(),
                grid_wf(old(grid)@),
                row0 == old(grid)@[y as int],
                y < GRID_SIZE,
                x <= GRID_SIZE - 1,
                x == 0 ==> grid@ == old(grid)@,
                x > 0 ==> grid@ == old(grid)@.update(
                    y as int,
                    Seq::new(
                        GRID_SIZE as nat,
                        |j: int|
                            if j < x as int {
                                row0[j + 1]
                            } else if j == x as int {
                                false
                            } else {
                                row0[j]
                            },
                    ),
                ),
            decreases GRID_SIZE - x,
        {
            let v = grid.get(x + 1, y);
            grid.set(x, y, v);
            grid.set(x + 1, y, false);
            proof {
                assert(grid@ =~~= old(grid)@.update(
                    y as int,
                    Seq::new(
                        GRID_SIZE as nat,
                        |j: int|
                            if j < x as int + 1 {
                                row0[j + 1]
                            } else if j == x as int + 1 {
                                false
                            } else {
                                row0[j]
                            },
                    ),
                ));
            }
            x = x + 1;
        }
        proof {
            assert(grid@ =~~= old(grid)@.update(y as int, shift_row(row0, -1)));
        }
    }
}

/// Carries every flake whose quantized row is `y` one cell sideways.
fn move_row_flakes(flakes: &mut Vec<Sandflake>, y: usize, dir_right: bool)
    requires
        forall|j: int|
            0 <= j < old(flakes)@.len() ==> -MAX_COORD <= (#[trigger] old(flakes)@[j])@.y
                <= MAX_COORD,
        forall|j: int|
            0 <= j < old(flakes)@.len() && quantize(old(flakes)@[j]@.y) == y as int
                ==> -MAX_COORD <= (#[trigger] old(flakes)@[j])@.x <= MAX_COORD,
    ensures
        final(flakes)@.len() == old(flakes)@.len(),
        forall|j: int|
            0 <= j < old(flakes)@.len() ==> (#[trigger] final(flakes)@[j])@ == (
            if quantize(old(flakes)@[j]@.y) == y as int {
                FlakeView {
                    x: old(flakes)@[j]@.x + (if dir_right { 1int } else { -1int }) * CELL_SIZE as int,
                    y: old(flakes)@[j]@.y,
                    speed: old(flakes)@[j]@.speed,
                }
            } else {
                old(flakes)@[j]@
            }),
{
    let n = flakes.len();
    let mut i: usize = 0;
    while i < n
        invariant
            i <= n,
            flakes@.len() == n as int,
            n as int == old(flakes)@.len(),
            forall|j: int|
                0 <= j < n as int ==> -MAX_COORD <= (#[trigger] old(flakes)@[j])@.y <= MAX_COORD,
            forall|j: int|
                0 <= j < n as int && quantize(old(flakes)@[j]@.y) == y as int ==> -MAX_COORD <= (
                #[trigger] old(flakes)@[j])@.x <= MAX_COORD,
            forall|j: int| i as int <= j < n as int ==> #[trigger] flakes@[j] == old(flakes)@[j],
            forall|j: int|
                0 <= j < i as int ==> (#[trigger] flakes@[j])@ == (
                if quantize(old(flakes)@[j]@.y) == y as int {
                    FlakeView {
                        x: old(flakes)@[j]@.x + (if dir_right { 1int } else { -1int })
                            * CELL_SIZE as int,
                        y: old(flakes)@[j]@.y,
                        speed: old(flakes)@[j]@.speed,
                    }
                } else {
                    old(flakes)@[j]@
                }),
        decreases n - i,
    {
        let f = flakes[i];
        let fy = coord_to_index(f.y);
        if fy == y {
            let nx = if dir_right {
                f.x + CELL_SIZE
            } else {
                f.x - CELL_SIZE
            };
            flakes[i] = Sandflake { x: nx, y: f.y, speed: f.speed };
        }
        i = i + 1;
    }
}

/// A lateral shove at the cursor: rows shift one cell in the push direction,
/// from the cursor's row upward, as far as rows remain shiftable; flakes
/// resting in a shifted row are carried with it. A cursor that quantizes
/// outside the grid makes the whole call a no-op.
pub fn push_sand(
    grid: &mut Grid,
    flakes: &mut Vec<Sandflake>,
    cursor_x: i64,
    cursor_y: i64,
    direction: i32,
)
    requires
        old(grid).wf(),
        -MAX_COORD <= cursor_x <= MAX_COORD,
        -MAX_COORD <= cursor_y <= MAX_COORD,
        forall|i: int| 0 <= i < old(flakes)@.len() ==> valid_flake(#[trigger] old(flakes)@[i]@),
    ensures
        final(grid).wf(),
        final(flakes)@.len() == old(flakes)@.len(),
        ({
            let dir: int = if direction > 0 { 1 } else { -1 };
            if cursor_in_grid(cursor_x as int) && cursor_in_grid(cursor_y as int) {
                &&& final(grid)@ == push_grid(old(grid)@, cursor_cell(cursor_y as int), dir)
                &&& views(final(flakes)@) == push_flakes(
                    old(grid)@,
                    cursor_cell(cursor_y as int),
                    dir,
                    views(old(flakes)@),
                )
            } else {
                &&& final(grid)@ == old(grid)@
                &&& final(flakes)@ == old(flakes)@
            }
        }),
        forall|i: int|
            0 <= i < final(flakes)@.len() ==> ({
                let nf = (#[trigger] final(flakes)@[i])@;
                let f0 = old(flakes)@[i]@;
                &&& (nf.x == f0.x || nf.x == f0.x - CELL_SIZE as int || nf.x == f0.x
                    + CELL_SIZE as int)
                &&& nf.y == f0.y
                &&& nf.speed == f0.speed
            }),
{
    let ghost dir: int = if direction > 0 { 1 } else { -1 };
    if cursor_x < -SCALE || cursor_y < -SCALE {
        return ;
    }
    let qx: u64 = ((cursor_x + SCALE) as u64) / (CELL_SIZE as u64);
    let qy: u64 = ((cursor_y + SCALE) as u64) / (CELL_SIZE as u64);
    if qx >= GRID_SIZE as u64 || qy >= GRID_SIZE as u64 {
        return ;
    }
    let cy: usize = qy as usize;
    proof {
        assert(cy as int == cursor_cell(cursor_y as int));
        assert(cursor_in_grid(cursor_x as int) && cursor_in_grid(cursor_y as int));
    }
    let dir_right = direction > 0;
    let ghost g0 = grid@;
    let ghost fs0 = views(flakes@);
    let n = flakes.len();
    let mut y_next: usize = cy + 1;
    let mut jammed = false;
    while y_next > 0 && !jammed
        invariant
            cy < GRID_SIZE,
            y_next <= cy + 1,
            grid.wf(),
            grid_wf(g0),
            flakes@.len() == n as int,
            fs0.len() == n as int,
            fs0 == views(old(flakes)@),
            g0 == old(grid)@,
            dir == (if dir_right { 1int } else { -1int }),
            forall|j: int| 0 <= j < n as int ==> valid_flake(#[trigger] fs0[j]),
            forall|r: int| y_next as int <= r <= cy as int ==> row_feasible(#[trigger] g0[r], dir),
            forall|r: int|
                0 <= r < GRID_SIZE as int && !(y_next as int <= r <= cy as int)
                    ==> #[trigger] grid@[r] == g0[r],
            forall|r: int|
                y_next as int <= r <= cy as int ==> #[trigger] grid@[r] == shift_row(g0[r], dir),
            forall|j: int|
                0 <= j < n as int ==> (#[trigger] flakes@[j])@ == (
                if y_next as int <= quantize(fs0[j].y) <= cy as int {
                    FlakeView { x: fs0[j].x + dir * CELL_SIZE as int, y: fs0[j].y, speed: fs0[j].speed }
                } else {
                    fs0[j]
                }),
            jammed ==> y_next >= 1 && !row_feasible(g0[y_next as int - 1], dir),
        decreases y_next as int + (if jammed { 0int } else { 1int }),
    {
        let y = y_next - 1;
        proof {
            assert(grid@[y as int] == g0[y as int]);
        }
        let can = row_can_move(grid, y, dir_right);
        if can {
            shift_one_row(grid, y, dir_right);
            move_row_flakes(flakes, y, dir_right);
            y_next = y;
        } else {
            jammed = true;
        }
    }
    proof {
        assert forall|r: int| 0 <= r < GRID_SIZE as int implies row_is_pushed(g0, cy as int, dir, r)
            == (y_next as int <= r <= cy as int) by {
            if y_next as int <= r <= cy as int {
                assert(row_is_pushed(g0, cy as int, dir, r));
            } else if 0 <= r <= cy as int {
                assert(y_next >= 1 && !row_feasible(g0[y_next as int - 1], dir));
                assert(r < y_next as int);
                assert(r <= y_next as int - 1 <= cy as int);
                assert(!row_is_pushed(g0, cy as int, dir, r));
            }
        }
        assert(grid@ =~~= push_grid(g0, cy as int, dir));
        assert forall|j: int| 0 <= j < n as int implies views(flakes@)[j] == push_flakes(
            g0,
            cy as int,
            dir,
            fs0,
        )[j] by {
            crate::lemma_quantize_in_range(fs0[j].y);
        }
        assert(views(flakes@) =~= push_flakes(g0, cy as int, dir, fs0));
    }
}

} // verus!
