//! The per-tick update: every flake gains speed under gravity (up to a cap),
//! then falls straight, spills to a free diagonal (left before right), or
//! settles when straight and both diagonals are blocked, stamping the grid as
//! it goes. Flakes are processed in buffer order against the shared grid, so
//! the whole tick is the left-to-right fold of the one-flake transition.

use vstd::prelude::*;

use crate::flake::{valid_flake, views, FlakeView, Sandflake, ACCEL, MAX_FALL_SPEED};
use crate::grid::{grid_set, grid_wf, Grid};
use crate::{quantize, to_cell, CELL_SIZE, GRID_SIZE, SCALE};

verus! {

/// Largest elapsed time one tick accepts, in fixed-point units (a thousand
/// time units); it keeps the speed and fall products inside `i64`.
pub const MAX_DT: i64 = 1_000_000_000;

/// The fall speed after gaining `dt * ACCEL / SCALE` under gravity, capped at
/// `MAX_FALL_SPEED`.
pub open spec fn accel_speed(speed: int, dt: int) -> int {
    let s = speed + dt * (ACCEL as int) / (SCALE as int);
    if s > MAX_FALL_SPEED as int {
        MAX_FALL_SPEED as int
    } else {
        s
    }
}

/// How far a flake falls in one tick: `speed * dt`, in fixed-point units.
pub open spec fn fall_amount(speed: int, dt: int) -> int {
    speed * dt / (SCALE as int)
}

/// A moved flake's footprint: its old cell is cleared, then the cell of its
/// new position is stamped occupied.
pub open spec fn move_and_stamp(
    g: Seq<Seq<bool>>,
    nf: FlakeView,
    cy: int,
    cx: int,
) -> (Seq<Seq<bool>>, FlakeView) {
    let cleared = grid_set(g, cy, cx, false);
    (grid_set(cleared, quantize(nf.y), quantize(nf.x), true), nf)
}

/// One flake's tick against the grid: a flake in the topmost row is left
/// alone; otherwise it accelerates, then falls straight if the cell above its
/// row is free, else spills one cell left, else one cell right, else settles
/// in place and marks its cell occupied.
pub open spec fn step_flake(g: Seq<Seq<bool>>, f: FlakeView, dt: int) -> (Seq<Seq<bool>>, FlakeView) {
    let cx = quantize(f.x);
    let cy = quantize(f.y);
    if cy == 0 {
        (g, f)
    } else {
        let sp = accel_speed(f.speed, dt);
        let fall = fall_amount(sp, dt);
        if !g[cy - 1][cx] {
            move_and_stamp(g, FlakeView { x: f.x, y: f.y - fall, speed: sp }, cy, cx)
        } else if cx > 0 && !g[cy - 1][cx - 1] {
            move_and_stamp(g, FlakeView { x: f.x - CELL_SIZE as int, y: f.y - fall, speed: sp }, cy, cx)
        } else if cx < GRID_SIZE as int - 1 && !g[cy - 1][cx + 1] {
            move_and_stamp(g, FlakeView { x: f.x + CELL_SIZE as int, y: f.y - fall, speed: sp }, cy, cx)
        } else {
            (grid_set(g, cy, cx, true), FlakeView { x: f.x, y: f.y, speed: sp })
        }
    }
}

/// The whole tick: the one-flake transition folded over the first `n` flakes
/// in buffer order, each against the grid its predecessors left behind.
pub open spec fn step_all(
    g: Seq<Seq<bool>>,
    fs: Seq<FlakeView>,
    dt: int,
    n: int,
) -> (Seq<Seq<bool>>, Seq<FlakeView>)
    decreases n,
{
    if n <= 0 {
        (g, fs)
    } else {
        let prev = step_all(g, fs, dt, n - 1);
        let stepped = step_flake(prev.0, prev.1[n - 1], dt);
        (stepped.0, prev.1.update(n - 1, stepped.1))
    }
}

/// Stepping the first `n` flakes keeps the buffer's length and leaves the
/// flakes at and beyond `n` untouched.
pub proof fn lemma_step_all_frame(g: Seq<Seq<bool>>, fs: Seq<FlakeView>, dt: int, n: int)
    requires
        0 <= n <= fs.len(),
    ensures
        step_all(g, fs, dt, n).1.len() == fs.len(),
        forall|j: int| n <= j < fs.len() ==> step_all(g, fs, dt, n).1[j] == fs[j],
    decreases n,
{
    if n > 0 {
        lemma_step_all_frame(g, fs, dt, n - 1);
    }
}

/// Arithmetic bounds of one tick: the sped-up speed stays between the old
/// speed and the cap, and the fall distance is at most `dt` (a speed is at
/// most `1.0`, that is `SCALE` fixed-point units per time unit).
pub proof fn lemma_tick_arith(speed: int, dt: int)
    requires
        0 <= speed <= MAX_FALL_SPEED as int,
        0 <= dt <= MAX_DT as int,
    ensures
        0 <= dt * (ACCEL as int) <= 50_000_000_000_000,
        0 <= dt * (ACCEL as int) / (SCALE as int),
        speed <= accel_speed(speed, dt) <= MAX_FALL_SPEED as int,
        0 <= accel_speed(speed, dt) * dt <= 1_000_000_000_000_000,
        0 <= fall_amount(accel_speed(speed, dt), dt) <= dt,
{
    let a = ACCEL as int;
    let sc = SCALE as int;
    assert(0 <= dt * a <= 50_000_000_000_000) by (nonlinear_arith)
        requires
            0 <= dt <= 1_000_000_000,
            a == 50_000,
    ;
    vstd::arithmetic::div_mod::lemma_div_pos_is_pos(dt * a, sc);
    let sp = accel_speed(speed, dt);
    assert(0 <= sp * dt <= 1_000_000_000_000_000 && sp * dt <= sc * dt) by (nonlinear_arith)
        requires
            0 <= sp <= 1_000_000,
            0 <= dt <= 1_000_000_000,
            sc == 1_000_000,
    ;
    vstd::arithmetic::div_mod::lemma_div_pos_is_pos(sp * dt, sc);
    vstd::arithmetic::div_mod::lemma_div_is_ordered(sp * dt, sc * dt, sc);
    vstd::arithmetic::div_mod::lemma_div_multiples_vanish(dt, sc);
}

/// A flake within the engine's bounds stays within them across one tick, and
/// a well-formed grid stays well formed.
pub proof fn lemma_step_flake_valid(g: Seq<Seq<bool>>, f: FlakeView, dt: int)
    requires
        valid_flake(f),
        0 <= dt <= MAX_DT as int,
        grid_wf(g),
    ensures
        valid_flake(step_flake(g, f, dt).1),
        grid_wf(step_flake(g, f, dt).0),
{
    lemma_quantize_bounds(f.x);
    lemma_quantize_bounds(f.y);
    lemma_tick_arith(f.speed, dt);
    let r = step_flake(g, f, dt);
    crate::lemma_quantize_in_range(r.1.x);
    crate::lemma_quantize_in_range(r.1.y);
}

/// Bounds that tie a coordinate to its quantized cell: a cell right of the
/// left edge needs a coordinate at least one cell into the span, and a cell
/// left of the right edge needs a coordinate short of the last cell's start.
pub proof fn lemma_quantize_bounds(c: int)
    ensures
        0 <= quantize(c) < GRID_SIZE as int,
        quantize(c) > 0 ==> c >= -(SCALE as int) + CELL_SIZE as int,
        quantize(c) < GRID_SIZE as int - 1 && c >= -(SCALE as int) ==> c < (GRID_SIZE as int - 1)
            * (CELL_SIZE as int) - SCALE as int,
{
    if quantize(c) > 0 {
        assert(c >= -(SCALE as int));
        assert((c + SCALE as int) / (CELL_SIZE as int) >= 1);
    }
    if quantize(c) < GRID_SIZE as int - 1 && c >= -(SCALE as int) {
        assert((c + SCALE as int) / (CELL_SIZE as int) < GRID_SIZE as int - 1);
    }
}

/// Top-row skip: a flake whose quantized row is the topmost row is left out
/// of the physics entirely, whatever the elapsed time: neither the flake nor
/// the grid changes.
pub proof fn lemma_step_top_row_skip(g: Seq<Seq<bool>>, f: FlakeView, dt: int)
    requires
        quantize(f.y) == 0,
    ensures
        step_flake(g, f, dt) == (g, f),
{
}

/// Speed monotonicity and cap for one flake's tick: with a non-negative
/// elapsed time, a flake's speed never decreases and never passes
/// `MAX_FALL_SPEED`.
pub proof fn lemma_step_speed_monotone(g: Seq<Seq<bool>>, f: FlakeView, dt: int)
    requires
        0 <= dt <= MAX_DT as int,
        0 <= f.speed <= MAX_FALL_SPEED as int,
    ensures
        f.speed <= step_flake(g, f, dt).1.speed <= MAX_FALL_SPEED as int,
{
    lemma_tick_arith(f.speed, dt);
}

/// Speed monotonicity and cap over a whole tick of the buffer: every flake's
/// speed is at least what it was and at most the cap.
pub proof fn lemma_step_all_speed_monotone(g: Seq<Seq<bool>>, fs: Seq<FlakeView>, dt: int, n: int)
    requires
        0 <= n <= fs.len(),
        0 <= dt <= MAX_DT as int,
        forall|i: int| 0 <= i < fs.len() ==> 0 <= (#[trigger] fs[i]).speed <= MAX_FALL_SPEED as int,
    ensures
        step_all(g, fs, dt, n).1.len() == fs.len(),
        forall|i: int|
            0 <= i < fs.len() ==> fs[i].speed <= (#[trigger] step_all(g, fs, dt, n).1[i]).speed
                <= MAX_FALL_SPEED as int,
    decreases n,
{
    if n <= 0 {
    } else {
        lemma_step_all_speed_monotone(g, fs, dt, n - 1);
        let prev = step_all(g, fs, dt, n - 1);
        lemma_step_speed_monotone(prev.0, prev.1[n - 1], dt);
    }
}

/// How far one tick can carry a flake: sideways by exactly one cell or not at
/// all, downward by at most `dt` (one time unit of the capped speed `1.0`),
/// and never upward.
pub proof fn lemma_step_flake_delta(g: Seq<Seq<bool>>, f: FlakeView, dt: int)
    requires
        0 <= dt <= MAX_DT as int,
        0 <= f.speed <= MAX_FALL_SPEED as int,
    ensures
        ({
            let r = step_flake(g, f, dt).1;
            &&& (r.x == f.x || r.x == f.x - CELL_SIZE as int || r.x == f.x + CELL_SIZE as int)
            &&& f.y - dt <= r.y <= f.y
        }),
{
    lemma_tick_arith(f.speed, dt);
}

/// The one-tick carry bounds of `lemma_step_flake_delta`, over a whole tick
/// of the buffer: each flake is stepped exactly once.
pub proof fn lemma_step_all_delta(g: Seq<Seq<bool>>, fs: Seq<FlakeView>, dt: int, n: int)
    requires
        0 <= n <= fs.len(),
        0 <= dt <= MAX_DT as int,
        forall|i: int| 0 <= i < fs.len() ==> 0 <= (#[trigger] fs[i]).speed <= MAX_FALL_SPEED as int,
    ensures
        step_all(g, fs, dt, n).1.len() == fs.len(),
        forall|i: int|
            0 <= i < fs.len() ==> ({
                let r = #[trigger] step_all(g, fs, dt, n).1[i];
                &&& (r.x == fs[i].x || r.x == fs[i].x - CELL_SIZE as int || r.x == fs[i].x
                    + CELL_SIZE as int)
                &&& fs[i].y - dt <= r.y <= fs[i].y
            }),
    decreases n,
{
    if n <= 0 {
    } else {
        lemma_step_all_delta(g, fs, dt, n - 1);
        lemma_step_all_frame(g, fs, dt, n - 1);
        let prev = step_all(g, fs, dt, n - 1);
        lemma_step_flake_delta(prev.0, prev.1[n - 1], dt);
    }
}

/// All candidate destinations of `f` are blocked: the cell straight above its
/// row, the cell above-left (or the left edge), and the cell above-right (or
/// the right edge).
pub open spec fn flake_settled(g: Seq<Seq<bool>>, f: FlakeView) -> bool {
    let cx = quantize(f.x);
    let cy = quantize(f.y);
    &&& cy > 0
    &&& g[cy - 1][cx]
    &&& (cx == 0 || g[cy - 1][cx - 1])
    &&& (cx == GRID_SIZE as int - 1 || g[cy - 1][cx + 1])
}

/// Settle idempotence: a settled flake's position survives a tick unchanged,
/// its own cell is merely stamped occupied, and it is settled still, so every
/// later tick leaves its position unchanged too.
pub proof fn lemma_settle_idempotent(g: Seq<Seq<bool>>, f: FlakeView, dt: int)
    requires
        grid_wf(g),
        flake_settled(g, f),
    ensures
        step_flake(g, f, dt).1.x == f.x,
        step_flake(g, f, dt).1.y == f.y,
        step_flake(g, f, dt).0 == grid_set(g, quantize(f.y), quantize(f.x), true),
        flake_settled(step_flake(g, f, dt).0, step_flake(g, f, dt).1),
{
    lemma_quantize_bounds(f.x);
    lemma_quantize_bounds(f.y);
}

/// Diagonal tie-break determinism: with straight down blocked and both
/// diagonals free, a tick always spills the flake one cell to the left,
/// never to the right.
pub proof fn lemma_diagonal_tie_break(g: Seq<Seq<bool>>, f: FlakeView, dt: int)
    requires
        quantize(f.y) > 0,
        0 < quantize(f.x) < GRID_SIZE as int - 1,
        g[quantize(f.y) - 1][quantize(f.x)],
        !g[quantize(f.y) - 1][quantize(f.x) - 1],
        !g[quantize(f.y) - 1][quantize(f.x) + 1],
    ensures
        step_flake(g, f, dt).1.x == f.x - CELL_SIZE as int,
        step_flake(g, f, dt).1.y == f.y - fall_amount(accel_speed(f.speed, dt), dt),
        step_flake(g, f, dt).1.speed == accel_speed(f.speed, dt),
{
}

/// One flake's tick, run against the live grid.
fn step_one(grid: &mut Grid, f: Sandflake, dt: i64) -> (nf: Sandflake)
    requires
        old(grid).wf(),
        valid_flake(f@),
        0 <= dt <= MAX_DT,
    ensures
        final(grid).wf(),
        final(grid)@ == step_flake(old(grid)@, f@, dt as int).0,
        nf@ == step_flake(old(grid)@, f@, dt as int).1,
        valid_flake(nf@),
{
    proof {
        lemma_step_flake_valid(old(grid)@, f@, dt as int);
        lemma_quantize_bounds(f@.x);
        lemma_quantize_bounds(f@.y);
        lemma_tick_arith(f@.speed, dt as int);
    }
    let (cx, cy) = to_cell(f.x, f.y);
    if cy == 0 {
        return f;
    }
    let incr: i64 = (((dt as u64) * (ACCEL as u64)) / (SCALE as u64)) as i64;
    let sp_raw: i64 = f.speed + incr;
    let sp: i64 = if sp_raw > MAX_FALL_SPEED {
        MAX_FALL_SPEED
    } else {
        sp_raw
    };
    proof {
        assert(sp as int == accel_speed(f@.speed, dt as int));
    }
    let fall: i64 = (((sp as u64) * (dt as u64)) / (SCALE as u64)) as i64;
    proof {
        assert(fall as int == fall_amount(sp as int, dt as int));
        assert(0 <= fall <= dt);
    }
    if !grid.get(cx, cy - 1) {
        grid.set(cx, cy, false);
        let nf = Sandflake { x: f.x, y: f.y - fall, speed: sp };
        let (ncx, ncy) = to_cell(nf.x, nf.y);
        grid.set(ncx, ncy, true);
        nf
    } else if cx > 0 && !grid.get(cx - 1, cy - 1) {
        grid.set(cx, cy, false);
        let nf = Sandflake { x: f.x - CELL_SIZE, y: f.y - fall, speed: sp };
        let (ncx, ncy) = to_cell(nf.x, nf.y);
        grid.set(ncx, ncy, true);
        nf
    } else if cx < GRID_SIZE - 1 && !grid.get(cx + 1, cy - 1) {
        grid.set(cx, cy, false);
        let nf = Sandflake { x: f.x + CELL_SIZE, y: f.y - fall, speed: sp };
        let (ncx, ncy) = to_cell(nf.x, nf.y);
        grid.set(ncx, ncy, true);
        nf
    } else {
        grid.set(cx, cy, true);
        Sandflake { x: f.x, y: f.y, speed: sp }
    }
}

/// One simulation tick over the whole buffer: advances every flake in order
/// by `step_flake` against the shared grid, exactly the fold `step_all`.
pub fn update_sandflakes(grid: &mut Grid, flakes: &mut Vec<Sandflake>, dt: i64)
    requires
        old(grid).wf(),
        0 <= dt <= MAX_DT,
        forall|i: int| 0 <= i < old(flakes)@.len() ==> valid_flake(#[trigger] old(flakes)@[i]@),
    ensures
        final(grid).wf(),
        final(flakes)@.len() == old(flakes)@.len(),
        final(grid)@ == step_all(
            old(grid)@,
            views(old(flakes)@),
            dt as int,
            old(flakes)@.len() as int,
        ).0,
        views(final(flakes)@) == step_all(
            old(grid)@,
            views(old(flakes)@),
            dt as int,
            old(flakes)@.len() as int,
        ).1,
        forall|i: int| 0 <= i < final(flakes)@.len() ==> valid_flake(#[trigger] final(flakes)@[i]@),
        forall|i: int|
            0 <= i < final(flakes)@.len() ==> ({
                let nf = (#[trigger] final(flakes)@[i])@;
                let f0 = old(flakes)@[i]@;
                &&& (nf.x == f0.x || nf.x == f0.x - CELL_SIZE as int || nf.x == f0.x
                    + CELL_SIZE as int)
                &&& f0.y - dt <= nf.y <= f0.y
                &&& f0.speed <= nf.speed <= MAX_FALL_SPEED as int
            }),
{
    let ghost g0 = grid@;
    let ghost fs0 = views(flakes@);
    let n = flakes.len();
    let mut i: usize = 0;
    while i < n
        invariant
            i <= n,
            flakes@.len() == n as int,
            fs0.len() == n as int,
            0 <= dt <= MAX_DT,
            grid.wf(),
            grid@ == step_all(g0, fs0, dt as int, i as int).0,
            views(flakes@) == step_all(g0, fs0, dt as int, i as int).1,
            forall|j: int| 0 <= j < n as int ==> valid_flake(#[trigger] flakes@[j]@),
        decreases n - i,
    {
        let ghost prev = step_all(g0, fs0, dt as int, i as int);
        let f = flakes[i];
        proof {
            lemma_step_all_frame(g0, fs0, dt as int, i as int);
            assert(f@ == prev.1[i as int]);
        }
        let nf = step_one(grid, f, dt);
        flakes[i] = nf;
        proof {
            assert(grid@ == step_all(g0, fs0, dt as int, i as int + 1).0);
            assert(views(flakes@) =~= step_all(g0, fs0, dt as int, i as int + 1).1);
        }
        i = i + 1;
    }
    proof {
        lemma_step_all_delta(g0, fs0, dt as int, n as int);
        lemma_step_all_speed_monotone(g0, fs0, dt as int, n as int);
        assert forall|j: int| 0 <= j < flakes@.len() implies (#[trigger] flakes@[j])@ == step_all(
            g0,
            fs0,
            dt as int,
            n as int,
        ).1[j] && old(flakes)@[j]@ == fs0[j] by {
            assert(views(flakes@)[j] == flakes@[j]@);
            assert(views(old(flakes)@)[j] == old(flakes)@[j]@);
        }
    }
}

} // verus!
