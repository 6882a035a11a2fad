//! The mobile grains: a sandflake has a continuous fixed-point position and a
//! downward fall speed. Flakes live in a flat, caller-owned, index-stable
//! vector; the engine only mutates `x`, `y` and `speed` in place.

use vstd::prelude::*;

use crate::{MAX_COORD, SCALE};

verus! {

/// Cap on the downward fall speed, in fixed-point units per time unit
/// (the world speed `1.0`).
pub const MAX_FALL_SPEED: i64 = 1_000_000;

/// Gravity: fixed-point speed gained per time unit (the world rate `0.05`).
pub const ACCEL: i64 = 50_000;

/// Fall speed of a freshly scattered flake (the world speed `0.01`).
pub const INITIAL_SPEED: i64 = 10_000;

/// One falling grain: continuous position and scalar fall speed, all in
/// fixed-point units (`SCALE` units per world unit).
#[derive(Clone, Copy)]
pub struct Sandflake {
    pub x: i64,
    pub y: i64,
    pub speed: i64,
}

/// The mathematical value of a sandflake.
pub struct FlakeView {
    pub x: int,
    pub y: int,
    pub speed: int,
}

impl View for Sandflake {
    type V = FlakeView;

    open spec fn view(&self) -> FlakeView {
        FlakeView { x: self.x as int, y: self.y as int, speed: self.speed as int }
    }
}

/// The views of a whole particle buffer.
pub open spec fn views(fs: Seq<Sandflake>) -> Seq<FlakeView> {
    fs.map_values(|f: Sandflake| f@)
}

/// Bounds under which the engine's fixed-point arithmetic stays exact:
/// coordinates well inside `i64` and a speed between zero and the cap.
pub open spec fn valid_flake(f: FlakeView) -> bool {
    &&& -MAX_COORD <= f.x <= MAX_COORD
    &&& -MAX_COORD <= f.y <= MAX_COORD
    &&& 0 <= f.speed <= MAX_FALL_SPEED
}

/// Relies on rand::random_range on a `u64` range: the sample lies in the
/// range handed to it (it panics only on an empty range).
#[verifier::external_body]
fn random_below(bound: u64) -> (r: u64)
    requires
        1 <= bound,
    ensures
        r < bound,
{
    rand::random_range(0..bound)
}

/// Scatters `count` flakes at random: `x` uniform over the world span
/// `[-1, 1)`, `y` uniform over `[-0.5, 2.5)` (mostly above the visible
/// square), every speed at `INITIAL_SPEED`.
pub fn initialize_sandflakes(count: usize) -> (r: Vec<Sandflake>)
    ensures
        r@.len() == count as int,
        forall|i: int| 0 <= i < count as int ==> valid_flake(#[trigger] r@[i]@),
        forall|i: int|
            0 <= i < count as int ==> -SCALE as int <= (#[trigger] r@[i])@.x < SCALE as int,
        forall|i: int|
            0 <= i < count as int
                ==> -(SCALE as int) / 2 <= (#[trigger] r@[i])@.y < 5 * SCALE as int / 2,
        forall|i: int| 0 <= i < count as int ==> (#[trigger] r@[i])@.speed == INITIAL_SPEED as int,
{
    let mut flakes: Vec<Sandflake> = Vec::new();
    let mut i: usize = 0;
    while i < count
        invariant
            i <= count,
            flakes@.len() == i as int,
            forall|j: int| 0 <= j < i as int ==> valid_flake(#[trigger] flakes@[j]@),
            forall|j: int|
                0 <= j < i as int ==> -SCALE as int <= (#[trigger] flakes@[j])@.x < SCALE as int,
            forall|j: int|
                0 <= j < i as int
                    ==> -(SCALE as int) / 2 <= (#[trigger] flakes@[j])@.y < 5 * SCALE as int / 2,
            forall|j: int|
                0 <= j < i as int ==> (#[trigger] flakes@[j])@.speed == INITIAL_SPEED as int,
        decreases count - i,
    {
        let rx = random_below(2_000_000);
        let ry = random_below(3_000_000);
        flakes.push(
            Sandflake {
                x: rx as i64 - SCALE,
                y: ry as i64 - 500_000,
                speed: INITIAL_SPEED,
            },
        );
        i = i + 1;
    }
    flakes
}

} // verus!
