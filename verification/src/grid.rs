//! The occupancy grid: a square boolean matrix recording which cells hold
//! settled sand. It is an owned value handed by reference into the
//! simulation operations, viewed as a sequence of rows, each a sequence of
//! per-column flags.

use vstd::prelude::*;

use crate::GRID_SIZE;

verus! {

/// A square occupancy matrix of `GRID_SIZE x GRID_SIZE` boolean flags,
/// indexed as `[row][column]`.
pub struct Grid {
    rows: Vec<Vec<bool>>,
}

/// A grid view has `GRID_SIZE` rows of `GRID_SIZE` cells each.
pub open spec fn grid_wf(g: Seq<Seq<bool>>) -> bool {
    &&& g.len() == GRID_SIZE as int
    &&& forall|r: int| 0 <= r < GRID_SIZE as int ==> (#[trigger] g[r]).len() == GRID_SIZE as int
}

/// The grid `g` with the cell at `(row, col)` set to `v`.
pub open spec fn grid_set(g: Seq<Seq<bool>>, row: int, col: int, v: bool) -> Seq<Seq<bool>> {
    g.update(row, g[row].update(col, v))
}

impl View for Grid {
    type V = Seq<Seq<bool>>;

    closed spec fn view(&self) -> Seq<Seq<bool>> {
        self.rows@.map_values(|r: Vec<bool>| r@)
    }
}

impl Grid {
    /// Every cell of the grid matrix, as rows of columns.
    pub open spec fn wf(self) -> bool {
        grid_wf(self@)
    }

    /// A fresh grid with every cell unoccupied.
    pub fn new() -> (g: Grid)
        ensures
            g.wf(),
            forall|r: int, c: int|
                0 <= r < GRID_SIZE as int && 0 <= c < GRID_SIZE as int ==> !(#[trigger] g@[r][c]),
    {
        let mut rows: Vec<Vec<bool>> = Vec::new();
        let mut r: usize = 0;
        while r < GRID_SIZE
            invariant
                r <= GRID_SIZE,
                rows@.len() == r as int,
                forall|i: int| 0 <= i < r as int ==> (#[trigger] rows@[i])@.len() == GRID_SIZE as int,
                forall|i: int, j: int|
                    0 <= i < r as int && 0 <= j < GRID_SIZE as int ==> !(#[trigger] rows@[i]@[j]),
            decreases GRID_SIZE - r,
        {
            let mut row: Vec<bool> = Vec::new();
            let mut c: usize = 0;
            while c < GRID_SIZE
                invariant
                    c <= GRID_SIZE,
                    row@.len() == c as int,
                    forall|j: int| 0 <= j < c as int ==> !(#[trigger] row@[j]),
                decreases GRID_SIZE - c,
            {
                row.push(false);
                c = c + 1;
            }
            rows.push(row);
            r = r + 1;
        }
        Grid { rows }
    }

    /// Whether the cell at column `cx`, row `cy` is occupied.
    pub fn get(&self, cx: usize, cy: usize) -> (v: bool)
        requires
            self.wf(),
            cx < GRID_SIZE,
            cy < GRID_SIZE,
        ensures
            v == self@[cy as int][cx as int],
    {
        proof {
            assert(self@[cy as int] == self.rows@[cy as int]@);
            assert(self@[cy as int].len() == GRID_SIZE as int);
        }
        self.rows[cy][cx]
    }

    /// Sets the occupancy flag of the cell at column `cx`, row `cy`.
    pub fn set(&mut self, cx: usize, cy: usize, v: bool)
        requires
            old(self).wf(),
            cx < GRID_SIZE,
            cy < GRID_SIZE,
        ensures
            final(self).wf(),
            final(self)@ == grid_set(old(self)@, cy as int, cx as int, v),
    {
        proof {
            assert(self@[cy as int] == self.rows@[cy as int]@);
            assert(self@[cy as int].len() == GRID_SIZE as int);
        }
        let row: &mut Vec<bool> = &mut self.rows[cy];
        row[cx] = v;
        proof {
            assert(self@ =~~= grid_set(old(self)@, cy as int, cx as int, v));
        }
    }
}

} // verus!
