//! The mathematical model of a board: a torus of bytes, row by row.

use vstd::prelude::*;
use vstd::arithmetic::div_mod::lemma_fundamental_div_mod_converse;
use crate::cell::{census, total, CellState, HEALTHY};
use crate::rule::BoardParameter;

verus! {

/// The coordinate one step before `c` on a ring of `dim` places.
pub open spec fn before(c: int, dim: int) -> int {
    (c + dim - 1) % dim
}

/// The coordinate one step after `c` on a ring of `dim` places.
pub open spec fn after(c: int, dim: int) -> int {
    (c + 1) % dim
}

/// A grid of `width` by `height` cells, the cell at column `x` of row `y`
/// held at `y * width + x`.
#[verifier::ext_equal]
pub struct Grid {
    pub width: nat,
    pub height: nat,
    pub cells: Seq<u8>,
}

impl Grid {
    /// The grid of `width` by `height` cells that are all healthy.
    pub open spec fn blank(width: nat, height: nat) -> Grid {
        Grid { width, height, cells: Seq::new(width * height, |i: int| HEALTHY) }
    }

    /// There is one byte for each cell.
    pub open spec fn wf(self) -> bool {
        self.cells.len() == self.width * self.height
    }

    /// `(x, y)` names a cell of the grid.
    pub open spec fn contains(self, x: int, y: int) -> bool {
        0 <= x < self.width && 0 <= y < self.height
    }

    /// Where the cell `(x, y)` is held.
    pub open spec fn offset(self, x: int, y: int) -> int {
        y * self.width + x
    }

    /// The byte of the cell `(x, y)`.
    pub open spec fn value(self, x: int, y: int) -> u8 {
        self.cells[self.offset(x, y)]
    }

    /// The grid with the cell `(x, y)` set to `value`.
    pub open spec fn with_value(self, x: int, y: int, value: u8) -> Grid {
        Grid { cells: self.cells.update(self.offset(x, y), value), ..self }
    }

    /// The eight cells around `(x, y)`, across the edges where need be: the
    /// row above from west to east, then west and east, then the row below.
    pub open spec fn neighborhood(self, x: int, y: int) -> Seq<u8> {
        let west = before(x, self.width as int);
        let east = after(x, self.width as int);
        let north = before(y, self.height as int);
        let south = after(y, self.height as int);
        seq![
            self.value(west, north),
            self.value(x, north),
            self.value(east, north),
            self.value(west, y),
            self.value(east, y),
            self.value(west, south),
            self.value(x, south),
            self.value(east, south),
        ]
    }

    /// How many of the eight cells around `(x, y)` are infected.
    pub open spec fn count_infected(self, x: int, y: int) -> nat {
        census(self.neighborhood(x, y), CellState::Infected)
    }

    /// How many of the eight cells around `(x, y)` are ill.
    pub open spec fn count_illed(self, x: int, y: int) -> nat {
        census(self.neighborhood(x, y), CellState::Ill)
    }

    /// How many of the eight cells around `(x, y)` are healthy.
    pub open spec fn count_healthy(self, x: int, y: int) -> nat {
        census(self.neighborhood(x, y), CellState::Healthy)
    }

    /// The byte of `(x, y)` and those of the eight cells around it, added up.
    pub open spec fn sum(self, x: int, y: int) -> nat {
        self.value(x, y) as nat + total(self.neighborhood(x, y))
    }

    /// What the rule makes of the cell `(x, y)`.
    pub open spec fn next_value(self, params: BoardParameter, x: int, y: int) -> u8 {
        params.rule(
            self.value(x, y),
            self.count_infected(x, y) as int,
            self.count_illed(x, y) as int,
            self.sum(x, y) as int,
        )
    }

    /// The next generation: every cell is what the rule makes of it on this
    /// grid.
    pub open spec fn step(self, params: BoardParameter) -> Grid {
        Grid {
            cells: Seq::new(
                self.cells.len(),
                |i: int| self.next_value(params, i % self.width as int, i / self.width as int),
            ),
            ..self
        }
    }
}

/// On a ring, the place before the first is the last and the place after the
/// last is the first; elsewhere they are one less and one more.
pub proof fn lemma_ring(c: int, dim: int)
    requires
        0 <= c < dim,
    ensures
        before(c, dim) == if c == 0 {
            dim - 1
        } else {
            c - 1
        },
        after(c, dim) == if c == dim - 1 {
            0
        } else {
            c + 1
        },
        0 <= before(c, dim) < dim,
        0 <= after(c, dim) < dim,
{
    if c == 0 {
        lemma_fundamental_div_mod_converse(c + dim - 1, dim, 0, dim - 1);
    } else {
        lemma_fundamental_div_mod_converse(c + dim - 1, dim, 1, c - 1);
    }
    if c == dim - 1 {
        lemma_fundamental_div_mod_converse(c + 1, dim, 1, 0);
    } else {
        lemma_fundamental_div_mod_converse(c + 1, dim, 0, c + 1);
    }
}

/// A cell of the grid is held inside `cells`.
pub proof fn lemma_offset_bound(grid: Grid, x: int, y: int)
    requires
        grid.wf(),
        grid.contains(x, y),
    ensures
        0 <= grid.offset(x, y) < grid.cells.len(),
        y * grid.width <= grid.cells.len() - grid.width,
{
    let w = grid.width as int;
    let h = grid.height as int;
    assert(0 <= y * w && y * w + w <= h * w) by (nonlinear_arith)
        requires
            0 <= y < h,
            0 <= w,
    ;
}

/// A place inside `cells` is that of the cell at its remainder and quotient
/// by the width, and of no other.
pub proof fn lemma_offset_inverse(grid: Grid, i: int)
    requires
        grid.wf(),
        0 <= i < grid.cells.len(),
    ensures
        grid.contains(i % grid.width as int, i / grid.width as int),
        grid.offset(i % grid.width as int, i / grid.width as int) == i,
        forall|x: int, y: int|
            grid.contains(x, y) && #[trigger] grid.offset(x, y) == i ==> x == i % grid.width as int
                && y == i / grid.width as int,
{
    let w = grid.width as int;
    let h = grid.height as int;
    assert(w > 0) by (nonlinear_arith)
        requires
            0 <= i < w * h,
            0 <= w,
    ;
    vstd::arithmetic::div_mod::lemma_fundamental_div_mod(i, w);
    vstd::arithmetic::div_mod::lemma_mod_bound(i, w);
    let q = i / w;
    assert(0 <= q < h) by (nonlinear_arith)
        requires
            i == w * q + i % w,
            0 <= i % w < w,
            0 <= i < w * h,
            w > 0,
    ;
    assert(q * w == w * q) by (nonlinear_arith);
    assert forall|x: int, y: int| grid.contains(x, y) && #[trigger] grid.offset(x, y) == i implies x
        == i % w && y == i / w by {
        lemma_fundamental_div_mod_converse(i, w, y, x);
    }
}

} // verus!
