//! What holds of every grid and every generation.

use vstd::prelude::*;
use crate::cell::{
    census, lemma_census_partition, lemma_total_bound, lemma_total_floor, state_of, total,
    CellState,
};
use crate::encode::gray_png;
use crate::grid::{after, before, lemma_offset_bound, lemma_offset_inverse, lemma_ring, Grid};
use crate::rule::BoardParameter;

verus! {

/// The neighbours of a cell lie one column and one row to either side of it,
/// and a cell on an edge finds them on the opposite edge: west of the first
/// column is the last, east of the last is the first, and likewise north and
/// south. All eight are cells of the grid.
pub proof fn lemma_neighborhood_wraps(grid: Grid, x: int, y: int)
    requires
        grid.wf(),
        grid.contains(x, y),
    ensures
        ({
            let west = if x == 0 {
                grid.width - 1
            } else {
                x - 1
            };
            let east = if x == grid.width - 1 {
                0
            } else {
                x + 1
            };
            let north = if y == 0 {
                grid.height - 1
            } else {
                y - 1
            };
            let south = if y == grid.height - 1 {
                0
            } else {
                y + 1
            };
            &&& grid.contains(west, north) && grid.contains(east, south)
            &&& grid.neighborhood(x, y) == seq![
                grid.value(west, north),
                grid.value(x, north),
                grid.value(east, north),
                grid.value(west, y),
                grid.value(east, y),
                grid.value(west, south),
                grid.value(x, south),
                grid.value(east, south),
            ]
        }),
{
    lemma_ring(x, grid.width as int);
    lemma_ring(y, grid.height as int);
}

/// Of the eight cells around a cell, each is infected, ill or healthy, and
/// none is two of these.
pub proof fn lemma_neighbors_partition(grid: Grid, x: int, y: int)
    ensures
        grid.count_infected(x, y) + grid.count_illed(x, y) + grid.count_healthy(x, y) == 8,
{
    lemma_census_partition(grid.neighborhood(x, y));
}

/// The sum at a cell is its own byte and the bytes around it, and no more
/// than nine times 255.
pub proof fn lemma_sum_splits(grid: Grid, x: int, y: int)
    ensures
        grid.sum(x, y) == grid.value(x, y) + total(grid.neighborhood(x, y)),
        grid.sum(x, y) <= 9 * 255,
{
    lemma_total_bound(grid.neighborhood(x, y));
}

/// A cell that was set holds what it was set to, and every other cell holds
/// what it held.
pub proof fn lemma_set_one_cell(grid: Grid, x: int, y: int, value: u8, u: int, v: int)
    requires
        grid.wf(),
        grid.contains(x, y),
        grid.contains(u, v),
    ensures
        grid.with_value(x, y, value).wf(),
        grid.with_value(x, y, value).value(u, v) == if u == x && v == y {
            value
        } else {
            grid.value(u, v)
        },
{
    lemma_offset_bound(grid, x, y);
    lemma_offset_bound(grid, u, v);
    lemma_offset_inverse(grid, grid.offset(x, y));
}

/// After a step the grid has the size it had, and each cell holds what the
/// rule made of it on the grid before.
pub proof fn lemma_step_cell(grid: Grid, params: BoardParameter, x: int, y: int)
    requires
        grid.wf(),
        grid.contains(x, y),
    ensures
        grid.step(params).wf(),
        grid.step(params).width == grid.width,
        grid.step(params).height == grid.height,
        grid.step(params).value(x, y) == grid.next_value(params, x, y),
{
    lemma_offset_bound(grid, x, y);
    lemma_offset_inverse(grid, grid.offset(x, y));
}

/// Two grids of one size that agree cell by cell are one grid: they give the
/// same raster, and the encoder answers both alike, with the same file or
/// with a refusal.
pub proof fn lemma_rendering_repeats(a: Grid, b: Grid)
    requires
        a.wf(),
        b.wf(),
        a.width == b.width,
        a.height == b.height,
        forall|x: int, y: int| a.contains(x, y) ==> a.value(x, y) == b.value(x, y),
    ensures
        a.cells == b.cells,
        gray_png(a.width as int, a.height as int, a.cells) == gray_png(
            b.width as int,
            b.height as int,
            b.cells,
        ),
{
    assert forall|i: int| 0 <= i < a.cells.len() implies a.cells[i] == b.cells[i] by {
        lemma_offset_inverse(a, i);
        let x = i % a.width as int;
        let y = i / a.width as int;
        assert(a.value(x, y) == b.value(x, y));
    }
    assert(a.cells =~= b.cells);
}

/// A step depends on the cells and the parameters alone: grids that agree
/// cell by cell, under parameters that agree quotient by quotient, step to
/// the same grid.
pub proof fn lemma_step_repeats(a: Grid, b: Grid, p: BoardParameter, q: BoardParameter)
    requires
        a.wf(),
        b.wf(),
        a.width == b.width,
        a.height == b.height,
        forall|x: int, y: int| a.contains(x, y) ==> a.value(x, y) == b.value(x, y),
        p.k1@ == q.k1@,
        p.k2@ == q.k2@,
        p.g == q.g,
    ensures
        a.step(p) == b.step(q),
{
    lemma_rendering_repeats(a, b);
    assert(a == b);
    assert forall|i: int| 0 <= i < a.cells.len() implies a.step(p).cells[i] == b.step(q).cells[i] by {
        let x = i % a.width as int;
        let y = i / a.width as int;
        assert(a.next_value(p, x, y) == b.next_value(q, x, y));
    }
    assert(a.step(p).cells =~= b.step(q).cells);
}

/// A cell that is ill before a step is healthy after it.
pub proof fn lemma_ill_recovers(grid: Grid, params: BoardParameter, x: int, y: int)
    requires
        grid.wf(),
        grid.contains(x, y),
        grid.value(x, y) == 255,
    ensures
        grid.step(params).value(x, y) == 0,
{
    lemma_step_cell(grid, params, x, y);
}

/// An infected cell without an infected neighbour keeps its value.
pub proof fn lemma_lone_infection_rests(grid: Grid, params: BoardParameter, x: int, y: int)
    requires
        grid.wf(),
        grid.contains(x, y),
        state_of(grid.value(x, y)) == CellState::Infected,
        grid.count_infected(x, y) == 0,
    ensures
        grid.step(params).value(x, y) == grid.value(x, y),
{
    lemma_step_cell(grid, params, x, y);
}

/// An infected cell is not healthy after a step: it stays infected or falls
/// ill.
pub proof fn lemma_infection_lasts(grid: Grid, params: BoardParameter, x: int, y: int)
    requires
        grid.wf(),
        grid.contains(x, y),
        state_of(grid.value(x, y)) == CellState::Infected,
    ensures
        state_of(grid.step(params).value(x, y)) != CellState::Healthy,
{
    lemma_step_cell(grid, params, x, y);
    lemma_total_floor(grid.neighborhood(x, y));
    let infected = grid.count_infected(x, y) as int;
    let sum = grid.sum(x, y) as int;
    if infected > 0 {
        assert(sum / infected >= 1) by (nonlinear_arith)
            requires
                sum >= infected,
                infected > 0,
        ;
    }
}

/// A grid of healthy cells stays as it is, whatever the parameters.
pub proof fn lemma_healthy_grid_rests(grid: Grid, params: BoardParameter)
    requires
        grid.wf(),
        params.wf(),
        forall|i: int| 0 <= i < grid.cells.len() ==> grid.cells[i] == 0,
    ensures
        grid.step(params) == grid,
{
    assert forall|i: int| 0 <= i < grid.cells.len() implies grid.step(params).cells[i] == 0 by {
        lemma_offset_inverse(grid, i);
        let x = i % grid.width as int;
        let y = i / grid.width as int;
        let around = grid.neighborhood(x, y);
        assert forall|j: int| 0 <= j < 8 implies around[j] == 0 by {
            lemma_ring(x, grid.width as int);
            lemma_ring(y, grid.height as int);
            let west = before(x, grid.width as int);
            let east = after(x, grid.width as int);
            let north = before(y, grid.height as int);
            let south = after(y, grid.height as int);
            lemma_offset_bound(grid, west, north);
            lemma_offset_bound(grid, x, north);
            lemma_offset_bound(grid, east, north);
            lemma_offset_bound(grid, west, y);
            lemma_offset_bound(grid, east, y);
            lemma_offset_bound(grid, west, south);
            lemma_offset_bound(grid, x, south);
            lemma_offset_bound(grid, east, south);
        }
        lemma_census_of_healthy(around);
    }
    assert(grid.step(params).cells =~= grid.cells);
}

/// Among healthy cells none is counted as infected or ill.
proof fn lemma_census_of_healthy(cells: Seq<u8>)
    requires
        forall|j: int| 0 <= j < cells.len() ==> cells[j] == 0,
    ensures
        census(cells, CellState::Infected) == 0,
        census(cells, CellState::Ill) == 0,
    decreases cells.len(),
{
    if cells.len() > 0 {
        lemma_census_of_healthy(cells.drop_last());
    }
}

} // verus!
