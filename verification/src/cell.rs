//! The states of a single cell, and counting over a run of cells.

use vstd::prelude::*;

verus! {

/// The byte of a healthy cell.
pub const HEALTHY: u8 = 0;

/// The byte of an ill cell: the largest a cell can hold.
pub const ILL: u8 = 255;

/// The three conditions a cell can be in.
#[derive(Clone, Copy, Debug, PartialEq, Eq, Structural)]
pub enum CellState {
    /// The byte is 0.
    Healthy,
    /// The byte is one of 1 to 254 and measures how far the infection went.
    Infected,
    /// The byte is 255.
    Ill,
}

/// The condition that a byte stands for.
pub open spec fn state_of(value: u8) -> CellState {
    if value == HEALTHY {
        CellState::Healthy
    } else if value == ILL {
        CellState::Ill
    } else {
        CellState::Infected
    }
}

/// How many cells of `cells` are in `state`.
pub open spec fn census(cells: Seq<u8>, state: CellState) -> nat
    decreases cells.len(),
{
    if cells.len() == 0 {
        0
    } else {
        census(cells.drop_last(), state) + if state_of(cells.last()) == state {
            1nat
        } else {
            0nat
        }
    }
}

/// The sum of the bytes of `cells`.
pub open spec fn total(cells: Seq<u8>) -> nat
    decreases cells.len(),
{
    if cells.len() == 0 {
        0
    } else {
        total(cells.drop_last()) + cells.last() as nat
    }
}

/// The condition of a cell, computed.
pub fn classify(value: u8) -> (state: CellState)
    ensures
        state == state_of(value),
{
    if value == HEALTHY {
        CellState::Healthy
    } else if value == ILL {
        CellState::Ill
    } else {
        CellState::Infected
    }
}

/// Every cell is in exactly one of the three states.
pub proof fn lemma_census_partition(cells: Seq<u8>)
    ensures
        census(cells, CellState::Healthy) + census(cells, CellState::Infected) + census(
            cells,
            CellState::Ill,
        ) == cells.len(),
    decreases cells.len(),
{
    if cells.len() > 0 {
        lemma_census_partition(cells.drop_last());
    }
}

/// A sum of bytes is at least one for each infected cell and 255 for each
/// ill one.
pub proof fn lemma_total_floor(cells: Seq<u8>)
    ensures
        total(cells) >= census(cells, CellState::Infected) + 255 * census(cells, CellState::Ill),
    decreases cells.len(),
{
    if cells.len() > 0 {
        lemma_total_floor(cells.drop_last());
    }
}

/// A sum of bytes is at most 255 for each of them.
pub proof fn lemma_total_bound(cells: Seq<u8>)
    ensures
        total(cells) <= 255 * cells.len(),
    decreases cells.len(),
{
    if cells.len() > 0 {
        lemma_total_bound(cells.drop_last());
    }
}

} // verus!
