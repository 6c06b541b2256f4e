//! The board: a grid of cells in memory, and a generation at a time.

use vstd::prelude::*;
use crate::cell::{census, classify, total, CellState, HEALTHY};
use crate::encode::{encode_gray_png, gray_png, rendered};
use crate::entropy::{next_byte, thread_rng};
use crate::error::BoardError;
use crate::grid::{lemma_offset_bound, lemma_offset_inverse, lemma_ring, Grid};
use crate::rule::BoardParameter;

verus! {

/// A torus of cells, each a byte.
pub struct Board {
    width: u32,
    height: u32,
    buff: Vec<u8>,
}

impl View for Board {
    type V = Grid;

    closed spec fn view(&self) -> Grid {
        Grid { width: self.width as nat, height: self.height as nat, cells: self.buff@ }
    }
}

impl Board {
    #[verifier::type_invariant]
    spec fn cells_fit(self) -> bool {
        self.buff@.len() == self.width * self.height
    }

    /// The board holds one byte for each of its cells, as every board does.
    pub open spec fn wf(&self) -> bool {
        self@.wf()
    }

    /// A board of `width` by `height` cells, all healthy.
    pub fn new(width: u32, height: u32) -> (board: Board)
        requires
            width * height <= usize::MAX,
        ensures
            board.wf(),
            board@ == Grid::blank(width as nat, height as nat),
    {
        let size: usize = width as usize * height as usize;
        let board = Board { width, height, buff: vec![HEALTHY; size] };
        assert(board@.cells =~= Grid::blank(width as nat, height as nat).cells);
        board
    }

    /// The number of columns.
    pub fn width(&self) -> (width: u32)
        ensures
            width == self@.width,
            self.wf(),
    {
        proof {
            use_type_invariant(self);
        }
        self.width
    }

    /// The number of rows.
    pub fn height(&self) -> (height: u32)
        ensures
            height == self@.height,
            self.wf(),
    {
        proof {
            use_type_invariant(self);
        }
        self.height
    }

    /// The byte of the cell at column `x` of row `y`.
    pub fn value(&self, x: u32, y: u32) -> (value: u8)
        requires
            self@.contains(x as int, y as int),
        ensures
            value == self@.value(x as int, y as int),
    {
        proof {
            use_type_invariant(self);
            lemma_offset_bound(self@, x as int, y as int);
            assert(self.buff@.len() == self.buff.len());
        }
        self.buff[y as usize * self.width as usize + x as usize]
    }

    /// Sets the cell at column `x` of row `y` to `value` and leaves the
    /// others as they are.
    pub fn set_value(&mut self, x: u32, y: u32, value: u8)
        requires
            old(self)@.contains(x as int, y as int),
        ensures
            final(self).wf(),
            final(self)@ == old(self)@.with_value(x as int, y as int, value),
    {
        proof {
            use_type_invariant(&*self);
            lemma_offset_bound(self@, x as int, y as int);
            assert(self.buff@.len() == self.buff.len());
        }
        let at: usize = y as usize * self.width as usize + x as usize;
        self.buff[at] = value;
    }

    /// The byte of the cell at column `x` of row `y`, or
    /// [`BoardError::OutOfBounds`] where the board has no such cell.
    pub fn checked_value(&self, x: u32, y: u32) -> (value: Result<u8, BoardError>)
        ensures
            value == if self@.contains(x as int, y as int) {
                Ok::<u8, BoardError>(self@.value(x as int, y as int))
            } else {
                Err::<u8, BoardError>(BoardError::OutOfBounds)
            },
    {
        if x < self.width && y < self.height {
            Ok(self.value(x, y))
        } else {
            Err(BoardError::OutOfBounds)
        }
    }

    /// Sets the cell at column `x` of row `y` to `value`; where the board has
    /// no such cell it stays as it is and the answer is
    /// [`BoardError::OutOfBounds`].
    pub fn checked_set_value(&mut self, x: u32, y: u32, value: u8) -> (done: Result<(), BoardError>)
        ensures
            final(self).wf(),
            old(self)@.contains(x as int, y as int) ==> done == Ok::<(), BoardError>(())
                && final(self)@ == old(self)@.with_value(x as int, y as int, value),
            !old(self)@.contains(x as int, y as int) ==> done == Err::<(), BoardError>(
                BoardError::OutOfBounds,
            ) && final(self)@ == old(self)@,
    {
        proof {
            use_type_invariant(&*self);
        }
        if x < self.width && y < self.height {
            self.set_value(x, y, value);
            Ok(())
        } else {
            Err(BoardError::OutOfBounds)
        }
    }

    /// Overwrites the first cells of this board, in row order, with the cells
    /// of `other`, which may not be more than this board has.
    pub fn copy_buff(&mut self, other: &Board)
        requires
            other@.cells.len() <= old(self)@.cells.len(),
        ensures
            final(self).wf(),
            final(self)@.width == old(self)@.width,
            final(self)@.height == old(self)@.height,
            final(self)@.cells == other@.cells + old(self)@.cells.skip(other@.cells.len() as int),
    {
        proof {
            use_type_invariant(&*self);
        }
        let count = other.buff.len();
        let mut i: usize = 0;
        while i < count
            invariant
                i <= count,
                count == other.buff@.len(),
                self.width == old(self).width,
                self.height == old(self).height,
                self.buff@.len() == old(self).buff@.len(),
                self.buff@.len() == self.width * self.height,
                count <= self.buff@.len(),
                forall|j: int| 0 <= j < i ==> self.buff@[j] == other.buff@[j],
                forall|j: int| i <= j < self.buff@.len() ==> self.buff@[j] == old(self).buff@[j],
            decreases count - i,
        {
            self.buff[i] = other.buff[i];
            i += 1;
        }
        assert(self.buff@ =~= other.buff@ + old(self).buff@.skip(count as int));
    }

    /// The eight cells around `(x, y)`: north-west, north, north-east, west,
    /// east, south-west, south, south-east. A cell on an edge has its
    /// neighbours on the opposite edge.
    pub fn neighborhood(&self, x: u32, y: u32) -> (around: [u8; 8])
        requires
            self@.contains(x as int, y as int),
        ensures
            around@ == self@.neighborhood(x as int, y as int),
    {
        proof {
            use_type_invariant(self);
            lemma_ring(x as int, self.width as int);
            lemma_ring(y as int, self.height as int);
        }
        let west: u32 = ((x as u64 + self.width as u64 - 1) % self.width as u64) as u32;
        let east: u32 = ((x as u64 + 1) % self.width as u64) as u32;
        let north: u32 = ((y as u64 + self.height as u64 - 1) % self.height as u64) as u32;
        let south: u32 = ((y as u64 + 1) % self.height as u64) as u32;
        let around = [
            self.value(west, north),
            self.value(x, north),
            self.value(east, north),
            self.value(west, y),
            self.value(east, y),
            self.value(west, south),
            self.value(x, south),
            self.value(east, south),
        ];
        assert(around@ =~= self@.neighborhood(x as int, y as int));
        around
    }

    /// How many of the eight cells around `(x, y)` are infected: neither
    /// healthy nor ill.
    pub fn count_infected(&self, x: u32, y: u32) -> (count: u8)
        requires
            self@.contains(x as int, y as int),
        ensures
            count == self@.count_infected(x as int, y as int),
            count <= 8,
    {
        let around = self.neighborhood(x, y);
        tally(&around, CellState::Infected)
    }

    /// How many of the eight cells around `(x, y)` are ill.
    pub fn count_illed(&self, x: u32, y: u32) -> (count: u8)
        requires
            self@.contains(x as int, y as int),
        ensures
            count == self@.count_illed(x as int, y as int),
            count <= 8,
    {
        let around = self.neighborhood(x, y);
        tally(&around, CellState::Ill)
    }

    /// The byte of `(x, y)` and those of the eight cells around it, added up.
    pub fn sum(&self, x: u32, y: u32) -> (sum: u16)
        requires
            self@.contains(x as int, y as int),
        ensures
            sum == self@.sum(x as int, y as int),
            sum == self@.value(x as int, y as int) + total(self@.neighborhood(x as int, y as int)),
            sum <= 9 * 255,
    {
        let around = self.neighborhood(x, y);
        let mut sum: u16 = 0;
        let mut i: usize = 0;
        while i < 8
            invariant
                i <= 8,
                sum == total(around@.take(i as int)),
                sum <= 255 * i,
            decreases 8 - i,
        {
            proof {
                assert(around@.take(i + 1).drop_last() =~= around@.take(i as int));
            }
            sum += around[i] as u16;
            i += 1;
        }
        proof {
            assert(around@.take(8) =~= around@);
        }
        sum + self.value(x, y) as u16
    }

    /// What the rule makes of the cell `(x, y)`.
    pub fn next_value(&self, params: &BoardParameter, x: u32, y: u32) -> (next: u8)
        requires
            self@.contains(x as int, y as int),
        ensures
            next == self@.next_value(*params, x as int, y as int),
    {
        params.transition(
            self.value(x, y),
            self.count_infected(x, y),
            self.count_illed(x, y),
            self.sum(x, y),
        )
    }

    /// Replaces the board by its next generation. Every new cell is drawn
    /// from the old board alone, never from a cell that this step wrote.
    pub fn step(&mut self, params: &BoardParameter)
        ensures
            final(self).wf(),
            final(self)@ == old(self)@.step(*params),
    {
        proof {
            use_type_invariant(&*self);
            assert(self.buff@.len() == self.buff.len());
        }
        let mut next_board = Board::new(self.width, self.height);
        let mut y: u32 = 0;
        while y < self.height
            invariant
                *self == *old(self),
                self.wf(),
                next_board.wf(),
                next_board.width == self.width,
                next_board.height == self.height,
                y <= self.height,
                forall|i: int|
                    0 <= i < y * self.width ==> #[trigger] next_board.buff@[i] == self@.next_value(
                        *params,
                        i % self.width as int,
                        i / self.width as int,
                    ),
            decreases self.height - y,
        {
            let mut x: u32 = 0;
            while x < self.width
                invariant
                    *self == *old(self),
                    self.wf(),
                    next_board.wf(),
                    next_board.width == self.width,
                    next_board.height == self.height,
                    y < self.height,
                    x <= self.width,
                    forall|i: int|
                        0 <= i < y * self.width + x ==> #[trigger] next_board.buff@[i]
                            == self@.next_value(
                            *params,
                            i % self.width as int,
                            i / self.width as int,
                        ),
                decreases self.width - x,
            {
                let next = self.next_value(params, x, y);
                proof {
                    let at = self@.offset(x as int, y as int);
                    lemma_offset_bound(self@, x as int, y as int);
                    lemma_offset_inverse(self@, at);
                }
                next_board.set_value(x, y, next);
                x += 1;
            }
            proof {
                assert((y + 1) * self.width == y * self.width + self.width) by (nonlinear_arith);
            }
            y += 1;
        }
        proof {
            assert(self.height * self.width == self.width * self.height) by (nonlinear_arith);
        }
        self.copy_buff(&next_board);
        proof {
            assert(self@.cells =~= old(self)@.step(*params).cells);
        }
    }

    /// Overwrites every cell with the byte of `bytes` at its place, row by
    /// row: the cell `(x, y)` takes `bytes[y * width + x]`.
    pub fn fill(&mut self, bytes: &Vec<u8>)
        requires
            bytes@.len() == old(self)@.cells.len(),
        ensures
            final(self).wf(),
            final(self)@.width == old(self)@.width,
            final(self)@.height == old(self)@.height,
            final(self)@.cells == bytes@,
    {
        proof {
            use_type_invariant(&*self);
        }
        let count = bytes.len();
        let mut i: usize = 0;
        while i < count
            invariant
                i <= count,
                count == bytes@.len(),
                self.width == old(self).width,
                self.height == old(self).height,
                self.buff@.len() == count,
                self.buff@.len() == self.width * self.height,
                forall|j: int| 0 <= j < i ==> self.buff@[j] == bytes@[j],
            decreases count - i,
        {
            self.buff[i] = bytes[i];
            i += 1;
        }
        assert(self.buff@ =~= bytes@);
    }

    /// Overwrites every cell with a byte of its own, drawn at random from the
    /// generator of the current thread: one draw for each cell, handed to
    /// [`Self::fill`] in the order drawn.
    pub fn seed(&mut self)
        ensures
            final(self).wf(),
            final(self)@.width == old(self)@.width,
            final(self)@.height == old(self)@.height,
    {
        let count = self.buff.len();
        let mut rng = thread_rng();
        let mut drawn: Vec<u8> = Vec::new();
        while drawn.len() < count
            invariant
                drawn@.len() <= count,
            decreases count - drawn@.len(),
        {
            drawn.push(next_byte(&mut rng));
        }
        self.fill(&drawn);
    }

    /// The board as a greyscale raster: one byte to a pixel, row by row, the
    /// pixel `(x, y)` being the byte of the cell `(x, y)`.
    pub fn pixels(&self) -> (raster: Vec<u8>)
        ensures
            raster@ == self@.cells,
            raster@.len() == self@.width * self@.height,
            forall|x: int, y: int|
                self@.contains(x, y) ==> raster@[#[trigger] self@.offset(x, y)] == self@.value(
                    x,
                    y,
                ),
    {
        proof {
            use_type_invariant(self);
        }
        let raster = self.buff.clone();
        assert(raster@ =~= self.buff@);
        raster
    }

    /// The board as a PNG file in memory: what [`gray_png`] makes of the
    /// raster of [`Self::pixels`]. Where the encoder refuses the raster, as it
    /// does for a board without cells, the answer is
    /// [`BoardError::Encoding`].
    pub fn image(&self) -> (file: Result<Vec<u8>, BoardError>)
        ensures
            match file {
                Ok(bytes) => gray_png(self@.width as int, self@.height as int, self@.cells)
                    == Some(bytes@),
                Err(error) => error == BoardError::Encoding && gray_png(
                    self@.width as int,
                    self@.height as int,
                    self@.cells,
                ) is None,
            },
            self@.width == 0 || self@.height == 0 ==> file is Err,
    {
        proof {
            use_type_invariant(self);
        }
        let raster = self.pixels();
        rendered(encode_gray_png(self.width, self.height, &raster))
    }
}

/// How many of the eight cells of `around` are in `state`.
fn tally(around: &[u8; 8], state: CellState) -> (count: u8)
    ensures
        count == census(around@, state),
        count <= 8,
{
    let mut count: u8 = 0;
    let mut i: usize = 0;
    while i < 8
        invariant
            i <= 8,
            count == census(around@.take(i as int), state),
            count <= i,
        decreases 8 - i,
    {
        proof {
            assert(around@.take(i + 1).drop_last() =~= around@.take(i as int));
        }
        if classify(around[i]) == state {
            count += 1;
        }
        i += 1;
    }
    proof {
        assert(around@.take(8) =~= around@);
    }
    count
}

} // verus!
