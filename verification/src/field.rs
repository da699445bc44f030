//! The board and the operations on it.

pub mod count;
pub mod flood;
pub mod grid;
pub mod model;
pub mod placement;
pub mod render;
pub mod tile;

use vstd::prelude::*;
use crate::error::Error;
use crate::field::count::{count_true, lemma_count_push, lemma_count_zero};
use crate::field::grid::{coords_of, index_of, lemma_index_in_range, spec_coords, spec_index, spec_size};
use crate::field::model::{
    flag_marks, flag_total, lemma_markers_keep_wf, lemma_no_mines_around, mine_marks, FieldView,
};
use crate::field::tile::{Coordintes, Tile};

verus! {

/// A board: a grid of cells stored row by row, the number of mines it is to
/// hold, and whether those mines have been placed yet.
///
/// A board starts without mines. They are placed by `init`, once, when the
/// player has chosen a first cell, so that this cell can be kept free.
#[derive(Debug)]
pub struct Field {
    field: Vec<Tile>,
    limit: Coordintes,
    num_mines: u16,
    has_init: bool,
    seed: u64,
}

impl View for Field {
    type V = FieldView;

    closed spec fn view(&self) -> FieldView {
        FieldView {
            tiles: self.field@,
            limit: self.limit,
            num_mines: self.num_mines,
            has_init: self.has_init,
            seed: self.seed,
        }
    }
}

impl Field {
    /// Whether this board is consistent. Every board made by `new` is, and
    /// every operation keeps it so.
    pub open spec fn wf(&self) -> bool {
        self@.wf()
    }

    /// A board `x` cells wide and `y` cells high that is to hold `num_mines`
    /// mines, or as many as it has cells if that is fewer. No cell holds a
    /// mine yet, none is disclosed or marked, and every count is zero.
    pub fn new(x: u8, y: u8, num_mines: u16) -> (f: Field)
        ensures
            f.wf(),
            f@.limit == (Coordintes { x, y }),
            f@.num_mines == if num_mines > x * y {
                (x * y) as u16
            } else {
                num_mines
            },
            !f@.has_init,
            f@.seed == 0,
            f@.tiles == Seq::new((x * y) as nat, |i: int| Tile::blank()),
    {
        assert(x * y <= 255 * 255) by (nonlinear_arith)
            requires
                x <= 255,
                y <= 255,
        ;
        let size: u16 = x as u16 * y as u16;
        let mines: u16 = if num_mines > size {
            size
        } else {
            num_mines
        };
        let mut field: Vec<Tile> = Vec::new();
        let mut i: u16 = 0;
        while i < size
            invariant
                i <= size,
                field@ == Seq::new(i as nat, |k: int| Tile::blank()),
            decreases size - i,
        {
            field.push(Tile::new());
            i += 1;
        }
        let f = Field { field, limit: Coordintes { x, y }, num_mines: mines, has_init: false, seed: 0 };
        proof {
            lemma_count_zero(mine_marks(f@.tiles));
            lemma_no_mines_around(f@.tiles, f@.limit);
            assert forall|c: Coordintes| c.is_inside(&f@.limit) implies 0 <= #[trigger] spec_index(
                c,
                f@.limit,
            ) < f@.tiles.len() by {
                lemma_index_in_range(c, f@.limit);
            }
        }
        f
    }

    /// Whether the mines have been placed.
    pub fn is_initialized(&self) -> (placed: bool)
        ensures
            placed == self@.has_init,
    {
        self.has_init
    }

    /// The number of mines this board holds once they are placed.
    pub fn get_num_mines(&self) -> (n: u16)
        ensures
            n == self@.num_mines,
    {
        self.num_mines
    }

    /// The size of the board: its width as `x`, its height as `y`.
    pub fn get_limit(&self) -> (limit: Coordintes)
        ensures
            limit == self@.limit,
    {
        self.limit
    }

    /// The number of cells.
    pub fn size(&self) -> (n: usize)
        ensures
            n == self@.tiles.len(),
    {
        self.field.len()
    }

    /// The place of `coords` in the row-by-row storage, or `OutOfBounds` if
    /// `coords` is not on the board.
    pub fn get_index(&self, coords: &Coordintes) -> (r: Result<usize, Error>)
        ensures
            match r {
                Ok(index) => coords.is_inside(&self@.limit) && index == spec_index(
                    *coords,
                    self@.limit,
                ) && index < spec_size(self@.limit),
                Err(e) => !coords.is_inside(&self@.limit) && e == Error::OutOfBounds,
            },
    {
        match index_of(coords, &self.limit) {
            Some(index) => Ok(index),
            None => Err(Error::OutOfBounds),
        }
    }

    /// The position stored at place `index`, as column and row, or
    /// `OutOfBounds` if the board has no such place.
    pub fn index_to_coordintes(&self, index: usize) -> (r: Result<(u8, u8), Error>)
        requires
            self.wf(),
        ensures
            match r {
                Ok(c) => index < self@.tiles.len() && (Coordintes { x: c.0, y: c.1 }) == spec_coords(
                    index as int,
                    self@.limit,
                ),
                Err(e) => index >= self@.tiles.len() && e == Error::OutOfBounds,
            },
    {
        if index >= self.size() {
            return Err(Error::OutOfBounds);
        }
        let c = coords_of(index, &self.limit);
        Ok((c.x, c.y))
    }

    /// Whether the cell at `coords` holds a mine, or `OutOfBounds` if
    /// `coords` is not on the board.
    pub fn is_mine(&self, coords: &Coordintes) -> (r: Result<bool, Error>)
        requires
            self.wf(),
        ensures
            match r {
                Ok(mine) => coords.is_inside(&self@.limit) && mine == self@.tile(*coords).is_mine,
                Err(e) => !coords.is_inside(&self@.limit) && e == Error::OutOfBounds,
            },
    {
        match self.get_index(coords) {
            Ok(index) => Ok(self.field[index].is_mine),
            Err(e) => Err(e),
        }
    }

    /// Whether the cell at `coords` carries a flag, or `OutOfBounds` if
    /// `coords` is not on the board.
    pub fn is_flag(&self, coords: &Coordintes) -> (r: Result<bool, Error>)
        requires
            self.wf(),
        ensures
            match r {
                Ok(flag) => coords.is_inside(&self@.limit) && flag == self@.tile(*coords).flag,
                Err(e) => !coords.is_inside(&self@.limit) && e == Error::OutOfBounds,
            },
    {
        match self.get_index(coords) {
            Ok(index) => Ok(self.field[index].flag),
            Err(e) => Err(e),
        }
    }

    /// Whether the cell at `coords` carries the "unknown" marker, or
    /// `OutOfBounds` if `coords` is not on the board.
    pub fn is_unknown(&self, coords: &Coordintes) -> (r: Result<bool, Error>)
        requires
            self.wf(),
        ensures
            match r {
                Ok(unknown) => coords.is_inside(&self@.limit) && unknown == self@.tile(
                    *coords,
                ).unknown,
                Err(e) => !coords.is_inside(&self@.limit) && e == Error::OutOfBounds,
            },
    {
        match self.get_index(coords) {
            Ok(index) => Ok(self.field[index].unknown),
            Err(e) => Err(e),
        }
    }

    /// The count shown by the cell at `coords`, or `OutOfBounds` if `coords`
    /// is not on the board.
    pub fn get_value(&self, coords: Coordintes) -> (r: Result<u8, Error>)
        requires
            self.wf(),
        ensures
            match r {
                Ok(value) => coords.is_inside(&self@.limit) && value == self@.tile(coords).value,
                Err(e) => !coords.is_inside(&self@.limit) && e == Error::OutOfBounds,
            },
    {
        match self.get_index(&coords) {
            Ok(index) => Ok(self.field[index].value),
            Err(e) => Err(e),
        }
    }

    /// Sets the flag on the cell at `coords` if it has none and removes it if
    /// it has one; either way the cell loses the "unknown" marker. Nothing
    /// else changes. Fails with `OutOfBounds`, changing nothing, if `coords`
    /// is not on the board.
    pub fn flag(&mut self, coords: &Coordintes) -> (r: Result<(), Error>)
        requires
            old(self).wf(),
        ensures
            final(self).wf(),
            match r {
                Ok(_) => coords.is_inside(&old(self)@.limit) && final(self)@ == old(self)@.with_tile(
                    *coords,
                    Tile {
                        flag: !old(self)@.tile(*coords).flag,
                        unknown: false,
                        ..old(self)@.tile(*coords)
                    },
                ),
                Err(e) => !coords.is_inside(&old(self)@.limit) && e == Error::OutOfBounds
                    && final(self)@ == old(self)@,
            },
            coords.is_inside(&old(self)@.limit) ==> !final(self)@.tile(*coords).flag
                || !final(self)@.tile(*coords).unknown,
    {
        let index = match self.get_index(coords) {
            Ok(index) => index,
            Err(e) => {
                return Err(e);
            },
        };
        self.field[index].unknown = false;
        self.field[index].flag = !self.field[index].flag;
        proof {
            lemma_markers_keep_wf(old(self)@, self@);
            assert(self@.tiles =~= old(self)@.tiles.update(index as int, self@.tiles[index as int]));
        }
        Ok(())
    }

    /// Sets the "unknown" marker on the cell at `coords` if it has none and
    /// removes it if it has one; either way the cell loses its flag. Nothing
    /// else changes. Fails with `OutOfBounds`, changing nothing, if `coords`
    /// is not on the board.
    pub fn mark_unknown(&mut self, coords: &Coordintes) -> (r: Result<(), Error>)
        requires
            old(self).wf(),
        ensures
            final(self).wf(),
            match r {
                Ok(_) => coords.is_inside(&old(self)@.limit) && final(self)@ == old(self)@.with_tile(
                    *coords,
                    Tile {
                        flag: false,
                        unknown: !old(self)@.tile(*coords).unknown,
                        ..old(self)@.tile(*coords)
                    },
                ),
                Err(e) => !coords.is_inside(&old(self)@.limit) && e == Error::OutOfBounds
                    && final(self)@ == old(self)@,
            },
            coords.is_inside(&old(self)@.limit) ==> !final(self)@.tile(*coords).flag
                || !final(self)@.tile(*coords).unknown,
    {
        let index = match self.get_index(coords) {
            Ok(index) => index,
            Err(e) => {
                return Err(e);
            },
        };
        self.field[index].unknown = !self.field[index].unknown;
        self.field[index].flag = false;
        proof {
            lemma_markers_keep_wf(old(self)@, self@);
            assert(self@.tiles =~= old(self)@.tiles.update(index as int, self@.tiles[index as int]));
        }
        Ok(())
    }

    /// Whether the game is won: every cell is disclosed or flagged.
    pub fn victory(&self) -> (won: bool)
        ensures
            won <==> forall|i: int|
                0 <= i < self@.tiles.len() ==> self@.tiles[i].revealed || self@.tiles[i].flag,
    {
        let mut i: usize = 0;
        while i < self.field.len()
            invariant
                i <= self.field.len(),
                forall|k: int| 0 <= k < i ==> self.field@[k].revealed || self.field@[k].flag,
            decreases self.field.len() - i,
        {
            if !self.field[i].revealed && !self.field[i].flag {
                assert(!(self@.tiles[i as int].revealed || self@.tiles[i as int].flag));
                return false;
            }
            i += 1;
        }
        true
    }

    /// The number of flagged cells.
    pub fn num_flags(&self) -> (n: u16)
        requires
            self.wf(),
        ensures
            n == flag_total(self@.tiles),
    {
        let mut num_flags: u16 = 0;
        let mut i: usize = 0;
        proof {
            assert(self.limit.x * self.limit.y <= 255 * 255) by (nonlinear_arith)
                requires
                    self.limit.x <= 255,
                    self.limit.y <= 255,
            ;
            assert(flag_marks(self.field@).take(0) =~= Seq::empty());
        }
        while i < self.field.len()
            invariant
                i <= self.field.len() <= 255 * 255,
                num_flags == count_true(flag_marks(self.field@).take(i as int)),
                num_flags <= i,
            decreases self.field.len() - i,
        {
            proof {
                let marks = flag_marks(self.field@);
                assert(marks.take(i + 1) =~= marks.take(i as int).push(marks[i as int]));
                lemma_count_push(marks.take(i as int), marks[i as int]);
            }
            if self.field[i].flag {
                num_flags += 1;
            }
            i += 1;
        }
        proof {
            let marks = flag_marks(self.field@);
            assert(marks.take(i as int) =~= marks);
        }
        num_flags
    }

    /// A copy of all cells, row by row.
    pub fn get_field(&self) -> (tiles: Vec<Tile>)
        ensures
            tiles@ == self@.tiles,
    {
        self.field.clone()
    }
}

} // verus!
