//! The mathematical model of a board: what a board is as a plain value, and
//! what it means for one to be consistent.

use vstd::prelude::*;
use crate::field::count::count_true;
use crate::field::grid::{spec_index, spec_size};
use crate::field::tile::{Coordintes, Tile};

verus! {

/// A board as a plain value: its cells row by row, its size, the number of
/// mines it is to hold, whether the mines have been placed, and the seed they
/// were placed with.
pub struct FieldView {
    pub tiles: Seq<Tile>,
    pub limit: Coordintes,
    pub num_mines: u16,
    pub has_init: bool,
    pub seed: u64,
}

/// For each cell, whether it is a mine.
pub open spec fn mine_marks(tiles: Seq<Tile>) -> Seq<bool> {
    Seq::new(tiles.len(), |i: int| tiles[i].is_mine)
}

/// For each cell, whether it carries a flag.
pub open spec fn flag_marks(tiles: Seq<Tile>) -> Seq<bool> {
    Seq::new(tiles.len(), |i: int| tiles[i].flag)
}

/// The number of mines among `tiles`.
pub open spec fn mine_total(tiles: Seq<Tile>) -> nat {
    count_true(mine_marks(tiles))
}

/// The number of flagged cells among `tiles`.
pub open spec fn flag_total(tiles: Seq<Tile>) -> nat {
    count_true(flag_marks(tiles))
}

/// One if column `x`, row `y` is on the board and holds a mine, else zero.
pub open spec fn mine_at(tiles: Seq<Tile>, limit: Coordintes, x: int, y: int) -> int {
    if 0 <= x < limit.x && 0 <= y < limit.y && tiles[x + y * limit.x].is_mine {
        1
    } else {
        0
    }
}

/// The number of mines on the up to eight cells around `c`.
pub open spec fn adjacent_mines(tiles: Seq<Tile>, limit: Coordintes, c: Coordintes) -> int {
    mine_at(tiles, limit, c.x - 1, c.y - 1)
        + mine_at(tiles, limit, c.x - 1, c.y + 0)
        + mine_at(tiles, limit, c.x - 1, c.y + 1)
        + mine_at(tiles, limit, c.x + 1, c.y - 1)
        + mine_at(tiles, limit, c.x + 1, c.y + 0)
        + mine_at(tiles, limit, c.x + 1, c.y + 1)
        + mine_at(tiles, limit, c.x + 0, c.y - 1)
        + mine_at(tiles, limit, c.x + 0, c.y + 1)
}

/// Every cell that is not a mine shows the number of mines around it.
pub open spec fn adjacency_correct(tiles: Seq<Tile>, limit: Coordintes) -> bool {
    forall|c: Coordintes|
        c.is_inside(&limit) && !tiles[#[trigger] spec_index(c, limit)].is_mine ==> tiles[spec_index(
            c,
            limit,
        )].value == adjacent_mines(tiles, limit, c)
}

/// Around every disclosed cell that shows zero, all cells are disclosed too:
/// disclosure has always run on from such cells.
pub open spec fn flood_closed(tiles: Seq<Tile>, limit: Coordintes) -> bool {
    forall|c: Coordintes, n: Coordintes|
        c.is_inside(&limit) && n.is_inside(&limit) && c.touches(n) && tiles[#[trigger] spec_index(
            c,
            limit,
        )].revealed && tiles[spec_index(c, limit)].value == 0 ==> tiles[#[trigger] spec_index(
            n,
            limit,
        )].revealed
}

/// The cells fit the size, each is valid by itself, and the counts they show
/// agree with the mines around them.
pub open spec fn grid_consistent(tiles: Seq<Tile>, limit: Coordintes) -> bool {
    &&& tiles.len() == spec_size(limit)
    &&& forall|i: int| 0 <= i < tiles.len() ==> (#[trigger] tiles[i]).valid()
    &&& adjacency_correct(tiles, limit)
}

/// Column `x`, row `y` of a board has a place in its storage.
pub proof fn lemma_cell_in_range(limit: Coordintes, x: int, y: int)
    requires
        0 <= x < limit.x,
        0 <= y < limit.y,
    ensures
        0 <= x + y * limit.x < spec_size(limit),
{
    let (w, h) = (limit.x as int, limit.y as int);
    assert(0 <= y * w && x + y * w < w * h) by (nonlinear_arith)
        requires
            0 <= x < w,
            0 <= y < h,
    ;
}

/// On a board without mines no mine lies around any position.
pub proof fn lemma_no_mines_around(tiles: Seq<Tile>, limit: Coordintes)
    requires
        tiles.len() == spec_size(limit),
        forall|i: int| 0 <= i < tiles.len() ==> !(#[trigger] tiles[i]).is_mine,
    ensures
        forall|c: Coordintes| #[trigger] adjacent_mines(tiles, limit, c) == 0,
{
    assert forall|x: int, y: int| #[trigger] mine_at(tiles, limit, x, y) == 0 by {
        if 0 <= x < limit.x && 0 <= y < limit.y {
            lemma_cell_in_range(limit, x, y);
        }
    }
}

/// Setting or clearing the player's markers leaves a consistent board
/// consistent, as long as no cell ends up with both markers.
pub proof fn lemma_markers_keep_wf(before: FieldView, after: FieldView)
    requires
        before.wf(),
        after.tiles.len() == before.tiles.len(),
        forall|i: int|
            0 <= i < before.tiles.len() ==> #[trigger] after.tiles[i] == (Tile {
                flag: after.tiles[i].flag,
                unknown: after.tiles[i].unknown,
                ..before.tiles[i]
            }) && after.tiles[i].valid(),
        after == (FieldView { tiles: after.tiles, ..before }),
    ensures
        after.wf(),
{
    assert(mine_marks(after.tiles) =~= mine_marks(before.tiles));
    assert forall|x: int, y: int| #[trigger]
        mine_at(after.tiles, after.limit, x, y) == mine_at(before.tiles, before.limit, x, y) by {
        if 0 <= x < after.limit.x && 0 <= y < after.limit.y {
            lemma_cell_in_range(after.limit, x, y);
        }
    }
    assert forall|c: Coordintes| c.is_inside(&after.limit) implies 0 <= #[trigger] spec_index(
        c,
        after.limit,
    ) < after.tiles.len() by {
        crate::field::grid::lemma_index_in_range(c, after.limit);
    }
    assert forall|c: Coordintes|
        c.is_inside(&after.limit) && !after.tiles[#[trigger] spec_index(
            c,
            after.limit,
        )].is_mine implies after.tiles[spec_index(c, after.limit)].value == adjacent_mines(
        after.tiles,
        after.limit,
        c,
    ) by {
        assert(adjacent_mines(after.tiles, after.limit, c) == adjacent_mines(
            before.tiles,
            before.limit,
            c,
        ));
    }
}

/// On a consistent grid without mines every cell shows zero.
pub proof fn lemma_mine_free_is_clear(tiles: Seq<Tile>, limit: Coordintes)
    requires
        grid_consistent(tiles, limit),
        mine_total(tiles) == 0,
    ensures
        forall|i: int|
            0 <= i < tiles.len() ==> !(#[trigger] tiles[i]).is_mine && tiles[i].value == 0,
{
    crate::field::count::lemma_count_zero(mine_marks(tiles));
    assert forall|i: int| 0 <= i < tiles.len() implies !(#[trigger] tiles[i]).is_mine by {
        assert(!mine_marks(tiles)[i]);
    }
    lemma_no_mines_around(tiles, limit);
    assert forall|i: int| 0 <= i < tiles.len() implies (#[trigger] tiles[i]).value == 0 by {
        crate::field::grid::lemma_coords_then_index(i, limit);
        let c = crate::field::grid::spec_coords(i, limit);
        assert(tiles[spec_index(c, limit)].value == adjacent_mines(tiles, limit, c));
    }
}

impl FieldView {
    /// The consistency of a board: the cells fit the size and are valid, the
    /// number of mines asked for fits the board, no mine lies on a board
    /// before placement and exactly the number asked for after it, every cell
    /// that is not a mine shows the number of mines around it, and disclosure
    /// has run on from every disclosed cell that shows zero.
    pub open spec fn wf(self) -> bool {
        &&& grid_consistent(self.tiles, self.limit)
        &&& self.num_mines <= self.tiles.len()
        &&& mine_total(self.tiles) == if self.has_init {
            self.num_mines as nat
        } else {
            0
        }
        &&& flood_closed(self.tiles, self.limit)
    }

    /// The cell at position `c`.
    pub open spec fn tile(self, c: Coordintes) -> Tile {
        self.tiles[spec_index(c, self.limit)]
    }

    /// What placement makes of the board `before` when the player starts at
    /// `start`: this board has the same size and the same markers and
    /// disclosed cells, it is placed with the given seed, it holds exactly
    /// the number of mines asked for, every cell that is not a mine shows the
    /// number of mines around it, and the start is free of a mine unless the
    /// whole board had to be filled.
    pub open spec fn placed_from(self, before: FieldView, start: Coordintes, seed: u64) -> bool {
        &&& self.limit == before.limit
        &&& self.num_mines == before.num_mines
        &&& self.has_init
        &&& self.seed == seed
        &&& self.tiles.len() == before.tiles.len()
        &&& forall|i: int|
            0 <= i < self.tiles.len() ==> (#[trigger] self.tiles[i]).flag == before.tiles[i].flag
                && self.tiles[i].unknown == before.tiles[i].unknown && self.tiles[i].revealed
                == before.tiles[i].revealed
        &&& mine_total(self.tiles) == self.num_mines
        &&& adjacency_correct(self.tiles, self.limit)
        &&& if self.num_mines == self.tiles.len() {
            forall|i: int| 0 <= i < self.tiles.len() ==> (#[trigger] self.tiles[i]).is_mine
        } else {
            !self.tile(start).is_mine
        }
    }

    /// This board with the cell at position `c` replaced by `t`.
    pub open spec fn with_tile(self, c: Coordintes, t: Tile) -> FieldView {
        FieldView { tiles: self.tiles.update(spec_index(c, self.limit), t), ..self }
    }
}

} // verus!
