//! Placing the mines: one mine at a time, keeping the counts of the cells
//! around it right, and the whole placement that a board runs once.

use vstd::prelude::*;
use crate::error::Error;
use crate::field::count::{lemma_count_all_but_one, lemma_count_full, lemma_count_update};
use crate::field::grid::{
    coords_of, index_of, lemma_coords_then_index, lemma_index_in_range, lemma_index_injective,
    lemma_index_then_coords, spec_coords, spec_index,
};
use crate::field::model::{
    adjacent_mines, grid_consistent, lemma_cell_in_range, lemma_mine_free_is_clear, mine_at,
    mine_marks, mine_total, FieldView,
};
use crate::field::tile::{Coordintes, Tile};
use crate::field::Field;
use crate::rng::{generator_state, seeded_generator, seeded_state};

verus! {

/// The cells after a mine has been laid at `m` and the cells around `m` of
/// the first `k` positions of `around` have been told: the cell at `m` is a
/// mine, and each of those cells that is not itself a mine counts one more.
pub open spec fn with_mine_upto(
    tiles: Seq<Tile>,
    limit: Coordintes,
    m: Coordintes,
    around: Seq<Coordintes>,
    k: int,
) -> Seq<Tile> {
    Seq::new(
        tiles.len(),
        |i: int|
            if i == spec_index(m, limit) {
                Tile { is_mine: true, ..tiles[i] }
            } else if around.take(k).contains(spec_coords(i, limit)) && !tiles[i].is_mine {
                Tile { value: (tiles[i].value + 1) as u8, ..tiles[i] }
            } else {
                tiles[i]
            },
    )
}

/// The cells after a mine has been laid at `m`: the cell at `m` is a mine,
/// and every cell around it that is not itself a mine counts one more.
/// Nothing else changes.
pub open spec fn with_mine(tiles: Seq<Tile>, limit: Coordintes, m: Coordintes) -> Seq<Tile> {
    Seq::new(
        tiles.len(),
        |i: int|
            if i == spec_index(m, limit) {
                Tile { is_mine: true, ..tiles[i] }
            } else if spec_coords(i, limit).touches(m) && !tiles[i].is_mine {
                Tile { value: (tiles[i].value + 1) as u8, ..tiles[i] }
            } else {
                tiles[i]
            },
    )
}

/// The cells after the attempt to lay a mine at `at`: as `with_mine` says if
/// `at` is on the board and holds no mine yet, and unchanged if not.
pub open spec fn after_laying(tiles: Seq<Tile>, limit: Coordintes, at: Coordintes) -> Seq<Tile> {
    if at.is_inside(&limit) && !tiles[spec_index(at, limit)].is_mine {
        with_mine(tiles, limit, at)
    } else {
        tiles
    }
}

/// The cells after drawing: as long as fewer than `wanted` mines lie and
/// fewer than `budget` positions were drawn, the generator, which starts in
/// the state `state`, gives a position, and a mine is laid there unless the
/// position is `start` or holds a mine already.
pub open spec fn after_draws(
    tiles: Seq<Tile>,
    limit: Coordintes,
    start: Coordintes,
    wanted: nat,
    state: int,
    budget: nat,
) -> Seq<Tile>
    decreases budget,
{
    if budget == 0 || mine_total(tiles) >= wanted {
        tiles
    } else {
        let (at, next) = Coordintes::spec_random(state, limit);
        after_draws(
            if at == start {
                tiles
            } else {
                after_laying(tiles, limit, at)
            },
            limit,
            start,
            wanted,
            next,
            (budget - 1) as nat,
        )
    }
}

/// The cells after filling up from place `from` on: as long as fewer than
/// `wanted` mines lie, a mine is laid at the next place in storage order
/// unless that is the place of `start` or holds a mine already.
pub open spec fn filled_up(
    tiles: Seq<Tile>,
    limit: Coordintes,
    start: Coordintes,
    wanted: nat,
    from: nat,
) -> Seq<Tile>
    decreases tiles.len() - from,
{
    if from >= tiles.len() || mine_total(tiles) >= wanted {
        tiles
    } else {
        let at = spec_coords(from as int, limit);
        filled_up(
            if at == start {
                tiles
            } else {
                after_laying(tiles, limit, at)
            },
            limit,
            start,
            wanted,
            from + 1,
        )
    }
}

/// The cells of the board `before` after placement for a player who starts
/// at `start`, with the seed `seed`. A board that is to hold as many mines as
/// it has cells has a mine on every cell. On any other board mines are laid
/// where a generator seeded with `seed` says, up to `DRAW_LIMIT` draws; what
/// is then still missing is filled up in storage order.
pub open spec fn placed_tiles(before: FieldView, start: Coordintes, seed: u64) -> Seq<Tile> {
    if before.num_mines == before.tiles.len() {
        Seq::new(before.tiles.len(), |i: int| Tile { is_mine: true, ..before.tiles[i] })
    } else {
        filled_up(
            after_draws(
                before.tiles,
                before.limit,
                start,
                before.num_mines as nat,
                seeded_state(seed),
                DRAW_LIMIT as nat,
            ),
            before.limit,
            start,
            before.num_mines as nat,
            0,
        )
    }
}

/// Laying a mine on a free cell of a consistent grid gives a consistent grid
/// with one mine more.
pub proof fn lemma_with_mine(tiles: Seq<Tile>, limit: Coordintes, m: Coordintes)
    requires
        grid_consistent(tiles, limit),
        m.is_inside(&limit),
        !tiles[spec_index(m, limit)].is_mine,
    ensures
        grid_consistent(with_mine(tiles, limit, m), limit),
        mine_total(with_mine(tiles, limit, m)) == mine_total(tiles) + 1,
{
    let after = with_mine(tiles, limit, m);
    let at = spec_index(m, limit);
    lemma_index_in_range(m, limit);
    assert(mine_marks(after) =~= mine_marks(tiles).update(at, true));
    lemma_count_update(mine_marks(tiles), at, true);
    assert forall|x: int, y: int| #[trigger]
        mine_at(after, limit, x, y) == if x == m.x && y == m.y {
            1
        } else {
            mine_at(tiles, limit, x, y)
        } by {
        if 0 <= x < limit.x && 0 <= y < limit.y {
            lemma_cell_in_range(limit, x, y);
            let c = Coordintes { x: x as u8, y: y as u8 };
            if spec_index(c, limit) == at {
                lemma_index_injective(c, m, limit);
            }
        }
    }
    assert forall|c: Coordintes|
        c.is_inside(&limit) && !after[#[trigger] spec_index(c, limit)].is_mine implies after[spec_index(
        c,
        limit,
    )].value == adjacent_mines(after, limit, c) by {
        lemma_index_in_range(c, limit);
        lemma_index_then_coords(c, limit);
        assert(adjacent_mines(after, limit, c) == adjacent_mines(tiles, limit, c) + if c.touches(
            m,
        ) {
            1int
        } else {
            0int
        });
    }
    assert forall|i: int| 0 <= i < after.len() implies (#[trigger] after[i]).valid() by {
        assert(tiles[i].valid());
        if i != at && spec_coords(i, limit).touches(m) && !tiles[i].is_mine {
            let c = spec_coords(i, limit);
            lemma_coords_then_index(i, limit);
            assert(tiles[spec_index(c, limit)].value == adjacent_mines(tiles, limit, c));
            assert(mine_at(tiles, limit, m.x as int, m.y as int) == 0);
            assert(adjacent_mines(tiles, limit, c) <= 7);
        }
    }
}

/// Lays a mine at `at` if that position is on the board and holds none yet,
/// and says whether it did. The cell becomes a mine, and every cell around it
/// that is not itself a mine counts one more; nothing else changes.
pub fn lay_mine(tiles: &mut Vec<Tile>, limit: &Coordintes, at: &Coordintes) -> (laid: bool)
    requires
        grid_consistent(old(tiles)@, *limit),
    ensures
        grid_consistent(final(tiles)@, *limit),
        laid == (at.is_inside(limit) && !old(tiles)@[spec_index(*at, *limit)].is_mine),
        final(tiles)@ == after_laying(old(tiles)@, *limit, *at),
        mine_total(final(tiles)@) == mine_total(old(tiles)@) + if laid {
            1nat
        } else {
            0nat
        },
{
    let index = match index_of(at, limit) {
        Some(index) => index,
        None => {
            return false;
        },
    };
    if tiles[index].is_mine {
        return false;
    }
    tiles[index].is_mine = true;
    let around = at.get_surrounding(limit);
    proof {
        at.lemma_surrounding(*limit);
        assert(around@.take(0) =~= Seq::empty());
        assert(tiles@ =~= with_mine_upto(old(tiles)@, *limit, *at, around@, 0));
    }
    let mut k: usize = 0;
    while k < around.len()
        invariant
            k <= around.len(),
            around@ == at.spec_surrounding(*limit),
            at.is_inside(limit),
            index == spec_index(*at, *limit),
            !old(tiles)@[index as int].is_mine,
            grid_consistent(old(tiles)@, *limit),
            tiles@ == with_mine_upto(old(tiles)@, *limit, *at, around@, k as int),
        decreases around.len() - k,
    {
        let here = around[k];
        proof {
            at.lemma_surrounding(*limit);
            assert(here == at.spec_surrounding(*limit)[k as int]);
            lemma_index_in_range(here, *limit);
            lemma_index_then_coords(here, *limit);
            assert(!around@.take(k as int).contains(here));
            if spec_index(here, *limit) == index {
                lemma_index_injective(here, *at, *limit);
            }
        }
        let place = match index_of(&here, limit) {
            Some(place) => place,
            None => {
                return false;
            },
        };
        if !tiles[place].is_mine {
            assert(old(tiles)@[place as int].valid());
            tiles[place].value = tiles[place].value + 1;
        }
        proof {
            let before = with_mine_upto(old(tiles)@, *limit, *at, around@, k as int);
            let after = with_mine_upto(old(tiles)@, *limit, *at, around@, k + 1);
            assert(around@.take(k + 1) =~= around@.take(k as int).push(here));
            assert forall|i: int| 0 <= i < tiles@.len() implies tiles@[i] == after[i] by {
                if i != place {
                    assert(tiles@[i] == before[i]);
                    if spec_coords(i, *limit) == here {
                        lemma_coords_then_index(i, *limit);
                    }
                    assert(around@.take(k + 1).contains(spec_coords(i, *limit))
                        == around@.take(k as int).contains(spec_coords(i, *limit)));
                } else {
                    assert(around@.take(k + 1)[k as int] == here);
                }
            }
            assert(tiles@ =~= after);
        }
        k += 1;
    }
    proof {
        at.lemma_surrounding(*limit);
        lemma_with_mine(old(tiles)@, *limit, *at);
        assert(around@.take(k as int) =~= around@);
        assert forall|i: int| 0 <= i < tiles@.len() implies tiles@[i] == with_mine(
            old(tiles)@,
            *limit,
            *at,
        )[i] by {
            lemma_coords_then_index(i, *limit);
            let c = spec_coords(i, *limit);
            if c.touches(*at) {
                assert(at.touches(c));
            }
        }
        assert(tiles@ =~= with_mine(old(tiles)@, *limit, *at));
    }
    true
}

/// How often placement asks the generator for a position before it stops
/// drawing and fills in the mines still missing in storage order.
pub const DRAW_LIMIT: u32 = 0xffff_ffff;

impl Field {
    /// Places the mines, once, when the player has chosen `player_start` as
    /// the first cell.
    ///
    /// Fails with `OutOfBounds` if `player_start` is not on the board, else
    /// with `AlreadyInitialized` if the mines were placed before; the board
    /// is then unchanged. Otherwise the board is placed and remembers `seed`.
    /// If it is to hold as many mines as it has cells, every cell becomes a
    /// mine. If not, positions are drawn from a generator seeded with `seed`;
    /// a draw that hits `player_start` or a mine is thrown away, any other
    /// cell drawn becomes a mine, until the board holds its number of mines.
    /// In either case the markers and the disclosed cells stay as they were,
    /// and every cell that is not a mine ends up showing the number of mines
    /// around it.
    ///
    /// Drawing stops after `DRAW_LIMIT` draws; mines still missing then go to
    /// the first free cells in storage order, never to `player_start`.
    pub fn init(&mut self, player_start: &Coordintes, seed: u64) -> (r: Result<(), Error>)
        requires
            old(self).wf(),
        ensures
            final(self).wf(),
            match r {
                Ok(_) => player_start.is_inside(&old(self)@.limit) && !old(self)@.has_init
                    && final(self)@.placed_from(old(self)@, *player_start, seed)
                    && final(self)@.tiles == placed_tiles(old(self)@, *player_start, seed),
                Err(e) => final(self)@ == old(self)@ && if player_start.is_inside(
                    &old(self)@.limit,
                ) {
                    old(self)@.has_init && e == Error::AlreadyInitialized
                } else {
                    e == Error::OutOfBounds
                },
            },
    {
        let start = match index_of(player_start, &self.limit) {
            Some(start) => start,
            None => {
                return Err(Error::OutOfBounds);
            },
        };
        if self.has_init {
            return Err(Error::AlreadyInitialized);
        }
        self.seed = seed;
        let limit = self.limit;
        let size = self.field.len();
        proof {
            lemma_mine_free_is_clear(old(self)@.tiles, old(self)@.limit);
        }
        if self.num_mines as usize == size {
            let mut i: usize = 0;
            while i < size
                invariant
                    i <= size,
                    size == self.field@.len(),
                    self.field@.len() == old(self).field@.len(),
                    forall|k: int|
                        0 <= k < size ==> #[trigger] self.field@[k] == (Tile {
                            is_mine: k < i,
                            ..old(self).field@[k]
                        }),
                    self.limit == old(self).limit,
                    self.num_mines == old(self).num_mines,
                    self.has_init == old(self).has_init,
                    self.seed == seed,
                decreases size - i,
            {
                self.field[i].is_mine = true;
                i += 1;
            }
            self.has_init = true;
            proof {
                lemma_count_full(mine_marks(self.field@));
                assert forall|c: Coordintes| c.is_inside(&limit) implies 0 <= #[trigger] spec_index(
                    c,
                    limit,
                ) < size by {
                    lemma_index_in_range(c, limit);
                }
                assert(self.field@ =~= placed_tiles(old(self)@, *player_start, seed));
            }
            return Ok(());
        }
        let mut mines: u16 = 0;
        let mut draws_left: u32 = DRAW_LIMIT;
        let mut rng = seeded_generator(seed);
        let ghost wanted = self.num_mines as nat;
        let ghost drawn = after_draws(
            old(self).field@,
            limit,
            *player_start,
            wanted,
            seeded_state(seed),
            DRAW_LIMIT as nat,
        );
        while mines < self.num_mines && draws_left > 0
            invariant
                wanted == self.num_mines,
                after_draws(
                    self.field@,
                    limit,
                    *player_start,
                    wanted,
                    generator_state(rng),
                    draws_left as nat,
                ) == drawn,
                self.limit == limit,
                limit == old(self).limit,
                self.num_mines == old(self).num_mines,
                self.has_init == old(self).has_init,
                self.seed == seed,
                player_start.is_inside(&limit),
                start == spec_index(*player_start, limit),
                start < size,
                size == self.field@.len(),
                self.num_mines < size,
                grid_consistent(self.field@, limit),
                mine_total(self.field@) == mines,
                mines <= self.num_mines,
                !self.field@[start as int].is_mine,
                forall|i: int|
                    0 <= i < size ==> (#[trigger] self.field@[i]).flag == old(self).field@[i].flag
                        && self.field@[i].unknown == old(self).field@[i].unknown
                        && self.field@[i].revealed == old(self).field@[i].revealed,
            decreases draws_left,
        {
            draws_left -= 1;
            let coords = Coordintes::new_random(&limit, &mut rng);
            if !(coords.x == player_start.x && coords.y == player_start.y) {
                proof {
                    if spec_index(coords, limit) == start {
                        lemma_index_injective(coords, *player_start, limit);
                    }
                    lemma_index_in_range(coords, limit);
                }
                if lay_mine(&mut self.field, &limit, &coords) {
                    mines += 1;
                }
            }
        }
        let mut i: usize = 0;
        let ghost filled = filled_up(drawn, limit, *player_start, wanted, 0);
        while mines < self.num_mines && i < size
            invariant
                i <= size,
                wanted == self.num_mines,
                filled_up(self.field@, limit, *player_start, wanted, i as nat) == filled,
                self.limit == limit,
                limit == old(self).limit,
                self.num_mines == old(self).num_mines,
                self.has_init == old(self).has_init,
                self.seed == seed,
                player_start.is_inside(&limit),
                start == spec_index(*player_start, limit),
                start < size,
                size == self.field@.len(),
                self.num_mines < size,
                grid_consistent(self.field@, limit),
                mine_total(self.field@) == mines,
                mines <= self.num_mines,
                !self.field@[start as int].is_mine,
                forall|k: int| 0 <= k < i && k != start ==> (#[trigger] self.field@[k]).is_mine,
                forall|i: int|
                    0 <= i < size ==> (#[trigger] self.field@[i]).flag == old(self).field@[i].flag
                        && self.field@[i].unknown == old(self).field@[i].unknown
                        && self.field@[i].revealed == old(self).field@[i].revealed,
            decreases size - i,
        {
            proof {
                lemma_coords_then_index(i as int, limit);
                lemma_index_then_coords(*player_start, limit);
            }
            if i != start {
                let coords = coords_of(i, &limit);
                if lay_mine(&mut self.field, &limit, &coords) {
                    mines += 1;
                }
            }
            i += 1;
        }
        proof {
            if mines < self.num_mines {
                assert forall|k: int| 0 <= k < size && k != start implies mine_marks(
                    self.field@,
                )[k] by {
                    assert(self.field@[k].is_mine);
                }
                lemma_count_all_but_one(mine_marks(self.field@), start as int);
            }
        }
        self.has_init = true;
        proof {
            assert forall|c: Coordintes| c.is_inside(&limit) implies 0 <= #[trigger] spec_index(
                c,
                limit,
            ) < size by {
                lemma_index_in_range(c, limit);
            }
        }
        Ok(())
    }
}

} // verus!
