//! Disclosure: which cells a disclosure uncovers, and the worklist that
//! uncovers them.

use vstd::prelude::*;
use crate::error::Error;
use crate::field::count::{count_true, lemma_count_bound, lemma_count_update};
use crate::field::grid::{
    index_of, lemma_coords_then_index, lemma_index_in_range, lemma_index_then_coords,
    spec_coords, spec_index, spec_size,
};
use crate::field::model::{
    adjacency_correct, adjacent_mines, flood_closed, lemma_cell_in_range, lemma_mine_free_is_clear,
    mine_at, mine_marks, mine_total, FieldView,
};
use crate::field::tile::{Coordintes, Tile};
use crate::field::Field;

verus! {

/// Disclosure runs on from a cell that was hidden and shows zero.
pub open spec fn opens(t: Tile) -> bool {
    !t.revealed && t.value == 0
}

/// A way that disclosure can take: positions on the board, each touching the
/// next, where disclosure runs on from every position but the last.
pub open spec fn is_flood_path(tiles: Seq<Tile>, limit: Coordintes, path: Seq<Coordintes>) -> bool {
    &&& path.len() > 0
    &&& forall|k: int| 0 <= k < path.len() ==> (#[trigger] path[k]).is_inside(&limit)
    &&& forall|k: int|
        0 <= k < path.len() - 1 ==> opens(tiles[spec_index(#[trigger] path[k], limit)])
            && path[k].touches(path[k + 1])
}

/// Whether disclosing `from` uncovers `to`: some way that disclosure can take
/// leads from the one to the other. A position on the board always reaches
/// itself.
pub open spec fn flood_reaches(
    tiles: Seq<Tile>,
    limit: Coordintes,
    from: Coordintes,
    to: Coordintes,
) -> bool {
    exists|path: Seq<Coordintes>|
        #[trigger] is_flood_path(tiles, limit, path) && path[0] == from && path.last() == to
}

/// The cells after the disclosure of `from`: every cell that the disclosure
/// reaches is disclosed, and nothing else changes.
pub open spec fn flooded(tiles: Seq<Tile>, limit: Coordintes, from: Coordintes) -> Seq<Tile> {
    Seq::new(
        tiles.len(),
        |i: int|
            Tile {
                revealed: tiles[i].revealed || flood_reaches(
                    tiles,
                    limit,
                    from,
                    spec_coords(i, limit),
                ),
                ..tiles[i]
            },
    )
}

/// The board after the player has asked for the disclosure of the cell at
/// `c`: a mine or a cell disclosed before leaves the board as it is; from any
/// other cell the disclosure uncovers what it reaches.
pub open spec fn disclosed(board: FieldView, c: Coordintes) -> FieldView {
    if board.tile(c).is_mine || board.tile(c).revealed {
        board
    } else {
        FieldView { tiles: flooded(board.tiles, board.limit, c), ..board }
    }
}

/// The number of single steps, along columns and rows, between two
/// positions.
pub open spec fn distance(a: Coordintes, b: Coordintes) -> int {
    (if a.x <= b.x {
        b.x - a.x
    } else {
        a.x - b.x
    }) + if a.y <= b.y {
        b.y - a.y
    } else {
        a.y - b.y
    }
}

/// The position next to `a` that lies towards `b`, or `a` itself where the
/// two are the same.
pub open spec fn step_toward(a: Coordintes, b: Coordintes) -> Coordintes {
    Coordintes {
        x: if a.x < b.x {
            (a.x + 1) as u8
        } else if a.x > b.x {
            (a.x - 1) as u8
        } else {
            a.x
        },
        y: if a.y < b.y {
            (a.y + 1) as u8
        } else if a.y > b.y {
            (a.y - 1) as u8
        } else {
            a.y
        },
    }
}

/// A position on the board reaches itself.
pub proof fn lemma_flood_start(tiles: Seq<Tile>, limit: Coordintes, from: Coordintes)
    requires
        from.is_inside(&limit),
    ensures
        flood_reaches(tiles, limit, from, from),
{
    let path = seq![from];
    assert(is_flood_path(tiles, limit, path));
}

/// Disclosure that reaches `mid` and runs on from there reaches every
/// position on the board that touches `mid`.
pub proof fn lemma_flood_step(
    tiles: Seq<Tile>,
    limit: Coordintes,
    from: Coordintes,
    mid: Coordintes,
    to: Coordintes,
)
    requires
        flood_reaches(tiles, limit, from, mid),
        opens(tiles[spec_index(mid, limit)]),
        mid.touches(to),
        to.is_inside(&limit),
    ensures
        flood_reaches(tiles, limit, from, to),
{
    let path = choose|path: Seq<Coordintes>|
        #[trigger] is_flood_path(tiles, limit, path) && path[0] == from && path.last() == mid;
    let longer = path.push(to);
    assert forall|k: int| 0 <= k < longer.len() - 1 implies opens(
        tiles[spec_index(#[trigger] longer[k], limit)],
    ) && longer[k].touches(longer[k + 1]) by {
        if k < path.len() - 1 {
            assert(longer[k] == path[k]);
            assert(longer[k + 1] == path[k + 1]);
        }
    }
    assert(is_flood_path(tiles, limit, longer));
}

/// Disclosure that does not run on from its first cell reaches that cell
/// only.
pub proof fn lemma_flood_stays(
    tiles: Seq<Tile>,
    limit: Coordintes,
    from: Coordintes,
    to: Coordintes,
)
    requires
        !opens(tiles[spec_index(from, limit)]),
        flood_reaches(tiles, limit, from, to),
    ensures
        to == from,
{
    let path = choose|path: Seq<Coordintes>|
        #[trigger] is_flood_path(tiles, limit, path) && path[0] == from && path.last() == to;
    if path.len() > 1 {
        assert(opens(tiles[spec_index(path[0], limit)]));
    }
}

/// A set of marked places that holds the start of a disclosure and, with
/// every marked place from which disclosure runs on, all places around it,
/// holds every place the disclosure reaches along `path`.
pub proof fn lemma_marks_complete(
    tiles: Seq<Tile>,
    limit: Coordintes,
    from: Coordintes,
    marks: Seq<bool>,
    path: Seq<Coordintes>,
)
    requires
        tiles.len() == spec_size(limit),
        marks.len() == spec_size(limit),
        from.is_inside(&limit),
        marks[spec_index(from, limit)],
        forall|i: int, n: Coordintes|
            0 <= i < marks.len() && marks[i] && opens(tiles[i]) && n.is_inside(&limit)
                && #[trigger] spec_coords(i, limit).touches(n) ==> marks[spec_index(n, limit)],
        is_flood_path(tiles, limit, path),
        path[0] == from,
    ensures
        marks[spec_index(path.last(), limit)],
    decreases path.len(),
{
    if path.len() > 1 {
        let shorter = path.drop_last();
        assert(is_flood_path(tiles, limit, shorter)) by {
            assert forall|k: int| 0 <= k < shorter.len() - 1 implies opens(
                tiles[spec_index(#[trigger] shorter[k], limit)],
            ) && shorter[k].touches(shorter[k + 1]) by {
                assert(shorter[k] == path[k]);
                assert(shorter[k + 1] == path[k + 1]);
            }
        }
        lemma_marks_complete(tiles, limit, from, marks, shorter);
        let mid = path[path.len() - 2];
        assert(mid == shorter.last());
        assert(mid.is_inside(&limit));
        assert(opens(tiles[spec_index(mid, limit)]) && mid.touches(path[path.len() - 2 + 1]));
        lemma_index_in_range(mid, limit);
        lemma_index_then_coords(mid, limit);
        assert(spec_coords(spec_index(mid, limit), limit).touches(path.last()));
    }
}

/// Disclosure keeps a consistent board consistent.
pub proof fn lemma_flooded_wf(board: FieldView, from: Coordintes)
    requires
        board.wf(),
        from.is_inside(&board.limit),
    ensures
        (FieldView { tiles: flooded(board.tiles, board.limit, from), ..board }).wf(),
{
    let limit = board.limit;
    let after = flooded(board.tiles, limit, from);
    assert(mine_marks(after) =~= mine_marks(board.tiles));
    assert forall|x: int, y: int| #[trigger]
        mine_at(after, limit, x, y) == mine_at(board.tiles, limit, x, y) by {
        if 0 <= x < limit.x && 0 <= y < limit.y {
            lemma_cell_in_range(limit, x, y);
        }
    }
    assert forall|c: Coordintes| c.is_inside(&limit) implies 0 <= #[trigger] spec_index(c, limit)
        < after.len() by {
        lemma_index_in_range(c, limit);
    }
    assert forall|c: Coordintes|
        c.is_inside(&limit) && !after[#[trigger] spec_index(c, limit)].is_mine implies after[spec_index(
        c,
        limit,
    )].value == adjacent_mines(after, limit, c) by {
        assert(adjacent_mines(after, limit, c) == adjacent_mines(board.tiles, limit, c));
    }
    assert forall|c: Coordintes, n: Coordintes|
        c.is_inside(&limit) && n.is_inside(&limit) && c.touches(n) && after[#[trigger] spec_index(
            c,
            limit,
        )].revealed && after[spec_index(c, limit)].value == 0 implies after[#[trigger] spec_index(
        n,
        limit,
    )].revealed by {
        lemma_index_then_coords(c, limit);
        lemma_index_then_coords(n, limit);
        if !board.tiles[spec_index(c, limit)].revealed {
            lemma_flood_step(board.tiles, limit, from, c, n);
        }
    }
}

/// Disclosure that starts on a cell without a mine never runs along `path`
/// onto a mine: it only runs on from cells that show zero, and around those
/// lies none.
pub proof fn lemma_path_spares_mines(board: FieldView, path: Seq<Coordintes>)
    requires
        board.wf(),
        is_flood_path(board.tiles, board.limit, path),
        !board.tile(path[0]).is_mine,
    ensures
        !board.tile(path.last()).is_mine,
    decreases path.len(),
{
    if path.len() > 1 {
        let limit = board.limit;
        let shorter = path.drop_last();
        assert(is_flood_path(board.tiles, limit, shorter)) by {
            assert forall|k: int| 0 <= k < shorter.len() - 1 implies opens(
                board.tiles[spec_index(#[trigger] shorter[k], limit)],
            ) && shorter[k].touches(shorter[k + 1]) by {
                assert(shorter[k] == path[k]);
                assert(shorter[k + 1] == path[k + 1]);
            }
        }
        lemma_path_spares_mines(board, shorter);
        let mid = path[path.len() - 2];
        let to = path[path.len() - 2 + 1];
        assert(mid == shorter.last());
        assert(mid.is_inside(&limit) && to.is_inside(&limit));
        assert(opens(board.tiles[spec_index(mid, limit)]) && mid.touches(to));
        assert(board.tiles[spec_index(mid, limit)].value == adjacent_mines(
            board.tiles,
            limit,
            mid,
        ));
        assert(mine_at(board.tiles, limit, to.x as int, to.y as int) == 0);
    }
}

/// On a board without mines on which disclosure has always run its course,
/// a disclosed cell means that every cell is disclosed.
pub proof fn lemma_mine_free_spread(board: FieldView, a: Coordintes, b: Coordintes)
    requires
        board.wf(),
        mine_total(board.tiles) == 0,
        a.is_inside(&board.limit),
        b.is_inside(&board.limit),
        board.tile(a).revealed,
    ensures
        board.tile(b).revealed,
    decreases distance(a, b),
{
    if a != b {
        let next = step_toward(a, b);
        lemma_mine_free_is_clear(board.tiles, board.limit);
        lemma_index_in_range(a, board.limit);
        assert(a.touches(next));
        assert(board.tiles[spec_index(next, board.limit)].revealed);
        lemma_mine_free_spread(board, next, b);
    }
}

/// Where disclosure runs on from every cell, it reaches every position on
/// the board from any other.
pub proof fn lemma_flood_everywhere(
    tiles: Seq<Tile>,
    limit: Coordintes,
    from: Coordintes,
    to: Coordintes,
)
    requires
        tiles.len() == spec_size(limit),
        forall|i: int| 0 <= i < tiles.len() ==> opens(#[trigger] tiles[i]),
        from.is_inside(&limit),
        to.is_inside(&limit),
    ensures
        flood_reaches(tiles, limit, from, to),
    decreases distance(to, from),
{
    if to == from {
        lemma_flood_start(tiles, limit, from);
    } else {
        let mid = step_toward(to, from);
        lemma_flood_everywhere(tiles, limit, from, mid);
        lemma_index_in_range(mid, limit);
        assert(mid.touches(to));
        lemma_flood_step(tiles, limit, from, mid, to);
    }
}

/// On a board without mines, asking for the disclosure of any cell leaves
/// every cell disclosed.
pub proof fn lemma_mine_free_disclosure(board: FieldView, c: Coordintes)
    requires
        board.wf(),
        board.num_mines == 0,
        c.is_inside(&board.limit),
    ensures
        forall|i: int|
            0 <= i < board.tiles.len() ==> (#[trigger] disclosed(board, c).tiles[i]).revealed,
{
    let limit = board.limit;
    lemma_mine_free_is_clear(board.tiles, limit);
    lemma_index_in_range(c, limit);
    assert forall|i: int| 0 <= i < board.tiles.len() implies (#[trigger] disclosed(
        board,
        c,
    ).tiles[i]).revealed by {
        let to = spec_coords(i, limit);
        lemma_coords_then_index(i, limit);
        if board.tile(c).revealed {
            lemma_mine_free_spread(board, c, to);
        } else if !board.tiles[i].revealed {
            assert forall|k: int| 0 <= k < board.tiles.len() implies opens(
                #[trigger] board.tiles[k],
            ) by {
                if board.tiles[k].revealed {
                    lemma_coords_then_index(k, limit);
                    lemma_mine_free_spread(board, spec_coords(k, limit), c);
                }
            }
            lemma_flood_everywhere(board.tiles, limit, c, to);
        }
    }
}

/// Asking for a disclosure never hides a cell, never uncovers a mine, and
/// changes nothing about a cell but whether it is disclosed.
pub proof fn lemma_disclosure_is_safe(board: FieldView, c: Coordintes)
    requires
        board.wf(),
        c.is_inside(&board.limit),
    ensures
        disclosed(board, c).wf(),
        disclosed(board, c).tiles.len() == board.tiles.len(),
        forall|i: int|
            0 <= i < board.tiles.len() ==> {
                let before = board.tiles[i];
                let after = #[trigger] disclosed(board, c).tiles[i];
                &&& after == Tile { revealed: after.revealed, ..before }
                &&& before.revealed ==> after.revealed
                &&& before.is_mine ==> after.revealed == before.revealed
            },
{
    let limit = board.limit;
    lemma_flooded_wf(board, c);
    if !(board.tile(c).is_mine || board.tile(c).revealed) {
        assert forall|i: int| 0 <= i < board.tiles.len() && board.tiles[i].is_mine implies (#[trigger] disclosed(
            board,
            c,
        ).tiles[i]).revealed == board.tiles[i].revealed by {
            let to = spec_coords(i, limit);
            lemma_coords_then_index(i, limit);
            if flood_reaches(board.tiles, limit, c, to) {
                let path = choose|path: Seq<Coordintes>|
                    #[trigger] is_flood_path(board.tiles, limit, path) && path[0] == c
                        && path.last() == to;
                lemma_path_spares_mines(board, path);
            }
        }
    }
}

/// Puts on the worklist every position around `working` that was never on
/// it, and marks these positions as having been on it.
fn enqueue_around(
    working: &Coordintes,
    limit: &Coordintes,
    queued: &mut Vec<bool>,
    to_reveal: &mut Vec<Coordintes>,
)
    requires
        old(queued)@.len() == spec_size(*limit),
    ensures
        final(queued)@.len() == old(queued)@.len(),
        forall|i: int| 0 <= i < old(queued)@.len() && old(queued)@[i] ==> #[trigger] final(queued)@[i],
        forall|n: Coordintes|
            n.is_inside(limit) && working.touches(n) ==> final(queued)@[#[trigger] spec_index(
                n,
                *limit,
            )],
        final(to_reveal)@.len() >= old(to_reveal)@.len(),
        final(to_reveal)@.take(old(to_reveal)@.len() as int) == old(to_reveal)@,
        forall|k: int|
            old(to_reveal)@.len() <= k < final(to_reveal)@.len() ==> {
                &&& (#[trigger] final(to_reveal)@[k]).is_inside(limit)
                &&& working.touches(final(to_reveal)@[k])
                &&& final(queued)@[spec_index(final(to_reveal)@[k], *limit)]
            },
        forall|i: int|
            0 <= i < old(queued)@.len() && #[trigger] final(queued)@[i] && !old(queued)@[i]
                ==> final(to_reveal)@.contains(spec_coords(i, *limit)),
        count_true(final(queued)@) - count_true(old(queued)@)
            == final(to_reveal)@.len() - old(to_reveal)@.len(),
{
    let around = working.get_surrounding(limit);
    proof {
        working.lemma_surrounding(*limit);
        assert(to_reveal@.take(old(to_reveal)@.len() as int) =~= old(to_reveal)@);
        assert forall|j: int| 0 <= j < around@.len() implies 0 <= spec_index(
            #[trigger] around@[j],
            *limit,
        ) < spec_size(*limit) by {
            lemma_index_in_range(around@[j], *limit);
        }
    }
    let mut k: usize = 0;
    while k < around.len()
        invariant
            k <= around.len(),
            around@ == working.spec_surrounding(*limit),
            forall|j: int|
                0 <= j < around@.len() ==> 0 <= spec_index(#[trigger] around@[j], *limit)
                    < spec_size(*limit),
            queued@.len() == old(queued)@.len(),
            queued@.len() == spec_size(*limit),
            forall|i: int| 0 <= i < queued@.len() && old(queued)@[i] ==> #[trigger] queued@[i],
            forall|j: int| 0 <= j < k ==> queued@[spec_index(#[trigger] around@[j], *limit)],
            to_reveal@.len() >= old(to_reveal)@.len(),
            to_reveal@.take(old(to_reveal)@.len() as int) == old(to_reveal)@,
            forall|w: int|
                old(to_reveal)@.len() <= w < to_reveal@.len() ==> {
                    &&& (#[trigger] to_reveal@[w]).is_inside(limit)
                    &&& working.touches(to_reveal@[w])
                    &&& queued@[spec_index(to_reveal@[w], *limit)]
                },
            forall|i: int|
                0 <= i < queued@.len() && #[trigger] queued@[i] && !old(queued)@[i]
                    ==> to_reveal@.contains(spec_coords(i, *limit)),
            count_true(queued@) - count_true(old(queued)@)
                == to_reveal@.len() - old(to_reveal)@.len(),
        decreases around.len() - k,
    {
        let next = around[k];
        proof {
            working.lemma_surrounding(*limit);
            assert(next == working.spec_surrounding(*limit)[k as int]);
            lemma_index_in_range(next, *limit);
            lemma_index_then_coords(next, *limit);
        }
        let place = match index_of(&next, limit) {
            Some(place) => place,
            None => {
                return ;
            },
        };
        if !queued[place] {
            let ghost marks1 = queued@;
            let ghost work1 = to_reveal@;
            proof {
                lemma_count_update(queued@, place as int, true);
            }
            queued[place] = true;
            to_reveal.push(next);
            proof {
                assert(to_reveal@[work1.len() as int] == next);
                assert(to_reveal@.take(old(to_reveal)@.len() as int) =~= work1.take(
                    old(to_reveal)@.len() as int,
                ));
                assert forall|i: int|
                    0 <= i < queued@.len() && #[trigger] queued@[i]
                        && !old(queued)@[i] implies to_reveal@.contains(
                    spec_coords(i, *limit),
                ) by {
                    if i != place {
                        assert(marks1[i]);
                        let w = choose|w: int|
                            0 <= w < work1.len() && work1[w] == spec_coords(i, *limit);
                        assert(to_reveal@[w] == work1[w]);
                    }
                }
                assert forall|w: int|
                    old(to_reveal)@.len() <= w < to_reveal@.len() implies {
                    &&& (#[trigger] to_reveal@[w]).is_inside(limit)
                    &&& working.touches(to_reveal@[w])
                    &&& queued@[spec_index(to_reveal@[w], *limit)]
                } by {
                    if w < work1.len() {
                        assert(to_reveal@[w] == work1[w]);
                        lemma_index_in_range(work1[w], *limit);
                    }
                }
            }
        }
        k += 1;
    }
    proof {
        working.lemma_surrounding(*limit);
        assert forall|n: Coordintes| n.is_inside(limit) && working.touches(n) implies queued@[#[trigger] spec_index(
            n,
            *limit,
        )] by {
            let j = choose|j: int| 0 <= j < around@.len() && around@[j] == n;
            assert(queued@[spec_index(around@[j], *limit)]);
        }
    }
}

impl Field {
    /// Discloses every cell that the disclosure of `coords` reaches, with a
    /// worklist: a position taken from the list is disclosed if it was
    /// hidden, and if it then shows zero, the positions around it that were
    /// never on the list are put on it.
    #[verifier::loop_isolation(false)]
    fn recurse_reveal(&mut self, coords: &Coordintes)
        requires
            old(self).wf(),
            coords.is_inside(&old(self)@.limit),
        ensures
            final(self)@ == (FieldView {
                tiles: flooded(old(self)@.tiles, old(self)@.limit, *coords),
                ..old(self)@
            }),
    {
        let limit = self.limit;
        let size = self.field.len();
        let ghost before = self.field@;
        let first = match index_of(coords, &limit) {
            Some(first) => first,
            None => {
                return ;
            },
        };
        let mut queued: Vec<bool> = Vec::new();
        let mut filled: usize = 0;
        while filled < size
            invariant
                filled <= size,
                queued@.len() == filled,
                forall|i: int| 0 <= i < filled ==> !queued@[i],
            decreases size - filled,
        {
            queued.push(false);
            filled += 1;
        }
        queued[first] = true;
        let mut to_reveal: Vec<Coordintes> = Vec::new();
        to_reveal.push(*coords);
        proof {
            lemma_flood_start(before, limit, *coords);
            lemma_index_then_coords(*coords, limit);
            assert(to_reveal@[0] == *coords);
            assert forall|i: int| 0 <= i < size && #[trigger] queued@[i] implies to_reveal@.contains(
                spec_coords(i, limit),
            ) by {
                assert(i == first);
            }
        }
        while to_reveal.len() > 0
            invariant
                self.limit == limit,
                self.num_mines == old(self).num_mines,
                self.has_init == old(self).has_init,
                self.seed == old(self).seed,
                self.field@.len() == size,
                queued@.len() == size,
                queued@[first as int],
                forall|i: int|
                    0 <= i < size ==> #[trigger] self.field@[i] == (Tile {
                        revealed: self.field@[i].revealed,
                        ..before[i]
                    }),
                forall|i: int| 0 <= i < size && before[i].revealed ==> (#[trigger] self.field@[i]).revealed,
                forall|i: int|
                    0 <= i < size && (#[trigger] self.field@[i]).revealed && !before[i].revealed
                        ==> queued@[i],
                forall|i: int|
                    0 <= i < size && #[trigger] queued@[i] ==> flood_reaches(
                        before,
                        limit,
                        *coords,
                        spec_coords(i, limit),
                    ),
                forall|i: int|
                    0 <= i < size && #[trigger] queued@[i] ==> self.field@[i].revealed
                        || to_reveal@.contains(spec_coords(i, limit)),
                forall|k: int|
                    0 <= k < to_reveal@.len() ==> (#[trigger] to_reveal@[k]).is_inside(&limit)
                        && queued@[spec_index(to_reveal@[k], limit)],
                forall|i: int, n: Coordintes|
                    0 <= i < size && queued@[i] && self.field@[i].revealed && opens(before[i])
                        && n.is_inside(&limit) && #[trigger] spec_coords(i, limit).touches(n)
                        ==> queued@[spec_index(n, limit)],
            decreases 2 * (size - count_true(queued@)) + to_reveal@.len(),
        {
            let ghost work0 = to_reveal@;
            let ghost marks0 = queued@;
            let ghost cells0 = self.field@;
            proof {
                lemma_count_bound(queued@);
            }
            let working = to_reveal.pop().unwrap();
            let ghost work1 = to_reveal@;
            let index = match index_of(&working, &limit) {
                Some(index) => index,
                None => {
                    return ;
                },
            };
            proof {
                assert(working == work0[work0.len() - 1]);
                lemma_index_then_coords(working, limit);
                assert forall|i: int|
                    0 <= i < size && #[trigger] marks0[i] && i != index implies cells0[i].revealed
                    || work1.contains(spec_coords(i, limit)) by {
                    if !cells0[i].revealed {
                        let k = choose|k: int|
                            0 <= k < work0.len() && work0[k] == spec_coords(i, limit);
                        lemma_coords_then_index(i, limit);
                        assert(work1[k] == work0[k]);
                    }
                }
            }
            if !self.field[index].revealed {
                self.field[index].revealed = true;
                if self.field[index].value == 0 {
                    enqueue_around(&working, &limit, &mut queued, &mut to_reveal);
                    proof {
                        assert forall|i: int| 0 <= i < size && #[trigger] queued@[i] implies flood_reaches(
                            before,
                            limit,
                            *coords,
                            spec_coords(i, limit),
                        ) by {
                            if !marks0[i] {
                                let c = spec_coords(i, limit);
                                let w = choose|w: int|
                                    0 <= w < to_reveal@.len() && to_reveal@[w] == c;
                                if w < work1.len() {
                                    assert(to_reveal@.take(work1.len() as int)[w] == work1[w]);
                                    assert(work1[w] == work0[w]);
                                    lemma_coords_then_index(i, limit);
                                }
                                lemma_flood_step(before, limit, *coords, working, c);
                            }
                        }
                        assert forall|i: int|
                            0 <= i < size && #[trigger] queued@[i] implies self.field@[i].revealed
                            || to_reveal@.contains(spec_coords(i, limit)) by {
                            if marks0[i] && i != index && !cells0[i].revealed {
                                let w = choose|w: int|
                                    0 <= w < work1.len() && work1[w] == spec_coords(i, limit);
                                assert(to_reveal@.take(work1.len() as int)[w] == work1[w]);
                            }
                        }
                        assert forall|k: int|
                            0 <= k < to_reveal@.len() implies (#[trigger] to_reveal@[k]).is_inside(
                            &limit,
                        ) && queued@[spec_index(to_reveal@[k], limit)] by {
                            if k < work1.len() {
                                assert(to_reveal@.take(work1.len() as int)[k] == work1[k]);
                                assert(work1[k] == work0[k]);
                                lemma_index_in_range(work0[k], limit);
                            }
                        }
                    }
                }
            }
            proof {
                lemma_count_bound(queued@);
                assert forall|i: int, n: Coordintes|
                    0 <= i < size && queued@[i] && self.field@[i].revealed && opens(before[i])
                        && n.is_inside(&limit) && #[trigger] spec_coords(i, limit).touches(
                        n,
                    ) implies queued@[spec_index(n, limit)] by {
                    lemma_index_in_range(n, limit);
                    if i != index {
                        assert(cells0[i].revealed);
                        assert(marks0[i]);
                        assert(marks0[spec_index(n, limit)]);
                    }
                }
            }
        }
        proof {
            let after = flooded(before, limit, *coords);
            assert forall|i: int| 0 <= i < size implies self.field@[i] == after[i] by {
                let c = spec_coords(i, limit);
                if flood_reaches(before, limit, *coords, c) {
                    let path = choose|path: Seq<Coordintes>|
                        #[trigger] is_flood_path(before, limit, path) && path[0] == *coords
                            && path.last() == c;
                    lemma_marks_complete(before, limit, *coords, queued@, path);
                    lemma_coords_then_index(i, limit);
                    assert(queued@[i]);
                    assert(!to_reveal@.contains(c));
                }
            }
            assert(self.field@ =~= after);
        }
    }

    /// Discloses the cell at `coords` for the player and returns the cell as
    /// it is afterwards.
    ///
    /// Fails with `OutOfBounds`, changing nothing, if `coords` is not on the
    /// board. A mine, or a cell disclosed before, is returned as it is, and
    /// the board stays unchanged: it is for the caller to see that the cell
    /// is a mine. Any other cell is disclosed; if it shows zero, the cells
    /// around it are disclosed too, and so on from each of those that shows
    /// zero. Nothing else changes.
    pub fn disclose(&mut self, coords: &Coordintes) -> (r: Result<Tile, Error>)
        requires
            old(self).wf(),
        ensures
            final(self).wf(),
            match r {
                Ok(tile) => coords.is_inside(&old(self)@.limit) && final(self)@ == disclosed(
                    old(self)@,
                    *coords,
                ) && tile == final(self)@.tile(*coords),
                Err(e) => !coords.is_inside(&old(self)@.limit) && e == Error::OutOfBounds
                    && final(self)@ == old(self)@,
            },
            coords.is_inside(&old(self)@.limit) && old(self)@.num_mines == 0 ==> forall|i: int|
                0 <= i < final(self)@.tiles.len() ==> (#[trigger] final(self)@.tiles[i]).revealed,
            final(self)@.tiles.len() == old(self)@.tiles.len(),
            forall|i: int|
                0 <= i < old(self)@.tiles.len() && ((#[trigger] old(self)@.tiles[i]).revealed
                    || old(self)@.tiles[i].is_mine)
                    ==> final(self)@.tiles[i] == old(self)@.tiles[i],
    {
        let index = match self.get_index(coords) {
            Ok(index) => index,
            Err(e) => {
                return Err(e);
            },
        };
        proof {
            lemma_disclosure_is_safe(old(self)@, *coords);
            if old(self)@.num_mines == 0 {
                lemma_mine_free_disclosure(old(self)@, *coords);
            }
        }
        if self.field[index].is_mine || self.field[index].revealed {
            return Ok(self.field[index]);
        }
        if self.field[index].value == 0 && !self.field[index].revealed {
            self.recurse_reveal(coords);
        }
        self.field[index].revealed = true;
        proof {
            let before = old(self)@;
            let after = flooded(before.tiles, before.limit, *coords);
            lemma_flood_start(before.tiles, before.limit, *coords);
            lemma_index_then_coords(*coords, before.limit);
            assert forall|i: int| 0 <= i < after.len() implies self.field@[i] == after[i] by {
                if before.tiles[index as int].value != 0 && i != index {
                    if flood_reaches(before.tiles, before.limit, *coords, spec_coords(i, before.limit)) {
                        lemma_flood_stays(
                            before.tiles,
                            before.limit,
                            *coords,
                            spec_coords(i, before.limit),
                        );
                        lemma_coords_then_index(i, before.limit);
                    }
                }
            }
            assert(self.field@ =~= after);
        }
        Ok(self.field[index])
    }
}

} // verus!
