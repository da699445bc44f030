//! How positions map to places in the flat row-by-row storage of a board, and
//! the proof that this mapping pairs positions and places one to one.

use vstd::prelude::*;
use crate::field::tile::Coordintes;

verus! {

/// The number of cells of a board of size `limit`.
pub open spec fn spec_size(limit: Coordintes) -> int {
    limit.x * limit.y
}

/// The place of position `c` in the storage of a board of size `limit`: rows
/// follow each other, the top row first.
pub open spec fn spec_index(c: Coordintes, limit: Coordintes) -> int {
    c.x + c.y * limit.x
}

/// The position stored at place `index` of a board of size `limit`.
pub open spec fn spec_coords(index: int, limit: Coordintes) -> Coordintes {
    Coordintes { x: (index % (limit.x as int)) as u8, y: (index / (limit.x as int)) as u8 }
}

/// The place of `coords` in the storage of a board of size `limit`, or `None`
/// if `coords` is not on the board.
pub fn index_of(coords: &Coordintes, limit: &Coordintes) -> (r: Option<usize>)
    ensures
        match r {
            Some(index) => coords.is_inside(limit) && index == spec_index(*coords, *limit) && index
                < spec_size(*limit),
            None => !coords.is_inside(limit),
        },
{
    if !coords.is_inside(limit) {
        return None;
    }
    proof {
        lemma_index_in_range(*coords, *limit);
        assert(limit.x * limit.y <= 255 * 255) by (nonlinear_arith)
            requires
                limit.x <= 255,
                limit.y <= 255,
        ;
    }
    Some(coords.x as usize + (coords.y as usize * limit.x as usize))
}

/// The position stored at place `index` of a board of size `limit`.
pub fn coords_of(index: usize, limit: &Coordintes) -> (c: Coordintes)
    requires
        index < spec_size(*limit),
    ensures
        c == spec_coords(index as int, *limit),
        c.is_inside(limit),
        spec_index(c, *limit) == index,
{
    proof {
        lemma_coords_then_index(index as int, *limit);
    }
    let x = (index % limit.x as usize) as u8;
    let y = (index / limit.x as usize) as u8;
    Coordintes { x, y }
}

/// Every position on the board has a place in the storage.
pub proof fn lemma_index_in_range(c: Coordintes, limit: Coordintes)
    requires
        c.is_inside(&limit),
    ensures
        0 <= spec_index(c, limit) < spec_size(limit),
{
    let (x, y, w, h) = (c.x as int, c.y as int, limit.x as int, limit.y as int);
    assert(0 <= y * w && x + y * w < w * h) by (nonlinear_arith)
        requires
            0 <= x < w,
            0 <= y < h,
    ;
}

/// Taking the place of a position on the board and then the position at that
/// place gives the position back.
pub proof fn lemma_index_then_coords(c: Coordintes, limit: Coordintes)
    requires
        c.is_inside(&limit),
    ensures
        spec_coords(spec_index(c, limit), limit) == c,
{
    let (x, y, w) = (c.x as int, c.y as int, limit.x as int);
    vstd::arithmetic::div_mod::lemma_fundamental_div_mod_converse(x + y * w, w, y, x);
}

/// Every place in the storage holds a position on the board, and taking that
/// position's place gives the place back.
pub proof fn lemma_coords_then_index(index: int, limit: Coordintes)
    requires
        0 <= index < spec_size(limit),
    ensures
        spec_coords(index, limit).is_inside(&limit),
        spec_index(spec_coords(index, limit), limit) == index,
{
    let (w, h) = (limit.x as int, limit.y as int);
    assert(w > 0) by (nonlinear_arith)
        requires
            0 <= index < w * h,
            0 <= w,
    ;
    vstd::arithmetic::div_mod::lemma_fundamental_div_mod(index, w);
    vstd::arithmetic::div_mod::lemma_mod_bound(index, w);
    vstd::arithmetic::div_mod::lemma_div_pos_is_pos(index, w);
    let q = index / w;
    let r = index % w;
    assert(q < h) by (nonlinear_arith)
        requires
            index == w * q + r,
            0 <= r,
            index < w * h,
            w > 0,
    ;
    assert(w * q == q * w) by (nonlinear_arith);
}

/// Two positions on the board that share a place are the same position.
pub proof fn lemma_index_injective(a: Coordintes, b: Coordintes, limit: Coordintes)
    requires
        a.is_inside(&limit),
        b.is_inside(&limit),
        spec_index(a, limit) == spec_index(b, limit),
    ensures
        a == b,
{
    lemma_index_then_coords(a, limit);
    lemma_index_then_coords(b, limit);
}

/// The mapping between places and positions is a bijection: the positions
/// found at the places of a board are exactly the positions on the board, and
/// no position is found at two places.
pub proof fn lemma_index_bijection(limit: Coordintes)
    ensures
        forall|c: Coordintes|
            c.is_inside(&limit) <==> exists|i: int|
                0 <= i < spec_size(limit) && #[trigger] spec_coords(i, limit) == c,
        forall|i: int, j: int|
            0 <= i < spec_size(limit) && 0 <= j < spec_size(limit) && #[trigger] spec_coords(
                i,
                limit,
            ) == #[trigger] spec_coords(j, limit) ==> i == j,
        forall|c: Coordintes|
            c.is_inside(&limit) ==> 0 <= #[trigger] spec_index(c, limit) < spec_size(limit)
                && spec_coords(spec_index(c, limit), limit) == c,
{
    assert forall|c: Coordintes| c.is_inside(&limit) implies 0 <= #[trigger] spec_index(c, limit)
        < spec_size(limit) && spec_coords(spec_index(c, limit), limit) == c by {
        lemma_index_in_range(c, limit);
        lemma_index_then_coords(c, limit);
    }
    assert forall|c: Coordintes|
        c.is_inside(&limit) <==> exists|i: int|
            0 <= i < spec_size(limit) && #[trigger] spec_coords(i, limit) == c by {
        if c.is_inside(&limit) {
            assert(spec_coords(spec_index(c, limit), limit) == c);
        }
        if exists|i: int| 0 <= i < spec_size(limit) && #[trigger] spec_coords(i, limit) == c {
            let i = choose|i: int| 0 <= i < spec_size(limit) && #[trigger] spec_coords(i, limit) == c;
            lemma_coords_then_index(i, limit);
        }
    }
    assert forall|i: int, j: int|
        0 <= i < spec_size(limit) && 0 <= j < spec_size(limit) && #[trigger] spec_coords(i, limit)
            == #[trigger] spec_coords(j, limit) implies i == j by {
        lemma_coords_then_index(i, limit);
        lemma_coords_then_index(j, limit);
    }
}

} // verus!
