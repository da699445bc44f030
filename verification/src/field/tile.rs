//! One cell of the board, and positions on the board.

use vstd::prelude::*;
use rand::rngs::StdRng;
use crate::rng::{draw, draw_below, generator_state};

verus! {

/// The state of one cell.
///
/// `value` counts the mines among the up to eight neighbours. It only means
/// something for a cell that is not itself a mine.
#[derive(Clone, Copy, Debug)]
pub struct Tile {
    pub value: u8,
    pub is_mine: bool,
    pub flag: bool,
    pub unknown: bool,
    pub revealed: bool,
}

impl Tile {
    /// A hidden, unmarked cell without a mine and with no mine next to it.
    pub fn new() -> (t: Tile)
        ensures
            t == Tile::blank(),
    {
        Tile { value: 0, is_mine: false, flag: false, unknown: false, revealed: false }
    }

    /// The cell every board starts with.
    pub open spec fn blank() -> Tile {
        Tile { value: 0, is_mine: false, flag: false, unknown: false, revealed: false }
    }

    /// A cell carries at most one of the two player markers, and its count
    /// never exceeds the number of neighbours a cell can have.
    pub open spec fn valid(self) -> bool {
        &&& self.value <= 8
        &&& !(self.flag && self.unknown)
    }
}

/// A position: `x` counts columns from the left, `y` rows from the top. The
/// same type holds the size of a board, as the first position past its far
/// corner.
#[derive(Clone, Copy, Debug, PartialEq, Eq, Hash, Structural)]
pub struct Coordintes {
    pub x: u8,
    pub y: u8,
}

impl Coordintes {
    /// The top left corner.
    pub fn new() -> (c: Coordintes)
        ensures
            c.x == 0,
            c.y == 0,
    {
        Coordintes { x: 0, y: 0 }
    }

    /// The position that a generator in the state `state` gives for a board
    /// of size `limit`, and the state of the generator afterwards: the column
    /// is drawn first, then the row.
    pub open spec fn spec_random(state: int, limit: Coordintes) -> (Coordintes, int) {
        let (x, then) = draw(state, limit.x);
        let (y, last) = draw(then, limit.y);
        (Coordintes { x, y }, last)
    }

    /// A position drawn from the generator `rng`, anywhere on a board of
    /// size `limit`: the column is drawn first, then the row. The board must
    /// have at least one cell.
    pub fn new_random(limit: &Coordintes, rng: &mut StdRng) -> (c: Coordintes)
        requires
            limit.x > 0,
            limit.y > 0,
        ensures
            c.is_inside(limit),
            c == Coordintes::spec_random(generator_state(*old(rng)), *limit).0,
            generator_state(*final(rng)) == Coordintes::spec_random(
                generator_state(*old(rng)),
                *limit,
            ).1,
    {
        let x = draw_below(rng, limit.x);
        let y = draw_below(rng, limit.y);
        Coordintes { x, y }
    }

    /// Whether this position lies on a board of size `inside_of`.
    pub open spec fn spec_is_inside(&self, inside_of: &Coordintes) -> bool {
        self.x < inside_of.x && self.y < inside_of.y
    }

    /// Whether this position lies on a board of size `inside_of`.
    #[verifier::when_used_as_spec(spec_is_inside)]
    pub fn is_inside(&self, inside_of: &Coordintes) -> (inside: bool)
        ensures
            inside == self.spec_is_inside(inside_of),
    {
        self.x < inside_of.x && self.y < inside_of.y
    }

    /// Two distinct positions touch when they differ by at most one column
    /// and at most one row.
    pub open spec fn touches(self, other: Coordintes) -> bool {
        &&& self != other
        &&& -1 <= self.x - other.x <= 1
        &&& -1 <= self.y - other.y <= 1
    }

    /// The position `dx` columns and `dy` rows away, as a sequence of one
    /// element, or the empty sequence if that position is off the board.
    pub open spec fn at_offset(self, limit: Coordintes, dx: int, dy: int) -> Seq<Coordintes> {
        if 0 <= self.x + dx < limit.x && 0 <= self.y + dy < limit.y {
            seq![Coordintes { x: (self.x + dx) as u8, y: (self.y + dy) as u8 }]
        } else {
            Seq::empty()
        }
    }

    /// The neighbours of this position on a board of size `limit`, in the
    /// order in which `get_surrounding` lists them: the column to the left
    /// from top to bottom, the column to the right from top to bottom, then
    /// the cell above and the cell below.
    pub open spec fn spec_surrounding(self, limit: Coordintes) -> Seq<Coordintes> {
        self.at_offset(limit, -1, -1)
            + self.at_offset(limit, -1, 0)
            + self.at_offset(limit, -1, 1)
            + self.at_offset(limit, 1, -1)
            + self.at_offset(limit, 1, 0)
            + self.at_offset(limit, 1, 1)
            + self.at_offset(limit, 0, -1)
            + self.at_offset(limit, 0, 1)
    }

    /// What the neighbour list holds: every entry is on the board and touches
    /// this position, every position on the board that touches this one is
    /// listed, and none is listed twice.
    pub proof fn lemma_surrounding(self, limit: Coordintes)
        ensures
            self.spec_surrounding(limit).len() <= 8,
            forall|k: int|
                0 <= k < self.spec_surrounding(limit).len() ==> {
                    &&& (#[trigger] self.spec_surrounding(limit)[k]).is_inside(&limit)
                    &&& self.touches(self.spec_surrounding(limit)[k])
                },
            forall|n: Coordintes|
                n.is_inside(&limit) && #[trigger] self.touches(n) ==> self.spec_surrounding(
                    limit,
                ).contains(n),
            self.spec_surrounding(limit).no_duplicates(),
    {
        let s = self.spec_surrounding(limit);
        assert forall|n: Coordintes| n.is_inside(&limit) && #[trigger] self.touches(n) implies s.contains(
            n,
        ) by {
            let dx = n.x - self.x;
            let dy = n.y - self.y;
            assert(self.at_offset(limit, dx, dy) =~= seq![n]);
            let a = self.at_offset(limit, -1, -1).len() as int;
            let b = a + self.at_offset(limit, -1, 0).len();
            let c = b + self.at_offset(limit, -1, 1).len();
            let d = c + self.at_offset(limit, 1, -1).len();
            let e = d + self.at_offset(limit, 1, 0).len();
            let f = e + self.at_offset(limit, 1, 1).len();
            let g = f + self.at_offset(limit, 0, -1).len();
            let k = if dx == -1 {
                if dy == -1 {
                    0
                } else if dy == 0 {
                    a
                } else {
                    b
                }
            } else if dx == 1 {
                if dy == -1 {
                    c
                } else if dy == 0 {
                    d
                } else {
                    e
                }
            } else if dy == -1 {
                f
            } else {
                g
            };
            assert(s[k] == n);
        }
    }

    fn push_offset(&self, limit: &Coordintes, dx: i8, dy: i8, v: &mut Vec<Coordintes>)
        requires
            -1 <= dx <= 1,
            -1 <= dy <= 1,
        ensures
            final(v)@ == old(v)@ + self.at_offset(*limit, dx as int, dy as int),
    {
        let x: i16 = self.x as i16 + dx as i16;
        let y: i16 = self.y as i16 + dy as i16;
        if 0 <= x && x < limit.x as i16 && 0 <= y && y < limit.y as i16 {
            v.push(Coordintes { x: x as u8, y: y as u8 });
        }
    }

    /// The neighbours of this position on a board of size `limit`: every
    /// position on the board that differs from this one by at most one column
    /// and one row, without this position itself. A corner of a board has
    /// three, an edge cell five, an inner cell eight.
    pub fn get_surrounding(&self, limit: &Coordintes) -> (v: Vec<Coordintes>)
        ensures
            v@ == self.spec_surrounding(*limit),
    {
        let mut v = Vec::new();
        self.push_offset(limit, -1, -1, &mut v);
        self.push_offset(limit, -1, 0, &mut v);
        self.push_offset(limit, -1, 1, &mut v);
        self.push_offset(limit, 1, -1, &mut v);
        self.push_offset(limit, 1, 0, &mut v);
        self.push_offset(limit, 1, 1, &mut v);
        self.push_offset(limit, 0, -1, &mut v);
        self.push_offset(limit, 0, 1, &mut v);
        v
    }
}

} // verus!
