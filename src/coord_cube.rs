//! Coordinate representation of the cube and its move transition.
use vstd::prelude::*;
use crate::tables::{inverse_law_at, order_law_at, inverse_move, Tables, TWIST, FLIP, UDSLICE, EDGE4, EDGE8, CORNER, N_MOVES};

verus! {

/// Brings a coordinate that underflowed by at most one group order back into `[0, range)`.
pub open spec fn norm(c: int, range: int) -> int {
    if c < 0 { c + range } else { c }
}

/// A coordinate that a single conditional addition brings into range.
pub open spec fn coord_ok(c: int, range: int) -> bool {
    -range <= c < range
}

/// The six coordinates of a cube state.
#[derive(Clone, Copy, PartialEq, Eq, Debug)]
pub struct CoordCube {
    pub twist: isize,
    pub flip: isize,
    pub udslice: isize,
    pub edge4: isize,
    pub edge8: isize,
    pub corner: isize,
}

/// Looks a move up in one coordinate's table, after normalizing the coordinate.
pub open spec fn lookup(table: Seq<Vec<isize>>, c: int, range: int, m: int) -> int {
    table[norm(c, range)]@[m] as int
}

impl CoordCube {
    /// Every coordinate is at most one group order below its range.
    pub open spec fn wf(&self) -> bool {
        &&& coord_ok(self.twist as int, TWIST as int)
        &&& coord_ok(self.flip as int, FLIP as int)
        &&& coord_ok(self.udslice as int, UDSLICE as int)
        &&& coord_ok(self.edge4 as int, EDGE4 as int)
        &&& coord_ok(self.edge8 as int, EDGE8 as int)
        &&& coord_ok(self.corner as int, CORNER as int)
    }

    /// Every coordinate lies in `[0, range)`.
    pub open spec fn normalized(&self) -> bool {
        &&& 0 <= self.twist < TWIST
        &&& 0 <= self.flip < FLIP
        &&& 0 <= self.udslice < UDSLICE
        &&& 0 <= self.edge4 < EDGE4
        &&& 0 <= self.edge8 < EDGE8
        &&& 0 <= self.corner < CORNER
    }

    /// The state after move `m`.
    pub open spec fn moved(self, t: Tables, m: int) -> CoordCube {
        CoordCube {
            twist: lookup(t.twist_move@, self.twist as int, TWIST as int, m) as isize,
            flip: lookup(t.flip_move@, self.flip as int, FLIP as int, m) as isize,
            udslice: lookup(t.udslice_move@, self.udslice as int, UDSLICE as int, m) as isize,
            edge4: lookup(t.edge4_move@, self.edge4 as int, EDGE4 as int, m) as isize,
            edge8: lookup(t.edge8_move@, self.edge8 as int, EDGE8 as int, m) as isize,
            corner: lookup(t.corner_move@, self.corner as int, CORNER as int, m) as isize,
        }
    }

    /// Builds the coordinate state from the six coordinates that the cube model extracts.
    pub fn from_cubie_cube(
        twist: usize,
        flip: usize,
        udslice: usize,
        edge4: usize,
        edge8: usize,
        corner: usize,
    ) -> (r: CoordCube)
        requires
            twist < TWIST,
            flip < FLIP,
            udslice < UDSLICE,
            edge4 < EDGE4,
            edge8 < EDGE8,
            corner < CORNER,
        ensures
            r.normalized(),
            r.twist == twist,
            r.flip == flip,
            r.udslice == udslice,
            r.edge4 == edge4,
            r.edge8 == edge8,
            r.corner == corner,
    {
        CoordCube {
            twist: twist as isize,
            flip: flip as isize,
            udslice: udslice as isize,
            edge4: edge4 as isize,
            edge8: edge8 as isize,
            corner: corner as isize,
        }
    }

    /// Checks `normalized`.
    pub fn in_range(&self) -> (r: bool)
        ensures
            r == self.normalized(),
    {
        0 <= self.twist && self.twist < TWIST as isize && 0 <= self.flip && self.flip < FLIP as isize
            && 0 <= self.udslice && self.udslice < UDSLICE as isize && 0 <= self.edge4 && self.edge4
            < EDGE4 as isize && 0 <= self.edge8 && self.edge8 < EDGE8 as isize && 0 <= self.corner
            && self.corner < CORNER as isize
    }

    /// Applies move `m` to every coordinate, through the tables.
    pub fn movement(&mut self, t: &Tables, m: usize)
        requires
            t.wf(),
            old(self).wf(),
            m < N_MOVES,
        ensures
            *final(self) == old(self).moved(*t, m as int),
            final(self).normalized(),
    {
        self.twist = move_coord(&t.twist_move, self.twist, TWIST, m);
        self.flip = move_coord(&t.flip_move, self.flip, FLIP, m);
        self.udslice = move_coord(&t.udslice_move, self.udslice, UDSLICE, m);
        self.edge4 = move_coord(&t.edge4_move, self.edge4, EDGE4, m);
        self.edge8 = move_coord(&t.edge8_move, self.edge8, EDGE8, m);
        self.corner = move_coord(&t.corner_move, self.corner, CORNER, m);
    }
}

/// Group-inverse law: on tables that obey the inverse law, a move followed by its
/// inverse move brings every in-range coordinate state back to itself.
pub proof fn lemma_move_then_inverse(t: Tables, c: CoordCube, m: int)
    requires
        t.wf(),
        t.inverse_law(),
        c.normalized(),
        0 <= m < N_MOVES,
    ensures
        c.moved(t, m).moved(t, inverse_move(m)) == c,
{
    assert(inverse_law_at(t.twist_move@, c.twist as int, m));
    assert(inverse_law_at(t.flip_move@, c.flip as int, m));
    assert(inverse_law_at(t.udslice_move@, c.udslice as int, m));
    assert(inverse_law_at(t.edge4_move@, c.edge4 as int, m));
    assert(inverse_law_at(t.edge8_move@, c.edge8 as int, m));
    assert(inverse_law_at(t.corner_move@, c.corner as int, m));
}

/// Group-order law: on tables that obey the order law, a half turn applied twice, or a
/// quarter turn applied four times, brings every in-range coordinate state back.
pub proof fn lemma_move_order(t: Tables, c: CoordCube, m: int)
    requires
        t.wf(),
        t.order_law(),
        c.normalized(),
        0 <= m < N_MOVES,
    ensures
        m % 3 == 1 ==> c.moved(t, m).moved(t, m) == c,
        m % 3 != 1 ==> c.moved(t, m).moved(t, m).moved(t, m).moved(t, m) == c,
{
    assert(order_law_at(t.twist_move@, c.twist as int, m));
    assert(order_law_at(t.flip_move@, c.flip as int, m));
    assert(order_law_at(t.udslice_move@, c.udslice as int, m));
    assert(order_law_at(t.edge4_move@, c.edge4 as int, m));
    assert(order_law_at(t.edge8_move@, c.edge8 as int, m));
    assert(order_law_at(t.corner_move@, c.corner as int, m));
}

/// One coordinate's transition: normalize once, then look the move up.
fn move_coord(table: &Vec<Vec<isize>>, c: isize, range: usize, m: usize) -> (r: isize)
    requires
        crate::tables::move_table_wf(table@, range as int),
        range <= 40320,
        coord_ok(c as int, range as int),
        m < N_MOVES,
    ensures
        r == lookup(table@, c as int, range as int, m as int),
        0 <= r < range,
{
    let idx: isize = if c < 0 { c + range as isize } else { c };
    table[idx as usize][m]
}


/// The eighteen elementary moves: a face (U, R, F, D, L, B) and a power (1: quarter
/// turn, 2: half turn, 3: inverse quarter turn).
#[derive(Clone, Copy, PartialEq, Eq, Debug)]
pub enum Moves {
    U1,
    U2,
    U3,
    R1,
    R2,
    R3,
    F1,
    F2,
    F3,
    D1,
    D2,
    D3,
    L1,
    L2,
    L3,
    B1,
    B2,
    B3,
}

/// Index of a move in table order: three powers per face, faces in the order U, R, F, D, L, B.
pub open spec fn move_index(m: Moves) -> int {
    match m {
        Moves::U1 => 0,
        Moves::U2 => 1,
        Moves::U3 => 2,
        Moves::R1 => 3,
        Moves::R2 => 4,
        Moves::R3 => 5,
        Moves::F1 => 6,
        Moves::F2 => 7,
        Moves::F3 => 8,
        Moves::D1 => 9,
        Moves::D2 => 10,
        Moves::D3 => 11,
        Moves::L1 => 12,
        Moves::L2 => 13,
        Moves::L3 => 14,
        Moves::B1 => 15,
        Moves::B2 => 16,
        Moves::B3 => 17,
    }
}

impl Moves {
    /// The table column of this move.
    pub fn index(self) -> (r: usize)
        ensures
            r == move_index(self),
            r < N_MOVES,
    {
        match self {
            Moves::U1 => 0,
            Moves::U2 => 1,
            Moves::U3 => 2,
            Moves::R1 => 3,
            Moves::R2 => 4,
            Moves::R3 => 5,
            Moves::F1 => 6,
            Moves::F2 => 7,
            Moves::F3 => 8,
            Moves::D1 => 9,
            Moves::D2 => 10,
            Moves::D3 => 11,
            Moves::L1 => 12,
            Moves::L2 => 13,
            Moves::L3 => 14,
            Moves::B1 => 15,
            Moves::B2 => 16,
            Moves::B3 => 17,
        }
    }

    /// The move in table column `i`.
    pub fn from_index(i: usize) -> (r: Moves)
        requires
            i < N_MOVES,
        ensures
            move_index(r) == i,
    {
        if i == 0 {
            Moves::U1
        } else if i == 1 {
            Moves::U2
        } else if i == 2 {
            Moves::U3
        } else if i == 3 {
            Moves::R1
        } else if i == 4 {
            Moves::R2
        } else if i == 5 {
            Moves::R3
        } else if i == 6 {
            Moves::F1
        } else if i == 7 {
            Moves::F2
        } else if i == 8 {
            Moves::F3
        } else if i == 9 {
            Moves::D1
        } else if i == 10 {
            Moves::D2
        } else if i == 11 {
            Moves::D3
        } else if i == 12 {
            Moves::L1
        } else if i == 13 {
            Moves::L2
        } else if i == 14 {
            Moves::L3
        } else if i == 15 {
            Moves::B1
        } else if i == 16 {
            Moves::B2
        } else {
            Moves::B3
        }
    }
}

} // verus!
