//! Move-transition and pruning tables consumed by the coordinate model and the search.
use vstd::prelude::*;

verus! {

/// Number of values of the corner orientation coordinate.
pub const TWIST: usize = 2187;
/// Number of values of the edge orientation coordinate.
pub const FLIP: usize = 2048;
/// Number of values of the middle-slice edge placement coordinate.
pub const UDSLICE: usize = 495;
/// Number of values of the middle-slice edge permutation coordinate.
pub const EDGE4: usize = 24;
/// Number of values of the top/bottom edge permutation coordinate.
pub const EDGE8: usize = 40320;
/// Number of values of the corner permutation coordinate.
pub const CORNER: usize = 40320;
/// Number of elementary moves.
pub const N_MOVES: usize = 18;

/// A move table for one coordinate: `table[index][move]` is the coordinate after the move.
pub open spec fn move_table_wf(table: Seq<Vec<isize>>, range: int) -> bool {
    &&& table.len() == range
    &&& forall|i: int| 0 <= i < range ==> #[trigger] table[i]@.len() == N_MOVES
    &&& forall|i: int, m: int|
        0 <= i < range && 0 <= m < N_MOVES ==> 0 <= #[trigger] table[i]@[m] < range
}

/// A pruning table over a pair of coordinates: `table[a][b]` bounds the remaining moves.
pub open spec fn prune_table_wf(table: Seq<Vec<u8>>, range_a: int, range_b: int) -> bool {
    &&& table.len() == range_a
    &&& forall|a: int| 0 <= a < range_a ==> #[trigger] table[a]@.len() == range_b
}

/// The move that undoes `m`: same face, inverse power.
pub open spec fn inverse_move(m: int) -> int {
    3 * (m / 3) + 2 - m % 3
}

/// Entry `m` of row `i`.
pub open spec fn step(table: Seq<Vec<isize>>, i: int, m: int) -> int {
    table[i]@[m] as int
}

/// Move `m` followed by its inverse brings value `i` back.
pub open spec fn inverse_law_at(table: Seq<Vec<isize>>, i: int, m: int) -> bool {
    step(table, step(table, i, m), inverse_move(m)) == i
}

/// A half turn twice, or a quarter turn four times, brings value `i` back.
pub open spec fn order_law_at(table: Seq<Vec<isize>>, i: int, m: int) -> bool {
    let j = step(table, i, m);
    let k = step(table, j, m);
    if m % 3 == 1 {
        k == i
    } else {
        step(table, step(table, k, m), m) == i
    }
}

/// Every move of the table is undone by its inverse move.
pub open spec fn table_inverse_law(table: Seq<Vec<isize>>, range: int) -> bool {
    forall|i: int, m: int| 0 <= i < range && 0 <= m < N_MOVES ==> #[trigger] inverse_law_at(table, i, m)
}

/// Every move of the table has the order of its power.
pub open spec fn table_order_law(table: Seq<Vec<isize>>, range: int) -> bool {
    forall|i: int, m: int| 0 <= i < range && 0 <= m < N_MOVES ==> #[trigger] order_law_at(table, i, m)
}

/// Checks the inverse law over a whole move table.
pub fn check_inverse_law(table: &Vec<Vec<isize>>, range: usize) -> (r: bool)
    requires
        move_table_wf(table@, range as int),
        range <= EDGE8,
    ensures
        r == table_inverse_law(table@, range as int),
{
    let mut i: usize = 0;
    while i < range
        invariant
            move_table_wf(table@, range as int),
            range <= EDGE8,
            i <= range,
            forall|i2: int, m: int| 0 <= i2 < i && 0 <= m < N_MOVES ==> #[trigger] inverse_law_at(table@, i2, m),
        decreases range - i,
    {
        let mut m: usize = 0;
        while m < N_MOVES
            invariant
                move_table_wf(table@, range as int),
                range <= EDGE8,
                i < range,
                m <= N_MOVES,
                forall|i2: int, m2: int| 0 <= i2 < i && 0 <= m2 < N_MOVES ==> #[trigger] inverse_law_at(table@, i2, m2),
                forall|m2: int| 0 <= m2 < m ==> #[trigger] inverse_law_at(table@, i as int, m2),
            decreases N_MOVES - m,
        {
            let j = table[i][m] as usize;
            let back = table[j][3 * (m / 3) + 2 - m % 3];
            if back != i as isize {
                assert(!inverse_law_at(table@, i as int, m as int));
                return false;
            }
            m += 1;
        }
        i += 1;
    }
    true
}

/// Checks the group-order law over a whole move table.
pub fn check_order_law(table: &Vec<Vec<isize>>, range: usize) -> (r: bool)
    requires
        move_table_wf(table@, range as int),
        range <= EDGE8,
    ensures
        r == table_order_law(table@, range as int),
{
    let mut i: usize = 0;
    while i < range
        invariant
            move_table_wf(table@, range as int),
            range <= EDGE8,
            i <= range,
            forall|i2: int, m: int| 0 <= i2 < i && 0 <= m < N_MOVES ==> #[trigger] order_law_at(table@, i2, m),
        decreases range - i,
    {
        let mut m: usize = 0;
        while m < N_MOVES
            invariant
                move_table_wf(table@, range as int),
                range <= EDGE8,
                i < range,
                m <= N_MOVES,
                forall|i2: int, m2: int| 0 <= i2 < i && 0 <= m2 < N_MOVES ==> #[trigger] order_law_at(table@, i2, m2),
                forall|m2: int| 0 <= m2 < m ==> #[trigger] order_law_at(table@, i as int, m2),
            decreases N_MOVES - m,
        {
            let j = table[i][m] as usize;
            let k = table[j][m] as usize;
            let back = if m % 3 == 1 {
                k as isize
            } else {
                let l = table[k][m] as usize;
                table[l][m]
            };
            if back != i as isize {
                assert(!order_law_at(table@, i as int, m as int));
                return false;
            }
            m += 1;
        }
        i += 1;
    }
    true
}

/// Checks the shape of one move table and that every entry is in range.
pub fn check_move_table(table: &Vec<Vec<isize>>, range: usize) -> (r: bool)
    requires
        range <= EDGE8,
    ensures
        r == move_table_wf(table@, range as int),
{
    if table.len() != range {
        return false;
    }
    let mut i: usize = 0;
    while i < range
        invariant
            table@.len() == range,
            range <= EDGE8,
            i <= range,
            forall|i2: int| 0 <= i2 < i ==> #[trigger] table@[i2]@.len() == N_MOVES,
            forall|i2: int, m: int|
                0 <= i2 < i && 0 <= m < N_MOVES ==> 0 <= #[trigger] table@[i2]@[m] < range,
        decreases range - i,
    {
        let row = &table[i];
        if row.len() != N_MOVES {
            return false;
        }
        let mut m: usize = 0;
        while m < N_MOVES
            invariant
                table@.len() == range,
                range <= EDGE8,
                i < range,
                row@ == table@[i as int]@,
                row@.len() == N_MOVES,
                m <= N_MOVES,
                forall|i2: int| 0 <= i2 < i ==> #[trigger] table@[i2]@.len() == N_MOVES,
                forall|i2: int, m2: int|
                    0 <= i2 < i && 0 <= m2 < N_MOVES ==> 0 <= #[trigger] table@[i2]@[m2] < range,
                forall|m2: int| 0 <= m2 < m ==> 0 <= #[trigger] row@[m2] < range,
            decreases N_MOVES - m,
        {
            if row[m] < 0 || row[m] >= range as isize {
                return false;
            }
            m += 1;
        }
        i += 1;
    }
    true
}

/// Checks the shape of one pruning table.
pub fn check_prune_table(table: &Vec<Vec<u8>>, range_a: usize, range_b: usize) -> (r: bool)
    ensures
        r == prune_table_wf(table@, range_a as int, range_b as int),
{
    if table.len() != range_a {
        return false;
    }
    let mut a: usize = 0;
    while a < range_a
        invariant
            table@.len() == range_a,
            a <= range_a,
            forall|a2: int| 0 <= a2 < a ==> #[trigger] table@[a2]@.len() == range_b,
        decreases range_a - a,
    {
        if table[a].len() != range_b {
            return false;
        }
        a += 1;
    }
    true
}

/// The read-only lookup tables shared by every search attempt.
pub struct Tables {
    pub twist_move: Vec<Vec<isize>>,
    pub flip_move: Vec<Vec<isize>>,
    pub udslice_move: Vec<Vec<isize>>,
    pub edge4_move: Vec<Vec<isize>>,
    pub edge8_move: Vec<Vec<isize>>,
    pub corner_move: Vec<Vec<isize>>,
    pub udslice_twist_prune: Vec<Vec<u8>>,
    pub udslice_flip_prune: Vec<Vec<u8>>,
    pub edge4_corner_prune: Vec<Vec<u8>>,
    pub edge4_edge8_prune: Vec<Vec<u8>>,
}

impl Tables {
    /// Every table has the shape of its coordinates and every transition stays in range.
    pub open spec fn wf(&self) -> bool {
        &&& move_table_wf(self.twist_move@, TWIST as int)
        &&& move_table_wf(self.flip_move@, FLIP as int)
        &&& move_table_wf(self.udslice_move@, UDSLICE as int)
        &&& move_table_wf(self.edge4_move@, EDGE4 as int)
        &&& move_table_wf(self.edge8_move@, EDGE8 as int)
        &&& move_table_wf(self.corner_move@, CORNER as int)
        &&& prune_table_wf(self.udslice_twist_prune@, UDSLICE as int, TWIST as int)
        &&& prune_table_wf(self.udslice_flip_prune@, UDSLICE as int, FLIP as int)
        &&& prune_table_wf(self.edge4_corner_prune@, EDGE4 as int, CORNER as int)
        &&& prune_table_wf(self.edge4_edge8_prune@, EDGE4 as int, EDGE8 as int)
    }

    /// Checks `wf`: a table set of the wrong shape is refused before any search.
    pub fn well_formed(&self) -> (r: bool)
        ensures
            r == self.wf(),
    {
        check_move_table(&self.twist_move, TWIST) && check_move_table(&self.flip_move, FLIP)
            && check_move_table(&self.udslice_move, UDSLICE) && check_move_table(&self.edge4_move, EDGE4)
            && check_move_table(&self.edge8_move, EDGE8) && check_move_table(&self.corner_move, CORNER)
            && check_prune_table(&self.udslice_twist_prune, UDSLICE, TWIST)
            && check_prune_table(&self.udslice_flip_prune, UDSLICE, FLIP)
            && check_prune_table(&self.edge4_corner_prune, EDGE4, CORNER)
            && check_prune_table(&self.edge4_edge8_prune, EDGE4, EDGE8)
    }

    /// Every move table obeys the inverse law.
    pub open spec fn inverse_law(&self) -> bool {
        &&& table_inverse_law(self.twist_move@, TWIST as int)
        &&& table_inverse_law(self.flip_move@, FLIP as int)
        &&& table_inverse_law(self.udslice_move@, UDSLICE as int)
        &&& table_inverse_law(self.edge4_move@, EDGE4 as int)
        &&& table_inverse_law(self.edge8_move@, EDGE8 as int)
        &&& table_inverse_law(self.corner_move@, CORNER as int)
    }

    /// Every move table obeys the group-order law.
    pub open spec fn order_law(&self) -> bool {
        &&& table_order_law(self.twist_move@, TWIST as int)
        &&& table_order_law(self.flip_move@, FLIP as int)
        &&& table_order_law(self.udslice_move@, UDSLICE as int)
        &&& table_order_law(self.edge4_move@, EDGE4 as int)
        &&& table_order_law(self.edge8_move@, EDGE8 as int)
        &&& table_order_law(self.corner_move@, CORNER as int)
    }

    /// Checks the inverse law on all six move tables.
    pub fn inverse_law_holds(&self) -> (r: bool)
        requires
            self.wf(),
        ensures
            r == self.inverse_law(),
    {
        check_inverse_law(&self.twist_move, TWIST) && check_inverse_law(&self.flip_move, FLIP)
            && check_inverse_law(&self.udslice_move, UDSLICE) && check_inverse_law(
            &self.edge4_move,
            EDGE4,
        ) && check_inverse_law(&self.edge8_move, EDGE8) && check_inverse_law(
            &self.corner_move,
            CORNER,
        )
    }

    /// Checks the group-order law on all six move tables.
    pub fn order_law_holds(&self) -> (r: bool)
        requires
            self.wf(),
        ensures
            r == self.order_law(),
    {
        check_order_law(&self.twist_move, TWIST) && check_order_law(&self.flip_move, FLIP)
            && check_order_law(&self.udslice_move, UDSLICE) && check_order_law(
            &self.edge4_move,
            EDGE4,
        ) && check_order_law(&self.edge8_move, EDGE8) && check_order_law(
            &self.corner_move,
            CORNER,
        )
    }
}

} // verus!
