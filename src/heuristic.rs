//! Admissibility of the pruning tables.
//!
//! A pruning table is consistent when no move lowers its bound by more than one and
//! it is zero at the goal. The lemmas below show that the bound of a consistent table
//! never exceeds the length of any move sequence that reaches the goal, which is what
//! the iterative-deepening searches need for their cut-offs to lose no solution.
use vstd::prelude::*;
use crate::coord_cube::CoordCube;
use crate::solver::{
    all_phase_two, apply, attempt, attempt_from, face, face_ok, lemma_ordered_valid,
    lemma_p2_search_sound, ordered, p1_cost, p1_goal, p1_search, p1_try, p2_cost, p2_from, p2_goal,
    p2_search, p2_try, phase_two_move, two_phase_solution, valid_moves, NO_FACE,
};
use crate::tables::{move_table_wf, prune_table_wf, Tables, CORNER, EDGE4, EDGE8, FLIP, N_MOVES, TWIST, UDSLICE};

verus! {

/// The moves a phase searches with: all of them, or only those of phase two.
pub open spec fn in_move_set(phase_two: bool, m: int) -> bool {
    0 <= m < N_MOVES && (!phase_two || phase_two_move(m))
}

/// Move `m` lowers the bound at `(a, b)` by at most one.
pub open spec fn consistent_at(
    p: Seq<Vec<u8>>,
    ta: Seq<Vec<isize>>,
    tb: Seq<Vec<isize>>,
    a: int,
    b: int,
    m: int,
) -> bool {
    p[a]@[b] <= 1 + p[ta[a]@[m] as int]@[tb[b]@[m] as int]
}

/// The pruning table `p`, over coordinates moved by `ta` and `tb`, is zero at the goal
/// and consistent for every move of the move set.
pub open spec fn prune_consistent(
    p: Seq<Vec<u8>>,
    ta: Seq<Vec<isize>>,
    ra: int,
    tb: Seq<Vec<isize>>,
    rb: int,
    phase_two: bool,
) -> bool {
    &&& p[0]@[0] == 0
    &&& forall|a: int, b: int, m: int|
        0 <= a < ra && 0 <= b < rb && in_move_set(phase_two, m) ==> #[trigger] consistent_at(
            p,
            ta,
            tb,
            a,
            b,
            m,
        )
}

/// All four pruning tables are consistent with the move tables.
pub open spec fn heuristics_consistent(t: Tables) -> bool {
    &&& prune_consistent(t.udslice_twist_prune@, t.udslice_move@, UDSLICE as int, t.twist_move@, TWIST as int, false)
    &&& prune_consistent(t.udslice_flip_prune@, t.udslice_move@, UDSLICE as int, t.flip_move@, FLIP as int, false)
    &&& prune_consistent(t.edge4_corner_prune@, t.edge4_move@, EDGE4 as int, t.corner_move@, CORNER as int, true)
    &&& prune_consistent(t.edge4_edge8_prune@, t.edge4_move@, EDGE4 as int, t.edge8_move@, EDGE8 as int, true)
}

/// Checks that one pruning table is consistent.
pub fn check_prune_consistent(
    p: &Vec<Vec<u8>>,
    ta: &Vec<Vec<isize>>,
    ra: usize,
    tb: &Vec<Vec<isize>>,
    rb: usize,
    phase_two: bool,
) -> (r: bool)
    requires
        0 < ra,
        0 < rb,
        move_table_wf(ta@, ra as int),
        move_table_wf(tb@, rb as int),
        prune_table_wf(p@, ra as int, rb as int),
    ensures
        r == prune_consistent(p@, ta@, ra as int, tb@, rb as int, phase_two),
{
    if p[0][0] != 0 {
        return false;
    }
    let mut a: usize = 0;
    while a < ra
        invariant
            move_table_wf(ta@, ra as int),
            move_table_wf(tb@, rb as int),
            prune_table_wf(p@, ra as int, rb as int),
            a <= ra,
            forall|a2: int, b: int, m: int|
                0 <= a2 < a && 0 <= b < rb && in_move_set(phase_two, m) ==> #[trigger] consistent_at(
                    p@,
                    ta@,
                    tb@,
                    a2,
                    b,
                    m,
                ),
        decreases ra - a,
    {
        let mut b: usize = 0;
        while b < rb
            invariant
                move_table_wf(ta@, ra as int),
                move_table_wf(tb@, rb as int),
                prune_table_wf(p@, ra as int, rb as int),
                a < ra,
                b <= rb,
                forall|a2: int, b2: int, m: int|
                    0 <= a2 < a && 0 <= b2 < rb && in_move_set(phase_two, m) ==> #[trigger] consistent_at(
                        p@,
                        ta@,
                        tb@,
                        a2,
                        b2,
                        m,
                    ),
                forall|b2: int, m: int|
                    0 <= b2 < b && in_move_set(phase_two, m) ==> #[trigger] consistent_at(
                        p@,
                        ta@,
                        tb@,
                        a as int,
                        b2,
                        m,
                    ),
            decreases rb - b,
        {
            let here = p[a][b] as usize;
            let mut m: usize = 0;
            while m < N_MOVES
                invariant
                    move_table_wf(ta@, ra as int),
                    move_table_wf(tb@, rb as int),
                    prune_table_wf(p@, ra as int, rb as int),
                    a < ra,
                    b < rb,
                    m <= N_MOVES,
                    here == p@[a as int]@[b as int],
                    forall|a2: int, b2: int, m2: int|
                        0 <= a2 < a && 0 <= b2 < rb && in_move_set(phase_two, m2) ==> #[trigger] consistent_at(
                            p@,
                            ta@,
                            tb@,
                            a2,
                            b2,
                            m2,
                        ),
                    forall|b2: int, m2: int|
                        0 <= b2 < b && in_move_set(phase_two, m2) ==> #[trigger] consistent_at(
                            p@,
                            ta@,
                            tb@,
                            a as int,
                            b2,
                            m2,
                        ),
                    forall|m2: int|
                        0 <= m2 < m && in_move_set(phase_two, m2) ==> #[trigger] consistent_at(
                            p@,
                            ta@,
                            tb@,
                            a as int,
                            b as int,
                            m2,
                        ),
                decreases N_MOVES - m,
            {
                let axis = m / 3;
                let used = !phase_two || axis == 0 || axis == 3 || m % 3 == 1;
                if used {
                    let na = ta[a][m] as usize;
                    let nb = tb[b][m] as usize;
                    if here > 1 + p[na][nb] as usize {
                        assert(!consistent_at(p@, ta@, tb@, a as int, b as int, m as int));
                        return false;
                    }
                }
                m += 1;
            }
            b += 1;
        }
        a += 1;
    }
    true
}

impl Tables {
    /// Checks that all four pruning tables are consistent with the move tables.
    pub fn heuristics_consistent(&self) -> (r: bool)
        requires
            self.wf(),
        ensures
            r == heuristics_consistent(*self),
    {
        check_prune_consistent(&self.udslice_twist_prune, &self.udslice_move, UDSLICE, &self.twist_move, TWIST, false)
            && check_prune_consistent(&self.udslice_flip_prune, &self.udslice_move, UDSLICE, &self.flip_move, FLIP, false)
            && check_prune_consistent(&self.edge4_corner_prune, &self.edge4_move, EDGE4, &self.corner_move, CORNER, true)
            && check_prune_consistent(&self.edge4_edge8_prune, &self.edge4_move, EDGE4, &self.edge8_move, EDGE8, true)
    }
}

/// A move keeps a state in range.
pub proof fn lemma_moved_normalized(t: Tables, c: CoordCube, m: int)
    requires
        t.wf(),
        c.normalized(),
        0 <= m < N_MOVES,
    ensures
        c.moved(t, m).normalized(),
{
    assert(0 <= t.twist_move@[c.twist as int]@[m] < TWIST);
    assert(0 <= t.flip_move@[c.flip as int]@[m] < FLIP);
    assert(0 <= t.udslice_move@[c.udslice as int]@[m] < UDSLICE);
    assert(0 <= t.edge4_move@[c.edge4 as int]@[m] < EDGE4);
    assert(0 <= t.edge8_move@[c.edge8 as int]@[m] < EDGE8);
    assert(0 <= t.corner_move@[c.corner as int]@[m] < CORNER);
}

/// Admissibility in phase one: on consistent tables, the phase-one bound of a state is
/// at most the length of any move sequence that takes it to the phase-one goal.
pub proof fn lemma_phase_one_admissible(t: Tables, c: CoordCube, s: Seq<usize>)
    requires
        t.wf(),
        heuristics_consistent(t),
        c.normalized(),
        valid_moves(s),
        p1_goal(apply(t, c, s)),
    ensures
        p1_cost(t, c) <= s.len(),
    decreases s.len(),
{
    if s.len() > 0 {
        let m = s[0] as int;
        let c1 = c.moved(t, m);
        lemma_moved_normalized(t, c, m);
        assert(valid_moves(s.drop_first())) by {
            assert forall|i: int| 0 <= i < s.drop_first().len() implies #[trigger] s.drop_first()[i] < N_MOVES by {
                assert(s.drop_first()[i] == s[i + 1]);
            }
        }
        lemma_phase_one_admissible(t, c1, s.drop_first());
        assert(in_move_set(false, m));
        assert(consistent_at(t.udslice_twist_prune@, t.udslice_move@, t.twist_move@, c.udslice as int, c.twist as int, m));
        assert(consistent_at(t.udslice_flip_prune@, t.udslice_move@, t.flip_move@, c.udslice as int, c.flip as int, m));
    }
}

/// Admissibility in phase two: on consistent tables, the phase-two bound of a state is
/// at most the length of any phase-two move sequence that takes it to the phase-two goal.
pub proof fn lemma_phase_two_admissible(t: Tables, c: CoordCube, s: Seq<usize>)
    requires
        t.wf(),
        heuristics_consistent(t),
        c.normalized(),
        all_phase_two(s),
        p2_goal(apply(t, c, s)),
    ensures
        p2_cost(t, c) <= s.len(),
    decreases s.len(),
{
    if s.len() > 0 {
        let m = s[0] as int;
        let c1 = c.moved(t, m);
        assert(phase_two_move(m));
        lemma_moved_normalized(t, c, m);
        assert(all_phase_two(s.drop_first())) by {
            assert forall|i: int| 0 <= i < s.drop_first().len() implies phase_two_move(#[trigger] s.drop_first()[i] as int) by {
                assert(s.drop_first()[i] == s[i + 1]);
            }
        }
        lemma_phase_two_admissible(t, c1, s.drop_first());
        assert(in_move_set(true, m));
        assert(consistent_at(t.edge4_corner_prune@, t.edge4_move@, t.corner_move@, c.edge4 as int, c.corner as int, m));
        assert(consistent_at(t.edge4_edge8_prune@, t.edge4_move@, t.edge8_move@, c.edge4 as int, c.edge8 as int, m));
    }
}

proof fn lemma_tail_phase_two(s: Seq<usize>)
    requires
        all_phase_two(s),
        s.len() > 0,
    ensures
        all_phase_two(s.drop_first()),
        phase_two_move(s[0] as int),
{
    assert forall|i: int| 0 <= i < s.drop_first().len() implies phase_two_move(#[trigger] s.drop_first()[i] as int) by {
        assert(s.drop_first()[i] == s[i + 1]);
    }
}

/// No lost solution: on consistent tables, whenever some face-ordered sequence of `d`
/// phase-two moves takes `c` to the phase-two goal, the depth-`d` search finds one.
pub proof fn lemma_p2_search_complete(t: Tables, c: CoordCube, d: nat, prev: int, s: Seq<usize>)
    requires
        t.wf(),
        heuristics_consistent(t),
        c.normalized(),
        s.len() == d,
        ordered(prev, s),
        all_phase_two(s),
        p2_goal(apply(t, c, s)),
    ensures
        p2_search(t, c, d, prev) is Some,
    decreases d, 20int,
{
    if d > 0 {
        lemma_phase_two_admissible(t, c, s);
        lemma_p2_try_complete(t, c, d, prev, 0, s);
    }
}

proof fn lemma_p2_try_complete(t: Tables, c: CoordCube, d: nat, prev: int, m: nat, s: Seq<usize>)
    requires
        t.wf(),
        heuristics_consistent(t),
        c.normalized(),
        d > 0,
        s.len() == d,
        ordered(prev, s),
        all_phase_two(s),
        p2_goal(apply(t, c, s)),
        m <= s[0],
    ensures
        p2_try(t, c, d, prev, m) is Some,
    decreases d, 19 - m,
{
    lemma_tail_phase_two(s);
    let first = s[0] as int;
    if m == first {
        lemma_moved_normalized(t, c, first);
        lemma_p2_search_complete(t, c.moved(t, first), (d - 1) as nat, face(first), s.drop_first());
    } else if !(phase_two_move(m as int) && face_ok(prev, face(m as int)) && p2_search(
        t,
        c.moved(t, m as int),
        (d - 1) as nat,
        face(m as int),
    ) is Some) {
        lemma_p2_try_complete(t, c, d, prev, m + 1, s);
    }
}

/// Phase-two optimality: on consistent tables, whenever some face-ordered sequence of
/// phase-two moves within `budget` takes `c` to the phase-two goal, the phase-two
/// deepening succeeds, with a sequence no longer than that one.
pub proof fn lemma_p2_from_shortest(t: Tables, c: CoordCube, budget: nat, prev: int, s: Seq<usize>)
    requires
        t.wf(),
        heuristics_consistent(t),
        c.normalized(),
        s.len() <= budget,
        ordered(prev, s),
        all_phase_two(s),
        p2_goal(apply(t, c, s)),
    ensures
        p2_from(t, c, 0, budget, prev) is Some,
        p2_from(t, c, 0, budget, prev)->0.len() <= s.len(),
{
    lemma_p2_from_shortest_at(t, c, 0, budget, prev, s);
}

proof fn lemma_p2_from_shortest_at(t: Tables, c: CoordCube, d: nat, budget: nat, prev: int, s: Seq<usize>)
    requires
        t.wf(),
        heuristics_consistent(t),
        c.normalized(),
        d <= s.len() <= budget,
        ordered(prev, s),
        all_phase_two(s),
        p2_goal(apply(t, c, s)),
    ensures
        p2_from(t, c, d, budget, prev) is Some,
        p2_from(t, c, d, budget, prev)->0.len() <= s.len(),
    decreases s.len() - d,
{
    if p2_search(t, c, d, prev) is Some {
        lemma_p2_search_sound(t, c, d, prev);
    } else {
        if d == s.len() {
            lemma_p2_search_complete(t, c, d, prev, s);
        }
        lemma_p2_from_shortest_at(t, c, d + 1, budget, prev, s);
    }
}

/// No lost solution in phase one: on consistent tables, whenever a two-phase sequence
/// with `d` phase-one moves and at most `rest` moves in all solves `c`, the depth-`d`
/// phase-one search finds one.
pub proof fn lemma_p1_search_complete(t: Tables, c: CoordCube, d: nat, prev: int, rest: nat, s: Seq<usize>)
    requires
        t.wf(),
        heuristics_consistent(t),
        c.normalized(),
        two_phase_solution(t, c, d, prev, rest, s),
    ensures
        p1_search(t, c, d, prev, rest) is Some,
    decreases d, 20int,
{
    if d == 0 {
        assert(s.take(0) =~= Seq::<usize>::empty());
        assert(s.skip(0) =~= s);
        lemma_p2_from_shortest(t, c, rest, prev, s);
    } else {
        lemma_ordered_valid(prev, s);
        let a = s.take(d as int);
        assert(valid_moves(a)) by {
            assert forall|i: int| 0 <= i < a.len() implies #[trigger] a[i] < N_MOVES by {
                assert(a[i] == s[i]);
            }
        }
        lemma_phase_one_admissible(t, c, a);
        lemma_p1_try_complete(t, c, d, prev, rest, 0, s);
    }
}

proof fn lemma_p1_try_complete(t: Tables, c: CoordCube, d: nat, prev: int, rest: nat, m: nat, s: Seq<usize>)
    requires
        t.wf(),
        heuristics_consistent(t),
        c.normalized(),
        d > 0,
        two_phase_solution(t, c, d, prev, rest, s),
        m <= s[0],
    ensures
        p1_try(t, c, d, prev, rest, m) is Some,
    decreases d, 19 - m,
{
    let first = s[0] as int;
    if m == first {
        let c1 = c.moved(t, first);
        let tail = s.drop_first();
        lemma_moved_normalized(t, c, first);
        assert(s.take(d as int).drop_first() =~= tail.take(d - 1));
        assert(tail.skip(d - 1) =~= s.skip(d as int));
        lemma_p1_search_complete(t, c1, (d - 1) as nat, face(first), (rest - 1) as nat, tail);
    } else if !(face_ok(prev, face(m as int)) && p1_search(
        t,
        c.moved(t, m as int),
        (d - 1) as nat,
        face(m as int),
        (rest - 1) as nat,
    ) is Some) {
        lemma_p1_try_complete(t, c, d, prev, rest, m + 1, s);
    }
}

/// Completeness of a search attempt: on consistent tables, whenever some two-phase
/// sequence of at most `max_length` moves solves `c`, the attempt finds a solution.
pub proof fn lemma_attempt_complete(t: Tables, c: CoordCube, max_length: nat, d: nat, s: Seq<usize>)
    requires
        t.wf(),
        heuristics_consistent(t),
        c.normalized(),
        two_phase_solution(t, c, d, NO_FACE as int, max_length, s),
    ensures
        attempt(t, c, max_length) is Some,
{
    lemma_attempt_from_complete(t, c, max_length, 0, d, s);
}

proof fn lemma_attempt_from_complete(t: Tables, c: CoordCube, max_length: nat, d0: nat, d: nat, s: Seq<usize>)
    requires
        t.wf(),
        heuristics_consistent(t),
        c.normalized(),
        d0 <= d,
        two_phase_solution(t, c, d, NO_FACE as int, max_length, s),
    ensures
        attempt_from(t, c, d0, max_length) is Some,
    decreases d - d0,
{
    if d0 == d {
        lemma_p1_search_complete(t, c, d, NO_FACE as int, max_length, s);
    } else if p1_search(t, c, d0, NO_FACE as int, max_length) is None {
        lemma_attempt_from_complete(t, c, max_length, d0 + 1, d, s);
    }
}

} // verus!
