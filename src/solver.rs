//! Two-phase iterative-deepening search over the coordinate model.
//!
//! Phase one reduces the state to the subgroup where the orientation and slice
//! coordinates are zero; phase two solves inside that subgroup with the moves
//! that preserve it. Each search tries moves in the fixed order U, R, F, D, L, B
//! and, per face, powers 1, 2, 3, so the solution returned is determined.
use vstd::prelude::*;
use crate::coord_cube::CoordCube;
use crate::tables::{inverse_move, Tables, N_MOVES};
use crate::heuristic::{heuristics_consistent, lemma_attempt_complete};

verus! {

/// The face recorded before the first move of a sequence.
pub const NO_FACE: usize = 6;

/// Face (axis) of move `m`: 0..6 for U, R, F, D, L, B.
pub open spec fn face(m: int) -> int {
    m / 3
}

/// Move `m` may follow a move on face `prev`: never the same face, and of two
/// opposite faces the one with the lower index comes first.
pub open spec fn face_ok(prev: int, axis: int) -> bool {
    prev == NO_FACE || (prev != axis && prev != axis + 3)
}

/// Move `m` keeps the phase-two subgroup: any power of U or D, half turns of the others.
pub open spec fn phase_two_move(m: int) -> bool {
    0 <= m < N_MOVES && (face(m) == 0 || face(m) == 3 || m % 3 == 1)
}

/// Every move of `s` is valid and may follow its predecessor (the first follows `prev`).
pub open spec fn ordered(prev: int, s: Seq<usize>) -> bool
    decreases s.len(),
{
    s.len() == 0 || (s[0] < N_MOVES && face_ok(prev, face(s[0] as int)) && ordered(
        face(s[0] as int),
        s.drop_first(),
    ))
}

/// Every move of `s` keeps the phase-two subgroup.
pub open spec fn all_phase_two(s: Seq<usize>) -> bool {
    forall|i: int| 0 <= i < s.len() ==> phase_two_move(#[trigger] s[i] as int)
}

/// The state reached from `c` by the moves of `s`, in order.
pub open spec fn apply(t: Tables, c: CoordCube, s: Seq<usize>) -> CoordCube
    decreases s.len(),
{
    if s.len() == 0 {
        c
    } else {
        apply(t, c.moved(t, s[0] as int), s.drop_first())
    }
}

/// Phase-one goal: twist, flip and slice coordinates are zero.
pub open spec fn p1_goal(c: CoordCube) -> bool {
    c.udslice == 0 && c.twist == 0 && c.flip == 0
}

/// Phase-two goal: the three permutation coordinates are zero.
pub open spec fn p2_goal(c: CoordCube) -> bool {
    c.edge4 == 0 && c.edge8 == 0 && c.corner == 0
}

/// Every coordinate is zero: the solved cube.
pub open spec fn solved(c: CoordCube) -> bool {
    p1_goal(c) && p2_goal(c)
}

/// The larger of two integers.
pub open spec fn max_int(a: int, b: int) -> int {
    if a >= b { a } else { b }
}

/// Phase-one lower bound read from the two phase-one pruning tables.
pub open spec fn p1_cost(t: Tables, c: CoordCube) -> int {
    max_int(
        t.udslice_twist_prune@[c.udslice as int]@[c.twist as int] as int,
        t.udslice_flip_prune@[c.udslice as int]@[c.flip as int] as int,
    )
}

/// Phase-two lower bound read from the two phase-two pruning tables.
pub open spec fn p2_cost(t: Tables, c: CoordCube) -> int {
    max_int(
        t.edge4_corner_prune@[c.edge4 as int]@[c.corner as int] as int,
        t.edge4_edge8_prune@[c.edge4 as int]@[c.edge8 as int] as int,
    )
}

/// The first phase-two sequence of exactly `d` moves, in move order, that reaches the
/// phase-two goal from `c` without a branch whose lower bound exceeds its depth.
pub open spec fn p2_search(t: Tables, c: CoordCube, d: nat, prev: int) -> Option<Seq<usize>>
    decreases d, 20int,
{
    if d == 0 {
        if p2_goal(c) {
            Some(Seq::empty())
        } else {
            None
        }
    } else if p2_cost(t, c) > d {
        None
    } else {
        p2_try(t, c, d, prev, 0)
    }
}

/// `p2_search` restricted to first moves `m` and later.
pub open spec fn p2_try(t: Tables, c: CoordCube, d: nat, prev: int, m: nat) -> Option<Seq<usize>>
    decreases d, 19 - m,
{
    if d == 0 || m >= N_MOVES {
        None
    } else if phase_two_move(m as int) && face_ok(prev, face(m as int)) && p2_search(
        t,
        c.moved(t, m as int),
        (d - 1) as nat,
        face(m as int),
    ) is Some {
        Some(seq![m as usize] + p2_search(t, c.moved(t, m as int), (d - 1) as nat, face(m as int))->0)
    } else {
        p2_try(t, c, d, prev, m + 1)
    }
}

/// Phase-two iterative deepening: the result at the first depth from `d` to `budget`.
pub open spec fn p2_from(t: Tables, c: CoordCube, d: nat, budget: nat, prev: int) -> Option<Seq<usize>>
    decreases budget + 1 - d,
{
    if d > budget {
        None
    } else if p2_search(t, c, d, prev) is Some {
        p2_search(t, c, d, prev)
    } else {
        p2_from(t, c, d + 1, budget, prev)
    }
}



/// The first sequence that starts with exactly `d` phase-one moves reaching the
/// phase-one goal from `c` and finishes with the phase-two deepening from there, with at
/// most `rest` moves in all.
pub open spec fn p1_search(t: Tables, c: CoordCube, d: nat, prev: int, rest: nat) -> Option<Seq<usize>>
    decreases d, 20int,
{
    if d == 0 {
        if p1_goal(c) {
            p2_from(t, c, 0, rest, prev)
        } else {
            None
        }
    } else if p1_cost(t, c) > d {
        None
    } else {
        p1_try(t, c, d, prev, rest, 0)
    }
}

/// `p1_search` restricted to first moves `m` and later.
pub open spec fn p1_try(t: Tables, c: CoordCube, d: nat, prev: int, rest: nat, m: nat) -> Option<Seq<usize>>
    decreases d, 19 - m,
{
    if d == 0 || m >= N_MOVES {
        None
    } else if face_ok(prev, face(m as int)) && p1_search(
        t,
        c.moved(t, m as int),
        (d - 1) as nat,
        face(m as int),
        (rest - 1) as nat,
    ) is Some {
        Some(
            seq![m as usize] + p1_search(
                t,
                c.moved(t, m as int),
                (d - 1) as nat,
                face(m as int),
                (rest - 1) as nat,
            )->0,
        )
    } else {
        p1_try(t, c, d, prev, rest, m + 1)
    }
}

/// One search attempt: outer deepening over the phase-one depth, from `d` to `max_length`.
pub open spec fn attempt_from(t: Tables, c: CoordCube, d: nat, max_length: nat) -> Option<Seq<usize>>
    decreases max_length + 1 - d,
{
    if d > max_length {
        None
    } else if p1_search(t, c, d, NO_FACE as int, max_length) is Some {
        p1_search(t, c, d, NO_FACE as int, max_length)
    } else {
        attempt_from(t, c, d + 1, max_length)
    }
}

/// The solution that one search attempt from `c` finds within `max_length` moves.
pub open spec fn attempt(t: Tables, c: CoordCube, max_length: nat) -> Option<Seq<usize>> {
    attempt_from(t, c, 0, max_length)
}


/// Phase-two moves leave the phase-one coordinates at zero, as the tables of a true
/// cube do.
pub open spec fn phase_two_closed(t: Tables) -> bool {
    forall|m: int|
        #![trigger phase_two_move(m)]
        phase_two_move(m) ==> t.twist_move@[0]@[m] == 0 && t.flip_move@[0]@[m] == 0
            && t.udslice_move@[0]@[m] == 0
}

/// Moving along `a + b` is moving along `a`, then along `b`.
pub proof fn lemma_apply_concat(t: Tables, c: CoordCube, a: Seq<usize>, b: Seq<usize>)
    ensures
        apply(t, c, a + b) == apply(t, apply(t, c, a), b),
    decreases a.len(),
{
    if a.len() == 0 {
        assert(a + b =~= b);
    } else {
        assert((a + b).drop_first() =~= a.drop_first() + b);
        lemma_apply_concat(t, c.moved(t, a[0] as int), a.drop_first(), b);
    }
}

/// From the phase-one goal, phase-two moves keep the phase-one goal.
pub proof fn lemma_phase_two_keeps_goal(t: Tables, c: CoordCube, s: Seq<usize>)
    requires
        phase_two_closed(t),
        p1_goal(c),
        all_phase_two(s),
    ensures
        p1_goal(apply(t, c, s)),
    decreases s.len(),
{
    if s.len() > 0 {
        assert(phase_two_move(s[0] as int));
        assert(all_phase_two(s.drop_first())) by {
            assert forall|i: int| 0 <= i < s.drop_first().len() implies phase_two_move(
                #[trigger] s.drop_first()[i] as int,
            ) by {
                assert(s.drop_first()[i] == s[i + 1]);
            }
        }
        lemma_phase_two_keeps_goal(t, c.moved(t, s[0] as int), s.drop_first());
    }
}

proof fn lemma_prepend(m: usize, r: Seq<usize>)
    ensures
        (seq![m] + r).drop_first() =~= r,
        (seq![m] + r)[0] == m,
        (seq![m] + r).len() == r.len() + 1,
{
}

/// A phase-two search result has exactly `d` face-ordered phase-two moves and reaches
/// the phase-two goal.
pub proof fn lemma_p2_search_sound(t: Tables, c: CoordCube, d: nat, prev: int)
    requires
        p2_search(t, c, d, prev) is Some,
    ensures
        ({
            let s = p2_search(t, c, d, prev)->0;
            s.len() == d && ordered(prev, s) && all_phase_two(s) && p2_goal(apply(t, c, s))
        }),
    decreases d, 20int,
{
    if d > 0 {
        lemma_p2_try_sound(t, c, d, prev, 0);
    }
}

proof fn lemma_p2_try_sound(t: Tables, c: CoordCube, d: nat, prev: int, m: nat)
    requires
        p2_try(t, c, d, prev, m) is Some,
    ensures
        ({
            let s = p2_try(t, c, d, prev, m)->0;
            s.len() == d && ordered(prev, s) && all_phase_two(s) && p2_goal(apply(t, c, s))
        }),
    decreases d, 19 - m,
{
    if d == 0 || m >= N_MOVES {
    } else if phase_two_move(m as int) && face_ok(prev, face(m as int)) && p2_search(
        t,
        c.moved(t, m as int),
        (d - 1) as nat,
        face(m as int),
    ) is Some {
        let r = p2_search(t, c.moved(t, m as int), (d - 1) as nat, face(m as int))->0;
        lemma_p2_search_sound(t, c.moved(t, m as int), (d - 1) as nat, face(m as int));
        lemma_prepend(m as usize, r);
        let s = seq![m as usize] + r;
        assert forall|i: int| 0 <= i < s.len() implies phase_two_move(#[trigger] s[i] as int) by {
            if i > 0 {
                assert(s[i] == r[i - 1]);
            }
        }
    } else {
        lemma_p2_try_sound(t, c, d, prev, m + 1);
    }
}

proof fn lemma_p2_from_sound(t: Tables, c: CoordCube, d: nat, budget: nat, prev: int)
    requires
        p2_from(t, c, d, budget, prev) is Some,
    ensures
        ({
            let s = p2_from(t, c, d, budget, prev)->0;
            s.len() <= budget && ordered(prev, s) && all_phase_two(s) && p2_goal(apply(t, c, s))
        }),
    decreases budget + 1 - d,
{
    if d <= budget {
        if p2_search(t, c, d, prev) is Some {
            lemma_p2_search_sound(t, c, d, prev);
        } else {
            lemma_p2_from_sound(t, c, d + 1, budget, prev);
        }
    }
}

/// What a phase-one result is made of: `d` moves to the phase-one goal, then
/// phase-two moves to the phase-two goal.
pub open spec fn two_phase_solution(t: Tables, c: CoordCube, d: nat, prev: int, rest: nat, s: Seq<usize>) -> bool {
    &&& d <= s.len() <= rest
    &&& ordered(prev, s)
    &&& p1_goal(apply(t, c, s.take(d as int)))
    &&& all_phase_two(s.skip(d as int))
    &&& p2_goal(apply(t, c, s))
}

proof fn lemma_p1_search_sound(t: Tables, c: CoordCube, d: nat, prev: int, rest: nat)
    requires
        d <= rest,
        p1_search(t, c, d, prev, rest) is Some,
    ensures
        two_phase_solution(t, c, d, prev, rest, p1_search(t, c, d, prev, rest)->0),
    decreases d, 20int,
{
    if d == 0 {
        let s = p1_search(t, c, d, prev, rest)->0;
        lemma_p2_from_sound(t, c, 0, rest, prev);
        assert(s.take(0) =~= Seq::<usize>::empty());
        assert(s.skip(0) =~= s);
    } else {
        lemma_p1_try_sound(t, c, d, prev, rest, 0);
    }
}

proof fn lemma_p1_try_sound(t: Tables, c: CoordCube, d: nat, prev: int, rest: nat, m: nat)
    requires
        d <= rest,
        p1_try(t, c, d, prev, rest, m) is Some,
    ensures
        two_phase_solution(t, c, d, prev, rest, p1_try(t, c, d, prev, rest, m)->0),
    decreases d, 19 - m,
{
    if d == 0 || m >= N_MOVES {
    } else if face_ok(prev, face(m as int)) && p1_search(
        t,
        c.moved(t, m as int),
        (d - 1) as nat,
        face(m as int),
        (rest - 1) as nat,
    ) is Some {
        let c1 = c.moved(t, m as int);
        let r = p1_search(t, c1, (d - 1) as nat, face(m as int), (rest - 1) as nat)->0;
        lemma_p1_search_sound(t, c1, (d - 1) as nat, face(m as int), (rest - 1) as nat);
        lemma_prepend(m as usize, r);
        let s = seq![m as usize] + r;
        assert(s.take(d as int).drop_first() =~= r.take(d - 1));
        assert(s.skip(d as int) =~= r.skip(d - 1));
    } else {
        lemma_p1_try_sound(t, c, d, prev, rest, m + 1);
    }
}

/// A search attempt's solution starts with no face before it, keeps the face
/// ordering, fits in `max_length`, and reaches the phase-two goal after passing through
/// the phase-one goal; where the tables keep the phase-two subgroup closed it reaches
/// the solved state.
pub proof fn lemma_attempt_sound(t: Tables, c: CoordCube, max_length: nat)
    requires
        attempt(t, c, max_length) is Some,
    ensures
        ({
            let s = attempt(t, c, max_length)->0;
            &&& s.len() <= max_length
            &&& ordered(NO_FACE as int, s)
            &&& p2_goal(apply(t, c, s))
            &&& phase_two_closed(t) ==> solved(apply(t, c, s))
        }),
{
    lemma_attempt_from_sound(t, c, 0, max_length);
}

proof fn lemma_attempt_from_sound(t: Tables, c: CoordCube, d: nat, max_length: nat)
    requires
        attempt_from(t, c, d, max_length) is Some,
    ensures
        ({
            let s = attempt_from(t, c, d, max_length)->0;
            &&& s.len() <= max_length
            &&& ordered(NO_FACE as int, s)
            &&& p2_goal(apply(t, c, s))
            &&& phase_two_closed(t) ==> solved(apply(t, c, s))
        }),
    decreases max_length + 1 - d,
{
    if d <= max_length {
        if p1_search(t, c, d, NO_FACE as int, max_length) is Some {
            let s = p1_search(t, c, d, NO_FACE as int, max_length)->0;
            lemma_p1_search_sound(t, c, d, NO_FACE as int, max_length);
            if phase_two_closed(t) {
                let a = s.take(d as int);
                let b = s.skip(d as int);
                assert(a + b =~= s);
                lemma_apply_concat(t, c, a, b);
                lemma_phase_two_keeps_goal(t, apply(t, c, a), b);
            }
        } else {
            lemma_attempt_from_sound(t, c, d + 1, max_length);
        }
    }
}


/// Letter of face `a` in standard notation.
pub open spec fn face_letter(a: int) -> char {
    if a == 0 {
        'U'
    } else if a == 1 {
        'R'
    } else if a == 2 {
        'F'
    } else if a == 3 {
        'D'
    } else if a == 4 {
        'L'
    } else {
        'B'
    }
}

/// Suffix of the power of move `m`: none for a quarter turn, `2` for a half turn, `'`
/// for an inverse quarter turn.
pub open spec fn power_suffix(m: int) -> Seq<char> {
    if m % 3 == 0 {
        Seq::empty()
    } else if m % 3 == 1 {
        seq!['2']
    } else {
        seq!['\'']
    }
}

/// The notation token of move `m`.
pub open spec fn token(m: int) -> Seq<char> {
    seq![face_letter(face(m))] + power_suffix(m)
}

/// The tokens of the moves of `s`, separated by single spaces.
pub open spec fn notation(s: Seq<usize>) -> Seq<char>
    decreases s.len(),
{
    if s.len() == 0 {
        Seq::empty()
    } else if s.len() == 1 {
        token(s[0] as int)
    } else {
        notation(s.drop_last()) + seq![' '] + token(s.last() as int)
    }
}

/// Every entry of `s` is a move.
pub open spec fn valid_moves(s: Seq<usize>) -> bool {
    forall|i: int| 0 <= i < s.len() ==> #[trigger] s[i] < N_MOVES
}

/// The sequence that undoes `s`: its moves in reverse order, each inverted; where
/// reversal would put a face right after its opposite face of lower index, that pair of
/// commuting moves keeps the order it has in `s`.
pub open spec fn undo(s: Seq<usize>) -> Seq<usize>
    decreases s.len(),
{
    if s.len() == 0 {
        Seq::empty()
    } else if s.len() >= 2 && face(s[s.len() - 1] as int) == face(s[s.len() - 2] as int) + 3 {
        seq![
            inverse_move(s[s.len() - 2] as int) as usize,
            inverse_move(s[s.len() - 1] as int) as usize,
        ] + undo(s.take(s.len() - 2))
    } else {
        seq![inverse_move(s[s.len() - 1] as int) as usize] + undo(s.drop_last())
    }
}

/// Face of the first move of `undo(s)`.
pub open spec fn undo_lead_face(s: Seq<usize>) -> int {
    if s.len() >= 2 && face(s[s.len() - 1] as int) == face(s[s.len() - 2] as int) + 3 {
        face(s[s.len() - 2] as int)
    } else {
        face(s[s.len() - 1] as int)
    }
}

/// Move `i` of `s` may follow move `i - 1`.
pub open spec fn adjacent_at(s: Seq<usize>, i: int) -> bool {
    face_ok(face(s[i - 1] as int), face(s[i] as int))
}

/// Every two neighbouring moves of `s` keep the face ordering.
pub open spec fn adjacent_ok(s: Seq<usize>) -> bool {
    forall|i: int| 0 < i < s.len() ==> #[trigger] adjacent_at(s, i)
}

/// The moves `solve` settles on: the solution of the state as given when that attempt
/// succeeds, else the undoing of the solution found for the inverse state.
pub open spec fn solve_moves(t: Tables, cc: CoordCube, inverse: CoordCube, max_length: nat) -> Option<Seq<usize>> {
    if attempt(t, cc, max_length) is Some {
        attempt(t, cc, max_length)
    } else if attempt(t, inverse, max_length) is Some {
        Some(undo(attempt(t, inverse, max_length)->0))
    } else {
        None
    }
}

/// The solved state meets both subgoals at depth zero, and on any tables and any bound
/// the search settles on the empty sequence for it.
pub proof fn lemma_solved_needs_no_moves(t: Tables, cc: CoordCube, inverse: CoordCube, max_length: nat)
    requires
        solved(cc),
    ensures
        p1_goal(cc),
        p2_goal(cc),
        p1_search(t, cc, 0, NO_FACE as int, max_length) == Some(Seq::<usize>::empty()),
        solve_moves(t, cc, inverse, max_length) == Some(Seq::<usize>::empty()),
        notation(Seq::<usize>::empty()) == Seq::<char>::empty(),
{
    assert(p2_search(t, cc, 0, NO_FACE as int) == Some(Seq::<usize>::empty()));
    assert(p2_from(t, cc, 0, max_length, NO_FACE as int) == Some(Seq::<usize>::empty()));
    assert(attempt_from(t, cc, 0, max_length) == Some(Seq::<usize>::empty()));
}

/// Determinism: two results that each meet the contract of `solve` on the same
/// arguments are equal, so repeated calls return the same solution, of the same length.
pub proof fn lemma_solve_deterministic(
    t: Tables,
    cc: CoordCube,
    inverse: CoordCube,
    max_length: nat,
    r1: Option<Seq<char>>,
    r2: Option<Seq<char>>,
)
    requires
        r1 is Some == solve_moves(t, cc, inverse, max_length) is Some,
        r1 is Some ==> r1->0 == notation(solve_moves(t, cc, inverse, max_length)->0),
        r2 is Some == solve_moves(t, cc, inverse, max_length) is Some,
        r2 is Some ==> r2->0 == notation(solve_moves(t, cc, inverse, max_length)->0),
    ensures
        r1 == r2,
{
}

/// An attempt that finds nothing on consistent tables leaves no two-phase solution
/// within the bound.
proof fn lemma_no_solution(t: Tables, c: CoordCube, max_length: nat)
    requires
        t.wf(),
        c.normalized(),
        attempt(t, c, max_length) is None,
    ensures
        heuristics_consistent(t) ==> forall|d: nat, s: Seq<usize>|
            !#[trigger] two_phase_solution(t, c, d, NO_FACE as int, max_length, s),
{
    if heuristics_consistent(t) {
        assert forall|d: nat, s: Seq<usize>| !#[trigger] two_phase_solution(t, c, d, NO_FACE as int, max_length, s) by {
            if two_phase_solution(t, c, d, NO_FACE as int, max_length, s) {
                lemma_attempt_complete(t, c, max_length, d, s);
            }
        }
    }
}

proof fn lemma_inverse_face(m: int)
    requires
        0 <= m < N_MOVES,
    ensures
        face(inverse_move(m)) == face(m),
        0 <= inverse_move(m) < N_MOVES,
{
}

/// A face-ordered sequence has face-ordered neighbours, and its first move may follow `prev`.
proof fn lemma_ordered_adjacent(prev: int, s: Seq<usize>)
    requires
        ordered(prev, s),
    ensures
        adjacent_ok(s),
        valid_moves(s),
        s.len() > 0 ==> face_ok(prev, face(s[0] as int)),
    decreases s.len(),
{
    lemma_ordered_valid(prev, s);
    if s.len() > 0 {
        let r = s.drop_first();
        lemma_ordered_adjacent(face(s[0] as int), r);
        assert forall|i: int| 0 < i < s.len() implies #[trigger] adjacent_at(s, i) by {
            if i > 1 {
                assert(s[i - 1] == r[i - 2] && s[i] == r[i - 1]);
                assert(adjacent_at(r, i - 1));
            }
        }
    }
}

/// Undoing a sequence whose neighbours keep the face ordering gives a face-ordered
/// sequence, after any face that may precede its first move.
proof fn lemma_undo_ordered(prev: int, s: Seq<usize>)
    requires
        adjacent_ok(s),
        valid_moves(s),
        s.len() > 0 ==> face_ok(prev, undo_lead_face(s)),
    ensures
        ordered(prev, undo(s)),
        undo(s).len() == s.len(),
    decreases s.len(),
{
    let n = s.len() as int;
    if n == 0 {
        return;
    }
    if n >= 2 && face(s[n - 1] as int) == face(s[n - 2] as int) + 3 {
        let rest = s.take(n - 2);
        let x = inverse_move(s[n - 2] as int) as usize;
        let y = inverse_move(s[n - 1] as int) as usize;
        lemma_inverse_face(s[n - 2] as int);
        lemma_inverse_face(s[n - 1] as int);
        assert forall|i: int| 0 < i < rest.len() implies #[trigger] adjacent_at(rest, i) by {
            assert(adjacent_at(s, i));
        }
        if rest.len() > 0 {
            assert(adjacent_at(s, n - 2));
            if rest.len() >= 2 && face(rest[rest.len() - 1] as int) == face(rest[rest.len() - 2] as int) + 3 {
                assert(adjacent_at(s, n - 3));
            }
        }
        lemma_undo_ordered(face(y as int), rest);
        let u = seq![x, y] + undo(rest);
        let v = seq![y] + undo(rest);
        assert(v.drop_first() =~= undo(rest));
        assert(ordered(face(x as int), v));
        assert(u.drop_first() =~= v);
        assert(ordered(prev, u));
        assert(undo(s) == u);
    } else {
        let rest = s.drop_last();
        let y = inverse_move(s[n - 1] as int) as usize;
        lemma_inverse_face(s[n - 1] as int);
        assert forall|i: int| 0 < i < rest.len() implies #[trigger] adjacent_at(rest, i) by {
            assert(adjacent_at(s, i));
        }
        if rest.len() > 0 {
            assert(adjacent_at(s, n - 1));
            if rest.len() >= 2 && face(rest[rest.len() - 1] as int) == face(rest[rest.len() - 2] as int) + 3 {
                assert(adjacent_at(s, n - 2));
            }
        }
        lemma_undo_ordered(face(y as int), rest);
        let u = seq![y] + undo(rest);
        assert(u.drop_first() =~= undo(rest));
        assert(ordered(prev, u));
        assert(undo(s) == u);
    }
}

/// Every sequence `solve` settles on keeps the face ordering and fits in `max_length`.
pub proof fn lemma_solve_moves_ordered(t: Tables, cc: CoordCube, inverse: CoordCube, max_length: nat)
    requires
        solve_moves(t, cc, inverse, max_length) is Some,
    ensures
        ordered(NO_FACE as int, solve_moves(t, cc, inverse, max_length)->0),
        solve_moves(t, cc, inverse, max_length)->0.len() <= max_length,
{
    if attempt(t, cc, max_length) is Some {
        lemma_attempt_sound(t, cc, max_length);
    } else {
        let s = attempt(t, inverse, max_length)->0;
        lemma_attempt_sound(t, inverse, max_length);
        lemma_ordered_adjacent(NO_FACE as int, s);
        lemma_undo_ordered(NO_FACE as int, s);
    }
}

/// The moves of a face-ordered sequence are valid moves.
pub proof fn lemma_ordered_valid(prev: int, s: Seq<usize>)
    requires
        ordered(prev, s),
    ensures
        valid_moves(s),
    decreases s.len(),
{
    if s.len() > 0 {
        lemma_ordered_valid(face(s[0] as int), s.drop_first());
        assert forall|i: int| 0 <= i < s.len() implies #[trigger] s[i] < N_MOVES by {
            if i > 0 {
                assert(s[i] == s.drop_first()[i - 1]);
            }
        }
    }
}

/// Exec form of `face_ok`.
fn face_allowed(prev: usize, axis: usize) -> (r: bool)
    requires
        axis < 6,
    ensures
        r == face_ok(prev as int, axis as int),
{
    prev == NO_FACE || (prev != axis && prev != axis + 3)
}

/// Exec form of `phase_two_move`.
fn is_phase_two_move(m: usize) -> (r: bool)
    requires
        m < N_MOVES,
    ensures
        r == phase_two_move(m as int),
{
    let axis = m / 3;
    axis == 0 || axis == 3 || m % 3 == 1
}

/// Whether the state meets the phase-two goal.
pub fn phase_two_subgoal(cc: &CoordCube) -> (r: bool)
    ensures
        r == p2_goal(*cc),
{
    cc.edge4 == 0 && cc.edge8 == 0 && cc.corner == 0
}

/// Lower bound on the phase-two moves still needed.
pub fn phase_two_cost(t: &Tables, cc: &CoordCube) -> (r: usize)
    requires
        t.wf(),
        cc.normalized(),
    ensures
        r == p2_cost(*t, *cc),
{
    let a = t.edge4_corner_prune[cc.edge4 as usize][cc.corner as usize];
    let b = t.edge4_edge8_prune[cc.edge4 as usize][cc.edge8 as usize];
    if a >= b { a as usize } else { b as usize }
}

/// Depth-bounded phase-two search: looks for `p2_search(t, cc, depth, prev)` and, on
/// success, appends its moves to `path`.
pub fn phase_two_search(
    t: &Tables,
    cc: CoordCube,
    depth: usize,
    prev: usize,
    path: &mut Vec<usize>,
) -> (r: bool)
    requires
        t.wf(),
        cc.normalized(),
    ensures
        r == p2_search(*t, cc, depth as nat, prev as int) is Some,
        r ==> final(path)@ == old(path)@ + p2_search(*t, cc, depth as nat, prev as int)->0,
        !r ==> final(path)@ == old(path)@,
    decreases depth,
{
    if depth == 0 {
        return phase_two_subgoal(&cc);
    }
    if phase_two_cost(t, &cc) > depth {
        return false;
    }
    let mut m: usize = 0;
    while m < N_MOVES
        invariant
            t.wf(),
            cc.normalized(),
            depth > 0,
            m <= N_MOVES,
            p2_search(*t, cc, depth as nat, prev as int) == p2_try(*t, cc, depth as nat, prev as int, m as nat),
            path@ == old(path)@,
        decreases N_MOVES - m,
    {
        if is_phase_two_move(m) && face_allowed(prev, m / 3) {
            let mut next = cc;
            next.movement(t, m);
            path.push(m);
            if phase_two_search(t, next, depth - 1, m / 3, path) {
                assert(path@ =~= old(path)@ + p2_search(*t, cc, depth as nat, prev as int)->0);
                return true;
            }
            path.pop();
        }
        m += 1;
    }
    false
}

/// Phase-two iterative deepening over depths `0..=max_length`; on success appends the
/// moves of `p2_from(t, cc, 0, max_length, prev)` to `path`.
pub fn phase_two_init(
    t: &Tables,
    cc: CoordCube,
    max_length: usize,
    prev: usize,
    path: &mut Vec<usize>,
) -> (r: bool)
    requires
        t.wf(),
        cc.normalized(),
    ensures
        r == p2_from(*t, cc, 0, max_length as nat, prev as int) is Some,
        r ==> final(path)@ == old(path)@ + p2_from(*t, cc, 0, max_length as nat, prev as int)->0,
        !r ==> final(path)@ == old(path)@,
{
    let mut d: usize = 0;
    loop
        invariant
            t.wf(),
            cc.normalized(),
            d <= max_length,
            p2_from(*t, cc, 0, max_length as nat, prev as int) == p2_from(*t, cc, d as nat, max_length as nat, prev as int),
            path@ == old(path)@,
        decreases max_length - d,
    {
        if phase_two_search(t, cc, d, prev, path) {
            return true;
        }
        if d == max_length {
            assert(p2_from(*t, cc, (d + 1) as nat, max_length as nat, prev as int) is None);
            return false;
        }
        d += 1;
    }
}


/// Whether the state meets the phase-one goal.
pub fn phase_one_subgoal(cc: &CoordCube) -> (r: bool)
    ensures
        r == p1_goal(*cc),
{
    cc.udslice == 0 && cc.twist == 0 && cc.flip == 0
}

/// Lower bound on the phase-one moves still needed.
pub fn phase_one_cost(t: &Tables, cc: &CoordCube) -> (r: usize)
    requires
        t.wf(),
        cc.normalized(),
    ensures
        r == p1_cost(*t, *cc),
{
    let a = t.udslice_twist_prune[cc.udslice as usize][cc.twist as usize];
    let b = t.udslice_flip_prune[cc.udslice as usize][cc.flip as usize];
    if a >= b { a as usize } else { b as usize }
}

/// Depth-bounded phase-one search with `max_length` moves left in all: looks for
/// `p1_search(t, cc, depth, prev, max_length)` and, on success, appends its moves to `path`.
pub fn phase_one_search(
    t: &Tables,
    cc: CoordCube,
    depth: usize,
    max_length: usize,
    prev: usize,
    path: &mut Vec<usize>,
) -> (r: bool)
    requires
        t.wf(),
        cc.normalized(),
        depth <= max_length,
    ensures
        r == p1_search(*t, cc, depth as nat, prev as int, max_length as nat) is Some,
        r ==> final(path)@ == old(path)@ + p1_search(*t, cc, depth as nat, prev as int, max_length as nat)->0,
        !r ==> final(path)@ == old(path)@,
    decreases depth,
{
    if depth == 0 {
        if phase_one_subgoal(&cc) {
            return phase_two_init(t, cc, max_length, prev, path);
        }
        return false;
    }
    if phase_one_cost(t, &cc) > depth {
        return false;
    }
    let mut m: usize = 0;
    while m < N_MOVES
        invariant
            t.wf(),
            cc.normalized(),
            0 < depth <= max_length,
            m <= N_MOVES,
            p1_search(*t, cc, depth as nat, prev as int, max_length as nat) == p1_try(
                *t,
                cc,
                depth as nat,
                prev as int,
                max_length as nat,
                m as nat,
            ),
            path@ == old(path)@,
        decreases N_MOVES - m,
    {
        if face_allowed(prev, m / 3) {
            let mut next = cc;
            next.movement(t, m);
            path.push(m);
            if phase_one_search(t, next, depth - 1, max_length - 1, m / 3, path) {
                assert(path@ =~= old(path)@ + p1_search(
                    *t,
                    cc,
                    depth as nat,
                    prev as int,
                    max_length as nat,
                )->0);
                return true;
            }
            path.pop();
        }
        m += 1;
    }
    false
}

/// One search attempt from `cc`: phase-one depths `0..=max_length` in turn.
pub fn solve_thread(t: &Tables, cc: CoordCube, max_length: usize) -> (r: Option<Vec<usize>>)
    requires
        t.wf(),
        cc.normalized(),
    ensures
        r is Some == attempt(*t, cc, max_length as nat) is Some,
        r is Some ==> r->0@ == attempt(*t, cc, max_length as nat)->0,
        r is Some ==> r->0@.len() <= max_length,
        r is Some ==> ordered(NO_FACE as int, r->0@),
        r is Some ==> p2_goal(apply(*t, cc, r->0@)),
        r is Some && phase_two_closed(*t) ==> solved(apply(*t, cc, r->0@)),
        r is None && heuristics_consistent(*t) ==> forall|d: nat, s: Seq<usize>|
            !#[trigger] two_phase_solution(*t, cc, d, NO_FACE as int, max_length as nat, s),
{
    let mut d: usize = 0;
    loop
        invariant
            t.wf(),
            cc.normalized(),
            d <= max_length,
            attempt(*t, cc, max_length as nat) == attempt_from(*t, cc, d as nat, max_length as nat),
        decreases max_length - d,
    {
        let mut path: Vec<usize> = Vec::new();
        if phase_one_search(t, cc, d, max_length, NO_FACE, &mut path) {
            assert(path@ =~= attempt(*t, cc, max_length as nat)->0);
            proof {
                lemma_attempt_sound(*t, cc, max_length as nat);
            }
            return Some(path);
        }
        if d == max_length {
            assert(attempt_from(*t, cc, (d + 1) as nat, max_length as nat) is None);
            proof {
                lemma_no_solution(*t, cc, max_length as nat);
            }
            return None;
        }
        d += 1;
    }
}


/// Checks that the phase-two moves keep the phase-one coordinates at zero.
pub fn phase_two_closed_holds(t: &Tables) -> (r: bool)
    requires
        t.wf(),
    ensures
        r == phase_two_closed(*t),
{
    let mut m: usize = 0;
    while m < N_MOVES
        invariant
            t.wf(),
            m <= N_MOVES,
            forall|m2: int|
                #![trigger phase_two_move(m2)]
                0 <= m2 < m && phase_two_move(m2) ==> t.twist_move@[0]@[m2] == 0
                    && t.flip_move@[0]@[m2] == 0 && t.udslice_move@[0]@[m2] == 0,
        decreases N_MOVES - m,
    {
        if is_phase_two_move(m) && (t.twist_move[0][m] != 0 || t.flip_move[0][m] != 0
            || t.udslice_move[0][m] != 0) {
            assert(phase_two_move(m as int));
            return false;
        }
        m += 1;
    }
    true
}

/// Appends the notation token of move `m`.
fn append_token(out: &mut String, m: usize)
    requires
        m < N_MOVES,
    ensures
        final(out)@ == old(out)@ + token(m as int),
{
    let a = m / 3;
    if a == 0 {
        proof {
            reveal_strlit("U");
        }
        out.append("U");
    } else if a == 1 {
        proof {
            reveal_strlit("R");
        }
        out.append("R");
    } else if a == 2 {
        proof {
            reveal_strlit("F");
        }
        out.append("F");
    } else if a == 3 {
        proof {
            reveal_strlit("D");
        }
        out.append("D");
    } else if a == 4 {
        proof {
            reveal_strlit("L");
        }
        out.append("L");
    } else {
        proof {
            reveal_strlit("B");
        }
        out.append("B");
    }
    let p = m % 3;
    if p == 1 {
        proof {
            reveal_strlit("2");
        }
        out.append("2");
    } else if p == 2 {
        proof {
            reveal_strlit("'");
        }
        out.append("'");
    }
    assert(out@ =~= old(out)@ + token(m as int));
}

/// Renders a move sequence in standard notation, tokens joined by single spaces.
pub fn solution_to_string(moves: &Vec<usize>) -> (r: String)
    requires
        valid_moves(moves@),
    ensures
        r@ == notation(moves@),
{
    let mut out = String::new();
    let mut i: usize = 0;
    while i < moves.len()
        invariant
            valid_moves(moves@),
            i <= moves.len(),
            out@ == notation(moves@.take(i as int)),
        decreases moves.len() - i,
    {
        proof {
            reveal_strlit(" ");
        }
        let ghost before = out@;
        if i > 0 {
            out.append(" ");
        }
        append_token(&mut out, moves[i]);
        assert(moves@.take(i + 1).drop_last() =~= moves@.take(i as int));
        assert(moves@.take(i + 1).last() == moves@[i as int]);
        if i == 0 {
            assert(out@ =~= notation(moves@.take(1)));
        } else {
            assert(out@ =~= before + seq![' '] + token(moves@[i as int] as int));
        }
        i += 1;
    }
    assert(moves@.take(moves.len() as int) =~= moves@);
    out
}

/// The moves that undo `moves`: `undo(moves)`.
pub fn invert_solution(moves: &Vec<usize>) -> (r: Vec<usize>)
    requires
        valid_moves(moves@),
    ensures
        r@ == undo(moves@),
{
    let mut out: Vec<usize> = Vec::new();
    let mut j: usize = moves.len();
    assert(moves@.take(j as int) =~= moves@);
    while j > 0
        invariant
            valid_moves(moves@),
            j <= moves.len(),
            undo(moves@) == out@ + undo(moves@.take(j as int)),
        decreases j,
    {
        let ghost s = moves@.take(j as int);
        let last = moves[j - 1];
        if j >= 2 && last / 3 == moves[j - 2] / 3 + 3 {
            let before = moves[j - 2];
            out.push(3 * (before / 3) + 2 - before % 3);
            out.push(3 * (last / 3) + 2 - last % 3);
            assert(s.take(j - 2) =~= moves@.take(j - 2));
            j -= 2;
        } else {
            out.push(3 * (last / 3) + 2 - last % 3);
            assert(s.drop_last() =~= moves@.take(j - 1));
            j -= 1;
        }
        assert(undo(moves@) =~= out@ + undo(moves@.take(j as int)));
    }
    assert(undo(moves@) =~= out@);
    out
}

/// Solves the cube: a search attempt on the state as given and, where that finds
/// nothing within `max_length` moves, one on its group inverse, whose solution is then
/// undone. Returns the moves in notation, or `None` when neither attempt finds any.
pub fn solve(t: &Tables, cc: CoordCube, inverse: CoordCube, max_length: usize) -> (r: Option<String>)
    requires
        t.wf(),
        cc.normalized(),
        inverse.normalized(),
    ensures
        r is Some == solve_moves(*t, cc, inverse, max_length as nat) is Some,
        r is Some ==> r->0@ == notation(solve_moves(*t, cc, inverse, max_length as nat)->0),
        r is Some ==> ordered(NO_FACE as int, solve_moves(*t, cc, inverse, max_length as nat)->0),
        r is Some ==> solve_moves(*t, cc, inverse, max_length as nat)->0.len() <= max_length,
        r is None && heuristics_consistent(*t) ==> forall|d: nat, s: Seq<usize>|
            !#[trigger] two_phase_solution(*t, cc, d, NO_FACE as int, max_length as nat, s),
        r is None && heuristics_consistent(*t) ==> forall|d: nat, s: Seq<usize>|
            !#[trigger] two_phase_solution(*t, inverse, d, NO_FACE as int, max_length as nat, s),
{
    match solve_thread(t, cc, max_length) {
        Some(moves) => {
            proof {
                lemma_ordered_valid(NO_FACE as int, moves@);
                lemma_solve_moves_ordered(*t, cc, inverse, max_length as nat);
            }
            Some(solution_to_string(&moves))
        },
        None => match solve_thread(t, inverse, max_length) {
            Some(moves) => {
                proof {
                    lemma_ordered_valid(NO_FACE as int, moves@);
                    lemma_solve_moves_ordered(*t, cc, inverse, max_length as nat);
                    lemma_ordered_valid(NO_FACE as int, undo(moves@));
                }
                let undone = invert_solution(&moves);
                Some(solution_to_string(&undone))
            },
            None => None,
        },
    }
}

} // verus!
