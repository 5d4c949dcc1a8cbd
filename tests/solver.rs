use rubiks_solver::coord_cube::{CoordCube, Moves};
use rubiks_solver::solver::{
    invert_solution, phase_one_cost, phase_one_search, phase_one_subgoal, phase_two_closed_holds,
    phase_two_cost, phase_two_init, phase_two_subgoal, solution_to_string, solve, solve_thread,
    NO_FACE,
};
use rubiks_solver::tables::{Tables, CORNER, EDGE4, EDGE8, FLIP, N_MOVES, TWIST, UDSLICE};

fn identity_table(range: usize) -> Vec<Vec<isize>> {
    (0..range).map(|i| vec![i as isize; N_MOVES]).collect()
}

/// Quarter turns of `face` rotate the values in blocks of four; other moves fix them.
fn cycle_table(range: usize, face: usize) -> Vec<Vec<isize>> {
    (0..range)
        .map(|i| {
            (0..N_MOVES)
                .map(|m| {
                    let block = i / 4 * 4;
                    if m / 3 == face && block + 4 <= range {
                        (block + (i % 4 + m % 3 + 1) % 4) as isize
                    } else {
                        i as isize
                    }
                })
                .collect()
        })
        .collect()
}

fn zero_prune(a: usize, b: usize) -> Vec<Vec<u8>> {
    vec![vec![0u8; b]; a]
}

fn identity_tables() -> Tables {
    Tables {
        twist_move: identity_table(TWIST),
        flip_move: identity_table(FLIP),
        udslice_move: identity_table(UDSLICE),
        edge4_move: identity_table(EDGE4),
        edge8_move: identity_table(EDGE8),
        corner_move: identity_table(CORNER),
        udslice_twist_prune: zero_prune(UDSLICE, TWIST),
        udslice_flip_prune: zero_prune(UDSLICE, FLIP),
        edge4_corner_prune: zero_prune(EDGE4, CORNER),
        edge4_edge8_prune: zero_prune(EDGE4, EDGE8),
    }
}

/// R turns act on the twist coordinate, U turns on the flip coordinate.
fn r_u_tables() -> Tables {
    let mut t = identity_tables();
    t.twist_move = cycle_table(TWIST, 1);
    t.flip_move = cycle_table(FLIP, 0);
    t
}

fn solved_cube() -> CoordCube {
    CoordCube::from_cubie_cube(0, 0, 0, 0, 0, 0)
}

fn replay(t: &Tables, start: CoordCube, moves: &[usize]) -> CoordCube {
    let mut c = start;
    for &m in moves {
        c.movement(t, m);
    }
    c
}

fn all_zero(c: &CoordCube) -> bool {
    c.twist == 0 && c.flip == 0 && c.udslice == 0 && c.edge4 == 0 && c.edge8 == 0 && c.corner == 0
}

fn face_of(token: &str) -> usize {
    "URFDLB".find(token.chars().next().unwrap()).unwrap()
}

#[test]
fn identity_meets_both_subgoals() {
    let c = solved_cube();
    assert!(phase_one_subgoal(&c));
    assert!(phase_two_subgoal(&c));
    let t = identity_tables();
    let mut path = Vec::new();
    assert!(phase_one_search(&t, c, 0, 0, NO_FACE, &mut path));
    assert!(path.is_empty());
}

#[test]
fn identity_solves_to_empty_sequence() {
    let t = identity_tables();
    let c = solved_cube();
    assert_eq!(solve(&t, c, c, 5), Some(String::new()));
    assert_eq!(solve(&t, c, c, 0), Some(String::new()));
}

#[test]
fn single_r_turn_is_undone_by_r_prime() {
    let t = r_u_tables();
    let mut scrambled = solved_cube();
    scrambled.movement(&t, Moves::R1.index());
    assert_eq!(scrambled.twist, 1);
    let mut inverse = solved_cube();
    inverse.movement(&t, Moves::R3.index());
    for max_length in 1..4 {
        assert_eq!(solve(&t, scrambled, inverse, max_length), Some("R'".to_string()));
    }
    let moves = solve_thread(&t, scrambled, 1).unwrap();
    assert_eq!(moves, vec![Moves::R3.index()]);
    assert!(all_zero(&replay(&t, scrambled, &moves)));
}

#[test]
fn search_exhausted_within_bound() {
    let t = r_u_tables();
    let mut scrambled = solved_cube();
    scrambled.movement(&t, Moves::R1.index());
    assert_eq!(solve(&t, scrambled, scrambled, 0), None);
    assert_eq!(solve_thread(&t, scrambled, 0), None);
}

#[test]
fn two_face_scramble_keeps_face_order() {
    let t = r_u_tables();
    let scrambled = replay(&t, solved_cube(), &[Moves::R1.index(), Moves::U1.index()]);
    let s = solve(&t, scrambled, scrambled, 4).unwrap();
    assert_eq!(s, "U' R'");
    let tokens: Vec<&str> = s.split(' ').collect();
    for pair in tokens.windows(2) {
        let (a, b) = (face_of(pair[0]), face_of(pair[1]));
        assert_ne!(a, b);
        assert_ne!(a, b + 3);
    }
    let moves = solve_thread(&t, scrambled, 4).unwrap();
    assert!(all_zero(&replay(&t, scrambled, &moves)));
}

#[test]
fn repeated_solves_agree() {
    let t = r_u_tables();
    let scrambled = replay(&t, solved_cube(), &[Moves::U2.index(), Moves::R1.index()]);
    let first = solve(&t, scrambled, scrambled, 4);
    let second = solve(&t, scrambled, scrambled, 4);
    assert!(first.is_some());
    assert_eq!(first, second);
}

#[test]
fn inverse_variant_solution_is_undone() {
    let t = r_u_tables();
    let scrambled = replay(&t, solved_cube(), &[Moves::R1.index()]);
    let inverse = replay(&t, solved_cube(), &[Moves::R3.index()]);
    // The state as given is out of reach of a bound of zero moves, and so is the inverse.
    assert_eq!(solve(&t, scrambled, inverse, 0), None);
    // A solved state given as the inverse variant while the state itself is solved.
    assert_eq!(solve(&t, solved_cube(), inverse, 1), Some(String::new()));
}

#[test]
fn heuristic_prunes_branch() {
    let mut t = r_u_tables();
    t.udslice_twist_prune[0][1] = 5;
    let scrambled = replay(&t, solved_cube(), &[Moves::R1.index()]);
    assert_eq!(phase_one_cost(&t, &scrambled), 5);
    assert_eq!(solve(&t, scrambled, scrambled, 1), None);
    assert_eq!(solve(&t, scrambled, scrambled, 4), None);
    let moves = solve_thread(&t, scrambled, 5).unwrap();
    assert_eq!(moves.len(), 5);
    assert!(all_zero(&replay(&t, scrambled, &moves)));
}

#[test]
fn costs_take_the_larger_bound() {
    let mut t = identity_tables();
    t.udslice_twist_prune[2][3] = 4;
    t.udslice_flip_prune[2][7] = 6;
    t.edge4_corner_prune[1][9] = 3;
    t.edge4_edge8_prune[1][5] = 2;
    let c = CoordCube::from_cubie_cube(3, 7, 2, 1, 5, 9);
    assert_eq!(phase_one_cost(&t, &c), 6);
    assert_eq!(phase_two_cost(&t, &c), 3);
}

#[test]
fn phase_two_deepening_finds_half_turn() {
    let mut t = identity_tables();
    t.edge4_move = cycle_table(EDGE4, 1);
    let c = CoordCube::from_cubie_cube(0, 0, 0, 2, 0, 0);
    let mut path = vec![7];
    assert!(phase_two_init(&t, c, 3, NO_FACE, &mut path));
    assert_eq!(path, vec![7, Moves::R2.index()]);
    let mut none = Vec::new();
    assert!(!phase_two_init(&t, c, 0, NO_FACE, &mut none));
    assert!(none.is_empty());
}

#[test]
fn movement_normalizes_and_looks_up() {
    let t = r_u_tables();
    let mut c = CoordCube::from_cubie_cube(5, 2, 0, 0, 0, 0);
    c.movement(&t, Moves::R2.index());
    assert_eq!(c.twist, 7);
    c.movement(&t, Moves::U3.index());
    assert_eq!(c.flip, 1);
    let mut neg = c;
    neg.twist = 1 - TWIST as isize;
    neg.movement(&t, Moves::R1.index());
    assert_eq!(neg.twist, 2);
}

#[test]
fn notation_tokens() {
    assert_eq!(solution_to_string(&vec![0, 4, 8, 9, 13, 17]), "U R2 F' D L2 B'");
    assert_eq!(solution_to_string(&vec![]), "");
    assert_eq!(solution_to_string(&vec![15]), "B");
}

#[test]
fn inverted_solution_reverses_and_inverts() {
    assert_eq!(invert_solution(&vec![0, 4, 5]), vec![3, 4, 2]);
    assert_eq!(invert_solution(&vec![]), Vec::<usize>::new());
    assert_eq!(invert_solution(&vec![0, 9]), vec![2, 11]);
    assert_eq!(invert_solution(&vec![4, 0, 9, 13]), vec![13, 2, 11, 4]);
}

#[test]
fn inverse_attempt_used_when_first_fails() {
    let mut t = r_u_tables();
    t.udslice_twist_prune[0][1] = 5;
    let scrambled = replay(&t, solved_cube(), &[Moves::R1.index()]);
    let inverse = replay(&t, solved_cube(), &[Moves::R3.index()]);
    assert_eq!(solve(&t, scrambled, inverse, 1), Some("R'".to_string()));
}

#[test]
fn undone_opposite_faces_keep_order() {
    let mut t = identity_tables();
    t.flip_move = cycle_table(FLIP, 0);
    t.twist_move = cycle_table(TWIST, 3);
    t.udslice_twist_prune[0][1] = 5;
    let scrambled = replay(&t, solved_cube(), &[Moves::D1.index(), Moves::U1.index()]);
    let inverse = replay(&t, solved_cube(), &[Moves::U3.index(), Moves::D3.index()]);
    assert_eq!(solve_thread(&t, inverse, 2), Some(vec![Moves::U1.index(), Moves::D1.index()]));
    let s = solve(&t, scrambled, inverse, 2).unwrap();
    assert_eq!(s, "U' D'");
    let undo = [Moves::U3.index(), Moves::D3.index()];
    assert!(all_zero(&replay(&t, scrambled, &undo)));
}

#[test]
fn table_laws_checked() {
    let t = r_u_tables();
    assert!(t.inverse_law_holds());
    assert!(t.order_law_holds());
    assert!(phase_two_closed_holds(&identity_tables()));
    assert!(!phase_two_closed_holds(&t));
    let mut broken = identity_tables();
    broken.corner_move[10][4] = 11;
    assert!(!broken.inverse_law_holds());
    assert!(!broken.order_law_holds());
}

#[test]
fn move_indices() {
    assert_eq!(Moves::U1.index(), 0);
    assert_eq!(Moves::R3.index(), 5);
    assert_eq!(Moves::B3.index(), 17);
    assert_eq!(Moves::from_index(9), Moves::D1);
    for i in 0..N_MOVES {
        assert_eq!(Moves::from_index(i).index(), i);
    }
}

#[test]
fn pruning_consistency_checked() {
    let mut t = r_u_tables();
    t.udslice_twist_prune[0][1] = 1;
    t.udslice_twist_prune[0][2] = 1;
    t.udslice_twist_prune[0][3] = 1;
    assert!(t.heuristics_consistent());
    t.udslice_twist_prune[0][2] = 2;
    assert!(!t.heuristics_consistent());
    t.udslice_twist_prune[0][2] = 1;
    t.udslice_twist_prune[0][1] = 5;
    assert!(!t.heuristics_consistent());
    let mut nonzero_goal = identity_tables();
    nonzero_goal.edge4_edge8_prune[0][0] = 1;
    assert!(!nonzero_goal.heuristics_consistent());
}

#[test]
fn table_shape_checked() {
    assert!(r_u_tables().well_formed());
    let mut short = identity_tables();
    short.edge8_move.pop();
    assert!(!short.well_formed());
    let mut out_of_range = identity_tables();
    out_of_range.edge4_move[3][2] = EDGE4 as isize;
    assert!(!out_of_range.well_formed());
    let mut negative = identity_tables();
    negative.twist_move[0][0] = -1;
    assert!(!negative.well_formed());
    let mut narrow = identity_tables();
    narrow.udslice_flip_prune[4].pop();
    assert!(!narrow.well_formed());
    let mut empty = identity_tables();
    empty.corner_move = Vec::new();
    assert!(!empty.well_formed());
}

#[test]
fn state_range_checked() {
    assert!(solved_cube().in_range());
    let c = CoordCube::from_cubie_cube(TWIST - 1, FLIP - 1, UDSLICE - 1, EDGE4 - 1, EDGE8 - 1, CORNER - 1);
    assert!(c.in_range());
    let mut neg = c;
    neg.edge8 = -1;
    assert!(!neg.in_range());
    let mut big = c;
    big.corner = CORNER as isize;
    assert!(!big.in_range());
}
