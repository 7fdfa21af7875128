use rubik::cube::Cube;
use rubik::parser::singmaster::parse;
use rubik::permutation::CubePermutation;
use rubik::solver::ida_star::{
    digest_g0, digest_g1, dist_g0, dist_g1, g0_align, g1_align, IdaStarSolver, Measure,
};
use rubik::solver::shuffle::{annealing_moves, Shuffle};
use rubik::solver::thistlethwaite::{
    all_aligned, checker_c, checker_g0, checker_g1, checker_g2, BfsSolver, CSolver, Goal,
    Thistlethwaite,
};
use rubik::solver::{reversed, RubikSolveState, RubikSolver};
use rubik::state::Rubik;
use rubik::transform::layer::RubikLayerTransform;

fn scrambled(text: &str) -> Rubik {
    let mut rubik = Rubik::new();
    rubik.execute(&parse(text).unwrap());
    rubik
}

fn tokens(ops: &[RubikLayerTransform]) -> String {
    RubikLayerTransform::sequence_to_string(ops)
}

fn replay(start: Rubik, ops: &[RubikLayerTransform]) -> Rubik {
    let mut rubik = start;
    for op in ops {
        rubik.turn(op);
    }
    rubik
}

#[test]
fn shuffle_makes_the_moves_it_reports() {
    let mut rubik = Rubik::new();
    let ops = rubik.shuffle(32);
    assert_eq!(ops.len(), 32);
    let six = Shuffle::moves();
    assert_eq!(tokens(&six), "RFBDUL");
    assert!(ops.iter().all(|op| six.contains(op)));
    assert_eq!(replay(Rubik::new(), &ops), rubik);
    // the way back: the inverses, in the opposite order
    for op in ops.iter().rev() {
        rubik.turn(&op.inverse());
    }
    assert!(rubik.is_solved());
    assert_eq!(rubik, Rubik::new());
    let mut rubik = Rubik::new();
    assert!(rubik.shuffle(0).is_empty());
    assert_eq!(rubik, Rubik::new());
}

#[test]
fn moves_of_annealing() {
    assert_eq!(
        tokens(&annealing_moves()),
        "RLFUDBR'L'F'U'D'B'R2L2F2U2D2B2ESME'S'M'E2S2M2"
    );
    assert_eq!(annealing_moves().len(), 27);
}

#[test]
fn shuffle_with_follows_the_picks() {
    let mut rubik = Rubik::new();
    let ops = rubik.shuffle_with(&[0, 1, 2, 3, 4, 5, 6, 13, 600]);
    assert_eq!(tokens(&ops), "RFBDULRFR");
    assert_eq!(rubik, scrambled("RFBDULRFR"));
    let node = Shuffle::replay(Rubik::new(), &[4, 4, 4, 4]);
    let (end, ops) = node.collect();
    assert_eq!(tokens(&ops), "UUUU");
    assert_eq!(end, Rubik::new());
    let shuffle = Shuffle::new(7);
    assert_eq!(shuffle.steps, 7);
    let (end, ops) = shuffle.solve(Rubik::new()).unwrap().collect();
    assert_eq!(ops.len(), 7);
    assert_eq!(replay(Rubik::new(), &ops), end);
}

#[test]
fn nodes_of_the_search_tree() {
    let start = scrambled("R U");
    let ops = vec![
        RubikLayerTransform::f(),
        RubikLayerTransform::bi(),
        RubikLayerTransform::m2(),
    ];
    let root = RubikSolveState::new(start, ops.clone());
    assert_eq!(*root.rubik(), start);
    let (state, path) = root.collect();
    assert_eq!(state, start);
    assert!(path.is_empty());

    let children = RubikSolveState::new(start, ops.clone()).neighbors();
    assert_eq!(children.len(), 3);
    for (child, op) in children.into_iter().zip(ops.iter()) {
        assert_eq!(*child.rubik(), replay(start, &[*op]));
        let grandchildren = child.neighbors();
        assert_eq!(grandchildren.len(), 3);
        for (grandchild, second) in grandchildren.into_iter().zip(ops.iter()) {
            let (state, path) = grandchild.collect();
            assert_eq!(path, vec![*op, *second]);
            assert_eq!(state, replay(start, &[*op, *second]));
        }
    }

    let node = RubikSolveState::new(start, ops.clone())
        .step(RubikLayerTransform::d())
        .transfer(4)
        .transfer(3)
        .follow(&vec![RubikLayerTransform::l(), RubikLayerTransform::l2()]);
    let (state, path) = node.collect();
    assert_eq!(tokens(&path), "DB'FLL2");
    assert_eq!(state, replay(start, &path));

    let (state, path) = RubikSolveState::new(start, ops.clone())
        .random_transfer()
        .random_transfer()
        .collect();
    assert_eq!(path.len(), 2);
    assert!(path.iter().all(|op| ops.contains(op)));
    assert_eq!(state, replay(start, &path));
    assert_eq!(reversed(vec![1, 2, 3]), vec![3, 2, 1]);
    assert_eq!(reversed(Vec::<u8>::new()), Vec::<u8>::new());
}

#[test]
fn goals_of_the_stages() {
    let solved = Rubik::new();
    assert!(checker_c(&solved) && checker_g0(&solved) && checker_g1(&solved) && checker_g2(&solved));
    let m = scrambled("M");
    assert!(!checker_c(&m));
    assert!(!checker_g0(&m));
    assert!(!checker_g1(&m));
    assert!(checker_g2(&m));
    let r = scrambled("R");
    assert!(checker_c(&r));
    assert!(!checker_g0(&r));
    assert!(!checker_g1(&r));
    assert!(checker_g2(&r));
    let u = scrambled("U");
    assert!(checker_g0(&u));
    assert!(checker_g1(&u));
    assert!(!checker_g2(&u));
    let half = scrambled("F2 R2");
    assert!(checker_g0(&half) && checker_g1(&half) && checker_g2(&half));
    assert!(!half.is_solved());
    for (goal, expected) in [
        (Goal::CoreFixed, true),
        (Goal::ActiveUpOrDown, true),
        (Goal::AllUpOrDown, true),
        (Goal::AllLeftOrRight, false),
        (Goal::Solved, false),
    ] {
        assert_eq!(goal.check(&u), expected);
    }
    assert!(all_aligned(&Cube::new()));
    assert!(all_aligned(&Cube::new_with_rotation(CubePermutation::x_2())));
    assert!(all_aligned(&Cube::new_with_rotation(CubePermutation::z_2())));
    assert!(!all_aligned(&Cube::new_with_rotation(CubePermutation::x_1())));
    assert!(!all_aligned(&Cube::new_with_rotation(CubePermutation::z_1())));
}

#[test]
fn breadth_first_search_finds_a_shortest_way() {
    let solve = |solver: &BfsSolver, text: &str| -> String {
        let start = scrambled(text);
        let (end, ops) = solver.solve(start).unwrap().collect();
        assert_eq!(replay(start, &ops), end);
        tokens(&ops)
    };
    assert_eq!(solve(&BfsSolver::c(), ""), "");
    assert_eq!(solve(&BfsSolver::c(), "M"), "MMM");
    assert_eq!(solve(&BfsSolver::c(), "M E"), "ESSM");
    assert_eq!(solve(&BfsSolver::g0(), "R"), "R");
    assert_eq!(solve(&BfsSolver::g0(), "R F"), "F'R");
    assert_eq!(solve(&BfsSolver::g0(), "R U F' L2"), "FU'R");
    assert_eq!(solve(&BfsSolver::g3(), "F2 R2"), "R2F2");
    assert_eq!(solve(&BfsSolver::g3(), "F2 R2 U2"), "U2R2F2");
    assert_eq!(solve(&BfsSolver::g1(), "U R2"), "");
    assert_eq!(solve(&BfsSolver::g2(), "U"), "U");
    // after the first stage the core has not been rotated
    let (end, _) = CSolver.solve(scrambled("M E S' R U")).unwrap().collect();
    assert_eq!(end.core_cube().rotation, CubePermutation::unit());
    let (end, _) = BfsSolver::g3().solve(scrambled("F2 R2 U2")).unwrap().collect();
    assert!(end.is_solved());
}

#[test]
fn breadth_first_search_gives_up_where_no_way_leads_to_the_goal() {
    let none = BfsSolver::new(vec![], Goal::Solved);
    assert!(none.solve(scrambled("R")).is_none());
    assert!(none.solve(Rubik::new()).is_some());
    let only_u2 = BfsSolver::new(vec![RubikLayerTransform::u2()], Goal::Solved);
    assert!(only_u2.solve(scrambled("R")).is_none());
    let (end, ops) = only_u2.solve(scrambled("U2")).unwrap().collect();
    assert_eq!(tokens(&ops), "U2");
    assert!(end.is_solved());
    let mut rubik = scrambled("R");
    assert_eq!(rubik.solve(only_u2), None);
    assert_eq!(rubik, scrambled("R"));
}

#[test]
fn solvers_one_after_the_other() {
    let start = scrambled("M2 F2");
    let (end, ops) = (BfsSolver::c(), BfsSolver::g3())
        .solve(start)
        .unwrap()
        .collect();
    assert_eq!(tokens(&ops), "MMR2L2B2R2L2");
    assert!(end.is_solved());
    assert_eq!(replay(start, &ops), end);
    // whichever two of three are put together first, the answer is the same
    let left = ((BfsSolver::c(), BfsSolver::g0()), BfsSolver::g3());
    let right = (BfsSolver::c(), (BfsSolver::g0(), BfsSolver::g3()));
    let start = scrambled("M R");
    let (end_left, ops_left) = left.solve(start).unwrap().collect();
    let (end_right, ops_right) = right.solve(start).unwrap().collect();
    assert_eq!(ops_left, ops_right);
    assert_eq!(end_left, end_right);
    assert_eq!(replay(start, &ops_left), end_left);
    assert!((BfsSolver::new(vec![], Goal::Solved), BfsSolver::c())
        .solve(start)
        .is_none());
    assert!((BfsSolver::c(), BfsSolver::new(vec![], Goal::Solved))
        .solve(start)
        .is_none());
}

#[test]
fn five_stages_solve_the_puzzle() {
    for text in ["", "M", "R", "F2 R2 U2", "U", "M2 U2 R2"] {
        let start = scrambled(text);
        let solver = Thistlethwaite { thread: 1 };
        let (end, ops) = solver.solve(start).unwrap().collect();
        assert!(end.is_solved(), "{:?}", text);
        assert_eq!(replay(start, &ops), end);
        let mut rubik = start;
        let found = rubik.solve(Thistlethwaite { thread: 1 }).unwrap();
        assert_eq!(found, ops);
        assert!(rubik.is_solved());
    }
    let (_, ops) = Thistlethwaite { thread: 1 }
        .solve(scrambled("R"))
        .unwrap()
        .collect();
    assert_eq!(tokens(&ops), "RR2");
}

#[test]
fn measures_and_digests() {
    let cases: [(&str, usize, usize, u64, u64); 7] = [
        ("", 0, 0, 0, 0),
        ("R", 1, 1, 69861393476, 209584180428),
        ("R F", 2, 2, 2921719834692, 2906823759052),
        ("U", 0, 1, 0, 1104897196352),
        ("F2 R2", 0, 2, 0, 1531293309132),
        ("M", 1, 0, 1116708536321, 1116708536321),
        ("R U F' L2", 1, 2, 2370890139652, 3016362200140),
    ];
    for (text, g0, g1, d0, d1) in cases {
        let rubik = scrambled(text);
        assert_eq!(dist_g0(&rubik), g0, "{:?}", text);
        assert_eq!(dist_g1(&rubik), g1, "{:?}", text);
        assert_eq!(digest_g0(&rubik), d0, "{:?}", text);
        assert_eq!(digest_g1(&rubik), d1, "{:?}", text);
        assert_eq!(Measure::G0.dist(&rubik), g0);
        assert_eq!(Measure::G1.dist(&rubik), g1);
        assert_eq!(Measure::G0.digest_of(&rubik), d0);
        assert_eq!(Measure::G1.digest_of(&rubik), d1);
    }
    let class = |p: CubePermutation| {
        let c = Cube::new_with_rotation(p);
        (g0_align(c), g1_align(c))
    };
    assert_eq!(class(CubePermutation::unit()), (0, 0));
    assert_eq!(class(CubePermutation::x_1()), (2, 2));
    assert_eq!(class(CubePermutation::y_1()), (1, 3));
    assert_eq!(class(CubePermutation::z_1()), (0, 1));
    assert_eq!(class(CubePermutation::x_2()), (0, 1));
    assert_eq!(class(CubePermutation::y_2()), (0, 2));
    assert_eq!(class(CubePermutation::z_2()), (0, 3));
    assert_eq!(class(CubePermutation::c1()), (1, 0));
    assert_eq!(class(CubePermutation::i()), (2, 0));
}

fn deepening_matches_breadth_first(text: &str) -> usize {
    let start = scrambled(text);
    let (end, ops) = IdaStarSolver::g0().solve(start).unwrap().collect();
    assert_eq!(dist_g0(&end), 0, "{:?}", text);
    assert!(checker_g0(&end));
    assert_eq!(replay(start, &ops), end);
    let set = IdaStarSolver::g0_moves();
    assert!(ops.iter().all(|op| set.contains(op)));
    // no fewer moves lead to measure zero, and the measure does not overestimate
    let (_, shortest) = BfsSolver::g0().solve(start).unwrap().collect();
    assert_eq!(ops.len(), shortest.len(), "{:?}", text);
    assert!(dist_g0(&start) <= ops.len());
    ops.len()
}

#[test]
fn deepening_search_reaches_measure_zero() {
    for (text, moves) in [
        ("", 0),
        ("R", 1),
        ("R F", 2),
        ("R U F' L2", 3),
        ("U", 0),
        ("F B", 2),
        ("R R U U F' D", 2),
    ] {
        assert_eq!(deepening_matches_breadth_first(text), moves, "{:?}", text);
    }
    let (end, ops) = IdaStarSolver::g0().solve(Rubik::new()).unwrap().collect();
    assert!(ops.is_empty());
    assert_eq!(end, Rubik::new());
    for (text, moves) in [
        ("", 0),
        ("R2", 1),
        ("U", 1),
        ("R2 U", 2),
        ("D' F2", 2),
        ("U D' U2", 2),
        ("R2 U L2 D", 4),
    ] {
        let start = scrambled(text);
        let (end, ops) = IdaStarSolver::g1().solve(start).unwrap().collect();
        assert_eq!(dist_g1(&end), 0, "{:?}", text);
        assert_eq!(replay(start, &ops), end);
        assert!(dist_g1(&start) <= ops.len());
        assert_eq!(ops.len(), moves, "{:?}", text);
        let set = IdaStarSolver::g1_moves();
        assert!(ops.iter().all(|op| set.contains(op)));
    }
}

#[test]
fn deepening_search_is_as_short_as_breadth_first_after_six_moves() {
    deepening_matches_breadth_first("R U R' U' F D");
}

#[test]
fn deepening_search_gives_up_where_no_way_leads_to_measure_zero() {
    // turns of the upper layer cannot undo a turn of the right layer
    let only_u = IdaStarSolver::with(Measure::G1, vec![RubikLayerTransform::u()], 3);
    assert!(only_u.solve(scrambled("R2")).is_none());
    let (end, ops) = only_u.solve(scrambled("U2")).unwrap().collect();
    assert_eq!(tokens(&ops), "UU");
    assert_eq!(end, Rubik::new());
    // three more quarter turns are needed, and the largest depth allows two
    assert!(only_u.solve(scrambled("U")).is_none());
    let deeper = IdaStarSolver::with(Measure::G1, vec![RubikLayerTransform::u()], 4);
    let (_, ops) = deeper.solve(scrambled("U")).unwrap().collect();
    assert_eq!(tokens(&ops), "UUU");
    let none = IdaStarSolver::with(Measure::G0, vec![], 40);
    assert!(none.solve(scrambled("R")).is_none());
    assert!(none.solve(scrambled("U")).is_some());
}

#[test]
fn small_scrambles_are_within_the_measure() {
    // from each state three moves from the solved one: the measure is no more than the
    // number of moves of a shortest way to measure zero
    let moves = [
        RubikLayerTransform::r(),
        RubikLayerTransform::fi(),
        RubikLayerTransform::l(),
        RubikLayerTransform::d(),
    ];
    for a in moves {
        for b in moves {
            for c in moves {
                let start = replay(Rubik::new(), &[a, b, c]);
                let (end, shortest) = BfsSolver::g0().solve(start).unwrap().collect();
                assert!(checker_g0(&end));
                assert!(dist_g0(&start) <= shortest.len());
                assert!(shortest.len() <= 3);
            }
        }
    }
}
