use rubik::colored::RubikColor;
use rubik::cube::{Cube, CubeFace};
use rubik::layer::RubikLayer;
use rubik::permutation::CubePermutation;
use rubik::position::CubePosition;
use rubik::state::Rubik;
use rubik::transform::layer::RubikLayerTransform;
use rubik::transform::RubikTransform;
use std::collections::HashMap;

fn bytes(rubik: &Rubik) -> Vec<u8> {
    (0..27)
        .map(|i| rubik.cube_at(i).rotation.into_inner())
        .collect()
}

fn face_letters(rubik: &Rubik, layer: &RubikLayer, face: CubeFace) -> String {
    let mut it = rubik.iter_by_layer(layer);
    let mut out = String::new();
    while let Some(cube) = it.next() {
        out.push_str(&format!("{:?}", cube.get(face)));
    }
    out
}

fn print_rubik(rubik: &Rubik) {
    println!("====================");
    for (layer, face) in [
        (RubikLayer::u(), CubeFace::U),
        (RubikLayer::l(), CubeFace::L),
        (RubikLayer::f(), CubeFace::F),
        (RubikLayer::r(), CubeFace::R),
        (RubikLayer::b(), CubeFace::B),
        (RubikLayer::d(), CubeFace::D),
    ] {
        let letters = face_letters(rubik, &layer, face);
        println!(
            "{:?}: {} {} {}",
            face,
            &letters[0..3],
            &letters[3..6],
            &letters[6..9]
        );
    }
    println!("====================");
}

fn entropy(rubik: &Rubik) -> f64 {
    let n = 21.0_f64;
    rubik.tally().values().map(|c| (n / (*c as f64)).log2()).sum()
}

fn sequence(moves: &[RubikLayerTransform]) -> RubikTransform {
    RubikTransform::sequence(moves)
}

#[test]
pub fn test_rubik_test_rubik() {
    let mut rubik = Rubik::new();
    let r = RubikLayerTransform::r();
    let u = RubikLayerTransform::u();
    let ri = RubikLayerTransform::ri();
    let ui = RubikLayerTransform::ui();
    let f = RubikLayerTransform::f();
    let fi = RubikLayerTransform::fi();
    print_rubik(rubik.execute(&sequence(&[r, u, ri, ui, ri, f, r, fi]).repeat(10)));
    print_rubik(rubik.execute(&sequence(&[f, u, r, ui, ri, fi])));
    assert_eq!(
        bytes(&rubik),
        vec![
            57, 228, 45, 228, 228, 228, 228, 228, 228, 228, 228, 228, 228, 228, 228, 228, 228,
            228, 30, 228, 228, 228, 228, 228, 228, 228, 228
        ]
    );
}

#[test]
pub fn main_test_rubik() {
    let mut rubik = Rubik::new();
    print_rubik(&rubik);
    rubik.r();
    print_rubik(&rubik);
    rubik.l();
    print_rubik(&rubik);
    rubik.u();
    print_rubik(&rubik);
    rubik.d();
    print_rubik(&rubik);
    rubik.f();
    print_rubik(&rubik);
    rubik.b();
    print_rubik(&rubik);
    assert_eq!(
        bytes(&rubik),
        vec![
            180, 201, 225, 180, 147, 225, 180, 54, 225, 30, 30, 30, 114, 228, 141, 75, 75, 75,
            225, 99, 180, 225, 57, 180, 225, 156, 180
        ]
    );
}

#[test]
fn new_puzzle_is_solved() {
    let rubik = Rubik::new();
    assert!(rubik.is_solved());
    assert_eq!(rubik, Rubik::default());
    assert_eq!(bytes(&rubik), vec![0b_11_10_01_00; 27]);
    for (layer, face) in [
        (RubikLayer::f(), CubeFace::F),
        (RubikLayer::b(), CubeFace::B),
        (RubikLayer::r(), CubeFace::R),
        (RubikLayer::l(), CubeFace::L),
        (RubikLayer::u(), CubeFace::U),
        (RubikLayer::d(), CubeFace::D),
    ] {
        assert!(rubik.face_is_uniform(&layer, face));
        assert_eq!(face_letters(&rubik, &layer, face), format!("{:?}", face).repeat(9));
    }
}

fn named_moves() -> Vec<RubikLayerTransform> {
    vec![
        RubikLayerTransform::f(),
        RubikLayerTransform::fi(),
        RubikLayerTransform::f2(),
        RubikLayerTransform::b(),
        RubikLayerTransform::bi(),
        RubikLayerTransform::b2(),
        RubikLayerTransform::l(),
        RubikLayerTransform::li(),
        RubikLayerTransform::l2(),
        RubikLayerTransform::r(),
        RubikLayerTransform::ri(),
        RubikLayerTransform::r2(),
        RubikLayerTransform::u(),
        RubikLayerTransform::ui(),
        RubikLayerTransform::u2(),
        RubikLayerTransform::d(),
        RubikLayerTransform::di(),
        RubikLayerTransform::d2(),
        RubikLayerTransform::m(),
        RubikLayerTransform::mi(),
        RubikLayerTransform::m2(),
        RubikLayerTransform::e(),
        RubikLayerTransform::ei(),
        RubikLayerTransform::e2(),
        RubikLayerTransform::s(),
        RubikLayerTransform::si(),
        RubikLayerTransform::s2(),
    ]
}

#[test]
fn one_move_unsolves() {
    for m in named_moves() {
        let mut rubik = Rubik::new();
        rubik.turn(&m);
        assert!(!rubik.is_solved(), "{}", m.to_string());
        assert_ne!(rubik, Rubik::new());
    }
    // the move that turns nothing leaves the puzzle solved
    let mut rubik = Rubik::new();
    rubik.turn(&RubikLayerTransform::unit());
    assert!(rubik.is_solved());
    assert_eq!(rubik, Rubik::new());
}

#[test]
fn move_then_inverse_restores_the_state() {
    let mut start = Rubik::new();
    start.shuffle_with(&[3, 1, 4, 1, 5, 9, 2, 6, 5, 3, 5]);
    for m in named_moves() {
        let mut rubik = start;
        rubik.turn(&m);
        rubik.turn(&m.inverse());
        assert_eq!(rubik, start);
        rubik.turn(&m.inverse());
        rubik.turn(&m);
        assert_eq!(rubik, start);
    }
}

#[test]
fn move_twice_is_its_square() {
    let mut start = Rubik::new();
    start.shuffle_with(&[2, 7, 1, 8, 2, 8, 1, 8]);
    for m in [
        RubikLayerTransform::f(),
        RubikLayerTransform::b(),
        RubikLayerTransform::l(),
        RubikLayerTransform::r(),
        RubikLayerTransform::u(),
        RubikLayerTransform::d(),
        RubikLayerTransform::m(),
        RubikLayerTransform::e(),
        RubikLayerTransform::s(),
        RubikLayerTransform::fi(),
        RubikLayerTransform::m2(),
    ] {
        let mut twice = start;
        twice.turn(&m).turn(&m);
        let mut once = start;
        once.turn(&m.square());
        assert_eq!(twice, once);
    }
}

#[test]
fn single_turns_give_the_expected_states() {
    let mut rubik = Rubik::new();
    rubik.r();
    assert_eq!(
        bytes(&rubik),
        vec![
            228, 228, 141, 228, 228, 141, 228, 228, 141, 228, 228, 141, 228, 228, 141, 228, 228,
            141, 228, 228, 141, 228, 228, 141, 228, 228, 141
        ]
    );
    let mut rubik = Rubik::new();
    rubik.f();
    assert_eq!(
        bytes(&rubik),
        vec![
            147, 147, 147, 147, 147, 147, 147, 147, 147, 228, 228, 228, 228, 228, 228, 228, 228,
            228, 228, 228, 228, 228, 228, 228, 228, 228, 228
        ]
    );
    let mut rubik = Rubik::new();
    rubik.turn(&RubikLayerTransform::m());
    assert_eq!(
        bytes(&rubik),
        vec![
            228, 114, 228, 228, 114, 228, 228, 114, 228, 228, 114, 228, 228, 114, 228, 228, 114,
            228, 228, 114, 228, 228, 114, 228, 228, 114, 228
        ]
    );
    let mut rubik = Rubik::new();
    rubik.turn(&RubikLayerTransform::ui());
    assert_eq!(
        bytes(&rubik),
        vec![
            75, 75, 75, 228, 228, 228, 228, 228, 228, 75, 75, 75, 228, 228, 228, 228, 228, 228,
            75, 75, 75, 228, 228, 228, 228, 228, 228
        ]
    );
    let mut rubik = Rubik::new();
    rubik.turn(&RubikLayerTransform::s2());
    assert_eq!(
        bytes(&rubik),
        vec![
            228, 228, 228, 228, 228, 228, 228, 228, 228, 78, 78, 78, 78, 78, 78, 78, 78, 78, 228,
            228, 228, 228, 228, 228, 228, 228, 228
        ]
    );
    // places change as well as rotations
    let mut rubik = Rubik::new();
    rubik
        .turn(&RubikLayerTransform::u())
        .turn(&RubikLayerTransform::r2())
        .turn(&RubikLayerTransform::fi());
    assert_eq!(
        bytes(&rubik),
        vec![
            198, 198, 45, 135, 57, 57, 135, 57, 57, 30, 30, 27, 228, 228, 27, 228, 228, 180, 30,
            30, 27, 228, 228, 27, 228, 228, 180
        ]
    );
}

#[test]
fn reset_restores_the_solved_state() {
    let mut rubik = Rubik::new();
    rubik.r().u().f();
    assert!(!rubik.is_solved());
    rubik.reset();
    assert!(rubik.is_solved());
    assert_eq!(rubik, Rubik::new());
    rubik.reset().r();
    assert_eq!(rubik.cube_at(2).rotation, CubePermutation::right());
}

#[test]
fn cubies_by_place_and_layer() {
    let mut rubik = Rubik::new();
    rubik.r().turn(&RubikLayerTransform::m());
    assert_eq!(rubik.core_cube().rotation, CubePermutation::left());
    assert_eq!(rubik.cube_at(13).rotation, CubePermutation::left());
    assert_eq!(rubik.cube_at(0).rotation, CubePermutation::unit());
    assert_eq!(rubik.cube_at(26).rotation, CubePermutation::right());
    let right = RubikLayer::r();
    for j in 0..9 {
        assert_eq!(
            rubik.get_by_layer(&right, j).rotation,
            CubePermutation::right()
        );
    }
    assert_eq!(
        rubik.get_by_layer(&RubikLayer::f(), 1).rotation,
        CubePermutation::left()
    );
    assert!(rubik.is_aligned(&Cube::new_with_rotation(CubePermutation::left())));
    assert!(!rubik.is_aligned(&Cube::new()));
    let mut it = rubik.iter_by_layer(&RubikLayer::u());
    let mut seen = Vec::new();
    while let Some(cube) = it.next() {
        seen.push(cube.rotation.into_inner());
    }
    assert!(it.next().is_none());
    assert_eq!(seen, vec![228, 114, 141, 228, 114, 141, 228, 114, 141]);
}

#[test]
fn groups_of_cubies() {
    let mut rubik = Rubik::new();
    rubik.shuffle_with(&[0, 1, 2, 3, 4, 5, 0, 2, 4]);
    let at = |places: &[usize]| -> Vec<Cube> { places.iter().map(|p| *rubik.cube_at(*p)).collect() };
    assert_eq!(
        rubik.edges(),
        at(&[1, 3, 5, 7, 9, 11, 15, 17, 19, 21, 23, 25])
    );
    assert_eq!(rubik.edges_e(), at(&[3, 5, 21, 23]));
    assert_eq!(rubik.corners(), at(&[0, 2, 6, 8, 18, 20, 24, 26]));
    assert_eq!(rubik.centers(), at(&[4, 10, 12, 14, 16, 22]));
    assert_eq!(
        rubik.active_cubes(),
        at(&[1, 3, 5, 7, 9, 11, 15, 17, 19, 21, 23, 25, 0, 2, 6, 8, 18, 20, 24, 26, 13])
    );
    assert_eq!(rubik.cubes_at(&[26, 0, 13]), at(&[26, 0, 13]));
    assert_eq!(rubik.cubes_at(&[]), Vec::<Cube>::new());
}

#[test]
fn keys_tell_states_apart() {
    assert_eq!(Rubik::new().key(), 0);
    let mut rubik = Rubik::new();
    rubik.r();
    assert_eq!(rubik.key(), 13338322635591642723275773913472010);
    let mut keys = std::collections::HashSet::new();
    keys.insert(Rubik::new().key());
    for m in named_moves() {
        let mut rubik = Rubik::new();
        rubik.turn(&m);
        assert!(keys.insert(rubik.key()));
    }
    assert_eq!(CubePermutation::unit().rank(), 0);
    let ranks: std::collections::HashSet<u8> = CubePermutation::enumerate()
        .iter()
        .map(|p| p.rank())
        .collect();
    assert_eq!(ranks.len(), 24);
    assert!(ranks.iter().all(|r| *r < 24));
}

fn counts(pairs: &[(u8, usize)]) -> HashMap<u8, usize> {
    pairs.iter().copied().collect()
}

#[test]
fn tally_and_entropy() {
    let rubik = Rubik::new();
    assert_eq!(rubik.tally(), counts(&[(0b_11_10_01_00, 21)]));
    assert_eq!(entropy(&rubik), 0.0);
    let mut rubik = Rubik::new();
    rubik.r();
    let turned = Cube::new_with_rotation(CubePermutation::right());
    assert_eq!(
        rubik.tally(),
        counts(&[(0b_11_10_01_00, 13), (0b_10_00_11_01, 8)])
    );
    assert!((entropy(&rubik) - 2.0841951274164283).abs() < 1e-12);
    rubik.u();
    assert_eq!(
        rubik.tally(),
        counts(&[(228, 8), (141, 5), (30, 5), (120, 3)])
    );
    assert!((entropy(&rubik) - 8.340451000619161).abs() < 1e-12);
    let total: usize = rubik.tally().values().sum();
    assert_eq!(total, 21);
    // the measure of disorder is never negative
    let mut rubik = Rubik::new();
    for pick in 0..40usize {
        rubik.shuffle_with(&[pick * 7 + 3]);
        assert!(entropy(&rubik) >= 0.0);
        for c in rubik.tally().values() {
            assert!(1 <= *c && *c <= 21);
        }
    }
    assert_eq!(Cube::tally(&[]), counts(&[]));
    assert_eq!(
        Cube::tally(&[turned, Cube::new(), turned]),
        counts(&[(0b_10_00_11_01, 2), (0b_11_10_01_00, 1)])
    );
}

#[test]
fn layer_tables() {
    assert_eq!(*RubikLayer::f().indexes(), [0, 1, 2, 3, 4, 5, 6, 7, 8]);
    assert_eq!(*RubikLayer::b().indexes(), [20, 19, 18, 23, 22, 21, 26, 25, 24]);
    assert_eq!(*RubikLayer::s().indexes(), [11, 10, 9, 14, 13, 12, 17, 16, 15]);
    assert_eq!(*RubikLayer::l().indexes(), [18, 9, 0, 21, 12, 3, 24, 15, 6]);
    assert_eq!(*RubikLayer::m().indexes(), [19, 10, 1, 22, 13, 4, 25, 16, 7]);
    assert_eq!(*RubikLayer::r().indexes(), [2, 11, 20, 5, 14, 23, 8, 17, 26]);
    assert_eq!(*RubikLayer::u().indexes(), [18, 19, 20, 9, 10, 11, 0, 1, 2]);
    assert_eq!(*RubikLayer::d().indexes(), [6, 7, 8, 15, 16, 17, 24, 25, 26]);
    assert_eq!(*RubikLayer::e().indexes(), [3, 4, 5, 12, 13, 14, 21, 22, 23]);
    let markers: Vec<&str> = [
        RubikLayer::f(),
        RubikLayer::b(),
        RubikLayer::s(),
        RubikLayer::l(),
        RubikLayer::m(),
        RubikLayer::r(),
        RubikLayer::u(),
        RubikLayer::d(),
        RubikLayer::e(),
    ]
    .iter()
    .map(|l| l.marker())
    .collect();
    assert_eq!(markers, vec!["F", "B", "S", "L", "M", "R", "U", "D", "E"]);
}

#[test]
fn positions() {
    assert_eq!(CubePosition::try_from_u8(27), None);
    assert_eq!(CubePosition::try_from_u8(255), None);
    assert_eq!(CubePosition::try_from_u8(0), Some(CubePosition::FUL));
    assert_eq!(CubePosition::try_from_u8(13), Some(CubePosition::C));
    assert_eq!(CubePosition::try_from_u8(26), Some(CubePosition::BDR));
    assert_eq!(CubePosition::from_u8(4), CubePosition::F);
    for code in 0..27u8 {
        let position = CubePosition::try_from_u8(code).unwrap();
        assert_eq!(position.index(), code);
        assert!(position.horizon_layer().indexes().contains(&code));
        assert!(position.frontal_layer().indexes().contains(&code));
        assert!(position.lateral_layer().indexes().contains(&code));
    }
    assert_eq!(CubePosition::FUL.horizon_layer(), RubikLayer::u());
    assert_eq!(CubePosition::FL.horizon_layer(), RubikLayer::e());
    assert_eq!(CubePosition::FDR.horizon_layer(), RubikLayer::d());
    assert_eq!(CubePosition::FUL.frontal_layer(), RubikLayer::f());
    assert_eq!(CubePosition::C.frontal_layer(), RubikLayer::s());
    assert_eq!(CubePosition::BDR.frontal_layer(), RubikLayer::b());
    assert_eq!(CubePosition::FUL.lateral_layer(), RubikLayer::l());
    assert_eq!(CubePosition::C.lateral_layer(), RubikLayer::m());
    assert_eq!(CubePosition::BDR.lateral_layer(), RubikLayer::r());
}

#[test]
fn colours_of_faces() {
    let rubik = Rubik::new();
    assert_eq!(rubik.get_color(CubeFace::F), RubikColor::Red);
    assert_eq!(rubik.get_color(CubeFace::D), RubikColor::Yellow);
}
