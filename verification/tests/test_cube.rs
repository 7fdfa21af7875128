use rubik::colored::{CubeFaceMap, RubikColor};
use rubik::cube::{Cube, CubeFace};
use rubik::permutation::CubePermutation;

#[test]
pub fn test_cube_test_cube() {
    let mut cube = Cube::new();
    cube.rotate(CubePermutation::z_1());
    assert_eq!(cube.get(CubeFace::L), CubeFace::F);
    assert_eq!(cube.get(CubeFace::F), CubeFace::R);
    assert_eq!(cube.get(CubeFace::R), CubeFace::B);
    assert_eq!(cube.get(CubeFace::B), CubeFace::L);
    assert_eq!(cube.get(CubeFace::U), CubeFace::U);
    assert_eq!(cube.get(CubeFace::D), CubeFace::D);
    cube.rotate(CubePermutation::z_1());
    assert_eq!(cube.get(CubeFace::L), CubeFace::R);
    assert_eq!(cube.get(CubeFace::F), CubeFace::B);
    assert_eq!(cube.get(CubeFace::R), CubeFace::L);
    assert_eq!(cube.get(CubeFace::B), CubeFace::F);
    assert_eq!(cube.get(CubeFace::U), CubeFace::U);
    assert_eq!(cube.get(CubeFace::D), CubeFace::D);
    cube.rotate(CubePermutation::y_2());
    assert_eq!(cube.get(CubeFace::L), CubeFace::R);
    assert_eq!(cube.get(CubeFace::R), CubeFace::L);
    assert_eq!(cube.get(CubeFace::F), CubeFace::F);
    assert_eq!(cube.get(CubeFace::B), CubeFace::B);
    assert_eq!(cube.get(CubeFace::U), CubeFace::D);
    assert_eq!(cube.get(CubeFace::D), CubeFace::U);
    cube.rotate(CubePermutation::x_2());
    assert_eq!(cube.get(CubeFace::L), CubeFace::L);
    assert_eq!(cube.get(CubeFace::R), CubeFace::R);
    assert_eq!(cube.get(CubeFace::F), CubeFace::F);
    assert_eq!(cube.get(CubeFace::B), CubeFace::B);
    assert_eq!(cube.get(CubeFace::U), CubeFace::U);
    assert_eq!(cube.get(CubeFace::D), CubeFace::D);
}

// A cubie turned twice by the rotation with byte 0b_10_00_11_01.
#[test]
pub fn main_test_cube() {
    let up = CubePermutation::new(0b_10_00_11_01).unwrap();
    let mut cube = Cube::new();
    println!("{:?}", &cube);
    cube.rotate(up);
    println!("{:?}", &cube);
    cube.rotate(up);
    println!("{:?}", &cube);
}

#[test]
pub fn test_cube_xyz_rotation() {
    let mut cube = Cube::new();
    cube.rotate(
        CubePermutation::x_1()
            .compose(CubePermutation::y_1())
            .compose(CubePermutation::z_1()),
    );
    println!("{:?}", cube);
    let mut cube = Cube::new();
    cube.rotate(CubePermutation::i());
    println!("{:?}", cube);
}

#[test]
fn new_cube_shows_each_face_at_home() {
    let cube = Cube::new();
    assert_eq!(cube, Cube::default());
    assert_eq!(cube.rotation, CubePermutation::unit());
    for face in [
        CubeFace::F,
        CubeFace::B,
        CubeFace::R,
        CubeFace::L,
        CubeFace::U,
        CubeFace::D,
    ] {
        assert_eq!(cube.get(face), face);
    }
    let turned = Cube::new_with_rotation(CubePermutation::y_1());
    assert_eq!(turned.rotation, CubePermutation::y_1());
}

#[test]
fn rotate_composes_on_the_right() {
    let mut cube = Cube::new_with_rotation(CubePermutation::x_1());
    cube.rotate(CubePermutation::y_1()).rotate(CubePermutation::z_1());
    assert_eq!(
        cube.rotation,
        CubePermutation::x_1()
            .compose(CubePermutation::y_1())
            .compose(CubePermutation::z_1())
    );
    assert_ne!(
        cube.rotation,
        CubePermutation::z_1()
            .compose(CubePermutation::y_1())
            .compose(CubePermutation::x_1())
    );
}

#[test]
fn faces_are_the_six_classes() {
    assert_eq!(CubeFace::F.as_cube_permutation().into_inner(), 0b_11_10_01_00);
    assert_eq!(CubeFace::B.as_cube_permutation().into_inner(), 0b_01_10_11_00);
    assert_eq!(CubeFace::R.as_cube_permutation().into_inner(), 0b_01_11_10_00);
    assert_eq!(CubeFace::L.as_cube_permutation().into_inner(), 0b_10_11_01_00);
    assert_eq!(CubeFace::U.as_cube_permutation().into_inner(), 0b_10_01_11_00);
    assert_eq!(CubeFace::D.as_cube_permutation().into_inner(), 0b_11_01_10_00);
    assert_eq!(
        CubeFace::from_cube_permutation(CubePermutation::unit()),
        CubeFace::F
    );
    assert_eq!(
        CubeFace::from_cube_permutation(CubePermutation::y_2()),
        CubeFace::B
    );
    assert_eq!(
        CubeFace::from_cube_permutation(CubePermutation::z_1()),
        CubeFace::R
    );
    assert_eq!(
        CubeFace::from_cube_permutation(CubePermutation::z_3()),
        CubeFace::L
    );
    assert_eq!(
        CubeFace::from_cube_permutation(CubePermutation::y_3()),
        CubeFace::U
    );
    assert_eq!(
        CubeFace::from_cube_permutation(CubePermutation::y_1()),
        CubeFace::D
    );
    // each face is shown by four of the 24 rotations
    for face in [
        CubeFace::F,
        CubeFace::B,
        CubeFace::R,
        CubeFace::L,
        CubeFace::U,
        CubeFace::D,
    ] {
        let n = CubePermutation::enumerate()
            .into_iter()
            .filter(|p| CubeFace::from_cube_permutation(*p) == face)
            .count();
        assert_eq!(n, 4);
        assert_eq!(
            CubeFace::from_cube_permutation(face.as_cube_permutation()),
            face
        );
    }
}

#[test]
fn classic_colours() {
    let map = RubikColor::classic_map();
    assert_eq!(*map.get(CubeFace::F), RubikColor::Red);
    assert_eq!(*map.get(CubeFace::R), RubikColor::Blue);
    assert_eq!(*map.get(CubeFace::U), RubikColor::White);
    assert_eq!(*map.get(CubeFace::B), RubikColor::Orange);
    assert_eq!(*map.get(CubeFace::L), RubikColor::Green);
    assert_eq!(*map.get(CubeFace::D), RubikColor::Yellow);
    let numbers = CubeFaceMap::new(1, 2, 3, 4, 5, 6);
    assert_eq!(*numbers.get(CubeFace::F), 1);
    assert_eq!(*numbers.get(CubeFace::R), 2);
    assert_eq!(*numbers.get(CubeFace::U), 3);
    assert_eq!(*numbers.get(CubeFace::B), 4);
    assert_eq!(*numbers.get(CubeFace::L), 5);
    assert_eq!(*numbers.get(CubeFace::D), 6);
}
