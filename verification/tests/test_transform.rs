use rubik::position::CubePosition;
use rubik::state::Rubik;
use rubik::transform::layer::{PtrRotate, RubikLayerTransform};
use rubik::transform::RubikTransform;

fn layer(m: RubikLayerTransform) -> RubikTransform {
    RubikTransform::Layer(m)
}

fn after(t: &RubikTransform) -> Rubik {
    let mut rubik = Rubik::new();
    rubik.shuffle_with(&[5, 3, 1, 0, 2, 4]);
    rubik.execute(t);
    rubik
}

fn scrambled() -> Rubik {
    let mut rubik = Rubik::new();
    rubik.shuffle_with(&[5, 3, 1, 0, 2, 4]);
    rubik
}

#[test]
fn kinds_of_turn() {
    assert_eq!(PtrRotate::Rotate0.inverse(), PtrRotate::Rotate0);
    assert_eq!(PtrRotate::Rotate1.inverse(), PtrRotate::Rotate3);
    assert_eq!(PtrRotate::Rotate2.inverse(), PtrRotate::Rotate2);
    assert_eq!(PtrRotate::Rotate3.inverse(), PtrRotate::Rotate1);
    assert_eq!(PtrRotate::Rotate0.square(), PtrRotate::Rotate0);
    assert_eq!(PtrRotate::Rotate1.square(), PtrRotate::Rotate2);
    assert_eq!(PtrRotate::Rotate2.square(), PtrRotate::Rotate0);
    assert_eq!(PtrRotate::Rotate3.square(), PtrRotate::Rotate2);
    assert_eq!(PtrRotate::Rotate0.as_permutation(), [0, 1, 2, 3, 4, 5, 6, 7, 8]);
    assert_eq!(PtrRotate::Rotate1.as_permutation(), [6, 3, 0, 7, 4, 1, 8, 5, 2]);
    assert_eq!(PtrRotate::Rotate2.as_permutation(), [8, 7, 6, 5, 4, 3, 2, 1, 0]);
    assert_eq!(PtrRotate::Rotate3.as_permutation(), [2, 5, 8, 1, 4, 7, 0, 3, 6]);
}

#[test]
fn call_carries_four_cubies_round() {
    let mut start = Rubik::new();
    start.r().u().f().l();
    let places = [0u8, 2, 8, 6];
    let old: Vec<_> = places.iter().map(|p| *start.cube_at(*p as usize)).collect();
    let mut rubik = start;
    PtrRotate::Rotate0.call(&mut rubik, places);
    assert_eq!(rubik, start);
    let mut rubik = start;
    PtrRotate::Rotate1.call(&mut rubik, places);
    let new: Vec<_> = places.iter().map(|p| *rubik.cube_at(*p as usize)).collect();
    assert_eq!(new, vec![old[3], old[0], old[1], old[2]]);
    let mut rubik = start;
    PtrRotate::Rotate2.call(&mut rubik, places);
    let new: Vec<_> = places.iter().map(|p| *rubik.cube_at(*p as usize)).collect();
    assert_eq!(new, vec![old[2], old[3], old[0], old[1]]);
    let mut rubik = start;
    PtrRotate::Rotate3.call(&mut rubik, places);
    let new: Vec<_> = places.iter().map(|p| *rubik.cube_at(*p as usize)).collect();
    assert_eq!(new, vec![old[1], old[2], old[3], old[0]]);
    for p in 9..27 {
        assert_eq!(rubik.cube_at(p), start.cube_at(p));
    }
}

#[test]
fn parts_of_named_moves() {
    let f = RubikLayerTransform::f();
    assert_eq!(*f.layer().indexes(), [0, 1, 2, 3, 4, 5, 6, 7, 8]);
    assert_eq!(f.rotation().into_inner(), 0b_10_01_00_11);
    assert_eq!(f.ptr_rotate(), PtrRotate::Rotate1);
    let fi = RubikLayerTransform::fi();
    assert_eq!(fi.layer(), f.layer());
    assert_eq!(fi.rotation().into_inner(), 0b_00_11_10_01);
    assert_eq!(fi.ptr_rotate(), PtrRotate::Rotate3);
    let f2 = RubikLayerTransform::f2();
    assert_eq!(f2.rotation().into_inner(), 0b_01_00_11_10);
    assert_eq!(f2.ptr_rotate(), PtrRotate::Rotate2);
    assert_eq!(f.inverse(), fi);
    assert_eq!(f.square(), f2);
    assert_eq!(fi.inverse(), f);
    assert_eq!(fi.square(), f2);
    assert_eq!(f2.inverse(), f2);
    assert_eq!(f2.square().ptr_rotate(), PtrRotate::Rotate0);
    assert_eq!(RubikLayerTransform::m().rotation(), RubikLayerTransform::l().rotation());
    assert_eq!(RubikLayerTransform::e().rotation(), RubikLayerTransform::d().rotation());
    assert_eq!(RubikLayerTransform::s().rotation(), RubikLayerTransform::b().rotation());
    assert_eq!(RubikLayerTransform::unit().ptr_rotate(), PtrRotate::Rotate0);
}

#[test]
fn tokens() {
    assert_eq!(RubikLayerTransform::r().to_string(), "R");
    assert_eq!(RubikLayerTransform::ri().to_string(), "R'");
    assert_eq!(RubikLayerTransform::r2().to_string(), "R2");
    assert_eq!(RubikLayerTransform::unit().to_string(), "F0");
    assert_eq!(RubikLayerTransform::e2().to_string(), "E2");
    assert_eq!(
        RubikLayerTransform::sequence_to_string(&[
            RubikLayerTransform::r(),
            RubikLayerTransform::u(),
            RubikLayerTransform::ri(),
            RubikLayerTransform::ui(),
            RubikLayerTransform::m2(),
            RubikLayerTransform::si(),
        ]),
        "RUR'U'M2S'"
    );
    assert_eq!(RubikLayerTransform::sequence_to_string(&[]), "");
}

#[test]
fn where_cubies_come_from() {
    let f = RubikLayerTransform::f();
    // a clockwise turn of the front brings the lower left corner to the upper left
    assert_eq!(f.apply_on_position(CubePosition::FUL), Some(CubePosition::FDL));
    assert_eq!(f.apply_on_position(CubePosition::FU), Some(CubePosition::FL));
    assert_eq!(f.apply_on_position(CubePosition::F), Some(CubePosition::F));
    assert_eq!(f.apply_on_position(CubePosition::C), None);
    assert_eq!(f.apply_on_position(CubePosition::BDR), None);
    let fi = RubikLayerTransform::fi();
    assert_eq!(fi.apply_on_position(CubePosition::FUL), Some(CubePosition::FUR));
    let f2 = RubikLayerTransform::f2();
    assert_eq!(f2.apply_on_position(CubePosition::FUL), Some(CubePosition::FDR));
    // the cubie that comes to a place is the one from the place named, rotated
    let start = scrambled();
    for m in [f, fi, f2, RubikLayerTransform::m(), RubikLayerTransform::ui()] {
        let mut rubik = start;
        m.apply_on(&mut rubik);
        for code in 0..27u8 {
            let position = CubePosition::from_u8(code);
            match m.apply_on_position(position) {
                Some(from) => {
                    let mut cube = *start.cube_at(from.index() as usize);
                    cube.rotate(m.rotation());
                    assert_eq!(*rubik.cube_at(code as usize), cube);
                }
                None => assert_eq!(rubik.cube_at(code as usize), start.cube_at(code as usize)),
            }
        }
    }
}

#[test]
fn repeat_and_combine() {
    let r = RubikLayerTransform::r();
    let u = RubikLayerTransform::u();
    // a count of zero does nothing
    assert_eq!(after(&layer(r).repeat(0)), scrambled());
    assert_eq!(after(&layer(r).repeat(4)), scrambled());
    assert_eq!(after(&layer(r).repeat(2)), after(&layer(r.square())));
    assert_eq!(after(&layer(r).repeat(3)), after(&layer(r.inverse())));
    assert_eq!(after(&RubikTransform::Combine(vec![])), scrambled());
    let ru = RubikTransform::Combine(vec![layer(r), layer(u)]);
    let mut by_hand = scrambled();
    by_hand.turn(&r).turn(&u);
    assert_eq!(after(&ru), by_hand);
    let ur = RubikTransform::Combine(vec![layer(u), layer(r)]);
    assert_ne!(after(&ru), after(&ur));
    assert_eq!(after(&RubikTransform::sequence(&[r, u])), by_hand);
    let nested = RubikTransform::Combine(vec![ru.clone().repeat(2), layer(u)]);
    let mut by_hand = scrambled();
    by_hand.turn(&r).turn(&u).turn(&r).turn(&u).turn(&u);
    assert_eq!(after(&nested), by_hand);
}

fn same(a: &RubikTransform, b: &RubikTransform) -> bool {
    match (a, b) {
        (RubikTransform::Layer(x), RubikTransform::Layer(y)) => x == y,
        (RubikTransform::Repeat(x, n), RubikTransform::Repeat(y, m)) => n == m && same(x, y),
        (RubikTransform::Combine(x), RubikTransform::Combine(y)) => {
            x.len() == y.len() && x.iter().zip(y.iter()).all(|(p, q)| same(p, q))
        }
        _ => false,
    }
}

#[test]
fn inverse_of_composite_moves() {
    let r = RubikLayerTransform::r();
    let u = RubikLayerTransform::u();
    let f2 = RubikLayerTransform::f2();
    // the inverse of a repeated move repeats the inverse as often
    let t = layer(r).repeat(3);
    assert!(same(&t.clone().inverse(), &layer(r.inverse()).repeat(3)));
    // the inverse of a list inverts each move, in the opposite order
    let t = RubikTransform::Combine(vec![layer(r), layer(u), layer(f2)]);
    assert!(same(
        &t.clone().inverse(),
        &RubikTransform::Combine(vec![
            layer(f2.inverse()),
            layer(u.inverse()),
            layer(r.inverse())
        ])
    ));
    assert!(same(&layer(r).inverse(), &layer(r.inverse())));
    let nested = RubikTransform::Combine(vec![
        RubikTransform::Combine(vec![layer(r), layer(u)]).repeat(5),
        layer(f2),
        RubikTransform::Combine(vec![]),
    ]);
    assert!(same(&nested.clone(), &nested));
    assert!(same(&nested.clone().inverse().inverse(), &nested));
    // a move followed by its inverse restores the state
    let mut rubik = scrambled();
    rubik.execute(&nested).execute(&nested.clone().inverse());
    assert_eq!(rubik, scrambled());
    let mut rubik = scrambled();
    rubik.execute(&nested.clone().inverse()).execute(&nested);
    assert_eq!(rubik, scrambled());
}

#[test]
fn order_six_sequence_returns_to_solved() {
    let seq = RubikTransform::sequence(&[
        RubikLayerTransform::r(),
        RubikLayerTransform::u(),
        RubikLayerTransform::ri(),
        RubikLayerTransform::ui(),
        RubikLayerTransform::ri(),
        RubikLayerTransform::f(),
        RubikLayerTransform::r(),
        RubikLayerTransform::fi(),
    ]);
    let mut rubik = Rubik::new();
    rubik.execute(&seq);
    assert!(!rubik.is_solved());
    rubik.execute(&seq.clone().repeat(5));
    assert!(rubik.is_solved());
    assert_eq!(rubik, Rubik::new());
}
