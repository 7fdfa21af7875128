use rubik::permutation::{CubePermutation, Flip};
use std::collections::HashSet;

#[test]
fn test_compose_test_compose() {
    let unit = CubePermutation::new(0b11100100).unwrap();
    assert_eq!(unit.compose(unit), unit);
    let a = CubePermutation::new(0b10010011).unwrap();
    assert_eq!(a * unit, a);
    assert_eq!(unit * a, a);
    assert_eq!(
        CubePermutation::back() * CubePermutation::front(),
        CubePermutation::unit()
    );
    assert_eq!(
        CubePermutation::right() * CubePermutation::left(),
        CubePermutation::unit()
    );
    assert_eq!(
        CubePermutation::down() * CubePermutation::up(),
        CubePermutation::unit()
    );

    assert_eq!(
        CubePermutation::right()
            * CubePermutation::right()
            * CubePermutation::down()
            * CubePermutation::down()
            * CubePermutation::front()
            * CubePermutation::front(),
        CubePermutation::unit()
    );
    assert_eq!(
        CubePermutation::right() * CubePermutation::down(),
        CubePermutation::back() * CubePermutation::right()
    );
}

// The same relations, with the six turns given by their bytes.
#[test]
fn main_test_compose() {
    let up = CubePermutation::new(0b_10_00_11_01).unwrap();
    let down = CubePermutation::new(0b_01_11_00_10).unwrap();
    let left = CubePermutation::new(0b_00_01_11_10).unwrap();
    let right = CubePermutation::new(0b_01_00_10_11).unwrap();
    let front = CubePermutation::new(0b_10_01_00_11).unwrap();
    let back = CubePermutation::new(0b_00_11_10_01).unwrap();
    let unit = CubePermutation::new(0b11100100).unwrap();
    assert_eq!(unit.compose(unit), unit);
    let a = CubePermutation::new(0b10010011).unwrap();
    assert_eq!(a.compose(unit), a);
    assert_eq!(unit.compose(a), a);
    assert_eq!(back.compose(front), CubePermutation::unit());
    assert_eq!(up.compose(down), CubePermutation::unit());
    assert_eq!(right.compose(left), CubePermutation::unit());
    assert_eq!(
        up.compose(up)
            .compose(right)
            .compose(right)
            .compose(front)
            .compose(front),
        CubePermutation::unit()
    );
    assert_eq!(up.compose(right), back.compose(up));
}

#[test]
fn test_sub_group() {
    // group N (normal subgroup)
    let group_n = [
        CubePermutation::x_2(),
        CubePermutation::y_2(),
        CubePermutation::z_2(),
        CubePermutation::unit(),
    ];
    for x in group_n {
        for y in group_n {
            assert_eq!(x * y, y * x);
            assert!(group_n.contains(&(x * y)))
        }
        for s in CubePermutation::enumerate() {
            assert!(group_n.contains(&(s * x * s.inverse())));
        }
    }
    assert_eq!(CubePermutation::x_2().square(), CubePermutation::unit());
    assert_eq!(CubePermutation::y_2().square(), CubePermutation::unit());
    assert_eq!(CubePermutation::z_2().square(), CubePermutation::unit());
    assert_eq!(
        CubePermutation::x_2() * CubePermutation::y_2(),
        CubePermutation::z_2()
    );
    assert_eq!(
        CubePermutation::x_2() * CubePermutation::y_2(),
        CubePermutation::z_2()
    );
    assert_eq!(
        CubePermutation::y_2() * CubePermutation::z_2(),
        CubePermutation::x_2()
    );
    assert_eq!(
        CubePermutation::z_2() * CubePermutation::x_2(),
        CubePermutation::y_2()
    );

    let coset = |s: CubePermutation| {
        group_n
            .iter()
            .map(move |n| (s).compose(*n))
            .collect::<HashSet<_>>()
    };

    let quotient_group =
        CubePermutation::enumerate()
            .into_iter()
            .map(coset)
            .fold(Vec::new(), |mut set, coset| {
                if !set.contains(&coset) {
                    set.push(coset)
                }
                set
            });
    assert_eq!(quotient_group.len(), 6);
    let quotient_group = quotient_group
        .iter()
        .filter_map(|x| x.iter().find(|s| s.into_inner() & 0b11 == 0))
        .collect::<Vec<_>>();
    println!("{:?}", &quotient_group);
    println!(
        "{:?}{:?}",
        &CubePermutation::z_1().factor_2().0,
        &CubePermutation::z_1().factor_2().1
    );
    println!(
        "{:?}{:?}",
        &CubePermutation::z_3().factor_2().0,
        &CubePermutation::z_3().factor_2().1
    );
}

#[test]
fn test_factor_3() {
    let f0_set = [
        CubePermutation::unit(),
        CubePermutation::x_2(),
        CubePermutation::y_2(),
        CubePermutation::z_2(),
    ];
    let f1_set = [
        CubePermutation::unit(),
        CubePermutation::c1(),
        CubePermutation::c2(),
    ];
    let f2_set = [CubePermutation::unit(), CubePermutation::i()];

    for p in CubePermutation::enumerate() {
        let (f0, f1, f2) = p.factor_3();
        println!("{:?} => {:?} x {:?} x {:?}", p, f0, f1, f2);
        assert!(f0_set.contains(&f0));
        assert!(f1_set.contains(&f1));
        assert!(f2_set.contains(&f2));
    }
}

#[test]
fn named_bytes() {
    assert_eq!(CubePermutation::unit().into_inner(), 0b_11_10_01_00);
    assert_eq!(CubePermutation::x_1().into_inner(), 0b_10_01_00_11);
    assert_eq!(CubePermutation::x_2().into_inner(), 0b_01_00_11_10);
    assert_eq!(CubePermutation::x_3().into_inner(), 0b_00_11_10_01);
    assert_eq!(CubePermutation::y_1().into_inner(), 0b_10_00_11_01);
    assert_eq!(CubePermutation::y_2().into_inner(), 0b_00_01_10_11);
    assert_eq!(CubePermutation::y_3().into_inner(), 0b_01_11_00_10);
    assert_eq!(CubePermutation::z_1().into_inner(), 0b_00_01_11_10);
    assert_eq!(CubePermutation::z_2().into_inner(), 0b_10_11_00_01);
    assert_eq!(CubePermutation::z_3().into_inner(), 0b_01_00_10_11);
    assert_eq!(CubePermutation::c1().into_inner(), 0b_01_11_10_00);
    assert_eq!(CubePermutation::c2().into_inner(), 0b_10_01_11_00);
    assert_eq!(CubePermutation::i().into_inner(), 0b_01_10_11_00);
    assert_eq!(CubePermutation::default(), CubePermutation::unit());
    assert_eq!(CubePermutation::front(), CubePermutation::x_1());
    assert_eq!(CubePermutation::back(), CubePermutation::x_3());
    assert_eq!(CubePermutation::right(), CubePermutation::y_1());
    assert_eq!(CubePermutation::left(), CubePermutation::y_3());
    assert_eq!(CubePermutation::up(), CubePermutation::z_1());
    assert_eq!(CubePermutation::down(), CubePermutation::z_3());
}

#[test]
fn new_rejects_repeated_fields() {
    assert!(CubePermutation::new(0).is_none());
    assert!(CubePermutation::new(0b_11_10_01_01).is_none());
    assert!(CubePermutation::new(0b_11_11_01_00).is_none());
    assert!(!CubePermutation::check(0b_00_10_01_00));
    assert!(CubePermutation::check(0b_00_01_10_11));
    let valid = (0..=255u8).filter(|v| CubePermutation::check(*v)).count();
    assert_eq!(valid, 24);
    for v in 0..=255u8 {
        assert_eq!(CubePermutation::new(v).is_some(), CubePermutation::check(v));
        if let Some(p) = CubePermutation::new(v) {
            assert_eq!(p.into_inner(), v);
            assert_eq!(CubePermutation::new_unchecked(v), p);
        }
    }
}

#[test]
fn compose_reads_through() {
    // the image of i under a.compose(b) is a(b(i))
    for a in CubePermutation::enumerate() {
        for b in CubePermutation::enumerate() {
            let c = a.compose(b);
            for i in 0..4u8 {
                assert_eq!(c.get(i), a.get(b.get(i)));
                assert_eq!(c.get_unchecked(i), a.get_unchecked(b.get_unchecked(i)));
            }
        }
    }
    // an exact value: X_1 after Y_1
    assert_eq!(
        CubePermutation::x_1()
            .compose(CubePermutation::y_1())
            .into_inner(),
        0b_01_11_10_00
    );
}

#[test]
fn identity_and_inverse_laws() {
    let unit = CubePermutation::unit();
    for p in CubePermutation::enumerate() {
        assert_eq!(p.compose(unit), p);
        assert_eq!(unit.compose(p), p);
        assert_eq!(p.compose(p.inverse()), unit);
        assert_eq!(p.inverse().compose(p), unit);
        for k in 0..4u8 {
            assert_eq!(p.inverse().get(p.get(k)), k);
        }
        assert_eq!(p.square(), p.compose(p));
    }
    assert_eq!(CubePermutation::y_1().inverse().into_inner(), 0b_01_11_00_10);
}

#[test]
fn composition_is_associative() {
    let all = CubePermutation::enumerate();
    for a in &all {
        for b in &all {
            for c in &all {
                assert_eq!(a.compose(*b).compose(*c), a.compose(b.compose(*c)));
            }
        }
    }
}

#[test]
fn quarter_turns_have_order_four() {
    for g in [
        CubePermutation::front(),
        CubePermutation::back(),
        CubePermutation::left(),
        CubePermutation::right(),
        CubePermutation::up(),
        CubePermutation::down(),
    ] {
        assert_ne!(g, CubePermutation::unit());
        assert_ne!(g.square(), CubePermutation::unit());
        assert_eq!(g.square().square(), CubePermutation::unit());
    }
    // the relation of the three half turns
    assert_eq!(
        CubePermutation::up()
            .compose(CubePermutation::up())
            .compose(CubePermutation::right())
            .compose(CubePermutation::right())
            .compose(CubePermutation::front())
            .compose(CubePermutation::front()),
        CubePermutation::unit()
    );
}

#[test]
fn enumerate_lists_each_permutation_once() {
    let all = CubePermutation::enumerate();
    assert_eq!(all.len(), 24);
    let bytes: Vec<u8> = all.iter().map(|p| p.into_inner()).collect();
    assert_eq!(
        bytes,
        vec![
            0xe4, 0x93, 0x4e, 0x39, 0xb4, 0xd2, 0x4b, 0x2d, 0xd8, 0x63, 0x8d, 0x36, 0x78, 0xe1,
            0x87, 0x1e, 0x6c, 0xb1, 0xc6, 0x1b, 0x9c, 0x72, 0xc9, 0x27
        ]
    );
    let distinct: HashSet<u8> = bytes.iter().copied().collect();
    assert_eq!(distinct.len(), 24);
    for v in 0..=255u8 {
        assert_eq!(distinct.contains(&v), CubePermutation::check(v));
    }
}

#[test]
fn align_brings_symbol_zero_home() {
    for p in CubePermutation::enumerate() {
        let a = p.align();
        assert_eq!(a.into_inner() & 0b11, 0);
        // the aligned byte is a rotation of the byte
        let v = p.into_inner();
        assert!((0..4).any(|k| v.rotate_left(2 * k) == a.into_inner()));
    }
    assert_eq!(CubePermutation::y_2().align().into_inner(), 0b_01_10_11_00);
    assert_eq!(CubePermutation::unit().align(), CubePermutation::unit());
}

#[test]
fn factor_2_splits_off_a_half_turn() {
    for p in CubePermutation::enumerate() {
        let (f0, f1) = p.factor_2();
        assert!(Flip(f0).check());
        assert_eq!(f1.into_inner() & 0b11, 0);
        assert_eq!(f0.compose(f1), p);
        assert_eq!(f0.compose(p), f1);
        let (g0, g1, g2) = p.factor_3();
        assert_eq!(g0, f0);
        assert_eq!(g0.compose(g1.compose(g2)), p);
    }
    let (f0, f1) = CubePermutation::z_1().factor_2();
    assert_eq!(f0, CubePermutation::x_2());
    assert_eq!(f1.into_inner(), 0b_10_11_01_00);
    let (g0, g1, g2) = CubePermutation::z_1().factor_3();
    assert_eq!(g0, CubePermutation::x_2());
    assert_eq!(g1, CubePermutation::c1());
    assert_eq!(g2, CubePermutation::i());
}

#[test]
fn flip_check() {
    assert!(Flip(CubePermutation::unit()).check());
    assert!(Flip(CubePermutation::x_2()).check());
    assert!(Flip(CubePermutation::y_2()).check());
    assert!(Flip(CubePermutation::z_2()).check());
    assert!(!Flip(CubePermutation::x_1()).check());
    assert!(!Flip(CubePermutation::c1()).check());
    let flips = CubePermutation::enumerate()
        .into_iter()
        .filter(|p| Flip(*p).check())
        .count();
    assert_eq!(flips, 4);
}
