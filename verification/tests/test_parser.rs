use rubik::parser::singmaster::{parse, parse_bytes, ParseError};
use rubik::state::Rubik;
use rubik::transform::layer::RubikLayerTransform;
use rubik::transform::RubikTransform;

fn bytes(rubik: &Rubik) -> Vec<u8> {
    (0..27)
        .map(|i| rubik.cube_at(i).rotation.into_inner())
        .collect()
}

fn run(text: &str) -> Rubik {
    let mut rubik = Rubik::new();
    rubik.execute(&parse(text).unwrap());
    rubik
}

fn layer(m: RubikLayerTransform) -> RubikTransform {
    RubikTransform::Layer(m)
}

fn same(a: &RubikTransform, b: &RubikTransform) -> bool {
    match (a, b) {
        (RubikTransform::Layer(x), RubikTransform::Layer(y)) => x == y,
        (RubikTransform::Repeat(x, n), RubikTransform::Repeat(y, m)) => n == m && same(x, y),
        (RubikTransform::Combine(x), RubikTransform::Combine(y)) => {
            x.len() == y.len() && x.iter().zip(y.iter()).all(|(p, q)| same(p, q))
        }
        _ => false,
    }
}

fn reads(text: &str, items: Vec<RubikTransform>) {
    let got = parse(text).unwrap();
    assert!(
        same(&got, &RubikTransform::Combine(items)),
        "{:?} read as {:?}",
        text,
        got
    );
}

#[test]
fn test_parser_test_singmaster_compiler() {
    let mut rubik = Rubik::new();
    rubik.execute(&parse("BL E2(RR'F'R2 F2' F'2 )3'RR B").unwrap());
    println!("{:?}", rubik);
    assert_eq!(
        bytes(&rubik),
        vec![
            78, 201, 39, 141, 177, 108, 198, 78, 147, 135, 228, 228, 177, 177, 216, 114, 228,
            228, 75, 27, 57, 78, 108, 78, 225, 108, 156
        ]
    );
}

#[test]
fn test_compiler_test_singmaster_compiler() {
    let output = parse("RUR'U'R'FRF'").unwrap();
    let mut rubik = Rubik::new();
    rubik.execute(&output);
    println!("{:?}", rubik);
    assert_eq!(
        bytes(&rubik),
        vec![
            114, 114, 228, 228, 228, 228, 228, 228, 228, 228, 228, 120, 228, 228, 228, 228, 228,
            228, 75, 75, 120, 228, 228, 228, 228, 228, 228
        ]
    );
}

#[test]
fn parsed_sequence_six_times_returns_to_solved() {
    let mut rubik = Rubik::new();
    for round in 1..=6 {
        rubik.execute(&parse("R U R' U' R' F R F'").unwrap());
        assert_eq!(rubik.is_solved(), round % 3 == 0);
    }
    assert!(rubik.is_solved());
    assert_eq!(rubik, Rubik::new());
    assert_eq!(run("(R U R' U' R' F R F')6"), Rubik::new());
    assert_eq!(run("RUR'U'R'FRF'"), run(" R U R' U'\tR' F R F' \n"));
}

#[test]
fn letters() {
    let r = RubikLayerTransform::r;
    reads("F", vec![layer(RubikLayerTransform::f())]);
    reads("B", vec![layer(RubikLayerTransform::b())]);
    reads("L", vec![layer(RubikLayerTransform::l())]);
    reads("R", vec![layer(r())]);
    reads("U", vec![layer(RubikLayerTransform::u())]);
    reads("D", vec![layer(RubikLayerTransform::d())]);
    reads("M", vec![layer(RubikLayerTransform::m())]);
    reads("E", vec![layer(RubikLayerTransform::e())]);
    reads("S", vec![layer(RubikLayerTransform::s())]);
    let list = |ms: &[RubikLayerTransform]| RubikTransform::sequence(ms);
    reads(
        "x",
        vec![list(&[r(), RubikLayerTransform::mi(), RubikLayerTransform::li()])],
    );
    reads(
        "y",
        vec![list(&[
            RubikLayerTransform::u(),
            RubikLayerTransform::ei(),
            RubikLayerTransform::di(),
        ])],
    );
    reads(
        "z",
        vec![list(&[
            RubikLayerTransform::f(),
            RubikLayerTransform::si(),
            RubikLayerTransform::bi(),
        ])],
    );
    reads("r", vec![list(&[r(), RubikLayerTransform::mi()])]);
    reads(
        "l",
        vec![list(&[RubikLayerTransform::l(), RubikLayerTransform::m()])],
    );
    reads(
        "u",
        vec![list(&[RubikLayerTransform::u(), RubikLayerTransform::ei()])],
    );
    reads(
        "d",
        vec![list(&[RubikLayerTransform::d(), RubikLayerTransform::e()])],
    );
    reads(
        "f",
        vec![list(&[RubikLayerTransform::f(), RubikLayerTransform::si()])],
    );
    reads(
        "b",
        vec![list(&[RubikLayerTransform::b(), RubikLayerTransform::s()])],
    );
    // a turn of the whole puzzle rotates every cubie alike
    assert_eq!(bytes(&run("x")), vec![141; 27]);
    assert!(run("x").is_solved());
    assert!(run("y' z2 x").is_solved());
}

#[test]
fn modifiers() {
    let r = RubikLayerTransform::r();
    reads("", vec![]);
    reads("   ", vec![]);
    reads("R'", vec![layer(r.inverse())]);
    reads("R''", vec![layer(r)]);
    reads("R1", vec![layer(r)]);
    reads("R2", vec![layer(r).repeat(2)]);
    reads("R12", vec![layer(r).repeat(12)]);
    reads("R1 2", vec![layer(r).repeat(2)]);
    reads("R2 3", vec![layer(r).repeat(6)]);
    reads("R007", vec![layer(r).repeat(7)]);
    reads("R2'", vec![layer(r.inverse()).repeat(2)]);
    reads("R'2", vec![layer(r.inverse()).repeat(2)]);
    reads("R '", vec![layer(r.inverse())]);
    // a count of zero leaves nothing of the move
    reads("R0", vec![RubikTransform::Combine(vec![])]);
    reads("R'0", vec![RubikTransform::Combine(vec![])]);
    reads("R0 5", vec![RubikTransform::Combine(vec![])]);
    reads("(RU)0", vec![RubikTransform::Combine(vec![])]);
    assert_eq!(run("R0"), Rubik::new());
    assert_eq!(run("R4"), Rubik::new());
    assert_eq!(run("R3"), run("R'"));
    assert_eq!(run("R2'"), run("R2"));
}

#[test]
fn groups() {
    let r = RubikLayerTransform::r();
    let u = RubikLayerTransform::u();
    let ru = || RubikTransform::Combine(vec![layer(r), layer(u)]);
    reads("(RU)", vec![ru()]);
    reads("()", vec![RubikTransform::Combine(vec![])]);
    reads(" ( R U ) ", vec![ru()]);
    reads("(RU)3", vec![ru().repeat(3)]);
    reads(
        "(RU)'",
        vec![RubikTransform::Combine(vec![
            layer(u.inverse()),
            layer(r.inverse()),
        ])],
    );
    reads(
        "((RU)2R)'F",
        vec![
            RubikTransform::Combine(vec![
                layer(r.inverse()),
                RubikTransform::Combine(vec![layer(u.inverse()), layer(r.inverse())]).repeat(2),
            ]),
            layer(RubikLayerTransform::f()),
        ],
    );
    assert_eq!(run("(RU)'"), run("U'R'"));
    assert_eq!(run("(RU)2"), run("RURU"));
    assert_eq!(run("(R U)' (R U)"), Rubik::new());
}

#[test]
fn errors_name_the_unread_remainder() {
    let fails = |text: &str, position: usize| {
        assert_eq!(
            parse(text).err(),
            Some(ParseError { position }),
            "{:?}",
            text
        );
    };
    fails("Q", 0);
    fails("R U Q", 4);
    fails("R U  Q R", 5);
    fails("'", 0);
    fails("2R", 0);
    fails("(", 0);
    fails(")", 0);
    fails("R(U", 1);
    fails("R (U", 2);
    fails("(R))", 3);
    fails("R)", 1);
    fails("(R(U)", 0);
    fails("RU\u{e9}", 2);
    // a count that is no usize is no modifier
    fails("R99999999999999999999999999999999999999999", 1);
    fails("R 99999999999999999999999999999999999999999", 2);
    fails("R2 99999999999999999999999999999999999999999", 3);
    // nor is a count whose product with the counts before it is none
    let big = usize::MAX;
    let text = format!("R{} 2", big);
    fails(&text, text.len() - 1);
    assert!(parse(&format!("R{}", big)).is_ok());
    assert!(parse(&format!("R{} 1", big)).is_ok());
    assert!(parse(&format!("R0 {}", big)).is_ok());
    assert_eq!(
        parse_bytes(&[b'R', 0xff, b'U']).err(),
        Some(ParseError { position: 1 })
    );
    assert!(parse_bytes(b"R U").is_ok());
}

#[test]
fn tokens_of_moves_read_back() {
    let moves = vec![
        RubikLayerTransform::r(),
        RubikLayerTransform::ri(),
        RubikLayerTransform::r2(),
        RubikLayerTransform::m(),
        RubikLayerTransform::ei(),
        RubikLayerTransform::s2(),
        RubikLayerTransform::f(),
        RubikLayerTransform::bi(),
        RubikLayerTransform::d2(),
        RubikLayerTransform::l(),
        RubikLayerTransform::ui(),
    ];
    let text = RubikLayerTransform::sequence_to_string(&moves);
    assert_eq!(text, "RR'R2ME'S2FB'D2LU'");
    let mut read = Rubik::new();
    read.execute(&parse(&text).unwrap());
    let mut made = Rubik::new();
    for m in &moves {
        made.turn(m);
    }
    assert_eq!(read, made);
}
