//! The extended Singmaster notation.
//!
//! ```text
//! sequence := item*
//! item     := (letter | '(' sequence ')') modifier*
//! modifier := "'" | digit+
//! letter   := F B L R U D M E S x y z r l u d f b
//! ```
//!
//! Blanks may stand before every letter, bracket and modifier, and at the
//! end of the text. `'` inverts what stands before it, a number repeats it;
//! several modifiers after each other multiply their numbers, and two
//! inversions cancel. A number counts as a modifier only if it, and its
//! product with the numbers before it, is a `usize`: otherwise the text is in
//! error from that number on.
use crate::transform::layer::RubikLayerTransform;
use crate::transform::{RubikTransform, TransformModel};
use vstd::prelude::*;
use vstd::string::StringSliceAdditionalSpecFns;

verus! {

/// The letter `F`.
pub const UPPER_F: u8 = 70;

/// The letter `B`.
pub const UPPER_B: u8 = 66;

/// The letter `L`.
pub const UPPER_L: u8 = 76;

/// The letter `R`.
pub const UPPER_R: u8 = 82;

/// The letter `U`.
pub const UPPER_U: u8 = 85;

/// The letter `D`.
pub const UPPER_D: u8 = 68;

/// The letter `M`.
pub const UPPER_M: u8 = 77;

/// The letter `E`.
pub const UPPER_E: u8 = 69;

/// The letter `S`.
pub const UPPER_S: u8 = 83;

/// The letter `x`.
pub const LOWER_X: u8 = 120;

/// The letter `y`.
pub const LOWER_Y: u8 = 121;

/// The letter `z`.
pub const LOWER_Z: u8 = 122;

/// The letter `r`.
pub const LOWER_R: u8 = 114;

/// The letter `l`.
pub const LOWER_L: u8 = 108;

/// The letter `u`.
pub const LOWER_U: u8 = 117;

/// The letter `d`.
pub const LOWER_D: u8 = 100;

/// The letter `f`.
pub const LOWER_F: u8 = 102;

/// The letter `b`.
pub const LOWER_B: u8 = 98;

/// The mark of inversion, `'`.
pub const PRIME: u8 = 39;

/// The opening bracket of a group.
pub const OPEN: u8 = 40;

/// The closing bracket of a group.
pub const CLOSE: u8 = 41;

/// A blank: space, tab, line feed, form feed or carriage return.
pub open spec fn is_blank(b: u8) -> bool {
    b == 32 || b == 9 || b == 10 || b == 12 || b == 13
}

/// A decimal digit.
pub open spec fn is_digit(b: u8) -> bool {
    48 <= b <= 57
}

/// The first place from `i` on that holds no blank.
pub open spec fn skip_blanks(s: Seq<u8>, i: int) -> int
    decreases s.len() - i,
{
    if 0 <= i < s.len() && is_blank(s[i]) {
        skip_blanks(s, i + 1)
    } else {
        i
    }
}

/// The first place from `i` on that holds no digit.
pub open spec fn skip_digits(s: Seq<u8>, i: int) -> int
    decreases s.len() - i,
{
    if 0 <= i < s.len() && is_digit(s[i]) {
        skip_digits(s, i + 1)
    } else {
        i
    }
}

/// The number that the digits from place `i` up to place `j` write.
pub open spec fn digits_value(s: Seq<u8>, i: int, j: int) -> nat
    decreases j - i,
{
    if j <= i {
        0
    } else {
        digits_value(s, i, j - 1) * 10 + (s[j - 1] - 48) as nat
    }
}

/// The list of the turns `a`, `b`: what a small letter stands for.
pub open spec fn pair_of(a: RubikLayerTransform, b: RubikLayerTransform) -> TransformModel {
    TransformModel::Combine(seq![TransformModel::Layer(a), TransformModel::Layer(b)])
}

/// The list of the turns `a`, `b`, `c`: a turn of the whole puzzle.
pub open spec fn triple_of(
    a: RubikLayerTransform,
    b: RubikLayerTransform,
    c: RubikLayerTransform,
) -> TransformModel {
    TransformModel::Combine(
        seq![TransformModel::Layer(a), TransformModel::Layer(b), TransformModel::Layer(c)],
    )
}

/// The move that the letter `b` stands for. A capital letter is the turn of
/// one layer; a small letter turns an outer layer together with the slice
/// next to it; `x`, `y` and `z` turn the whole puzzle as `R`, `U` and `F` do.
pub open spec fn letter_move(b: u8) -> Option<TransformModel> {
    if b == UPPER_F {
        Some(TransformModel::Layer(RubikLayerTransform::f()))
    } else if b == UPPER_B {
        Some(TransformModel::Layer(RubikLayerTransform::b()))
    } else if b == UPPER_L {
        Some(TransformModel::Layer(RubikLayerTransform::l()))
    } else if b == UPPER_R {
        Some(TransformModel::Layer(RubikLayerTransform::r()))
    } else if b == UPPER_U {
        Some(TransformModel::Layer(RubikLayerTransform::u()))
    } else if b == UPPER_D {
        Some(TransformModel::Layer(RubikLayerTransform::d()))
    } else if b == UPPER_M {
        Some(TransformModel::Layer(RubikLayerTransform::m()))
    } else if b == UPPER_E {
        Some(TransformModel::Layer(RubikLayerTransform::e()))
    } else if b == UPPER_S {
        Some(TransformModel::Layer(RubikLayerTransform::s()))
    } else if b == LOWER_X {
        Some(
            triple_of(
                RubikLayerTransform::r(),
                RubikLayerTransform::mi(),
                RubikLayerTransform::li(),
            ),
        )
    } else if b == LOWER_Y {
        Some(
            triple_of(
                RubikLayerTransform::u(),
                RubikLayerTransform::ei(),
                RubikLayerTransform::di(),
            ),
        )
    } else if b == LOWER_Z {
        Some(
            triple_of(
                RubikLayerTransform::f(),
                RubikLayerTransform::si(),
                RubikLayerTransform::bi(),
            ),
        )
    } else if b == LOWER_R {
        Some(pair_of(RubikLayerTransform::r(), RubikLayerTransform::mi()))
    } else if b == LOWER_L {
        Some(pair_of(RubikLayerTransform::l(), RubikLayerTransform::m()))
    } else if b == LOWER_U {
        Some(pair_of(RubikLayerTransform::u(), RubikLayerTransform::ei()))
    } else if b == LOWER_D {
        Some(pair_of(RubikLayerTransform::d(), RubikLayerTransform::e()))
    } else if b == LOWER_F {
        Some(pair_of(RubikLayerTransform::f(), RubikLayerTransform::si()))
    } else if b == LOWER_B {
        Some(pair_of(RubikLayerTransform::b(), RubikLayerTransform::s()))
    } else {
        None
    }
}

/// The move `base` under its modifiers: nothing at all for a count of zero;
/// else inverted where the inversions do not cancel, and repeated where the
/// count is above one.
pub open spec fn modified(base: TransformModel, inverse: bool, times: nat) -> TransformModel {
    if times == 0 {
        TransformModel::Combine(Seq::empty())
    } else {
        let turned = if inverse {
            base.inverse()
        } else {
            base
        };
        if times > 1 {
            TransformModel::Repeat(Box::new(turned), times)
        } else {
            turned
        }
    }
}

/// What the modifiers from place `i` on make of the inversion `inverse` and
/// the count `times` gathered so far, and the place behind the last of them.
pub open spec fn parse_modifiers(s: Seq<u8>, i: int, inverse: bool, times: nat) -> (bool, nat, int)
    decreases s.len() - i,
{
    let j = skip_blanks(s, i);
    if 0 <= i <= j < s.len() && s[j] == PRIME {
        parse_modifiers(s, j + 1, !inverse, times)
    } else if 0 <= i <= j < s.len() && is_digit(s[j]) {
        let k = skip_digits(s, j);
        let n = digits_value(s, j, k);
        if j < k <= s.len() && n <= usize::MAX && times * n <= usize::MAX {
            parse_modifiers(s, k, inverse, times * n)
        } else {
            (inverse, times, i)
        }
    } else {
        (inverse, times, i)
    }
}

/// The item that starts at place `i` (behind blanks), and the place behind
/// it; `None` where no item starts there.
pub open spec fn parse_item(s: Seq<u8>, i: int) -> Option<(TransformModel, int)>
    decreases s.len() - i, 0nat,
{
    let j = skip_blanks(s, i);
    if !(0 <= i <= j < s.len()) {
        None
    } else if s[j] == OPEN {
        let (list, k) = parse_sequence(s, j + 1);
        let close = skip_blanks(s, k);
        if j < k <= close < s.len() && s[close] == CLOSE {
            let (inverse, times, end) = parse_modifiers(s, close + 1, false, 1);
            Some((modified(TransformModel::Combine(list), inverse, times), end))
        } else {
            None
        }
    } else {
        match letter_move(s[j]) {
            Some(base) => {
                let (inverse, times, end) = parse_modifiers(s, j + 1, false, 1);
                Some((modified(base, inverse, times), end))
            },
            None => None,
        }
    }
}

/// The items that follow each other from place `i` on, as many as there are,
/// and the place behind the last of them.
pub open spec fn parse_sequence(s: Seq<u8>, i: int) -> (Seq<TransformModel>, int)
    decreases s.len() - i, 1nat,
{
    match parse_item(s, i) {
        Some((item, next)) => {
            if i < next <= s.len() {
                let (rest, end) = parse_sequence(s, next);
                (seq![item] + rest, end)
            } else {
                (Seq::empty(), i)
            }
        },
        None => (Seq::empty(), i),
    }
}

/// What the text `s` stands for: the list of its items, where the items
/// with the blanks behind them make up all of the text; else the place of
/// the first byte that belongs to no item.
pub open spec fn parse_text(s: Seq<u8>) -> Result<TransformModel, int> {
    let (list, end) = parse_sequence(s, 0);
    let rest = skip_blanks(s, end);
    if rest >= s.len() {
        Ok(TransformModel::Combine(list))
    } else {
        Err(rest)
    }
}

/// Skipping digits never goes back.
pub proof fn lemma_skip_digits_from(s: Seq<u8>, i: int)
    ensures
        skip_digits(s, i) >= i,
    decreases s.len() - i,
{
    if 0 <= i < s.len() && is_digit(s[i]) {
        lemma_skip_digits_from(s, i + 1);
    }
}

/// The models of the moves `list`.
pub open spec fn models(list: Seq<RubikTransform>) -> Seq<TransformModel> {
    Seq::new(list.len(), |i: int| list[i]@)
}

/// What the parser hands back for a text that means `meaning`.
pub open spec fn reads_as(
    r: Result<RubikTransform, ParseError>,
    meaning: Result<TransformModel, int>,
) -> bool {
    match r {
        Ok(t) => meaning == Ok::<TransformModel, int>(t@),
        Err(e) => meaning == Err::<TransformModel, int>(e.position as int),
    }
}

/// Why a text is no move sequence: the part from `position` on could not be
/// read.
#[derive(Debug, Clone, Copy, PartialEq, Eq, Structural)]
pub struct ParseError {
    /// The place of the first byte that could not be read.
    pub position: usize,
}

/// The first place from `i` on that holds no blank.
fn skip_blanks_from(src: &[u8], i: usize) -> (j: usize)
    requires
        i <= src@.len(),
    ensures
        j == skip_blanks(src@, i as int),
        i <= j <= src@.len(),
{
    let mut j: usize = i;
    while j < src.len() && (src[j] == 32 || src[j] == 9 || src[j] == 10 || src[j] == 12 || src[j]
        == 13)
        invariant
            i <= j <= src@.len(),
            skip_blanks(src@, i as int) == skip_blanks(src@, j as int),
        decreases src@.len() - j,
    {
        j += 1;
    }
    j
}

/// The digits from place `i` on: the place behind them, and the number that
/// they write, or `None` where the number is no `usize`.
fn read_number(src: &[u8], i: usize) -> (r: (usize, Option<usize>))
    requires
        i <= src@.len(),
    ensures
        r.0 == skip_digits(src@, i as int),
        i <= r.0 <= src@.len(),
        match r.1 {
            Some(v) => v == digits_value(src@, i as int, r.0 as int),
            None => digits_value(src@, i as int, r.0 as int) > usize::MAX,
        },
{
    let mut j: usize = i;
    let mut value: Option<usize> = Some(0);
    while j < src.len() && 48 <= src[j] && src[j] <= 57
        invariant
            i <= j <= src@.len(),
            skip_digits(src@, i as int) == skip_digits(src@, j as int),
            match value {
                Some(v) => v == digits_value(src@, i as int, j as int),
                None => digits_value(src@, i as int, j as int) > usize::MAX,
            },
        decreases src@.len() - j,
    {
        let digit: usize = (src[j] - 48) as usize;
        let ghost before = digits_value(src@, i as int, j as int);
        assert(digits_value(src@, i as int, j + 1) == before * 10 + digit);
        value =
        match value {
            Some(v) => match v.checked_mul(10) {
                Some(tens) => tens.checked_add(digit),
                None => None,
            },
            None => None,
        };
        j += 1;
    }
    (j, value)
}

/// The modifiers from place `i` on: whether they invert, how often they
/// repeat, and the place behind the last of them.
fn read_modifiers(src: &[u8], i: usize) -> (r: (bool, usize, usize))
    requires
        i <= src@.len(),
    ensures
        (r.0, r.1 as nat, r.2 as int) == parse_modifiers(src@, i as int, false, 1),
        i <= r.2 <= src@.len(),
{
    let mut inverse: bool = false;
    let mut times: usize = 1;
    let mut end: usize = i;
    loop
        invariant
            i <= end <= src@.len(),
            parse_modifiers(src@, i as int, false, 1) == parse_modifiers(
                src@,
                end as int,
                inverse,
                times as nat,
            ),
        ensures
            i <= end <= src@.len(),
            (inverse, times as nat, end as int) == parse_modifiers(src@, i as int, false, 1),
        decreases src@.len() - end,
    {
        let j: usize = skip_blanks_from(src, end);
        if j < src.len() && src[j] == PRIME {
            inverse = !inverse;
            end = j + 1;
        } else if j < src.len() && 48 <= src[j] && src[j] <= 57 {
            let (k, number) = read_number(src, j);
            proof {
                lemma_skip_digits_from(src@, j + 1);
            }
            let product: Option<usize> = match number {
                Some(n) => times.checked_mul(n),
                None => None,
            };
            match product {
                Some(p) => {
                    times = p;
                    end = k;
                },
                None => {
                    proof {
                        let n = digits_value(src@, j as int, k as int);
                        if n <= usize::MAX {
                            assert(times * n > usize::MAX);
                        }
                    }
                    break ;
                },
            }
        } else {
            break ;
        }
    }
    (inverse, times, end)
}

/// The list of the turns `a` and `b`.
fn pair(a: RubikLayerTransform, b: RubikLayerTransform) -> (r: RubikTransform)
    ensures
        r@ == pair_of(a, b),
{
    let mut list: Vec<RubikTransform> = Vec::new();
    list.push(RubikTransform::Layer(a));
    list.push(RubikTransform::Layer(b));
    assert(list@[0]@ == TransformModel::Layer(a));
    assert(list@[1]@ == TransformModel::Layer(b));
    let r = RubikTransform::Combine(list);
    assert(r@->Combine_0 =~= pair_of(a, b)->Combine_0);
    r
}

/// The list of the turns `a`, `b` and `c`.
fn triple(a: RubikLayerTransform, b: RubikLayerTransform, c: RubikLayerTransform) -> (r:
    RubikTransform)
    ensures
        r@ == triple_of(a, b, c),
{
    let mut list: Vec<RubikTransform> = Vec::new();
    list.push(RubikTransform::Layer(a));
    list.push(RubikTransform::Layer(b));
    list.push(RubikTransform::Layer(c));
    assert(list@[0]@ == TransformModel::Layer(a));
    assert(list@[1]@ == TransformModel::Layer(b));
    assert(list@[2]@ == TransformModel::Layer(c));
    let r = RubikTransform::Combine(list);
    assert(r@->Combine_0 =~= triple_of(a, b, c)->Combine_0);
    r
}

/// The move that the letter `b` stands for.
fn read_letter(b: u8) -> (r: Option<RubikTransform>)
    ensures
        match r {
            Some(t) => letter_move(b) == Some(t@),
            None => letter_move(b).is_none(),
        },
{
    if b == UPPER_F {
        Some(RubikTransform::Layer(RubikLayerTransform::f()))
    } else if b == UPPER_B {
        Some(RubikTransform::Layer(RubikLayerTransform::b()))
    } else if b == UPPER_L {
        Some(RubikTransform::Layer(RubikLayerTransform::l()))
    } else if b == UPPER_R {
        Some(RubikTransform::Layer(RubikLayerTransform::r()))
    } else if b == UPPER_U {
        Some(RubikTransform::Layer(RubikLayerTransform::u()))
    } else if b == UPPER_D {
        Some(RubikTransform::Layer(RubikLayerTransform::d()))
    } else if b == UPPER_M {
        Some(RubikTransform::Layer(RubikLayerTransform::m()))
    } else if b == UPPER_E {
        Some(RubikTransform::Layer(RubikLayerTransform::e()))
    } else if b == UPPER_S {
        Some(RubikTransform::Layer(RubikLayerTransform::s()))
    } else if b == LOWER_X {
        Some(
            triple(
                RubikLayerTransform::r(),
                RubikLayerTransform::mi(),
                RubikLayerTransform::li(),
            ),
        )
    } else if b == LOWER_Y {
        Some(
            triple(
                RubikLayerTransform::u(),
                RubikLayerTransform::ei(),
                RubikLayerTransform::di(),
            ),
        )
    } else if b == LOWER_Z {
        Some(
            triple(
                RubikLayerTransform::f(),
                RubikLayerTransform::si(),
                RubikLayerTransform::bi(),
            ),
        )
    } else if b == LOWER_R {
        Some(pair(RubikLayerTransform::r(), RubikLayerTransform::mi()))
    } else if b == LOWER_L {
        Some(pair(RubikLayerTransform::l(), RubikLayerTransform::m()))
    } else if b == LOWER_U {
        Some(pair(RubikLayerTransform::u(), RubikLayerTransform::ei()))
    } else if b == LOWER_D {
        Some(pair(RubikLayerTransform::d(), RubikLayerTransform::e()))
    } else if b == LOWER_F {
        Some(pair(RubikLayerTransform::f(), RubikLayerTransform::si()))
    } else if b == LOWER_B {
        Some(pair(RubikLayerTransform::b(), RubikLayerTransform::s()))
    } else {
        None
    }
}

/// The move `base` under its modifiers.
fn with_modifiers(base: RubikTransform, inverse: bool, times: usize) -> (r: RubikTransform)
    ensures
        r@ == modified(base@, inverse, times as nat),
{
    if times == 0 {
        let r = RubikTransform::Combine(Vec::new());
        assert(r@->Combine_0 =~= Seq::<TransformModel>::empty());
        return r;
    }
    let turned: RubikTransform = if inverse {
        base.inverse()
    } else {
        base
    };
    if times > 1 {
        turned.repeat(times)
    } else {
        turned
    }
}

/// The item that starts at place `i`, and the place behind it.
fn read_item(src: &[u8], i: usize) -> (r: Option<(RubikTransform, usize)>)
    requires
        i <= src@.len(),
    ensures
        match r {
            Some((t, end)) => parse_item(src@, i as int) == Some((t@, end as int)) && i < end
                <= src@.len(),
            None => parse_item(src@, i as int).is_none(),
        },
    decreases src@.len() - i, 0nat,
{
    let j: usize = skip_blanks_from(src, i);
    if j >= src.len() {
        return None;
    }
    if src[j] == OPEN {
        let (list, k) = read_sequence(src, j + 1);
        let close: usize = skip_blanks_from(src, k);
        if close < src.len() && src[close] == CLOSE {
            let (inverse, times, end) = read_modifiers(src, close + 1);
            let group = RubikTransform::Combine(list);
            assert(group@->Combine_0 =~= models(list@));
            Some((with_modifiers(group, inverse, times), end))
        } else {
            None
        }
    } else {
        match read_letter(src[j]) {
            Some(base) => {
                let (inverse, times, end) = read_modifiers(src, j + 1);
                Some((with_modifiers(base, inverse, times), end))
            },
            None => None,
        }
    }
}

/// The items that follow each other from place `i` on, and the place behind
/// the last of them.
fn read_sequence(src: &[u8], i: usize) -> (r: (Vec<RubikTransform>, usize))
    requires
        i <= src@.len(),
    ensures
        (models(r.0@), r.1 as int) == parse_sequence(src@, i as int),
        i <= r.1 <= src@.len(),
    decreases src@.len() - i, 1nat,
{
    let mut list: Vec<RubikTransform> = Vec::new();
    let mut end: usize = i;
    loop
        invariant
            i <= end <= src@.len(),
            parse_sequence(src@, i as int) == (
                models(list@) + parse_sequence(src@, end as int).0,
                parse_sequence(src@, end as int).1,
            ),
        ensures
            i <= end <= src@.len(),
            (models(list@), end as int) == parse_sequence(src@, i as int),
        decreases src@.len() - end,
    {
        match read_item(src, end) {
            Some((item, next)) => {
                proof {
                    let rest = parse_sequence(src@, next as int).0;
                    assert(models(list@.push(item)) + rest =~= models(list@) + (seq![item@] + rest));
                }
                list.push(item);
                end = next;
            },
            None => {
                assert(models(list@) + Seq::<TransformModel>::empty() =~= models(list@));
                break ;
            },
        }
    }
    (list, end)
}

/// Reads a move sequence in the notation from the bytes `src`. The moves of
/// the text come back as one list; where the text cannot be read to its end,
/// nothing of it is kept and the error names the place of the first byte
/// that belongs to no item.
pub fn parse_bytes(src: &[u8]) -> (r: Result<RubikTransform, ParseError>)
    ensures
        reads_as(r, parse_text(src@)),
{
    let (list, end) = read_sequence(src, 0);
    let rest: usize = skip_blanks_from(src, end);
    if rest >= src.len() {
        let whole = RubikTransform::Combine(list);
        assert(whole@->Combine_0 =~= models(list@));
        Ok(whole)
    } else {
        Err(ParseError { position: rest })
    }
}

/// Reads a move sequence in the notation from the text `src`.
pub fn parse(src: &str) -> (r: Result<RubikTransform, ParseError>)
    ensures
        reads_as(r, parse_text(src.spec_bytes())),
{
    parse_bytes(src.as_bytes())
}

} // verus!
