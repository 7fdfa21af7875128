//! Permutations of four symbols, packed into one byte.
//!
//! A permutation `p` of `{0, 1, 2, 3}` is stored as four 2-bit fields: field
//! `i` (bits `2i` and `2i + 1`) holds `p(i)`. The four space diagonals of a
//! cube are permuted by its rotations, and every permutation of them comes from
//! exactly one rotation, so this byte is also the orientation of a cubie.
//!
//! The definitions that work on the raw byte (`*_bits`) are the ground truth of
//! the module; the statements about [`CubePermutation`] are phrased over them
//! and over the view of a permutation as a sequence of four images.
use vstd::prelude::*;

verus! {

/// The identity: field `i` holds `i`.
pub const UNIT_BITS: u8 = 0b11_10_01_00;

/// Quarter turn about the front-back axis.
pub const X_1_BITS: u8 = 0b10_01_00_11;

/// Half turn about the front-back axis.
pub const X_2_BITS: u8 = 0b01_00_11_10;

/// Three quarter turns about the front-back axis.
pub const X_3_BITS: u8 = 0b00_11_10_01;

/// Quarter turn about the left-right axis.
pub const Y_1_BITS: u8 = 0b10_00_11_01;

/// Half turn about the left-right axis.
pub const Y_2_BITS: u8 = 0b00_01_10_11;

/// Three quarter turns about the left-right axis.
pub const Y_3_BITS: u8 = 0b01_11_00_10;

/// Quarter turn about the up-down axis.
pub const Z_1_BITS: u8 = 0b00_01_11_10;

/// Half turn about the up-down axis.
pub const Z_2_BITS: u8 = 0b10_11_00_01;

/// Three quarter turns about the up-down axis.
pub const Z_3_BITS: u8 = 0b01_00_10_11;

/// A 3-cycle that fixes symbol 0.
pub const C1_BITS: u8 = 0b01_11_10_00;

/// The other 3-cycle that fixes symbol 0, the inverse of `C1`.
pub const C2_BITS: u8 = 0b10_01_11_00;

/// The transposition of symbols 1 and 3.
pub const I_BITS: u8 = 0b01_10_11_00;

/// `C1` followed by `I`.
pub const C1_I_BITS: u8 = 0b10_11_01_00;

/// `C2` followed by `I`.
pub const C2_I_BITS: u8 = 0b11_01_10_00;

/// The 2-bit field of `value` at position `index`; position 0 is the lowest.
pub open spec fn field_of(value: u8, index: u8) -> u8 {
    (value >> ((index * 2) as u8)) & 3
}

/// The four fields of `value` are pairwise distinct: `value` encodes a
/// bijection on `{0, 1, 2, 3}`.
pub open spec fn valid_bits(value: u8) -> bool {
    let p0 = field_of(value, 0);
    let p1 = field_of(value, 1);
    let p2 = field_of(value, 2);
    let p3 = field_of(value, 3);
    !(p0 == p1 || p0 == p2 || p0 == p3 || p1 == p2 || p1 == p3 || p2 == p3)
}

/// Composition on raw bytes: field `i` of the result is the field of `a` at
/// position `field_of(b, i)`.
pub open spec fn compose_bits(a: u8, b: u8) -> u8 {
    field_of(a, field_of(b, 0)) | (field_of(a, field_of(b, 1)) << 2) | (field_of(
        a,
        field_of(b, 2),
    ) << 4) | (field_of(a, field_of(b, 3)) << 6)
}

/// Inversion on raw bytes: `k` is placed at position `field_of(a, k)`.
pub open spec fn inverse_bits(a: u8) -> u8 {
    (0u8 << ((field_of(a, 0) * 2) as u8)) | (1u8 << ((field_of(a, 1) * 2) as u8)) | (2u8 << ((
    field_of(a, 2) * 2) as u8)) | (3u8 << ((field_of(a, 3) * 2) as u8))
}

/// The fields of `value` moved up by one position, the top one wrapping round.
pub open spec fn rotate_bits(value: u8) -> u8 {
    (value << 2) | (value >> 6)
}

/// `value` rotated `times` times by [`rotate_bits`], for `times` up to three.
pub open spec fn rotate_bits_by(value: u8, times: u8) -> u8 {
    if times == 0 {
        value
    } else if times == 1 {
        rotate_bits(value)
    } else if times == 2 {
        rotate_bits(rotate_bits(value))
    } else {
        rotate_bits(rotate_bits(rotate_bits(value)))
    }
}

/// `value` rotated until its lowest field is zero (at most three times).
pub open spec fn align_bits(value: u8) -> u8 {
    let v1 = if value & 3 != 0 {
        rotate_bits(value)
    } else {
        value
    };
    let v2 = if v1 & 3 != 0 {
        rotate_bits(v1)
    } else {
        v1
    };
    if v2 & 3 != 0 {
        rotate_bits(v2)
    } else {
        v2
    }
}

/// The six byte patterns whose lowest field is zero, in the order in which
/// [`CubePermutation::enumerate`] walks them.
pub open spec fn base_pattern(k: int) -> u8 {
    if k == 0 {
        UNIT_BITS
    } else if k == 1 {
        C1_I_BITS
    } else if k == 2 {
        C2_I_BITS
    } else if k == 3 {
        C1_BITS
    } else if k == 4 {
        I_BITS
    } else {
        C2_BITS
    }
}

/// The byte at place `i` of the enumeration: base pattern `i / 4`, rotated
/// `i % 4` times.
pub open spec fn enumerated_bits(i: int) -> u8 {
    rotate_bits_by(base_pattern(i / 4), (i % 4) as u8)
}

/// `value` is the identity or one of the three half turns: the normal
/// subgroup of order four.
pub open spec fn flip_bits(value: u8) -> bool {
    value == UNIT_BITS || value == X_2_BITS || value == Y_2_BITS || value == Z_2_BITS
}

/// A permutation is its byte: `bits` and `from_bits` are inverse to each other.
pub broadcast group group_permutation_bits {
    CubePermutation::lemma_bits_of_from_bits,
    CubePermutation::lemma_from_bits_of_bits,
}

/// The place of the byte `value` among the 24 valid bytes, ordered by their
/// fields: six times the lowest field, plus twice the place of the next
/// field among the three values left, plus one where the last two fields
/// stand in falling order.
pub open spec fn rank_bits(value: u8) -> int {
    let f0 = field_of(value, 0) as int;
    let f1 = field_of(value, 1) as int;
    let f2 = field_of(value, 2) as int;
    let f3 = field_of(value, 3) as int;
    f0 * 6 + (if f1 > f0 {
        f1 - 1
    } else {
        f1
    }) * 2 + (if f2 > f3 {
        1int
    } else {
        0int
    })
}

/// An element of the symmetric group on four symbols.
#[derive(Clone, Copy, PartialEq, Eq, Hash, Debug, Structural)]
pub struct CubePermutation(u8);

impl View for CubePermutation {
    type V = Seq<int>;

    /// The images of 0, 1, 2 and 3, in this order.
    open spec fn view(&self) -> Seq<int> {
        seq![
            field_of(self.bits(), 0) as int,
            field_of(self.bits(), 1) as int,
            field_of(self.bits(), 2) as int,
            field_of(self.bits(), 3) as int,
        ]
    }
}

impl CubePermutation {
    /// The byte that encodes the permutation.
    pub closed spec fn bits(self) -> u8 {
        self.0
    }

    /// The value that `bits` encodes, whether valid or not.
    pub closed spec fn from_bits(bits: u8) -> Self {
        CubePermutation(bits)
    }

    /// Every value of the type that a program can hold encodes a bijection.
    #[verifier::type_invariant]
    pub open spec fn wf(self) -> bool {
        valid_bits(self.bits())
    }

    pub open spec fn spec_unit() -> Self {
        Self::from_bits(UNIT_BITS)
    }

    /// `self` after `p`: the image of `i` is `self(p(i))`.
    pub open spec fn spec_compose(self, p: Self) -> Self {
        Self::from_bits(compose_bits(self.bits(), p.bits()))
    }

    pub open spec fn spec_inverse(self) -> Self {
        Self::from_bits(inverse_bits(self.bits()))
    }

    pub open spec fn spec_square(self) -> Self {
        self.spec_compose(self)
    }

    pub open spec fn spec_align(self) -> Self {
        Self::from_bits(align_bits(self.bits()))
    }

    /// `self` is in the normal subgroup `{UNIT, X_2, Y_2, Z_2}`.
    pub open spec fn is_flip(self) -> bool {
        flip_bits(self.bits())
    }

    /// The byte of the value that `bits` encodes is `bits`.
    pub broadcast proof fn lemma_bits_of_from_bits(bits: u8)
        ensures
            #[trigger] Self::from_bits(bits).bits() == bits,
    {
    }

    /// A permutation is the value that its byte encodes.
    pub broadcast proof fn lemma_from_bits_of_bits(p: Self)
        ensures
            #[trigger] Self::from_bits(p.bits()) == p,
    {
    }

    /// Two permutations with the same byte are equal.
    pub proof fn lemma_bits_injective(p: Self, q: Self)
        requires
            p.bits() == q.bits(),
        ensures
            p == q,
    {
    }

    /// Two permutations with the same images are equal.
    pub proof fn lemma_view_injective(p: Self, q: Self)
        requires
            p@ == q@,
        ensures
            p == q,
    {
        let a = p.bits();
        let b = q.bits();
        assert(p@[0] == q@[0] && p@[1] == q@[1] && p@[2] == q@[2] && p@[3] == q@[3]);
        assert(a == b) by (bit_vector)
            requires
                field_of(a, 0) == field_of(b, 0),
                field_of(a, 1) == field_of(b, 1),
                field_of(a, 2) == field_of(b, 2),
                field_of(a, 3) == field_of(b, 3),
        ;
    }

    /// The permutation that `value` encodes, or `None` where two of its four
    /// fields coincide.
    pub fn new(value: u8) -> (r: Option<Self>)
        ensures
            r == if valid_bits(value) {
                Some(Self::from_bits(value))
            } else {
                None
            },
    {
        if Self::check(value) {
            Some(CubePermutation(value))
        } else {
            None
        }
    }

    /// The byte that encodes the permutation.
    pub fn into_inner(self) -> (r: u8)
        ensures
            r == self.bits(),
            valid_bits(r),
    {
        proof {
            use_type_invariant(&self);
        }
        self.0
    }

    /// Whether `value` encodes a permutation: its four fields are pairwise
    /// distinct.
    pub fn check(value: u8) -> (ok: bool)
        ensures
            ok == valid_bits(value),
    {
        let p0: u8 = value & 0b11;
        let p1: u8 = value >> 2 & 0b11;
        let p2: u8 = value >> 4 & 0b11;
        let p3: u8 = value >> 6 & 0b11;
        assert(p0 == field_of(value, 0) && p1 == field_of(value, 1) && p2 == field_of(value, 2)
            && p3 == field_of(value, 3)) by (bit_vector)
            requires
                p0 == value & 3,
                p1 == value >> 2 & 3,
                p2 == value >> 4 & 3,
                p3 == value >> 6 & 3,
        ;
        !(p0 == p1 || p0 == p2 || p0 == p3 || p1 == p2 || p1 == p3 || p2 == p3)
    }

    /// The permutation that `value` encodes, for a caller who knows it valid.
    pub fn new_unchecked(value: u8) -> (r: Self)
        requires
            valid_bits(value),
        ensures
            r == Self::from_bits(value),
    {
        CubePermutation(value)
    }

    /// The group operation: the image of `i` under the result is
    /// `self(p(i))`.
    pub fn compose(self, p: Self) -> (r: Self)
        ensures
            r == self.spec_compose(p),
            forall|i: int| 0 <= i < 4 ==> 0 <= p@[i] < 4 && #[trigger] r@[i] == self@[p@[i]],
    {
        let a: u8 = self.0;
        let b: u8 = p.0;
        proof {
            use_type_invariant(&self);
            use_type_invariant(&p);
            lemma_compose_valid(a, b);
            lemma_compose_fields(a, b);
        }
        let r: u8 = self.get_unchecked(p.get_unchecked(0)) | (self.get_unchecked(
            p.get_unchecked(1),
        ) << 2) | (self.get_unchecked(p.get_unchecked(2)) << 4) | (self.get_unchecked(
            p.get_unchecked(3),
        ) << 6);
        CubePermutation(r)
    }

    /// The permutation `q` with `q(self(k)) == k` for every `k`.
    pub fn inverse(self) -> (r: Self)
        ensures
            r == self.spec_inverse(),
            forall|k: int| 0 <= k < 4 ==> 0 <= self@[k] < 4 && #[trigger] r@[self@[k]] == k,
    {
        let a: u8 = self.0;
        proof {
            use_type_invariant(&self);
            lemma_inverse_bits(a);
        }
        let s0: u8 = self.get_unchecked(0) * 2;
        let s1: u8 = self.get_unchecked(1) * 2;
        let s2: u8 = self.get_unchecked(2) * 2;
        let s3: u8 = self.get_unchecked(3) * 2;
        let r: u8 = 0u8 << s0 | 1u8 << s1 | 2u8 << s2 | 3u8 << s3;
        CubePermutation(r)
    }

    /// The field at position `index`: the image of `index`.
    pub fn get_unchecked(&self, index: u8) -> (r: u8)
        requires
            index < 4,
        ensures
            r == field_of(self.bits(), index),
            r < 4,
            r == self@[index as int],
    {
        let v: u8 = self.0;
        assert(((v >> ((index * 2) as u8)) & 3) < 4) by (bit_vector);
        (v >> (index * 2)) & 0b11
    }

    /// The image of `index`.
    pub fn get(&self, index: u8) -> (r: u8)
        requires
            index < 4,
        ensures
            r == field_of(self.bits(), index),
            r < 4,
            r == self@[index as int],
    {
        self.get_unchecked(index)
    }

    /// The permutation composed with itself.
    pub fn square(self) -> (r: Self)
        ensures
            r == self.spec_square(),
    {
        self.compose(self)
    }

    /// The place of the permutation among the 24, from 0 to 23.
    pub fn rank(&self) -> (r: u8)
        ensures
            r == rank_bits(self.bits()),
            r < 24,
    {
        proof {
            use_type_invariant(self);
            lemma_rank(self.bits(), self.bits());
        }
        let f0: u8 = self.get_unchecked(0);
        let f1: u8 = self.get_unchecked(1);
        let f2: u8 = self.get_unchecked(2);
        let f3: u8 = self.get_unchecked(3);
        let second: u8 = if f1 > f0 {
            f1 - 1
        } else {
            f1
        };
        let third: u8 = if f2 > f3 {
            1
        } else {
            0
        };
        f0 * 6 + second * 2 + third
    }

    /// All 24 permutations: each of the six patterns with lowest field zero,
    /// followed by its three rotations.
    pub fn enumerate() -> (r: Vec<Self>)
        ensures
            r@.len() == 24,
            forall|i: int| 0 <= i < 24 ==> (#[trigger] r@[i]).bits() == enumerated_bits(i),
            forall|i: int, j: int| 0 <= i < j < 24 ==> r@[i] != r@[j],
            forall|p: Self| p.wf() ==> r@.contains(p),
    {
        let bases: [u8; 6] = [
            0b_11_10_01_00_u8,
            0b_10_11_01_00_u8,
            0b_11_01_10_00_u8,
            0b_01_11_10_00_u8,
            0b_01_10_11_00_u8,
            0b_10_01_11_00_u8,
        ];
        let mut out: Vec<Self> = Vec::new();
        let mut k: usize = 0;
        while k < 6
            invariant
                k <= 6,
                out@.len() == 4 * k,
                forall|j: int| 0 <= j < 6 ==> bases@[j] == base_pattern(j),
                forall|i: int| 0 <= i < 4 * k ==> (#[trigger] out@[i]).bits() == enumerated_bits(i),
            decreases 6 - k,
        {
            let b0: u8 = bases[k];
            let b1: u8 = (b0 << 2) | (b0 >> 6);
            let b2: u8 = (b1 << 2) | (b1 >> 6);
            let b3: u8 = (b2 << 2) | (b2 >> 6);
            proof {
                lemma_enumerated_valid(4 * k as int);
                lemma_enumerated_valid(4 * k as int + 1);
                lemma_enumerated_valid(4 * k as int + 2);
                lemma_enumerated_valid(4 * k as int + 3);
            }
            out.push(CubePermutation(b0));
            out.push(CubePermutation(b1));
            out.push(CubePermutation(b2));
            out.push(CubePermutation(b3));
            k = k + 1;
        }
        proof {
            assert forall|i: int, j: int| 0 <= i < j < 24 implies out@[i] != out@[j] by {
                lemma_enumerated_distinct(i, j);
            }
            assert forall|p: Self| p.wf() implies out@.contains(p) by {
                let i = lemma_enumerated_complete(p.bits());
                Self::lemma_bits_injective(out@[i], p);
            }
        }
        out
    }

    /// The representative of `self`'s class under rotation of the fields: the
    /// one whose lowest field is zero.
    pub fn align(self) -> (r: Self)
        ensures
            r == self.spec_align(),
            r.bits() & 3 == 0,
    {
        let mut value: u8 = self.0;
        proof {
            use_type_invariant(&self);
            lemma_align_valid(value);
        }
        if value & 0b11 != 0b00 {
            value = (value << 2) | (value >> 6);
        }
        if value & 0b11 != 0b00 {
            value = (value << 2) | (value >> 6);
        }
        if value & 0b11 != 0b00 {
            value = (value << 2) | (value >> 6);
        }
        CubePermutation(value)
    }

    /// Splits `self` as `f0 ∘ f1` with `f0` in the normal subgroup
    /// `{UNIT, X_2, Y_2, Z_2}` and `f1` fixing symbol 0. Since `f0` is its own
    /// inverse, `f1` is `f0 ∘ self`.
    pub fn factor_2(self) -> (r: (Self, Self))
        ensures
            r.0.is_flip(),
            r.1.bits() & 3 == 0,
            r.1 == r.0.spec_compose(self),
            r.0.spec_compose(r.1) == self,
            r.0 == Self::spec_factor_2_flip(self),
    {
        let v: u8 = self.0;
        proof {
            use_type_invariant(&self);
            lemma_factor_2(v);
            lemma_unit_bits(v);
        }
        if self.0 & 0b11 == 0 {
            (Self::unit(), self)
        } else {
            let x: Self = Self::x_2().compose(self);
            if x.0 & 0b11 == 0 {
                (Self::x_2(), x)
            } else {
                let y: Self = Self::y_2().compose(self);
                if y.0 & 0b11 == 0 {
                    (Self::y_2(), y)
                } else {
                    (Self::z_2(), Self::z_2().compose(self))
                }
            }
        }
    }

    /// The half turn (or identity) that [`CubePermutation::factor_2`] splits
    /// off: the one that `self` sends symbol 0 through.
    pub open spec fn spec_factor_2_flip(p: Self) -> Self {
        let v = p.bits();
        if v & 3 == 0 {
            Self::from_bits(UNIT_BITS)
        } else if compose_bits(X_2_BITS, v) & 3 == 0 {
            Self::from_bits(X_2_BITS)
        } else if compose_bits(Y_2_BITS, v) & 3 == 0 {
            Self::from_bits(Y_2_BITS)
        } else {
            Self::from_bits(Z_2_BITS)
        }
    }

    /// Splits `self` as `f0 ∘ f1 ∘ f2`:
    /// `f0` in `{UNIT, X_2, Y_2, Z_2}`, `f1` in `{UNIT, C1, C2}` and `f2` in
    /// `{UNIT, I}`.
    pub fn factor_3(self) -> (r: (Self, Self, Self))
        ensures
            r.0.is_flip(),
            r.0 == Self::spec_factor_2_flip(self),
            r.1.bits() == UNIT_BITS || r.1.bits() == C1_BITS || r.1.bits() == C2_BITS,
            r.2.bits() == UNIT_BITS || r.2.bits() == I_BITS,
            r.0.spec_compose(r.1.spec_compose(r.2)) == self,
    {
        let (f0, f1) = self.factor_2();
        let q: u8 = f1.0;
        proof {
            use_type_invariant(&f1);
            lemma_factor_3(q);
        }
        if q == 0b11_10_01_00 {
            (f0, Self::unit(), Self::unit())
        } else if q == 0b01_10_11_00 {
            (f0, Self::unit(), Self::i())
        } else if q == 0b10_11_01_00 {
            (f0, Self::c1(), Self::i())
        } else if q == 0b11_01_10_00 {
            (f0, Self::c2(), Self::i())
        } else if q == 0b01_11_10_00 {
            (f0, Self::c1(), Self::unit())
        } else {
            (f0, Self::c2(), Self::unit())
        }
    }

    /// The identity.
    #[verifier::when_used_as_spec(spec_unit)]
    pub fn unit() -> (r: Self)
        ensures
            r == Self::spec_unit(),
    {
        proof {
            lemma_named_products();
        }
        CubePermutation(UNIT_BITS)
    }

    /// Quarter turn about the front-back axis.
    pub fn x_1() -> (r: Self)
        ensures
            r.bits() == X_1_BITS,
    {
        proof {
            lemma_named_products();
        }
        CubePermutation(X_1_BITS)
    }

    /// `x_1` twice.
    pub fn x_2() -> (r: Self)
        ensures
            r.bits() == X_2_BITS,
    {
        proof {
            lemma_named_products();
        }
        Self::x_1().square()
    }

    /// The inverse of `x_1`.
    pub fn x_3() -> (r: Self)
        ensures
            r.bits() == X_3_BITS,
    {
        proof {
            lemma_named_products();
        }
        Self::x_1().inverse()
    }

    /// Quarter turn about the left-right axis.
    pub fn y_1() -> (r: Self)
        ensures
            r.bits() == Y_1_BITS,
    {
        proof {
            lemma_named_products();
        }
        CubePermutation(Y_1_BITS)
    }

    /// `y_1` twice.
    pub fn y_2() -> (r: Self)
        ensures
            r.bits() == Y_2_BITS,
    {
        proof {
            lemma_named_products();
        }
        Self::y_1().square()
    }

    /// The inverse of `y_1`.
    pub fn y_3() -> (r: Self)
        ensures
            r.bits() == Y_3_BITS,
    {
        proof {
            lemma_named_products();
        }
        Self::y_1().inverse()
    }

    /// Quarter turn about the up-down axis.
    pub fn z_1() -> (r: Self)
        ensures
            r.bits() == Z_1_BITS,
    {
        proof {
            lemma_named_products();
        }
        CubePermutation(Z_1_BITS)
    }

    /// `z_1` twice.
    pub fn z_2() -> (r: Self)
        ensures
            r.bits() == Z_2_BITS,
    {
        proof {
            lemma_named_products();
        }
        Self::z_1().square()
    }

    /// The inverse of `z_1`.
    pub fn z_3() -> (r: Self)
        ensures
            r.bits() == Z_3_BITS,
    {
        proof {
            lemma_named_products();
        }
        Self::z_1().inverse()
    }

    /// The rotation that a turn of the front layer gives its cubies.
    pub fn front() -> (r: Self)
        ensures
            r.bits() == X_1_BITS,
    {
        Self::x_1()
    }

    /// The rotation that a turn of the back layer gives its cubies.
    pub fn back() -> (r: Self)
        ensures
            r.bits() == X_3_BITS,
    {
        Self::x_3()
    }

    /// The rotation that a turn of the right layer gives its cubies.
    pub fn right() -> (r: Self)
        ensures
            r.bits() == Y_1_BITS,
    {
        Self::y_1()
    }

    /// The rotation that a turn of the left layer gives its cubies.
    pub fn left() -> (r: Self)
        ensures
            r.bits() == Y_3_BITS,
    {
        Self::y_3()
    }

    /// The rotation that a turn of the upper layer gives its cubies.
    pub fn up() -> (r: Self)
        ensures
            r.bits() == Z_1_BITS,
    {
        Self::z_1()
    }

    /// The rotation that a turn of the lower layer gives its cubies.
    pub fn down() -> (r: Self)
        ensures
            r.bits() == Z_3_BITS,
    {
        Self::z_3()
    }

    /// A 3-cycle that fixes symbol 0.
    pub fn c1() -> (r: Self)
        ensures
            r.bits() == C1_BITS,
    {
        proof {
            lemma_named_products();
        }
        CubePermutation(C1_BITS)
    }

    /// The inverse of `c1`.
    pub fn c2() -> (r: Self)
        ensures
            r.bits() == C2_BITS,
    {
        proof {
            lemma_named_products();
        }
        Self::c1().inverse()
    }

    /// The transposition of symbols 1 and 3.
    pub fn i() -> (r: Self)
        ensures
            r.bits() == I_BITS,
    {
        proof {
            lemma_named_products();
        }
        CubePermutation(I_BITS)
    }
}

impl std::ops::Mul for CubePermutation {
    type Output = Self;

    /// `a * b` is `a.compose(b)`.
    fn mul(self, rhs: Self) -> (r: Self) {
        self.compose(rhs)
    }
}

impl vstd::std_specs::ops::MulSpecImpl for CubePermutation {
    open spec fn obeys_mul_spec() -> bool {
        true
    }

    open spec fn mul_req(self, rhs: Self) -> bool {
        true
    }

    open spec fn mul_spec(self, rhs: Self) -> Self {
        self.spec_compose(rhs)
    }
}

impl Default for CubePermutation {
    fn default() -> (r: Self)
        ensures
            r == CubePermutation::spec_unit(),
    {
        Self::unit()
    }
}

/// A permutation held to be a half turn or the identity.
pub struct Flip(pub CubePermutation);

impl Flip {
    /// Whether the permutation is in `{UNIT, X_2, Y_2, Z_2}`.
    pub fn check(&self) -> (ok: bool)
        ensures
            ok == self.0.is_flip(),
    {
        let v: u8 = self.0.into_inner();
        v == X_2_BITS || v == Y_2_BITS || v == Z_2_BITS || v == UNIT_BITS
    }
}

/// The fields of a composition, position by position.
pub proof fn lemma_compose_fields(a: u8, b: u8)
    by (bit_vector)
    ensures
        field_of(compose_bits(a, b), 0) == field_of(a, field_of(b, 0)),
        field_of(compose_bits(a, b), 1) == field_of(a, field_of(b, 1)),
        field_of(compose_bits(a, b), 2) == field_of(a, field_of(b, 2)),
        field_of(compose_bits(a, b), 3) == field_of(a, field_of(b, 3)),
        field_of(b, 0) < 4,
        field_of(b, 1) < 4,
        field_of(b, 2) < 4,
        field_of(b, 3) < 4,
{
}

/// Closure: the composition of two valid bytes is valid.
pub proof fn lemma_compose_valid(a: u8, b: u8)
    by (bit_vector)
    requires
        valid_bits(a),
        valid_bits(b),
    ensures
        valid_bits(compose_bits(a, b)),
{
}

/// The inverse of a valid byte is valid, sends each image back to where it
/// came from, and composed with the byte, on either side, is the identity.
pub proof fn lemma_inverse_bits(a: u8)
    by (bit_vector)
    requires
        valid_bits(a),
    ensures
        valid_bits(inverse_bits(a)),
        field_of(inverse_bits(a), field_of(a, 0)) == 0,
        field_of(inverse_bits(a), field_of(a, 1)) == 1,
        field_of(inverse_bits(a), field_of(a, 2)) == 2,
        field_of(inverse_bits(a), field_of(a, 3)) == 3,
        field_of(a, 0) < 4,
        field_of(a, 1) < 4,
        field_of(a, 2) < 4,
        field_of(a, 3) < 4,
        compose_bits(a, inverse_bits(a)) == UNIT_BITS,
        compose_bits(inverse_bits(a), a) == UNIT_BITS,
{
}

/// Rotating the fields of a valid byte until the lowest is zero keeps it
/// valid, and three rotations are enough.
pub proof fn lemma_align_valid(a: u8)
    by (bit_vector)
    requires
        valid_bits(a),
    ensures
        valid_bits(align_bits(a)),
        align_bits(a) & 3 == 0,
{
}

/// The identity is neutral on both sides, for every byte.
pub proof fn lemma_unit_bits(a: u8)
    by (bit_vector)
    ensures
        compose_bits(a, UNIT_BITS) == a,
        compose_bits(UNIT_BITS, a) == a,
{
}

/// Composition is associative, for every three bytes.
pub proof fn lemma_assoc_bits(a: u8, b: u8, c: u8)
    by (bit_vector)
    ensures
        compose_bits(compose_bits(a, b), c) == compose_bits(a, compose_bits(b, c)),
{
}

/// The named elements are valid, and those that are defined as a square or an
/// inverse of another have the bytes that their constants give.
pub proof fn lemma_named_products()
    by (bit_vector)
    ensures
        valid_bits(UNIT_BITS),
        valid_bits(X_1_BITS),
        valid_bits(Y_1_BITS),
        valid_bits(Z_1_BITS),
        valid_bits(C1_BITS),
        valid_bits(I_BITS),
        compose_bits(X_1_BITS, X_1_BITS) == X_2_BITS,
        inverse_bits(X_1_BITS) == X_3_BITS,
        compose_bits(Y_1_BITS, Y_1_BITS) == Y_2_BITS,
        inverse_bits(Y_1_BITS) == Y_3_BITS,
        compose_bits(Z_1_BITS, Z_1_BITS) == Z_2_BITS,
        inverse_bits(Z_1_BITS) == Z_3_BITS,
        compose_bits(X_3_BITS, X_3_BITS) == X_2_BITS,
        inverse_bits(X_3_BITS) == X_1_BITS,
        compose_bits(Y_3_BITS, Y_3_BITS) == Y_2_BITS,
        inverse_bits(Y_3_BITS) == Y_1_BITS,
        compose_bits(Z_3_BITS, Z_3_BITS) == Z_2_BITS,
        inverse_bits(Z_3_BITS) == Z_1_BITS,
        inverse_bits(C1_BITS) == C2_BITS,
        compose_bits(C1_BITS, I_BITS) == C1_I_BITS,
        compose_bits(C2_BITS, I_BITS) == C2_I_BITS,
{
}

/// What [`CubePermutation::factor_2`] rests on: one of the four elements of
/// the normal subgroup brings symbol 0 home, and each of them is its own
/// inverse.
pub proof fn lemma_factor_2(v: u8)
    by (bit_vector)
    requires
        valid_bits(v),
    ensures
        v & 3 == 0 || compose_bits(X_2_BITS, v) & 3 == 0 || compose_bits(Y_2_BITS, v) & 3 == 0
            || compose_bits(Z_2_BITS, v) & 3 == 0,
        compose_bits(X_2_BITS, compose_bits(X_2_BITS, v)) == v,
        compose_bits(Y_2_BITS, compose_bits(Y_2_BITS, v)) == v,
        compose_bits(Z_2_BITS, compose_bits(Z_2_BITS, v)) == v,
{
}

/// What [`CubePermutation::factor_3`] rests on: a valid byte with lowest
/// field zero is one of six, each a product of a 3-cycle and a transposition.
pub proof fn lemma_factor_3(q: u8)
    by (bit_vector)
    requires
        valid_bits(q),
        q & 3 == 0,
    ensures
        q == UNIT_BITS || q == I_BITS || q == C1_I_BITS || q == C2_I_BITS || q == C1_BITS || q
            == C2_BITS,
        compose_bits(UNIT_BITS, UNIT_BITS) == UNIT_BITS,
        compose_bits(UNIT_BITS, I_BITS) == I_BITS,
        compose_bits(C1_BITS, I_BITS) == C1_I_BITS,
        compose_bits(C2_BITS, I_BITS) == C2_I_BITS,
        compose_bits(C1_BITS, UNIT_BITS) == C1_BITS,
        compose_bits(C2_BITS, UNIT_BITS) == C2_BITS,
{
}

/// Every place of the enumeration holds a valid byte.
pub proof fn lemma_enumerated_valid(i: int)
    requires
        0 <= i < 24,
    ensures
        valid_bits(enumerated_bits(i)),
{
    let b = base_pattern(i / 4);
    let t = (i % 4) as u8;
    assert(valid_bits(rotate_bits_by(b, t))) by (bit_vector)
        requires
            b == UNIT_BITS || b == C1_I_BITS || b == C2_I_BITS || b == C1_BITS || b == I_BITS || b
                == C2_BITS,
            t < 4,
    ;
}

/// No byte stands at two places of the enumeration.
pub proof fn lemma_enumerated_distinct(i: int, j: int)
    requires
        0 <= i < j < 24,
    ensures
        enumerated_bits(i) != enumerated_bits(j),
{
    let bi = base_pattern(i / 4);
    let ti = (i % 4) as u8;
    let bj = base_pattern(j / 4);
    let tj = (j % 4) as u8;
    assert(bi != bj || ti != tj);
    assert(rotate_bits_by(bi, ti) != rotate_bits_by(bj, tj)) by (bit_vector)
        requires
            bi == UNIT_BITS || bi == C1_I_BITS || bi == C2_I_BITS || bi == C1_BITS || bi == I_BITS
                || bi == C2_BITS,
            bj == UNIT_BITS || bj == C1_I_BITS || bj == C2_I_BITS || bj == C1_BITS || bj == I_BITS
                || bj == C2_BITS,
            ti < 4,
            tj < 4,
            bi != bj || ti != tj,
    ;
}

/// Every valid byte stands at some place of the enumeration.
pub proof fn lemma_enumerated_complete(v: u8) -> (i: int)
    requires
        valid_bits(v),
    ensures
        0 <= i < 24,
        enumerated_bits(i) == v,
{
    let a = align_bits(v);
    assert((a == UNIT_BITS || a == C1_I_BITS || a == C2_I_BITS || a == C1_BITS || a == I_BITS || a
        == C2_BITS) && (v == a || v == rotate_bits_by(a, 1) || v == rotate_bits_by(a, 2) || v
        == rotate_bits_by(a, 3))) by (bit_vector)
        requires
            valid_bits(v),
            a == align_bits(v),
    ;
    let k: int = if a == UNIT_BITS {
        0
    } else if a == C1_I_BITS {
        1
    } else if a == C2_I_BITS {
        2
    } else if a == C1_BITS {
        3
    } else if a == I_BITS {
        4
    } else {
        5
    };
    let t: int = if v == a {
        0
    } else if v == rotate_bits_by(a, 1) {
        1
    } else if v == rotate_bits_by(a, 2) {
        2
    } else {
        3
    };
    assert(base_pattern(k) == a);
    assert((4 * k + t) / 4 == k && (4 * k + t) % 4 == t);
    4 * k + t
}

/// The rank of a valid byte is below 24, and no two valid bytes share a
/// rank.
pub proof fn lemma_rank(a: u8, b: u8)
    by (bit_vector)
    requires
        valid_bits(a),
        valid_bits(b),
    ensures
        0 <= rank_bits(a) < 24,
        rank_bits(a) == rank_bits(b) ==> a == b,
{
}

/// Identity law: `p ∘ UNIT == p == UNIT ∘ p`.
pub proof fn lemma_compose_unit(p: CubePermutation)
    ensures
        p.spec_compose(CubePermutation::spec_unit()) == p,
        CubePermutation::spec_unit().spec_compose(p) == p,
{
    lemma_unit_bits(p.bits());
}

/// Inverse law: a valid permutation composed with its inverse, on either
/// side, is the identity; and its inverse is valid.
pub proof fn lemma_compose_inverse(p: CubePermutation)
    requires
        p.wf(),
    ensures
        p.spec_compose(p.spec_inverse()) == CubePermutation::spec_unit(),
        p.spec_inverse().spec_compose(p) == CubePermutation::spec_unit(),
        p.spec_inverse().wf(),
{
    lemma_inverse_bits(p.bits());
}

/// Closure: the composition of two valid permutations is valid.
pub proof fn lemma_compose_closed(p: CubePermutation, q: CubePermutation)
    requires
        p.wf(),
        q.wf(),
    ensures
        p.spec_compose(q).wf(),
{
    lemma_compose_valid(p.bits(), q.bits());
}

/// Associativity: `(p ∘ q) ∘ r == p ∘ (q ∘ r)`.
pub proof fn lemma_compose_assoc(p: CubePermutation, q: CubePermutation, r: CubePermutation)
    ensures
        p.spec_compose(q).spec_compose(r) == p.spec_compose(q.spec_compose(r)),
{
    lemma_assoc_bits(p.bits(), q.bits(), r.bits());
}

/// The half turn that `factor_2` splits off is the only element of the
/// normal subgroup that brings symbol 0 of `p` home.
pub proof fn lemma_factor_2_unique(p: CubePermutation, n: CubePermutation)
    requires
        p.wf(),
        n.is_flip(),
        n.spec_compose(p).bits() & 3 == 0,
    ensures
        n == CubePermutation::spec_factor_2_flip(p),
{
    let v = p.bits();
    let m = n.bits();
    let f = CubePermutation::spec_factor_2_flip(p).bits();
    assert(m == f) by (bit_vector)
        requires
            valid_bits(v),
            flip_bits(m),
            compose_bits(m, v) & 3 == 0,
            f == if v & 3 == 0 {
                UNIT_BITS
            } else if compose_bits(X_2_BITS, v) & 3 == 0 {
                X_2_BITS
            } else if compose_bits(Y_2_BITS, v) & 3 == 0 {
                Y_2_BITS
            } else {
                Z_2_BITS
            },
    ;
    CubePermutation::lemma_bits_injective(n, CubePermutation::spec_factor_2_flip(p));
}

} // verus!
