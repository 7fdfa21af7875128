//! One cubie: the rotation it has undergone, and the face it shows at each
//! of the six sides.
use crate::permutation::{
    align_bits, compose_bits, lemma_factor_3, lemma_named_products, valid_bits, CubePermutation,
    C1_BITS, C1_I_BITS, C2_BITS, C2_I_BITS, I_BITS, UNIT_BITS, Y_1_BITS, Y_2_BITS, Y_3_BITS,
    Z_1_BITS, Z_3_BITS,
};
use std::collections::HashMap;
use vstd::prelude::*;

verus! {

broadcast use crate::permutation::group_permutation_bits;

/// A side of the cube. Each face stands for one class of permutations under
/// rotation of the four fields, by the member whose lowest field is zero.
#[derive(Debug, Clone, Copy, PartialEq, Eq, Hash, Structural)]
pub enum CubeFace {
    F,
    B,
    R,
    L,
    U,
    D,
}

impl CubeFace {
    /// The byte of the permutation that stands for the face.
    pub open spec fn spec_bits(self) -> u8 {
        match self {
            CubeFace::F => UNIT_BITS,
            CubeFace::B => I_BITS,
            CubeFace::R => C1_BITS,
            CubeFace::L => C1_I_BITS,
            CubeFace::U => C2_BITS,
            CubeFace::D => C2_I_BITS,
        }
    }

    /// The face whose class the byte `value` belongs to.
    pub open spec fn spec_from_bits(value: u8) -> CubeFace {
        let a = align_bits(value);
        if a == UNIT_BITS {
            CubeFace::F
        } else if a == I_BITS {
            CubeFace::B
        } else if a == C1_BITS {
            CubeFace::R
        } else if a == C1_I_BITS {
            CubeFace::L
        } else if a == C2_BITS {
            CubeFace::U
        } else {
            CubeFace::D
        }
    }

    /// The face whose class `value` belongs to: `value` is rotated until its
    /// lowest field is zero, which leaves the pattern of one of the six faces.
    pub fn from_cube_permutation(value: CubePermutation) -> (face: CubeFace)
        ensures
            face == Self::spec_from_bits(value.bits()),
            face.spec_bits() == align_bits(value.bits()),
    {
        let aligned: CubePermutation = value.align();
        let a: u8 = aligned.into_inner();
        proof {
            lemma_factor_3(a);
        }
        if a == UNIT_BITS {
            CubeFace::F
        } else if a == I_BITS {
            CubeFace::B
        } else if a == C1_BITS {
            CubeFace::R
        } else if a == C1_I_BITS {
            CubeFace::L
        } else if a == C2_BITS {
            CubeFace::U
        } else {
            CubeFace::D
        }
    }

    /// The permutation that stands for the face.
    pub fn as_cube_permutation(self) -> (p: CubePermutation)
        ensures
            p.bits() == self.spec_bits(),
    {
        match self {
            CubeFace::F => CubePermutation::unit(),
            CubeFace::B => CubePermutation::i(),
            CubeFace::R => CubePermutation::c1(),
            CubeFace::L => {
                proof {
                    lemma_named_products();
                }
                CubePermutation::c1().compose(CubePermutation::i())
            },
            CubeFace::U => CubePermutation::c2(),
            CubeFace::D => {
                proof {
                    lemma_named_products();
                }
                CubePermutation::c2().compose(CubePermutation::i())
            },
        }
    }
}

/// The six faces are the classes of the identity and of five turns: the back
/// is reached by a half turn about the left-right axis, the sides by quarter
/// turns about the up-down axis, top and bottom by quarter turns about the
/// left-right axis.
pub proof fn lemma_face_patterns()
    by (bit_vector)
    ensures
        align_bits(UNIT_BITS) == UNIT_BITS,
        align_bits(Y_2_BITS) == I_BITS,
        align_bits(Z_1_BITS) == C1_BITS,
        align_bits(Z_3_BITS) == C1_I_BITS,
        align_bits(Y_3_BITS) == C2_BITS,
        align_bits(Y_1_BITS) == C2_I_BITS,
{
}

/// Only the identity leaves two neighbouring faces where they are: a valid
/// byte under which two of the faces front, right and top are shown at their
/// own sides is the identity.
pub proof fn lemma_fixed_faces(r: u8)
    by (bit_vector)
    requires
        valid_bits(r),
    ensures
        align_bits(compose_bits(r, UNIT_BITS)) == UNIT_BITS && align_bits(compose_bits(r, C2_BITS))
            == C2_BITS ==> r == UNIT_BITS,
        align_bits(compose_bits(r, UNIT_BITS)) == UNIT_BITS && align_bits(compose_bits(r, C1_BITS))
            == C1_BITS ==> r == UNIT_BITS,
        align_bits(compose_bits(r, C1_BITS)) == C1_BITS && align_bits(compose_bits(r, C2_BITS))
            == C2_BITS ==> r == UNIT_BITS,
        align_bits(compose_bits(UNIT_BITS, UNIT_BITS)) == UNIT_BITS,
        align_bits(compose_bits(UNIT_BITS, C1_BITS)) == C1_BITS,
        align_bits(compose_bits(UNIT_BITS, C2_BITS)) == C2_BITS,
{
}

/// One of the 27 unit cells of the puzzle, known by the rotation that it has
/// undergone since the solved state.
#[derive(Debug, Clone, Copy, PartialEq, Eq, Hash, Structural)]
pub struct Cube {
    pub rotation: CubePermutation,
}

impl Cube {
    /// The face that a cubie with rotation `self.rotation` shows at the side
    /// `face`.
    pub open spec fn spec_get(self, face: CubeFace) -> CubeFace {
        CubeFace::spec_from_bits(compose_bits(self.rotation.bits(), face.spec_bits()))
    }

    /// The cubie after a further rotation.
    pub open spec fn spec_rotate(self, rotation: CubePermutation) -> Cube {
        Cube { rotation: self.rotation.spec_compose(rotation) }
    }

    pub open spec fn spec_new() -> Cube {
        Cube { rotation: CubePermutation::spec_unit() }
    }

    /// A cubie in its home orientation.
    #[verifier::when_used_as_spec(spec_new)]
    pub fn new() -> (c: Self)
        ensures
            c == Self::spec_new(),
    {
        Self { rotation: CubePermutation::unit() }
    }

    /// A cubie that has undergone `rotation`.
    pub fn new_with_rotation(rotation: CubePermutation) -> (c: Self)
        ensures
            c.rotation == rotation,
    {
        Self { rotation }
    }

    /// Rotates the cubie further: the new rotation is the old one composed
    /// with `rotation`.
    pub fn rotate(&mut self, rotation: CubePermutation) -> (ret: &mut Self)
        ensures
            *ret == old(self).spec_rotate(rotation),
            *final(self) == *final(ret),
    {
        self.rotation = self.rotation.compose(rotation);
        self
    }

    /// The face that shows at the side `face`.
    pub fn get(&self, face: CubeFace) -> (shown: CubeFace)
        ensures
            shown == self.spec_get(face),
    {
        CubeFace::from_cube_permutation(self.rotation.compose(face.as_cube_permutation()))
    }
}

/// An unrotated cubie shows each face at its own side. A cubie with a valid
/// rotation other than the identity shows another face at one of any two
/// sides among front, right and top.
pub proof fn lemma_shown_faces(c: Cube)
    requires
        c.rotation.wf(),
    ensures
        Cube::spec_new().spec_get(CubeFace::F) == CubeFace::F,
        Cube::spec_new().spec_get(CubeFace::R) == CubeFace::R,
        Cube::spec_new().spec_get(CubeFace::U) == CubeFace::U,
        c.spec_get(CubeFace::F) == CubeFace::F && c.spec_get(CubeFace::U) == CubeFace::U ==> c
            == Cube::spec_new(),
        c.spec_get(CubeFace::F) == CubeFace::F && c.spec_get(CubeFace::R) == CubeFace::R ==> c
            == Cube::spec_new(),
        c.spec_get(CubeFace::R) == CubeFace::R && c.spec_get(CubeFace::U) == CubeFace::U ==> c
            == Cube::spec_new(),
{
    let r = c.rotation.bits();
    lemma_fixed_faces(r);
    lemma_named_products();
    if r == UNIT_BITS {
        CubePermutation::lemma_bits_injective(c.rotation, CubePermutation::spec_unit());
    }
}

/// How many of the first `n` cubies of `cubes` have the rotation with the
/// byte `b`.
pub open spec fn occurrences(cubes: Seq<Cube>, b: u8, n: nat) -> nat
    decreases n,
{
    if n == 0 {
        0
    } else {
        occurrences(cubes, b, (n - 1) as nat) + if cubes[n - 1].rotation.bits() == b {
            1nat
        } else {
            0nat
        }
    }
}

/// `tally` counts the first `n` cubies of `cubes` by their rotation: its keys
/// are the bytes of the rotations that occur, and each key has the number of
/// cubies with that rotation.
pub open spec fn tallies(tally: Map<u8, usize>, cubes: Seq<Cube>, n: nat) -> bool {
    forall|b: u8|
        (tally.contains_key(b) <==> #[trigger] occurrences(cubes, b, n) > 0) && (tally.contains_key(
            b,
        ) ==> tally[b] == occurrences(cubes, b, n))
}

/// A rotation occurs among the first `n` cubies no more than `n` times.
pub proof fn lemma_occurrences_bound(cubes: Seq<Cube>, b: u8, n: nat)
    ensures
        occurrences(cubes, b, n) <= n,
    decreases n,
{
    if n > 0 {
        lemma_occurrences_bound(cubes, b, (n - 1) as nat);
    }
}

/// Where the first `n` cubies all have the rotation with the byte `b`, that
/// rotation occurs `n` times among them and no other occurs.
pub proof fn lemma_occurrences_all(cubes: Seq<Cube>, b: u8, other: u8, n: nat)
    requires
        n <= cubes.len(),
        other != b,
        forall|i: int| 0 <= i < n ==> (#[trigger] cubes[i]).rotation.bits() == b,
    ensures
        occurrences(cubes, b, n) == n,
        occurrences(cubes, other, n) == 0,
    decreases n,
{
    if n > 0 {
        lemma_occurrences_all(cubes, b, other, (n - 1) as nat);
    }
}

impl Cube {
    /// Counts the cubies `cubes` by their rotation: for the byte of each
    /// rotation that occurs, the number of cubies that have it. This is what
    /// the measure of disorder is summed over.
    pub fn tally(cubes: &[Cube]) -> (r: HashMap<u8, usize>)
        ensures
            tallies(r@, cubes@, cubes@.len()),
            forall|b: u8| r@.contains_key(b) ==> 1 <= #[trigger] r@[b] <= cubes@.len(),
    {
        broadcast use vstd::std_specs::hash::group_hash_axioms;

        let mut map: HashMap<u8, usize> = HashMap::new();
        let mut k: usize = 0;
        while k < cubes.len()
            invariant
                k <= cubes@.len(),
                tallies(map@, cubes@, k as nat),
            decreases cubes@.len() - k,
        {
            let byte: u8 = cubes[k].rotation.into_inner();
            let count: usize = match map.get(&byte) {
                Some(c) => *c,
                None => 0,
            };
            proof {
                lemma_occurrences_bound(cubes@, byte, k as nat);
                assert(count == occurrences(cubes@, byte, k as nat));
            }
            let ghost before = map@;
            map.insert(byte, count + 1);
            proof {
                assert forall|b: u8|
                    (map@.contains_key(b) <==> #[trigger] occurrences(cubes@, b, (k + 1) as nat)
                        > 0) && (map@.contains_key(b) ==> map@[b] == occurrences(
                        cubes@,
                        b,
                        (k + 1) as nat,
                    )) by {
                    assert(before.contains_key(b) <==> occurrences(cubes@, b, k as nat) > 0);
                }
                assert(tallies(map@, cubes@, (k + 1) as nat));
            }
            k += 1;
        }
        proof {
            assert forall|b: u8| map@.contains_key(b) implies 1 <= #[trigger] map@[b]
                <= cubes@.len() by {
                lemma_occurrences_bound(cubes@, b, cubes@.len());
                assert(occurrences(cubes@, b, cubes@.len()) > 0);
            }
        }
        map
    }
}

impl Default for Cube {
    fn default() -> (c: Self)
        ensures
            c == Cube::spec_new(),
    {
        Self::new()
    }
}

} // verus!
