//! The puzzle: 27 cubies, each at a place, each with its rotation.
use crate::cube::{lemma_occurrences_all, occurrences, tallies, Cube, CubeFace};
use crate::layer::{
    b_table, d_table, f_table, is_layer_table, l_table, lemma_layer_table, r_table, u_table,
    RubikLayer,
};
use crate::permutation::{lemma_named_products, lemma_rank, rank_bits, CubePermutation, UNIT_BITS};
use std::collections::HashMap;
use vstd::prelude::*;

verus! {

broadcast use crate::permutation::group_permutation_bits;

/// The twelve places on the edges of the puzzle.
pub open spec fn edge_places() -> Seq<usize> {
    seq![1usize, 3, 5, 7, 9, 11, 15, 17, 19, 21, 23, 25]
}

/// The four edge places of the slice between top and bottom.
pub open spec fn middle_edge_places() -> Seq<usize> {
    seq![3usize, 5, 21, 23]
}

/// The eight places at the corners of the puzzle.
pub open spec fn corner_places() -> Seq<usize> {
    seq![0usize, 2, 6, 8, 18, 20, 24, 26]
}

/// The six places in the middle of a face.
pub open spec fn center_places() -> Seq<usize> {
    seq![4usize, 10, 12, 14, 16, 22]
}

/// The place of the core.
pub open spec fn core_place() -> Seq<usize> {
    seq![13usize]
}

/// The 21 places whose cubies count for the progress measures: edges,
/// corners and the core. The centers of the faces are left out.
pub open spec fn active_places() -> Seq<usize> {
    edge_places() + corner_places() + core_place()
}

/// The cubies of `s` at `places`, in the order of `places`.
pub open spec fn pick(s: Seq<Cube>, places: Seq<usize>) -> Seq<Cube> {
    Seq::new(places.len(), |i: int| s[places[i] as int])
}

/// All nine cubies of the layer `table` show, at the side `face`, what the
/// cubie in the middle of the layer shows there.
pub open spec fn face_uniform(s: Seq<Cube>, table: Seq<u8>, face: CubeFace) -> bool {
    forall|j: int|
        0 <= j < 9 ==> (#[trigger] s[table[j] as int]).spec_get(face) == s[table[4] as int].spec_get(
            face,
        )
}

/// Each of the six outer layers shows one face all over.
pub open spec fn solved(s: Seq<Cube>) -> bool {
    &&& face_uniform(s, f_table(), CubeFace::F)
    &&& face_uniform(s, b_table(), CubeFace::B)
    &&& face_uniform(s, r_table(), CubeFace::R)
    &&& face_uniform(s, l_table(), CubeFace::L)
    &&& face_uniform(s, u_table(), CubeFace::U)
    &&& face_uniform(s, d_table(), CubeFace::D)
}

/// A state of 27 cubies, each with a valid rotation.
pub open spec fn state_wf(s: Seq<Cube>) -> bool {
    &&& s.len() == 27
    &&& forall|k: int| 0 <= k < 27 ==> (#[trigger] s[k]).rotation.wf()
}

/// The ranks of the first `n` cubies of `s`, read as the digits of a number
/// to the base 24.
pub open spec fn key_of_first(s: Seq<Cube>, n: nat) -> nat
    decreases n,
{
    if n == 0 {
        0
    } else {
        (key_of_first(s, (n - 1) as nat) * 24 + rank_bits(s[n - 1].rotation.bits())) as nat
    }
}

/// The number that stands for the state `s`.
pub open spec fn key_of(s: Seq<Cube>) -> nat {
    key_of_first(s, 27)
}

/// 24 to the power `n`.
pub open spec fn pow24(n: nat) -> nat
    decreases n,
{
    if n == 0 {
        1
    } else {
        pow24((n - 1) as nat) * 24
    }
}

/// The key of the first `n` cubies is below the `n`-th power of 24.
pub proof fn lemma_key_bound(s: Seq<Cube>, n: nat)
    requires
        state_wf(s),
        n <= 27,
    ensures
        key_of_first(s, n) < pow24(n),
    decreases n,
{
    if n > 0 {
        lemma_key_bound(s, (n - 1) as nat);
        let v = s[n - 1].rotation.bits();
        lemma_rank(v, v);
    }
}

/// The powers of 24 grow, and the 27th is below the 128th power of two.
pub proof fn lemma_pow24(n: nat)
    requires
        n <= 27,
    ensures
        0 < pow24(n) <= 18437563379178327736384102280592359424,
    decreases 27 - n,
{
    if n < 27 {
        lemma_pow24(n + 1);
        assert(pow24(n + 1) == pow24(n) * 24);
    } else {
        reveal_with_fuel(pow24, 28);
    }
}

/// A number to the base 24 has one last digit and one rest.
proof fn lemma_digits_agree(a: int, x: int, b: int, y: int)
    requires
        0 <= x < 24,
        0 <= y < 24,
        a * 24 + x == b * 24 + y,
    ensures
        a == b,
        x == y,
{
}

/// Two well-formed states whose first `n` cubies give the same key agree in
/// their first `n` cubies.
pub proof fn lemma_key_of_first_injective(a: Seq<Cube>, b: Seq<Cube>, n: nat)
    requires
        state_wf(a),
        state_wf(b),
        n <= 27,
        key_of_first(a, n) == key_of_first(b, n),
    ensures
        forall|k: int| 0 <= k < n ==> a[k] == b[k],
    decreases n,
{
    if n > 0 {
        let va = a[n - 1].rotation.bits();
        let vb = b[n - 1].rotation.bits();
        lemma_rank(va, vb);
        lemma_rank(vb, va);
        let ka = key_of_first(a, (n - 1) as nat);
        let kb = key_of_first(b, (n - 1) as nat);
        lemma_digits_agree(ka as int, rank_bits(va), kb as int, rank_bits(vb));
        lemma_key_of_first_injective(a, b, (n - 1) as nat);
        CubePermutation::lemma_bits_injective(a[n - 1].rotation, b[n - 1].rotation);
    }
}

/// Two well-formed states with the same key are the same state.
pub proof fn lemma_key_injective(a: Seq<Cube>, b: Seq<Cube>)
    requires
        state_wf(a),
        state_wf(b),
        key_of(a) == key_of(b),
    ensures
        a == b,
{
    lemma_key_of_first_injective(a, b, 27);
    assert(a =~= b);
}

/// The key of the state `s`, as the machine holds it.
pub open spec fn state_key(s: Seq<Cube>) -> u128 {
    key_of(s) as u128
}

/// Two well-formed states with the same machine key are the same state.
pub proof fn lemma_state_key_injective(a: Seq<Cube>, b: Seq<Cube>)
    requires
        state_wf(a),
        state_wf(b),
        state_key(a) == state_key(b),
    ensures
        a == b,
{
    lemma_key_bound(a, 27);
    lemma_key_bound(b, 27);
    lemma_pow24(27);
    lemma_key_injective(a, b);
}

/// The state in which no cubie has been rotated.
pub open spec fn initial_state() -> Seq<Cube> {
    Seq::new(27, |k: int| Cube::spec_new())
}

/// A layer of unrotated cubies shows one face all over.
proof fn lemma_constant_uniform(s: Seq<Cube>, table: Seq<u8>, face: CubeFace)
    requires
        s.len() == 27,
        is_layer_table(table),
        forall|k: int| 0 <= k < 27 ==> #[trigger] s[k] == Cube::spec_new(),
    ensures
        face_uniform(s, table, face),
{
    lemma_layer_table(table);
    assert forall|j: int| 0 <= j < 9 implies (#[trigger] s[table[j] as int]).spec_get(face)
        == s[table[4] as int].spec_get(face) by {
        assert(s[table[j] as int] == Cube::spec_new());
        assert(s[table[4] as int] == Cube::spec_new());
    }
}

/// The state in which no cubie has been rotated is solved.
pub proof fn lemma_initial_solved()
    ensures
        solved(initial_state()),
{
    let s = initial_state();
    lemma_constant_uniform(s, f_table(), CubeFace::F);
    lemma_constant_uniform(s, b_table(), CubeFace::B);
    lemma_constant_uniform(s, r_table(), CubeFace::R);
    lemma_constant_uniform(s, l_table(), CubeFace::L);
    lemma_constant_uniform(s, u_table(), CubeFace::U);
    lemma_constant_uniform(s, d_table(), CubeFace::D);
}

/// In the state in which no cubie has been rotated, the tally of edges,
/// corners and core has one entry: the identity, 21 times. The measure of
/// disorder of that state is the logarithm of one: zero.
pub proof fn lemma_initial_tally(tally: Map<u8, usize>)
    requires
        tallies(tally, pick(initial_state(), active_places()), 21),
    ensures
        tally == Map::<u8, usize>::empty().insert(UNIT_BITS, 21usize),
{
    let cubes = pick(initial_state(), active_places());
    let one = Map::<u8, usize>::empty().insert(UNIT_BITS, 21usize);
    assert(active_places().len() == 21);
    assert forall|i: int| 0 <= i < 21 implies (#[trigger] cubes[i]).rotation.bits()
        == UNIT_BITS by {
        assert(active_places()[i] < 27);
    }
    assert forall|b: u8| #[trigger]
        tally.contains_key(b) == one.contains_key(b) && (tally.contains_key(b) ==> tally[b]
            == one[b]) by {
        if b != UNIT_BITS {
            lemma_occurrences_all(cubes, UNIT_BITS, b, 21);
            assert(occurrences(cubes, b, 21) == 0);
        } else {
            lemma_occurrences_all(cubes, UNIT_BITS, 0u8, 21);
            assert(occurrences(cubes, b, 21) == 21);
        }
    }
    assert(tally =~= one);
}

/// The state of the puzzle: which rotation the cubie at each of the 27 places
/// has undergone.
#[derive(Clone, Copy, Debug, Hash, PartialEq, Eq)]
pub struct Rubik {
    cubes: [Cube; 27],
}

impl View for Rubik {
    type V = Seq<Cube>;

    /// The cubies by place.
    closed spec fn view(&self) -> Seq<Cube> {
        self.cubes@
    }
}

/// Walks the nine cubies of a layer in the layer's order.
pub struct RubikLayerIter<'r> {
    layer: RubikLayer,
    rubik: &'r Rubik,
    index: usize,
}

impl<'r> RubikLayerIter<'r> {
    /// The layer that is walked.
    pub closed spec fn layer(&self) -> RubikLayer {
        self.layer
    }

    /// The puzzle whose cubies are handed out.
    pub closed spec fn rubik(&self) -> Rubik {
        *self.rubik
    }

    /// How many cubies have been handed out.
    pub closed spec fn index(&self) -> int {
        self.index as int
    }

    #[verifier::type_invariant]
    spec fn wf(&self) -> bool {
        self.index <= 9
    }

    /// The next cubie of the layer, as long as there is one.
    pub fn next(&mut self) -> (r: Option<&'r Cube>)
        ensures
            final(self).layer() == old(self).layer(),
            final(self).rubik() == old(self).rubik(),
            old(self).index() < 9 ==> final(self).index() == old(self).index() + 1 && r == Some(
                &old(self).rubik()@[old(self).layer()@[old(self).index()] as int],
            ),
            old(self).index() >= 9 ==> final(self).index() == old(self).index() && r.is_none(),
    {
        proof {
            use_type_invariant(&*self);
        }
        if self.index < 9 {
            let cube: &'r Cube = self.rubik.get_by_layer(&self.layer, self.index);
            self.index += 1;
            Some(cube)
        } else {
            None
        }
    }
}

impl Rubik {
    /// Every puzzle that a program can hold has valid rotations throughout.
    #[verifier::type_invariant]
    pub open spec fn wf(&self) -> bool {
        state_wf(self@)
    }

    /// A number that stands for the state: no two states have the same.
    pub fn key(&self) -> (r: u128)
        ensures
            r == key_of(self@),
            r == state_key(self@),
            state_wf(self@),
    {
        proof {
            use_type_invariant(self);
        }
        let mut key: u128 = 0;
        let mut i: usize = 0;
        while i < 27
            invariant
                i <= 27,
                state_wf(self@),
                key == key_of_first(self@, i as nat),
            decreases 27 - i,
        {
            let rank: u8 = self.cubes[i].rotation.rank();
            proof {
                lemma_key_bound(self@, i as nat);
                lemma_key_bound(self@, (i + 1) as nat);
                lemma_pow24(i as nat);
                lemma_pow24((i + 1) as nat);
            }
            key = key * 24 + rank as u128;
            i += 1;
        }
        key
    }

    /// Every state has 27 cubies.
    pub broadcast proof fn lemma_view_len(self)
        ensures
            #[trigger] self@.len() == 27,
    {
    }

    /// Two puzzles with the same cubies at the same places are equal.
    pub proof fn lemma_view_injective(a: Self, b: Self)
        requires
            a@ == b@,
        ensures
            a == b,
    {
        assert(a.cubes@ =~= b.cubes@);
        assert(a.cubes == b.cubes);
    }

    /// The solved puzzle.
    pub fn new() -> (r: Self)
        ensures
            r@ == initial_state(),
            solved(r@),
    {
        let cubes: [Cube; 27] = [Cube::new();27];
        proof {
            lemma_named_products();
            assert(cubes@ =~= initial_state());
            assert(CubePermutation::spec_unit().bits() == UNIT_BITS);
        }
        let r = Self { cubes };
        proof {
            lemma_initial_solved();
        }
        r
    }

    /// Puts the puzzle back into the solved state.
    pub fn reset(&mut self) -> (ret: &mut Self)
        ensures
            ret@ == initial_state(),
            *final(self) == *final(ret),
    {
        *self = Self::new();
        self
    }

    /// The cubie at the place `index`.
    pub fn cube_at(&self, index: usize) -> (c: &Cube)
        requires
            index < 27,
        ensures
            *c == self@[index as int],
    {
        &self.cubes[index]
    }

    /// Puts `cube` at the place `index`.
    pub(crate) fn set_cube(&mut self, index: usize, cube: Cube)
        requires
            index < 27,
        ensures
            final(self)@ == old(self)@.update(index as int, cube),
    {
        let rotation: CubePermutation = cube.rotation;
        proof {
            use_type_invariant(&*self);
            use_type_invariant(&rotation);
        }
        self.cubes[index] = cube;
    }

    /// Whether the cubies of `layer` all show the same face at the side
    /// `face`.
    pub fn face_is_uniform(&self, layer: &RubikLayer, face: CubeFace) -> (r: bool)
        ensures
            r == face_uniform(self@, layer@, face),
    {
        let table: &[u8; 9] = layer.indexes();
        proof {
            lemma_layer_table(table@);
        }
        let mid_face: CubeFace = self.cubes[table[4] as usize].get(face);
        let mut j: usize = 0;
        while j < 9
            invariant
                j <= 9,
                table@ == layer@,
                is_layer_table(table@),
                mid_face == self@[table@[4] as int].spec_get(face),
                forall|i: int|
                    0 <= i < j ==> (#[trigger] self@[table@[i] as int]).spec_get(face) == mid_face,
            decreases 9 - j,
        {
            proof {
                lemma_layer_table(table@);
            }
            if self.cubes[table[j] as usize].get(face) != mid_face {
                return false;
            }
            j += 1;
        }
        true
    }

    /// Whether the puzzle is solved: each of the six outer layers shows,
    /// at its own side, one face all over.
    pub fn is_solved(&self) -> (r: bool)
        ensures
            r == solved(self@),
    {
        self.face_is_uniform(&RubikLayer::f(), CubeFace::F) && self.face_is_uniform(
            &RubikLayer::b(),
            CubeFace::B,
        ) && self.face_is_uniform(&RubikLayer::r(), CubeFace::R) && self.face_is_uniform(
            &RubikLayer::l(),
            CubeFace::L,
        ) && self.face_is_uniform(&RubikLayer::u(), CubeFace::U) && self.face_is_uniform(
            &RubikLayer::d(),
            CubeFace::D,
        )
    }

    /// Starts a walk over the nine cubies of `layer`.
    pub fn iter_by_layer(&self, layer: &RubikLayer) -> (it: RubikLayerIter<'_>)
        ensures
            it.layer() == *layer,
            it.rubik() == *self,
            it.index() == 0,
    {
        RubikLayerIter { layer: *layer, rubik: self, index: 0 }
    }

    /// The cubie in the middle of the puzzle.
    pub fn core_cube(&self) -> (c: &Cube)
        ensures
            *c == self@[13],
    {
        &self.cubes[13]
    }

    /// The cubie at position `index` of `layer`.
    pub fn get_by_layer(&self, layer: &RubikLayer, index: usize) -> (c: &Cube)
        requires
            index < 9,
        ensures
            *c == self@[layer@[index as int] as int],
    {
        let table: &[u8; 9] = layer.indexes();
        proof {
            lemma_layer_table(table@);
        }
        &self.cubes[table[index] as usize]
    }

    /// Whether `cube` has undergone the same rotation as the core.
    pub fn is_aligned(&self, cube: &Cube) -> (r: bool)
        ensures
            r == (self@[13] == *cube),
    {
        self.cubes[13] == *cube
    }

    /// The cubies at the places `indexes`, in that order.
    pub fn cubes_at(&self, indexes: &[usize]) -> (r: Vec<Cube>)
        requires
            forall|i: int| 0 <= i < indexes@.len() ==> #[trigger] indexes@[i] < 27,
        ensures
            r@ == pick(self@, indexes@),
    {
        let mut out: Vec<Cube> = Vec::new();
        let mut i: usize = 0;
        while i < indexes.len()
            invariant
                i <= indexes@.len(),
                forall|k: int| 0 <= k < indexes@.len() ==> #[trigger] indexes@[k] < 27,
                out@.len() == i,
                forall|k: int| 0 <= k < i ==> out@[k] == self@[indexes@[k] as int],
            decreases indexes@.len() - i,
        {
            out.push(self.cubes[indexes[i]]);
            i += 1;
        }
        assert(out@ =~= pick(self@, indexes@));
        out
    }

    /// The twelve cubies on the edges.
    pub fn edges(&self) -> (r: Vec<Cube>)
        ensures
            r@ == pick(self@, edge_places()),
    {
        let places: [usize; 12] = [1, 3, 5, 7, 9, 11, 15, 17, 19, 21, 23, 25];
        assert(places@ =~= edge_places());
        self.cubes_at(places.as_slice())
    }

    /// The four edge cubies of the slice between top and bottom.
    pub fn edges_e(&self) -> (r: Vec<Cube>)
        ensures
            r@ == pick(self@, middle_edge_places()),
    {
        let places: [usize; 4] = [3, 5, 21, 23];
        assert(places@ =~= middle_edge_places());
        self.cubes_at(places.as_slice())
    }

    /// The eight cubies at the corners.
    pub fn corners(&self) -> (r: Vec<Cube>)
        ensures
            r@ == pick(self@, corner_places()),
    {
        let places: [usize; 8] = [0, 2, 6, 8, 18, 20, 24, 26];
        assert(places@ =~= corner_places());
        self.cubes_at(places.as_slice())
    }

    /// The six cubies in the middle of a face.
    pub fn centers(&self) -> (r: Vec<Cube>)
        ensures
            r@ == pick(self@, center_places()),
    {
        let places: [usize; 6] = [4, 10, 12, 14, 16, 22];
        assert(places@ =~= center_places());
        self.cubes_at(places.as_slice())
    }

    /// Counts edges, corners and core by their rotation: for the byte of each
    /// rotation that occurs among these 21 cubies, the number of cubies that
    /// have it. The measure of disorder of the puzzle is the sum, over these
    /// numbers `c`, of the binary logarithm of `21 / c`.
    pub fn tally(&self) -> (r: HashMap<u8, usize>)
        ensures
            tallies(r@, pick(self@, active_places()), 21),
            forall|b: u8| r@.contains_key(b) ==> 1 <= #[trigger] r@[b] <= 21,
    {
        let cubes: Vec<Cube> = self.active_cubes();
        Cube::tally(cubes.as_slice())
    }

    /// The 21 cubies that count for the progress measures: the edges, then
    /// the corners, then the core.
    pub fn active_cubes(&self) -> (r: Vec<Cube>)
        ensures
            r@ == pick(self@, active_places()),
    {
        let places: [usize; 21] = [
            1,
            3,
            5,
            7,
            9,
            11,
            15,
            17,
            19,
            21,
            23,
            25,
            0,
            2,
            6,
            8,
            18,
            20,
            24,
            26,
            13,
        ];
        assert(places@ =~= active_places());
        self.cubes_at(places.as_slice())
    }
}

impl Default for Rubik {
    fn default() -> (r: Self)
        ensures
            r@ == initial_state(),
    {
        Self::new()
    }
}

} // verus!
