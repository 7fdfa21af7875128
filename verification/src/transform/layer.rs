//! The atomic moves: a turn of one layer.
use crate::cube::{lemma_shown_faces, Cube, CubeFace};
use crate::layer::{
    b_table, crossed, d_table, e_table, f_table, is_layer_table, l_table, lemma_crossing_layers,
    lemma_layer_table, m_table, r_table, s_table, u_table, RubikLayer,
};
use crate::permutation::{
    inverse_bits, valid_bits, lemma_assoc_bits, lemma_compose_valid, lemma_inverse_bits, lemma_named_products,
    lemma_unit_bits, CubePermutation,
    UNIT_BITS, X_1_BITS, X_2_BITS, X_3_BITS, Y_1_BITS, Y_2_BITS, Y_3_BITS, Z_1_BITS, Z_2_BITS,
    Z_3_BITS,
};
use crate::position::CubePosition;
use crate::state::{face_uniform, initial_state, solved, state_wf, Rubik};
use vstd::prelude::*;
use vstd::string::StringExecFns;

verus! {

broadcast use crate::permutation::group_permutation_bits;

/// How a turn carries the cubies of a layer from place to place: not at all,
/// a quarter turn clockwise, a half turn, or a quarter turn anticlockwise.
#[derive(Debug, Copy, Clone, PartialEq, Eq, Hash, Structural)]
pub enum PtrRotate {
    Rotate0,
    Rotate1,
    Rotate2,
    Rotate3,
}

impl PtrRotate {
    pub open spec fn spec_inverse(self) -> Self {
        match self {
            PtrRotate::Rotate0 => PtrRotate::Rotate0,
            PtrRotate::Rotate1 => PtrRotate::Rotate3,
            PtrRotate::Rotate2 => PtrRotate::Rotate2,
            PtrRotate::Rotate3 => PtrRotate::Rotate1,
        }
    }

    pub open spec fn spec_square(self) -> Self {
        match self {
            PtrRotate::Rotate0 => PtrRotate::Rotate0,
            PtrRotate::Rotate1 => PtrRotate::Rotate2,
            PtrRotate::Rotate2 => PtrRotate::Rotate0,
            PtrRotate::Rotate3 => PtrRotate::Rotate2,
        }
    }

    /// The position of a layer whose cubie the turn brings to position `j`.
    /// With `j` as row `j / 3` and column `j % 3` of the layer, a clockwise
    /// quarter turn fills row `r`, column `c` from row `2 - c`, column `r`:
    /// positions 0 to 8 are filled from 6, 3, 0, 7, 4, 1, 8, 5, 2.
    pub open spec fn spec_source(self, j: int) -> int {
        match self {
            PtrRotate::Rotate0 => j,
            PtrRotate::Rotate1 => 3 * (2 - j % 3) + j / 3,
            PtrRotate::Rotate2 => 8 - j,
            PtrRotate::Rotate3 => 3 * (j % 3) + (2 - j / 3),
        }
    }

    /// The state `s` after the cubies at the four places `p` have moved on by
    /// one step (`Rotate1`: from `p[0]` to `p[1]`, from `p[3]` to `p[0]`), by
    /// two, or back by one.
    pub open spec fn spec_call(self, s: Seq<Cube>, p: Seq<u8>) -> Seq<Cube> {
        let p0 = p[0] as int;
        let p1 = p[1] as int;
        let p2 = p[2] as int;
        let p3 = p[3] as int;
        match self {
            PtrRotate::Rotate0 => s,
            PtrRotate::Rotate1 => s.update(p0, s[p3]).update(p1, s[p0]).update(p2, s[p1]).update(
                p3,
                s[p2],
            ),
            PtrRotate::Rotate2 => s.update(p0, s[p2]).update(p1, s[p3]).update(p2, s[p0]).update(
                p3,
                s[p1],
            ),
            PtrRotate::Rotate3 => s.update(p0, s[p1]).update(p1, s[p2]).update(p2, s[p3]).update(
                p3,
                s[p0],
            ),
        }
    }

    /// Moves the cubies at the four places `places` round.
    pub fn call(&self, rubik: &mut Rubik, places: [u8; 4])
        requires
            forall|i: int| 0 <= i < 4 ==> #[trigger] places@[i] < 27,
            forall|i: int, j: int| 0 <= i < j < 4 ==> #[trigger] places@[i] != #[trigger] places@[j],
        ensures
            final(rubik)@ == self.spec_call(old(rubik)@, places@),
    {
        broadcast use Rubik::lemma_view_len;

        let p0: usize = places[0] as usize;
        let p1: usize = places[1] as usize;
        let p2: usize = places[2] as usize;
        let p3: usize = places[3] as usize;
        assert(places@[0] != places@[1] && places@[0] != places@[2] && places@[0] != places@[3]
            && places@[1] != places@[2] && places@[1] != places@[3] && places@[2] != places@[3]);
        let c0: Cube = *rubik.cube_at(p0);
        let c1: Cube = *rubik.cube_at(p1);
        let c2: Cube = *rubik.cube_at(p2);
        let c3: Cube = *rubik.cube_at(p3);
        match self {
            PtrRotate::Rotate0 => {},
            PtrRotate::Rotate1 => {
                rubik.set_cube(p0, c3);
                rubik.set_cube(p1, c0);
                rubik.set_cube(p2, c1);
                rubik.set_cube(p3, c2);
            },
            PtrRotate::Rotate2 => {
                rubik.set_cube(p0, c2);
                rubik.set_cube(p1, c3);
                rubik.set_cube(p2, c0);
                rubik.set_cube(p3, c1);
            },
            PtrRotate::Rotate3 => {
                rubik.set_cube(p0, c1);
                rubik.set_cube(p1, c2);
                rubik.set_cube(p2, c3);
                rubik.set_cube(p3, c0);
            },
        }
    }

    /// The turn that undoes this one.
    pub fn inverse(self) -> (r: Self)
        ensures
            r == self.spec_inverse(),
    {
        match self {
            PtrRotate::Rotate0 => PtrRotate::Rotate0,
            PtrRotate::Rotate1 => PtrRotate::Rotate3,
            PtrRotate::Rotate2 => PtrRotate::Rotate2,
            PtrRotate::Rotate3 => PtrRotate::Rotate1,
        }
    }

    /// The turn made twice.
    pub fn square(self) -> (r: Self)
        ensures
            r == self.spec_square(),
    {
        match self {
            PtrRotate::Rotate0 => PtrRotate::Rotate0,
            PtrRotate::Rotate1 => PtrRotate::Rotate2,
            PtrRotate::Rotate2 => PtrRotate::Rotate0,
            PtrRotate::Rotate3 => PtrRotate::Rotate2,
        }
    }

    /// For each of the nine positions of a layer, the position whose cubie
    /// the turn brings there.
    pub fn as_permutation(self) -> (r: [usize; 9])
        ensures
            forall|j: int| 0 <= j < 9 ==> #[trigger] r@[j] == self.spec_source(j),
    {
        match self {
            PtrRotate::Rotate0 => [0, 1, 2, 3, 4, 5, 6, 7, 8],
            PtrRotate::Rotate1 => [6, 3, 0, 7, 4, 1, 8, 5, 2],
            PtrRotate::Rotate2 => [8, 7, 6, 5, 4, 3, 2, 1, 0],
            PtrRotate::Rotate3 => [2, 5, 8, 1, 4, 7, 0, 3, 6],
        }
    }

    /// The sources of a turn are positions, no two the same; the inverse
    /// turn's sources undo them, and the squared turn's sources are the
    /// sources of the sources.
    pub proof fn lemma_source(self, j: int)
        requires
            0 <= j < 9,
        ensures
            0 <= self.spec_source(j) < 9,
            self.spec_inverse().spec_source(self.spec_source(j)) == j,
            self.spec_source(self.spec_inverse().spec_source(j)) == j,
            self.spec_square().spec_source(j) == self.spec_source(self.spec_source(j)),
    {
    }
}

/// An atomic move: the layer that turns, the rotation that each of its nine
/// cubies undergoes, and how the cubies change places.
#[derive(Copy, Clone, Hash, PartialEq, Eq, Debug)]
pub struct RubikLayerTransform {
    // places of the cubies, in clockwise order
    layer: RubikLayer,
    rotation: CubePermutation,
    ptr_rotate: PtrRotate,
}

impl RubikLayerTransform {
    pub closed spec fn spec_layer(&self) -> RubikLayer {
        self.layer
    }

    pub closed spec fn spec_rotation(&self) -> CubePermutation {
        self.rotation
    }

    pub closed spec fn spec_ptr_rotate(&self) -> PtrRotate {
        self.ptr_rotate
    }

    /// The move with these three parts.
    pub closed spec fn spec_new(
        layer: RubikLayer,
        rotation: CubePermutation,
        ptr_rotate: PtrRotate,
    ) -> Self {
        RubikLayerTransform { layer, rotation, ptr_rotate }
    }

    /// The layer is one of the nine and the rotation is a permutation. Every
    /// move that a program can hold is well formed.
    #[verifier::type_invariant]
    pub open spec fn wf(self) -> bool {
        self.spec_layer().wf() && self.spec_rotation().wf()
    }

    /// The move turns the layer with table `table`, rotates its cubies by the
    /// permutation with byte `bits`, and carries them round as `kind` says.
    pub open spec fn is_turn(self, table: Seq<u8>, bits: u8, kind: PtrRotate) -> bool {
        &&& self.spec_layer()@ == table
        &&& self.spec_rotation().bits() == bits
        &&& self.spec_ptr_rotate() == kind
    }

    /// The move that turns the layer with table `table`, rotates its cubies
    /// by the permutation with byte `bits`, and carries them round as `kind`
    /// says.
    pub open spec fn spec_turn(table: Seq<u8>, bits: u8, kind: PtrRotate) -> Self {
        Self::spec_new(RubikLayer::with_table(table), CubePermutation::from_bits(bits), kind)
    }

    /// A move is known by its layer's table, its rotation's byte and its
    /// kind of turn.
    pub proof fn lemma_turn(self, table: Seq<u8>, bits: u8, kind: PtrRotate)
        requires
            table.len() == 9,
        ensures
            self.is_turn(table, bits, kind) <==> self == Self::spec_turn(table, bits, kind),
    {
        RubikLayer::lemma_with_table(table);
        if self.is_turn(table, bits, kind) {
            RubikLayer::lemma_view_injective(self.layer, RubikLayer::with_table(table));
            CubePermutation::lemma_bits_injective(self.rotation, CubePermutation::from_bits(bits));
        }
    }

    /// The state `s` after the move: the cubie that comes to position `j` of
    /// the layer is the one from the position that the turn takes it from,
    /// rotated; every other place keeps its cubie.
    pub open spec fn spec_apply(self, s: Seq<Cube>) -> Seq<Cube> {
        let t = self.spec_layer()@;
        Seq::new(
            27,
            |k: int|
                if t.contains(k as u8) {
                    s[t[self.spec_ptr_rotate().spec_source(t.index_of(k as u8))] as int].spec_rotate(
                        self.spec_rotation(),
                    )
                } else {
                    s[k]
                },
        )
    }

    pub open spec fn spec_inverse(self) -> Self {
        Self::spec_new(
            self.spec_layer(),
            self.spec_rotation().spec_inverse(),
            self.spec_ptr_rotate().spec_inverse(),
        )
    }

    pub open spec fn spec_square(self) -> Self {
        Self::spec_new(
            self.spec_layer(),
            self.spec_rotation().spec_square(),
            self.spec_ptr_rotate().spec_square(),
        )
    }

    /// The mark behind the layer's letter: nothing for a clockwise quarter
    /// turn, `2` for a half turn, `'` for an anticlockwise quarter turn, `0`
    /// for no turn.
    pub open spec fn spec_suffix(kind: PtrRotate) -> Seq<char> {
        match kind {
            PtrRotate::Rotate0 => "0"@,
            PtrRotate::Rotate1 => ""@,
            PtrRotate::Rotate2 => "2"@,
            PtrRotate::Rotate3 => "'"@,
        }
    }

    /// The move in the notation: the layer's letter and the mark of the turn.
    pub open spec fn spec_token(self) -> Seq<char> {
        RubikLayer::spec_marker(self.spec_layer()@) + Self::spec_suffix(self.spec_ptr_rotate())
    }

    /// The tokens of the moves `seq`, one after the other.
    pub open spec fn spec_sequence_string(seq: Seq<Self>) -> Seq<char>
        decreases seq.len(),
    {
        if seq.len() == 0 {
            Seq::empty()
        } else {
            Self::spec_sequence_string(seq.drop_last()) + seq.last().spec_token()
        }
    }

    /// The cubie that the move brings to position `j` of its layer: the one
    /// from the position that the turn takes it from, rotated.
    pub open spec fn spec_moved(self, s: Seq<Cube>, j: int) -> Cube {
        s[self.spec_layer()@[self.spec_ptr_rotate().spec_source(j)] as int].spec_rotate(
            self.spec_rotation(),
        )
    }

    /// What the move does: it brings a cubie to each position of its layer,
    /// and leaves every other place as it is.
    pub proof fn lemma_apply(self, s: Seq<Cube>)
        requires
            self.wf(),
            s.len() == 27,
        ensures
            self.spec_apply(s).len() == 27,
            forall|j: int|
                0 <= j < 9 ==> #[trigger] self.spec_apply(s)[self.spec_layer()@[j] as int]
                    == self.spec_moved(s, j),
            forall|k: int|
                0 <= k < 27 && !self.spec_layer()@.contains(k as u8) ==> #[trigger] self.spec_apply(
                    s,
                )[k] == s[k],
    {
        let t = self.spec_layer()@;
        lemma_layer_table(t);
        assert forall|j: int| 0 <= j < 9 implies #[trigger] self.spec_apply(s)[t[j] as int]
            == s[t[self.spec_ptr_rotate().spec_source(j)] as int].spec_rotate(
            self.spec_rotation(),
        ) by {
            let k = t[j] as int;
            assert(t.contains(k as u8));
            let i = t.index_of(k as u8);
            assert(0 <= i < 9 && t[i] == t[j]);
            assert(i == j);
        }
    }

    /// The tokens of the moves `seq`, one after the other.
    pub fn sequence_to_string(seq: &[Self]) -> (r: String)
        ensures
            r@ == Self::spec_sequence_string(seq@),
    {
        let mut s: String = String::new();
        let mut i: usize = 0;
        while i < seq.len()
            invariant
                i <= seq@.len(),
                s@ == Self::spec_sequence_string(seq@.take(i as int)),
            decreases seq@.len() - i,
        {
            let token: String = seq[i].to_string();
            s.append(token.as_str());
            proof {
                assert(seq@.take(i + 1).drop_last() =~= seq@.take(i as int));
            }
            i += 1;
        }
        assert(seq@.take(i as int) =~= seq@);
        s
    }

    /// The move in the notation: the layer's letter and the mark of the turn.
    pub fn to_string(&self) -> (r: String)
        ensures
            r@ == self.spec_token(),
    {
        let mut s: String = String::from_str(self.layer.marker());
        let suffix: &'static str = match self.ptr_rotate {
            PtrRotate::Rotate0 => "0",
            PtrRotate::Rotate1 => "",
            PtrRotate::Rotate2 => "2",
            PtrRotate::Rotate3 => "'",
        };
        s.append(suffix);
        s
    }

    /// Makes the move on `rubik`: rotates the nine cubies of the layer, then
    /// carries the four at the corners and the four on the edges round.
    pub fn apply_on(&self, rubik: &mut Rubik)
        ensures
            final(rubik)@ == self.spec_apply(old(rubik)@),
    {
        broadcast use Rubik::lemma_view_len;

        let layer: RubikLayer = self.layer;
        let rotation: CubePermutation = self.rotation;
        let table: [u8; 9] = *layer.indexes();
        proof {
            use_type_invariant(&layer);
            use_type_invariant(&rotation);
            lemma_layer_table(table@);
            self.lemma_apply(old(rubik)@);
        }
        let mut j: usize = 0;
        while j < 9
            invariant
                j <= 9,
                is_layer_table(table@),
                rubik@.len() == 27,
                forall|i: int|
                    0 <= i < j ==> #[trigger] rubik@[table@[i] as int] == old(rubik)@[table@[i] as int].spec_rotate(
                        rotation,
                    ),
                forall|i: int|
                    j <= i < 9 ==> #[trigger] rubik@[table@[i] as int] == old(rubik)@[table@[i] as int],
                forall|k: int|
                    0 <= k < 27 && !table@.contains(k as u8) ==> #[trigger] rubik@[k] == old(
                        rubik,
                    )@[k],
            decreases 9 - j,
        {
            proof {
                lemma_layer_table(table@);
            }
            let place: usize = table[j] as usize;
            let mut cube: Cube = *rubik.cube_at(place);
            cube.rotate(rotation);
            rubik.set_cube(place, cube);
            j += 1;
        }
        let ghost turned = rubik@;
        self.ptr_rotate.call(rubik, [table[0], table[2], table[8], table[6]]);
        let ghost corners = rubik@;
        self.ptr_rotate.call(rubik, [table[1], table[5], table[7], table[3]]);
        proof {
            lemma_carried(*self, old(rubik)@, turned);
        }
    }

    /// The place from which the move brings a cubie to `position`, or `None`
    /// where `position` is not in the layer.
    pub fn apply_on_position(&self, position: CubePosition) -> (r: Option<CubePosition>)
        ensures
            self.spec_layer()@.contains(position.spec_index()) ==> r.is_some()
                && r.unwrap().spec_index() == self.spec_layer()@[self.spec_ptr_rotate().spec_source(
                self.spec_layer()@.index_of(position.spec_index()),
            )],
            !self.spec_layer()@.contains(position.spec_index()) ==> r.is_none(),
    {
        let layer: RubikLayer = self.layer;
        let table: [u8; 9] = *layer.indexes();
        let sources: [usize; 9] = self.ptr_rotate.as_permutation();
        let code: u8 = position.index();
        proof {
            use_type_invariant(&layer);
            lemma_layer_table(table@);
        }
        let mut idx: usize = 0;
        while idx < 9
            invariant
                idx <= 9,
                is_layer_table(table@),
                table@ == self.spec_layer()@,
                code == position.spec_index(),
                forall|j: int| 0 <= j < 9 ==> #[trigger] sources@[j] == self.ptr_rotate.spec_source(j),
                forall|i: int| 0 <= i < idx ==> #[trigger] table@[i] != code,
            decreases 9 - idx,
        {
            proof {
                lemma_layer_table(table@);
                self.ptr_rotate.lemma_source(idx as int);
            }
            if table[idx] == code {
                proof {
                    let i = table@.index_of(code);
                    assert(table@.contains(code));
                    assert(0 <= i < 9 && table@[i] == table@[idx as int]);
                    assert(i == idx);
                }
                return Some(CubePosition::from_u8(table[sources[idx]]));
            }
            idx += 1;
        }
        None
    }

    /// The move with these three parts.
    fn make(layer: RubikLayer, rotation: CubePermutation, ptr_rotate: PtrRotate) -> (r: Self)
        ensures
            r == Self::spec_new(layer, rotation, ptr_rotate),
            r == Self::spec_turn(layer@, rotation.bits(), ptr_rotate),
    {
        proof {
            use_type_invariant(&layer);
            use_type_invariant(&rotation);
            lemma_layer_table(layer@);
            RubikLayer::lemma_with_table(layer@);
            RubikLayer::lemma_view_injective(layer, RubikLayer::with_table(layer@));
        }
        Self { layer, rotation, ptr_rotate }
    }

    /// The move that undoes this one: same layer, inverse rotation, the
    /// cubies carried back.
    pub fn inverse(self) -> (r: Self)
        ensures
            r == self.spec_inverse(),
            r.spec_layer() == self.spec_layer(),
            r.spec_rotation() == self.spec_rotation().spec_inverse(),
            r.spec_ptr_rotate() == self.spec_ptr_rotate().spec_inverse(),
    {
        Self::make(self.layer, self.rotation.inverse(), self.ptr_rotate.inverse())
    }

    /// The move made twice: same layer, the rotation composed with itself,
    /// the cubies carried twice as far.
    pub fn square(self) -> (r: Self)
        ensures
            r == self.spec_square(),
            r.spec_layer() == self.spec_layer(),
            r.spec_rotation() == self.spec_rotation().spec_square(),
            r.spec_ptr_rotate() == self.spec_ptr_rotate().spec_square(),
    {
        Self::make(self.layer, self.rotation.compose(self.rotation), self.ptr_rotate.square())
    }

    pub open spec fn spec_unit() -> Self {
        Self::spec_turn(f_table(), UNIT_BITS, PtrRotate::Rotate0)
    }

    /// The move that turns nothing.
    #[verifier::when_used_as_spec(spec_unit)]
    pub fn unit() -> (r: Self)
        ensures
            r == Self::spec_unit(),
            r.is_turn(f_table(), UNIT_BITS, PtrRotate::Rotate0),
    {
        Self::make(RubikLayer::f(), CubePermutation::unit(), PtrRotate::Rotate0)
    }

    pub open spec fn spec_f() -> Self {
        Self::spec_turn(f_table(), X_1_BITS, PtrRotate::Rotate1)
    }

    pub open spec fn spec_fi() -> Self {
        Self::spec_turn(f_table(), X_3_BITS, PtrRotate::Rotate3)
    }

    pub open spec fn spec_f2() -> Self {
        Self::spec_turn(f_table(), X_2_BITS, PtrRotate::Rotate2)
    }

    /// `F`: a clockwise quarter turn of the front layer.
    #[verifier::when_used_as_spec(spec_f)]
    pub fn f() -> (r: Self)
        ensures
            r == Self::spec_f(),
            r.is_turn(f_table(), X_1_BITS, PtrRotate::Rotate1),
    {
        Self::make(RubikLayer::f(), CubePermutation::front(), PtrRotate::Rotate1)
    }

    /// `F'`: the inverse of `F`.
    #[verifier::when_used_as_spec(spec_fi)]
    pub fn fi() -> (r: Self)
        ensures
            r == Self::spec_fi(),
            r.is_turn(f_table(), X_3_BITS, PtrRotate::Rotate3),
    {
        proof {
            lemma_named_products();
        }
        let r = Self::f().inverse();
        proof {
            r.lemma_turn(f_table(), X_3_BITS, PtrRotate::Rotate3);
        }
        r
    }

    /// `F2`: `F` twice.
    #[verifier::when_used_as_spec(spec_f2)]
    pub fn f2() -> (r: Self)
        ensures
            r == Self::spec_f2(),
            r.is_turn(f_table(), X_2_BITS, PtrRotate::Rotate2),
    {
        proof {
            lemma_named_products();
        }
        let r = Self::f().square();
        proof {
            r.lemma_turn(f_table(), X_2_BITS, PtrRotate::Rotate2);
        }
        r
    }

    pub open spec fn spec_b() -> Self {
        Self::spec_turn(b_table(), X_3_BITS, PtrRotate::Rotate1)
    }

    pub open spec fn spec_bi() -> Self {
        Self::spec_turn(b_table(), X_1_BITS, PtrRotate::Rotate3)
    }

    pub open spec fn spec_b2() -> Self {
        Self::spec_turn(b_table(), X_2_BITS, PtrRotate::Rotate2)
    }

    /// `B`: a clockwise quarter turn of the back layer.
    #[verifier::when_used_as_spec(spec_b)]
    pub fn b() -> (r: Self)
        ensures
            r == Self::spec_b(),
            r.is_turn(b_table(), X_3_BITS, PtrRotate::Rotate1),
    {
        Self::make(RubikLayer::b(), CubePermutation::back(), PtrRotate::Rotate1)
    }

    /// `B'`: the inverse of `B`.
    #[verifier::when_used_as_spec(spec_bi)]
    pub fn bi() -> (r: Self)
        ensures
            r == Self::spec_bi(),
            r.is_turn(b_table(), X_1_BITS, PtrRotate::Rotate3),
    {
        proof {
            lemma_named_products();
        }
        let r = Self::b().inverse();
        proof {
            r.lemma_turn(b_table(), X_1_BITS, PtrRotate::Rotate3);
        }
        r
    }

    /// `B2`: `B` twice.
    #[verifier::when_used_as_spec(spec_b2)]
    pub fn b2() -> (r: Self)
        ensures
            r == Self::spec_b2(),
            r.is_turn(b_table(), X_2_BITS, PtrRotate::Rotate2),
    {
        proof {
            lemma_named_products();
        }
        let r = Self::b().square();
        proof {
            r.lemma_turn(b_table(), X_2_BITS, PtrRotate::Rotate2);
        }
        r
    }

    pub open spec fn spec_l() -> Self {
        Self::spec_turn(l_table(), Y_3_BITS, PtrRotate::Rotate1)
    }

    pub open spec fn spec_li() -> Self {
        Self::spec_turn(l_table(), Y_1_BITS, PtrRotate::Rotate3)
    }

    pub open spec fn spec_l2() -> Self {
        Self::spec_turn(l_table(), Y_2_BITS, PtrRotate::Rotate2)
    }

    /// `L`: a clockwise quarter turn of the left layer.
    #[verifier::when_used_as_spec(spec_l)]
    pub fn l() -> (r: Self)
        ensures
            r == Self::spec_l(),
            r.is_turn(l_table(), Y_3_BITS, PtrRotate::Rotate1),
    {
        Self::make(RubikLayer::l(), CubePermutation::left(), PtrRotate::Rotate1)
    }

    /// `L'`: the inverse of `L`.
    #[verifier::when_used_as_spec(spec_li)]
    pub fn li() -> (r: Self)
        ensures
            r == Self::spec_li(),
            r.is_turn(l_table(), Y_1_BITS, PtrRotate::Rotate3),
    {
        proof {
            lemma_named_products();
        }
        let r = Self::l().inverse();
        proof {
            r.lemma_turn(l_table(), Y_1_BITS, PtrRotate::Rotate3);
        }
        r
    }

    /// `L2`: `L` twice.
    #[verifier::when_used_as_spec(spec_l2)]
    pub fn l2() -> (r: Self)
        ensures
            r == Self::spec_l2(),
            r.is_turn(l_table(), Y_2_BITS, PtrRotate::Rotate2),
    {
        proof {
            lemma_named_products();
        }
        let r = Self::l().square();
        proof {
            r.lemma_turn(l_table(), Y_2_BITS, PtrRotate::Rotate2);
        }
        r
    }

    pub open spec fn spec_r() -> Self {
        Self::spec_turn(r_table(), Y_1_BITS, PtrRotate::Rotate1)
    }

    pub open spec fn spec_ri() -> Self {
        Self::spec_turn(r_table(), Y_3_BITS, PtrRotate::Rotate3)
    }

    pub open spec fn spec_r2() -> Self {
        Self::spec_turn(r_table(), Y_2_BITS, PtrRotate::Rotate2)
    }

    /// `R`: a clockwise quarter turn of the right layer.
    #[verifier::when_used_as_spec(spec_r)]
    pub fn r() -> (r: Self)
        ensures
            r == Self::spec_r(),
            r.is_turn(r_table(), Y_1_BITS, PtrRotate::Rotate1),
    {
        Self::make(RubikLayer::r(), CubePermutation::right(), PtrRotate::Rotate1)
    }

    /// `R'`: the inverse of `R`.
    #[verifier::when_used_as_spec(spec_ri)]
    pub fn ri() -> (r: Self)
        ensures
            r == Self::spec_ri(),
            r.is_turn(r_table(), Y_3_BITS, PtrRotate::Rotate3),
    {
        proof {
            lemma_named_products();
        }
        let r = Self::r().inverse();
        proof {
            r.lemma_turn(r_table(), Y_3_BITS, PtrRotate::Rotate3);
        }
        r
    }

    /// `R2`: `R` twice.
    #[verifier::when_used_as_spec(spec_r2)]
    pub fn r2() -> (r: Self)
        ensures
            r == Self::spec_r2(),
            r.is_turn(r_table(), Y_2_BITS, PtrRotate::Rotate2),
    {
        proof {
            lemma_named_products();
        }
        let r = Self::r().square();
        proof {
            r.lemma_turn(r_table(), Y_2_BITS, PtrRotate::Rotate2);
        }
        r
    }

    pub open spec fn spec_u() -> Self {
        Self::spec_turn(u_table(), Z_1_BITS, PtrRotate::Rotate1)
    }

    pub open spec fn spec_ui() -> Self {
        Self::spec_turn(u_table(), Z_3_BITS, PtrRotate::Rotate3)
    }

    pub open spec fn spec_u2() -> Self {
        Self::spec_turn(u_table(), Z_2_BITS, PtrRotate::Rotate2)
    }

    /// `U`: a clockwise quarter turn of the upper layer.
    #[verifier::when_used_as_spec(spec_u)]
    pub fn u() -> (r: Self)
        ensures
            r == Self::spec_u(),
            r.is_turn(u_table(), Z_1_BITS, PtrRotate::Rotate1),
    {
        Self::make(RubikLayer::u(), CubePermutation::up(), PtrRotate::Rotate1)
    }

    /// `U'`: the inverse of `U`.
    #[verifier::when_used_as_spec(spec_ui)]
    pub fn ui() -> (r: Self)
        ensures
            r == Self::spec_ui(),
            r.is_turn(u_table(), Z_3_BITS, PtrRotate::Rotate3),
    {
        proof {
            lemma_named_products();
        }
        let r = Self::u().inverse();
        proof {
            r.lemma_turn(u_table(), Z_3_BITS, PtrRotate::Rotate3);
        }
        r
    }

    /// `U2`: `U` twice.
    #[verifier::when_used_as_spec(spec_u2)]
    pub fn u2() -> (r: Self)
        ensures
            r == Self::spec_u2(),
            r.is_turn(u_table(), Z_2_BITS, PtrRotate::Rotate2),
    {
        proof {
            lemma_named_products();
        }
        let r = Self::u().square();
        proof {
            r.lemma_turn(u_table(), Z_2_BITS, PtrRotate::Rotate2);
        }
        r
    }

    pub open spec fn spec_d() -> Self {
        Self::spec_turn(d_table(), Z_3_BITS, PtrRotate::Rotate1)
    }

    pub open spec fn spec_di() -> Self {
        Self::spec_turn(d_table(), Z_1_BITS, PtrRotate::Rotate3)
    }

    pub open spec fn spec_d2() -> Self {
        Self::spec_turn(d_table(), Z_2_BITS, PtrRotate::Rotate2)
    }

    /// `D`: a clockwise quarter turn of the lower layer.
    #[verifier::when_used_as_spec(spec_d)]
    pub fn d() -> (r: Self)
        ensures
            r == Self::spec_d(),
            r.is_turn(d_table(), Z_3_BITS, PtrRotate::Rotate1),
    {
        Self::make(RubikLayer::d(), CubePermutation::down(), PtrRotate::Rotate1)
    }

    /// `D'`: the inverse of `D`.
    #[verifier::when_used_as_spec(spec_di)]
    pub fn di() -> (r: Self)
        ensures
            r == Self::spec_di(),
            r.is_turn(d_table(), Z_1_BITS, PtrRotate::Rotate3),
    {
        proof {
            lemma_named_products();
        }
        let r = Self::d().inverse();
        proof {
            r.lemma_turn(d_table(), Z_1_BITS, PtrRotate::Rotate3);
        }
        r
    }

    /// `D2`: `D` twice.
    #[verifier::when_used_as_spec(spec_d2)]
    pub fn d2() -> (r: Self)
        ensures
            r == Self::spec_d2(),
            r.is_turn(d_table(), Z_2_BITS, PtrRotate::Rotate2),
    {
        proof {
            lemma_named_products();
        }
        let r = Self::d().square();
        proof {
            r.lemma_turn(d_table(), Z_2_BITS, PtrRotate::Rotate2);
        }
        r
    }

    pub open spec fn spec_m() -> Self {
        Self::spec_turn(m_table(), Y_3_BITS, PtrRotate::Rotate1)
    }

    pub open spec fn spec_mi() -> Self {
        Self::spec_turn(m_table(), Y_1_BITS, PtrRotate::Rotate3)
    }

    pub open spec fn spec_m2() -> Self {
        Self::spec_turn(m_table(), Y_2_BITS, PtrRotate::Rotate2)
    }

    /// `M`: a clockwise quarter turn of the slice between left and right, in
    /// the sense of the left layer.
    #[verifier::when_used_as_spec(spec_m)]
    pub fn m() -> (r: Self)
        ensures
            r == Self::spec_m(),
            r.is_turn(m_table(), Y_3_BITS, PtrRotate::Rotate1),
    {
        Self::make(RubikLayer::m(), CubePermutation::left(), PtrRotate::Rotate1)
    }

    /// `M'`: the inverse of `M`.
    #[verifier::when_used_as_spec(spec_mi)]
    pub fn mi() -> (r: Self)
        ensures
            r == Self::spec_mi(),
            r.is_turn(m_table(), Y_1_BITS, PtrRotate::Rotate3),
    {
        proof {
            lemma_named_products();
        }
        let r = Self::m().inverse();
        proof {
            r.lemma_turn(m_table(), Y_1_BITS, PtrRotate::Rotate3);
        }
        r
    }

    /// `M2`: `M` twice.
    #[verifier::when_used_as_spec(spec_m2)]
    pub fn m2() -> (r: Self)
        ensures
            r == Self::spec_m2(),
            r.is_turn(m_table(), Y_2_BITS, PtrRotate::Rotate2),
    {
        proof {
            lemma_named_products();
        }
        let r = Self::m().square();
        proof {
            r.lemma_turn(m_table(), Y_2_BITS, PtrRotate::Rotate2);
        }
        r
    }

    pub open spec fn spec_e() -> Self {
        Self::spec_turn(e_table(), Z_3_BITS, PtrRotate::Rotate1)
    }

    pub open spec fn spec_ei() -> Self {
        Self::spec_turn(e_table(), Z_1_BITS, PtrRotate::Rotate3)
    }

    pub open spec fn spec_e2() -> Self {
        Self::spec_turn(e_table(), Z_2_BITS, PtrRotate::Rotate2)
    }

    /// `E`: a clockwise quarter turn of the slice between top and bottom, in
    /// the sense of the lower layer.
    #[verifier::when_used_as_spec(spec_e)]
    pub fn e() -> (r: Self)
        ensures
            r == Self::spec_e(),
            r.is_turn(e_table(), Z_3_BITS, PtrRotate::Rotate1),
    {
        Self::make(RubikLayer::e(), CubePermutation::down(), PtrRotate::Rotate1)
    }

    /// `E'`: the inverse of `E`.
    #[verifier::when_used_as_spec(spec_ei)]
    pub fn ei() -> (r: Self)
        ensures
            r == Self::spec_ei(),
            r.is_turn(e_table(), Z_1_BITS, PtrRotate::Rotate3),
    {
        proof {
            lemma_named_products();
        }
        let r = Self::e().inverse();
        proof {
            r.lemma_turn(e_table(), Z_1_BITS, PtrRotate::Rotate3);
        }
        r
    }

    /// `E2`: `E` twice.
    #[verifier::when_used_as_spec(spec_e2)]
    pub fn e2() -> (r: Self)
        ensures
            r == Self::spec_e2(),
            r.is_turn(e_table(), Z_2_BITS, PtrRotate::Rotate2),
    {
        proof {
            lemma_named_products();
        }
        let r = Self::e().square();
        proof {
            r.lemma_turn(e_table(), Z_2_BITS, PtrRotate::Rotate2);
        }
        r
    }

    pub open spec fn spec_s() -> Self {
        Self::spec_turn(s_table(), X_3_BITS, PtrRotate::Rotate1)
    }

    pub open spec fn spec_si() -> Self {
        Self::spec_turn(s_table(), X_1_BITS, PtrRotate::Rotate3)
    }

    pub open spec fn spec_s2() -> Self {
        Self::spec_turn(s_table(), X_2_BITS, PtrRotate::Rotate2)
    }

    /// `S`: a clockwise quarter turn of the slice between front and back, in
    /// the sense of the back layer.
    #[verifier::when_used_as_spec(spec_s)]
    pub fn s() -> (r: Self)
        ensures
            r == Self::spec_s(),
            r.is_turn(s_table(), X_3_BITS, PtrRotate::Rotate1),
    {
        Self::make(RubikLayer::s(), CubePermutation::back(), PtrRotate::Rotate1)
    }

    /// `S'`: the inverse of `S`.
    #[verifier::when_used_as_spec(spec_si)]
    pub fn si() -> (r: Self)
        ensures
            r == Self::spec_si(),
            r.is_turn(s_table(), X_1_BITS, PtrRotate::Rotate3),
    {
        proof {
            lemma_named_products();
        }
        let r = Self::s().inverse();
        proof {
            r.lemma_turn(s_table(), X_1_BITS, PtrRotate::Rotate3);
        }
        r
    }

    /// `S2`: `S` twice.
    #[verifier::when_used_as_spec(spec_s2)]
    pub fn s2() -> (r: Self)
        ensures
            r == Self::spec_s2(),
            r.is_turn(s_table(), X_2_BITS, PtrRotate::Rotate2),
    {
        proof {
            lemma_named_products();
        }
        let r = Self::s().square();
        proof {
            r.lemma_turn(s_table(), X_2_BITS, PtrRotate::Rotate2);
        }
        r
    }

    /// The rotation that the move gives each cubie of its layer.
    #[verifier::when_used_as_spec(spec_rotation)]
    pub fn rotation(&self) -> (r: CubePermutation)
        ensures
            r == self.spec_rotation(),
    {
        self.rotation
    }

    /// The layer that the move turns.
    #[verifier::when_used_as_spec(spec_layer)]
    pub fn layer(&self) -> (r: RubikLayer)
        ensures
            r == self.spec_layer(),
    {
        self.layer
    }

    /// How the move carries the cubies of its layer round.
    #[verifier::when_used_as_spec(spec_ptr_rotate)]
    pub fn ptr_rotate(&self) -> (r: PtrRotate)
        ensures
            r == self.spec_ptr_rotate(),
    {
        self.ptr_rotate
    }
}

/// The inverse of a move given by its parts is given by the inverse parts,
/// and a move of one of the nine layers with a valid rotation is well formed.
pub proof fn lemma_turn_inverse(table: Seq<u8>, bits: u8, kind: PtrRotate)
    requires
        is_layer_table(table),
        valid_bits(bits),
    ensures
        RubikLayerTransform::spec_turn(table, bits, kind).wf(),
        RubikLayerTransform::spec_turn(table, bits, kind).spec_inverse()
            == RubikLayerTransform::spec_turn(table, inverse_bits(bits), kind.spec_inverse()),
{
    lemma_layer_table(table);
    RubikLayer::lemma_with_table(table);
}

/// The corner (or edge) of a layer from which a turn fills corner (or edge)
/// number `i`, the four counted clockwise.
pub open spec fn cycle_source(kind: PtrRotate, i: int) -> int {
    match kind {
        PtrRotate::Rotate0 => i,
        PtrRotate::Rotate1 => (i + 3) % 4,
        PtrRotate::Rotate2 => (i + 2) % 4,
        PtrRotate::Rotate3 => (i + 1) % 4,
    }
}

/// What carrying four cubies round makes of a state: each of the four places
/// is filled from another of them, and nothing else changes.
pub proof fn lemma_call(kind: PtrRotate, s: Seq<Cube>, p: Seq<u8>)
    requires
        p.len() == 4,
        p[0] < s.len() && p[1] < s.len() && p[2] < s.len() && p[3] < s.len(),
        p[0] != p[1] && p[0] != p[2] && p[0] != p[3] && p[1] != p[2] && p[1] != p[3] && p[2]
            != p[3],
    ensures
        kind.spec_call(s, p).len() == s.len(),
        kind.spec_call(s, p)[p[0] as int] == s[p[cycle_source(kind, 0)] as int],
        kind.spec_call(s, p)[p[1] as int] == s[p[cycle_source(kind, 1)] as int],
        kind.spec_call(s, p)[p[2] as int] == s[p[cycle_source(kind, 2)] as int],
        kind.spec_call(s, p)[p[3] as int] == s[p[cycle_source(kind, 3)] as int],
        forall|k: int|
            0 <= k < s.len() && k != p[0] && k != p[1] && k != p[2] && k != p[3]
                ==> #[trigger] kind.spec_call(s, p)[k] == s[k],
{
}

/// Turning the nine cubies of the layer and then carrying corners and edges
/// round is making the move.
proof fn lemma_carried(t: RubikLayerTransform, before: Seq<Cube>, turned: Seq<Cube>)
    requires
        t.wf(),
        before.len() == 27,
        turned.len() == 27,
        forall|j: int|
            0 <= j < 9 ==> #[trigger] turned[t.spec_layer()@[j] as int]
                == before[t.spec_layer()@[j] as int].spec_rotate(t.spec_rotation()),
        forall|k: int|
            0 <= k < 27 && !t.spec_layer()@.contains(k as u8) ==> #[trigger] turned[k] == before[k],
    ensures
        t.spec_ptr_rotate().spec_call(
            t.spec_ptr_rotate().spec_call(
                turned,
                seq![
                    t.spec_layer()@[0],
                    t.spec_layer()@[2],
                    t.spec_layer()@[8],
                    t.spec_layer()@[6],
                ],
            ),
            seq![t.spec_layer()@[1], t.spec_layer()@[5], t.spec_layer()@[7], t.spec_layer()@[3]],
        ) == t.spec_apply(before),
{
    let table = t.spec_layer()@;
    let kind = t.spec_ptr_rotate();
    let corner = seq![table[0], table[2], table[8], table[6]];
    let edge = seq![table[1], table[5], table[7], table[3]];
    lemma_layer_table(table);
    t.lemma_apply(before);
    assert(table[0] != table[2] && table[0] != table[8] && table[0] != table[6] && table[2]
        != table[8] && table[2] != table[6] && table[6] != table[8]);
    assert(table[1] != table[5] && table[1] != table[7] && table[1] != table[3] && table[5]
        != table[7] && table[3] != table[5] && table[3] != table[7]);
    let half = kind.spec_call(turned, corner);
    let whole = kind.spec_call(half, edge);
    lemma_call(kind, turned, corner);
    lemma_call(kind, half, edge);
    let goal = t.spec_apply(before);
    assert forall|j: int| 0 <= j < 9 implies whole[table[j] as int] == goal[table[j] as int] by {
        lemma_carried_at(t, turned, j);
        kind.lemma_source(j);
        assert(goal[table[j] as int] == t.spec_moved(before, j));
    }
    assert forall|k: int| 0 <= k < 27 implies whole[k] == goal[k] by {
        if table.contains(k as u8) {
            let j = table.index_of(k as u8);
            assert(table[j] == k);
        } else {
            assert(forall|j: int| 0 <= j < 9 ==> #[trigger] table[j] != k);
            assert(half[k] == turned[k]);
            assert(whole[k] == half[k]);
        }
    }
    assert(whole =~= goal);
}

/// After corners and edges of a layer were carried round, position `j` of
/// the layer holds the cubie from the position that the turn takes it from.
proof fn lemma_carried_at(t: RubikLayerTransform, turned: Seq<Cube>, j: int)
    requires
        t.wf(),
        turned.len() == 27,
        0 <= j < 9,
    ensures
        t.spec_ptr_rotate().spec_call(
            t.spec_ptr_rotate().spec_call(
                turned,
                seq![
                    t.spec_layer()@[0],
                    t.spec_layer()@[2],
                    t.spec_layer()@[8],
                    t.spec_layer()@[6],
                ],
            ),
            seq![t.spec_layer()@[1], t.spec_layer()@[5], t.spec_layer()@[7], t.spec_layer()@[3]],
        )[t.spec_layer()@[j] as int] == turned[t.spec_layer()@[t.spec_ptr_rotate().spec_source(
            j,
        )] as int],
{
    let table = t.spec_layer()@;
    let kind = t.spec_ptr_rotate();
    let corner = seq![table[0], table[2], table[8], table[6]];
    let edge = seq![table[1], table[5], table[7], table[3]];
    lemma_layer_table(table);
    assert(table[0] != table[2] && table[0] != table[8] && table[0] != table[6] && table[2]
        != table[8] && table[2] != table[6] && table[6] != table[8]);
    assert(table[1] != table[5] && table[1] != table[7] && table[1] != table[3] && table[5]
        != table[7] && table[3] != table[5] && table[3] != table[7]);
    assert(forall|a: int, b: int|
        0 <= a < b < 9 ==> #[trigger] table[a] != #[trigger] table[b]);
    let half = kind.spec_call(turned, corner);
    lemma_call(kind, turned, corner);
    lemma_call(kind, half, edge);
    let src = kind.spec_source(j);
    if j == 4 {
        assert(src == 4);
        assert(table[4] != table[0] && table[4] != table[2] && table[4] != table[8] && table[4]
            != table[6] && table[4] != table[1] && table[4] != table[5] && table[4] != table[7]
            && table[4] != table[3]);
    } else if j == 0 || j == 2 || j == 8 || j == 6 {
        let i: int = if j == 0 {
            0
        } else if j == 2 {
            1
        } else if j == 8 {
            2
        } else {
            3
        };
        assert(corner[i] == table[j]);
        assert(corner[cycle_source(kind, i)] == table[src]);
        assert(table[j] != edge[0] && table[j] != edge[1] && table[j] != edge[2] && table[j]
            != edge[3]);
    } else {
        let i: int = if j == 1 {
            0
        } else if j == 5 {
            1
        } else if j == 7 {
            2
        } else {
            3
        };
        assert(edge[i] == table[j]);
        assert(edge[cycle_source(kind, i)] == table[src]);
        assert(table[src] != corner[0] && table[src] != corner[1] && table[src] != corner[2]
            && table[src] != corner[3]);
    }
}

/// A well-formed move leaves valid rotations valid.
pub proof fn lemma_apply_wf(t: RubikLayerTransform, s: Seq<Cube>)
    requires
        t.wf(),
        state_wf(s),
    ensures
        state_wf(t.spec_apply(s)),
{
    let table = t.spec_layer()@;
    let after = t.spec_apply(s);
    t.lemma_apply(s);
    lemma_layer_table(table);
    assert forall|k: int| 0 <= k < 27 implies (#[trigger] after[k]).rotation.wf() by {
        if table.contains(k as u8) {
            let j = table.index_of(k as u8);
            assert(table[j] == k);
            t.spec_ptr_rotate().lemma_source(j);
            let from = table[t.spec_ptr_rotate().spec_source(j)] as int;
            assert(after[table[j] as int] == s[from].spec_rotate(t.spec_rotation()));
            lemma_compose_valid(s[from].rotation.bits(), t.spec_rotation().bits());
        }
    }
}

/// A cubie rotated by a permutation and then by its inverse is as before.
pub proof fn lemma_rotate_back(c: Cube, p: CubePermutation)
    requires
        p.wf(),
    ensures
        c.spec_rotate(p).spec_rotate(p.spec_inverse()) == c,
        c.spec_rotate(p.spec_inverse()).spec_rotate(p) == c,
{
    lemma_assoc_bits(c.rotation.bits(), p.bits(), inverse_bits(p.bits()));
    lemma_assoc_bits(c.rotation.bits(), inverse_bits(p.bits()), p.bits());
    lemma_inverse_bits(p.bits());
    lemma_unit_bits(c.rotation.bits());
}

/// A cubie rotated twice by a permutation is rotated once by its square.
pub proof fn lemma_rotate_twice(c: Cube, p: CubePermutation)
    ensures
        c.spec_rotate(p).spec_rotate(p) == c.spec_rotate(p.spec_square()),
{
    lemma_assoc_bits(c.rotation.bits(), p.bits(), p.bits());
}

/// The inverse and the square of a well-formed move are well formed.
pub proof fn lemma_derived_moves(t: RubikLayerTransform)
    requires
        t.wf(),
    ensures
        t.spec_inverse().wf(),
        t.spec_square().wf(),
{
    lemma_inverse_bits(t.spec_rotation().bits());
    lemma_compose_valid(t.spec_rotation().bits(), t.spec_rotation().bits());
}

/// A move followed by its inverse, or the inverse followed by the move,
/// leaves every state as it was.
pub proof fn lemma_inverse_undoes(t: RubikLayerTransform, s: Seq<Cube>)
    requires
        t.wf(),
        s.len() == 27,
    ensures
        t.spec_inverse().spec_apply(t.spec_apply(s)) == s,
        t.spec_apply(t.spec_inverse().spec_apply(s)) == s,
{
    let u = t.spec_inverse();
    let table = t.spec_layer()@;
    let kind = t.spec_ptr_rotate();
    let p = t.spec_rotation();
    lemma_derived_moves(t);
    lemma_layer_table(table);
    let there = t.spec_apply(s);
    let back = u.spec_apply(s);
    t.lemma_apply(s);
    u.lemma_apply(s);
    u.lemma_apply(there);
    t.lemma_apply(back);
    assert forall|k: int| 0 <= k < 27 implies u.spec_apply(there)[k] == s[k] && t.spec_apply(
        back,
    )[k] == s[k] by {
        if table.contains(k as u8) {
            let j = table.index_of(k as u8);
            assert(0 <= j < 9 && table[j] == k);
            kind.lemma_source(j);
            let via_u = kind.spec_inverse().spec_source(j);
            let via_t = kind.spec_source(j);
            kind.lemma_source(via_u);
            kind.lemma_source(via_t);
            assert(u.spec_apply(there)[table[j] as int] == there[table[via_u] as int].spec_rotate(
                p.spec_inverse(),
            ));
            assert(there[table[via_u] as int] == s[table[kind.spec_source(via_u)] as int].spec_rotate(
                p,
            ));
            assert(t.spec_apply(back)[table[j] as int] == back[table[via_t] as int].spec_rotate(p));
            assert(back[table[via_t] as int] == s[table[kind.spec_inverse().spec_source(
                via_t,
            )] as int].spec_rotate(p.spec_inverse()));
            lemma_rotate_back(s[k], p);
        }
    }
    assert(u.spec_apply(there) =~= s);
    assert(t.spec_apply(back) =~= s);
}

/// A move made twice is its square made once.
pub proof fn lemma_square_is_twice(t: RubikLayerTransform, s: Seq<Cube>)
    requires
        t.wf(),
        s.len() == 27,
    ensures
        t.spec_square().spec_apply(s) == t.spec_apply(t.spec_apply(s)),
{
    let q = t.spec_square();
    let table = t.spec_layer()@;
    let kind = t.spec_ptr_rotate();
    let p = t.spec_rotation();
    lemma_derived_moves(t);
    lemma_layer_table(table);
    let once = t.spec_apply(s);
    t.lemma_apply(s);
    t.lemma_apply(once);
    q.lemma_apply(s);
    assert forall|k: int| 0 <= k < 27 implies q.spec_apply(s)[k] == t.spec_apply(once)[k] by {
        if table.contains(k as u8) {
            let j = table.index_of(k as u8);
            assert(0 <= j < 9 && table[j] == k);
            kind.lemma_source(j);
            let via = kind.spec_source(j);
            kind.lemma_source(via);
            assert(t.spec_apply(once)[table[j] as int] == once[table[via] as int].spec_rotate(p));
            assert(once[table[via] as int] == s[table[kind.spec_source(via)] as int].spec_rotate(p));
            assert(q.spec_apply(s)[table[j] as int] == s[table[kind.spec_square().spec_source(
                j,
            )] as int].spec_rotate(p.spec_square()));
            lemma_rotate_twice(s[table[kind.spec_source(via)] as int], p);
        }
    }
    assert(q.spec_apply(s) =~= t.spec_apply(once));
}

/// What a turn makes of the solved puzzle: the cubies of the layer carry the
/// move's rotation, all others none.
pub proof fn lemma_first_move(t: RubikLayerTransform)
    requires
        t.wf(),
    ensures
        t.spec_apply(initial_state()).len() == 27,
        forall|k: int|
            0 <= k < 27 ==> #[trigger] t.spec_apply(initial_state())[k] == if t.spec_layer()@.contains(
                k as u8,
            ) {
                Cube { rotation: t.spec_rotation() }
            } else {
                Cube::spec_new()
            },
{
    let s = initial_state();
    let table = t.spec_layer()@;
    t.lemma_apply(s);
    lemma_layer_table(table);
    lemma_unit_bits(t.spec_rotation().bits());
    assert forall|k: int| 0 <= k < 27 implies #[trigger] t.spec_apply(s)[k] == if table.contains(
        k as u8,
    ) {
        Cube { rotation: t.spec_rotation() }
    } else {
        Cube::spec_new()
    } by {
        if table.contains(k as u8) {
            let j = table.index_of(k as u8);
            t.spec_ptr_rotate().lemma_source(j);
            assert(table[j] == k);
            assert(t.spec_apply(s)[table[j] as int] == s[table[t.spec_ptr_rotate().spec_source(
                j,
            )] as int].spec_rotate(t.spec_rotation()));
        }
    }
}

/// After one turn of the solved puzzle, a layer that the turned layer crosses
/// shows one face all over only if the turn's rotation leaves that face where
/// it is.
proof fn lemma_crossed_layer(t: RubikLayerTransform, table: Seq<u8>, face: CubeFace)
    requires
        t.wf(),
        is_layer_table(table),
        crossed(t.spec_layer()@, table),
        face_uniform(t.spec_apply(initial_state()), table, face),
    ensures
        (Cube { rotation: t.spec_rotation() }).spec_get(face) == Cube::spec_new().spec_get(face),
{
    lemma_first_move(t);
    lemma_layer_table(table);
    let after = t.spec_apply(initial_state());
    let layer = t.spec_layer()@;
    let turned = Cube { rotation: t.spec_rotation() };
    assert(after[table[0] as int] == if layer.contains(table[0]) {
        turned
    } else {
        Cube::spec_new()
    });
    assert(after[table[4] as int] == if layer.contains(table[4]) {
        turned
    } else {
        Cube::spec_new()
    });
    assert(after[table[8] as int] == if layer.contains(table[8]) {
        turned
    } else {
        Cube::spec_new()
    });
}

/// A single turn unsolves the solved puzzle: after a well-formed move whose
/// rotation is not the identity, the puzzle is not solved.
pub proof fn lemma_one_move_unsolves(t: RubikLayerTransform)
    requires
        t.wf(),
        t.spec_rotation() != CubePermutation::spec_unit(),
    ensures
        !solved(t.spec_apply(initial_state())),
{
    let after = t.spec_apply(initial_state());
    let layer = t.spec_layer()@;
    let c = Cube { rotation: t.spec_rotation() };
    lemma_shown_faces(c);
    lemma_crossing_layers(layer);
    if solved(after) {
        if crossed(layer, f_table()) {
            lemma_crossed_layer(t, f_table(), CubeFace::F);
        }
        if crossed(layer, r_table()) {
            lemma_crossed_layer(t, r_table(), CubeFace::R);
        }
        if crossed(layer, u_table()) {
            lemma_crossed_layer(t, u_table(), CubeFace::U);
        }
        assert(c == Cube::spec_new());
    }
}

} // verus!
