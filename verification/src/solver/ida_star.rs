//! Iterative deepening: a depth-first search within a bound that grows by
//! one whenever the search comes back empty-handed.
//!
//! The measures that bound the search never overestimate, so the first answer
//! is a shortest one. The digests are lossy: states with the same digest need
//! not behave alike under the moves. The search therefore leaves out only a
//! state that stands on its own way from the start, and uses the digests to
//! see at once that a state is new.
use crate::cube::{lemma_shown_faces, Cube, CubeFace};
use crate::permutation::{
    inverse_bits, lemma_inverse_bits, lemma_named_products, valid_bits, CubePermutation,
    UNIT_BITS, X_1_BITS, X_2_BITS, X_3_BITS, Y_1_BITS, Y_2_BITS, Y_3_BITS, Z_1_BITS, Z_3_BITS,
};
use crate::solver::thistlethwaite::{finds, g0_gens, shortest, shows_up_or_down, Goal};
use crate::solver::{comes_back, moves_from, reversed, RubikSolveState, RubikSolver};
use crate::state::{active_places, corner_places, initial_state, pick, Rubik};
use crate::layer::{
    b_table, d_table, e_table, f_table, is_layer_table, l_table, layer_holds, lemma_layer_members,
    lemma_tables_differ, m_table, r_table, s_table, u_table,
};
use crate::transform::{
    apply_moves, inverse_moves, lemma_apply_moves_concat, lemma_apply_moves_len, lemma_moves_undo,
    moves_wf,
};
use crate::transform::layer::{lemma_turn_inverse, PtrRotate, RubikLayerTransform};
use std::collections::HashSet;
use vstd::prelude::*;

verus! {

broadcast use {
    vstd::std_specs::hash::group_hash_axioms,
    crate::permutation::group_permutation_bits,
};

/// How many of the first `n` cubies of `cubes` show neither top nor bottom
/// at their top.
pub open spec fn count_tilted(cubes: Seq<Cube>, n: nat) -> nat
    decreases n,
{
    if n == 0 {
        0
    } else {
        count_tilted(cubes, (n - 1) as nat) + if shows_up_or_down(cubes[n - 1]) {
            0nat
        } else {
            1nat
        }
    }
}

/// How many of the first `n` cubies of `cubes` have been rotated.
pub open spec fn count_rotated(cubes: Seq<Cube>, n: nat) -> nat
    decreases n,
{
    if n == 0 {
        0
    } else {
        count_rotated(cubes, (n - 1) as nat) + if cubes[n - 1].rotation
            == CubePermutation::spec_unit() {
            0nat
        } else {
            1nat
        }
    }
}

/// How many of the edges, the corners and the core show neither top nor
/// bottom at their top.
pub open spec fn tilted_active(s: Seq<Cube>) -> nat {
    count_tilted(pick(s, active_places()), 21)
}

/// How many of the corners have been rotated.
pub open spec fn rotated_corners(s: Seq<Cube>) -> nat {
    count_rotated(pick(s, corner_places()), 8)
}

/// The measure of the first search, the distance to the states in which
/// edges, corners and core show top or bottom at their top: the number of
/// those that do not, divided by eight and rounded up. A move turns no more
/// than eight of them, so no fewer moves lead there.
pub open spec fn g0_distance(s: Seq<Cube>) -> nat {
    ((tilted_active(s) + 7) / 8) as nat
}

/// The measure of the second search, the distance to the states in which no
/// corner has been rotated: the number of the corners that have been,
/// divided by four and rounded up. A move turns no more than four corners,
/// so no fewer moves lead there.
pub open spec fn g1_distance(s: Seq<Cube>) -> nat {
    ((rotated_corners(s) + 3) / 4) as nat
}

/// How many of the first `n` places of `places` the layer `table` holds.
pub open spec fn touched(places: Seq<usize>, table: Seq<u8>, n: nat) -> nat
    decreases n,
{
    if n == 0 {
        0
    } else {
        touched(places, table, (n - 1) as nat) + if layer_holds(table, places[n - 1] as int) {
            1nat
        } else {
            0nat
        }
    }
}

/// Where two states differ only in the layer `table`, the cubies at
/// `places` that show neither top nor bottom at their top are at most as
/// many more in the one as the layer holds of the places.
pub proof fn lemma_tilted_step(
    s: Seq<Cube>,
    s2: Seq<Cube>,
    places: Seq<usize>,
    table: Seq<u8>,
    n: nat,
)
    requires
        is_layer_table(table),
        s.len() == 27,
        s2.len() == 27,
        n <= places.len(),
        forall|i: int| 0 <= i < places.len() ==> #[trigger] places[i] < 27,
        forall|k: int| 0 <= k < 27 && !table.contains(k as u8) ==> #[trigger] s2[k] == s[k],
    ensures
        count_tilted(pick(s, places), n) <= count_tilted(pick(s2, places), n) + touched(
            places,
            table,
            n,
        ),
    decreases n,
{
    if n > 0 {
        lemma_tilted_step(s, s2, places, table, (n - 1) as nat);
        let k = places[n - 1] as int;
        lemma_layer_members(table, k);
        assert(pick(s, places)[n - 1] == s[k]);
        assert(pick(s2, places)[n - 1] == s2[k]);
    }
}

/// As [`lemma_tilted_step`], for the cubies that have been rotated.
pub proof fn lemma_rotated_step(
    s: Seq<Cube>,
    s2: Seq<Cube>,
    places: Seq<usize>,
    table: Seq<u8>,
    n: nat,
)
    requires
        is_layer_table(table),
        s.len() == 27,
        s2.len() == 27,
        n <= places.len(),
        forall|i: int| 0 <= i < places.len() ==> #[trigger] places[i] < 27,
        forall|k: int| 0 <= k < 27 && !table.contains(k as u8) ==> #[trigger] s2[k] == s[k],
    ensures
        count_rotated(pick(s, places), n) <= count_rotated(pick(s2, places), n) + touched(
            places,
            table,
            n,
        ),
    decreases n,
{
    if n > 0 {
        lemma_rotated_step(s, s2, places, table, (n - 1) as nat);
        let k = places[n - 1] as int;
        lemma_layer_members(table, k);
        assert(pick(s, places)[n - 1] == s[k]);
        assert(pick(s2, places)[n - 1] == s2[k]);
    }
}

/// The 21 places of edges, corners and core, one by one.
proof fn lemma_active_places()
    ensures
        active_places() == seq![
            1usize,
            3,
            5,
            7,
            9,
            11,
            15,
            17,
            19,
            21,
            23,
            25,
            0,
            2,
            6,
            8,
            18,
            20,
            24,
            26,
            13,
        ],
{
    assert(active_places() =~= seq![
        1usize,
        3,
        5,
        7,
        9,
        11,
        15,
        17,
        19,
        21,
        23,
        25,
        0,
        2,
        6,
        8,
        18,
        20,
        24,
        26,
        13,
    ]);
}

/// The front layer holds no more than eight of the edges, the corners and the
/// core, and no more than four corners.
proof fn lemma_touched_f()
    ensures
        touched(active_places(), f_table(), 21) <= 8,
        touched(corner_places(), f_table(), 8) <= 4,
{
    lemma_tables_differ();
    lemma_active_places();
    reveal_with_fuel(touched, 22);
}

/// The slice between front and back holds no more than eight of the edges, the corners and the
/// core, and no more than four corners.
proof fn lemma_touched_s()
    ensures
        touched(active_places(), s_table(), 21) <= 8,
        touched(corner_places(), s_table(), 8) <= 4,
{
    lemma_tables_differ();
    lemma_active_places();
    reveal_with_fuel(touched, 22);
}

/// The back layer holds no more than eight of the edges, the corners and the
/// core, and no more than four corners.
proof fn lemma_touched_b()
    ensures
        touched(active_places(), b_table(), 21) <= 8,
        touched(corner_places(), b_table(), 8) <= 4,
{
    lemma_tables_differ();
    lemma_active_places();
    reveal_with_fuel(touched, 22);
}

/// The left layer holds no more than eight of the edges, the corners and the
/// core, and no more than four corners.
proof fn lemma_touched_l()
    ensures
        touched(active_places(), l_table(), 21) <= 8,
        touched(corner_places(), l_table(), 8) <= 4,
{
    lemma_tables_differ();
    lemma_active_places();
    reveal_with_fuel(touched, 22);
}

/// The slice between left and right holds no more than eight of the edges, the corners and the
/// core, and no more than four corners.
proof fn lemma_touched_m()
    ensures
        touched(active_places(), m_table(), 21) <= 8,
        touched(corner_places(), m_table(), 8) <= 4,
{
    lemma_tables_differ();
    lemma_active_places();
    reveal_with_fuel(touched, 22);
}

/// The right layer holds no more than eight of the edges, the corners and the
/// core, and no more than four corners.
proof fn lemma_touched_r()
    ensures
        touched(active_places(), r_table(), 21) <= 8,
        touched(corner_places(), r_table(), 8) <= 4,
{
    lemma_tables_differ();
    lemma_active_places();
    reveal_with_fuel(touched, 22);
}

/// The upper layer holds no more than eight of the edges, the corners and the
/// core, and no more than four corners.
proof fn lemma_touched_u()
    ensures
        touched(active_places(), u_table(), 21) <= 8,
        touched(corner_places(), u_table(), 8) <= 4,
{
    lemma_tables_differ();
    lemma_active_places();
    reveal_with_fuel(touched, 22);
}

/// The slice between top and bottom holds no more than eight of the edges, the corners and the
/// core, and no more than four corners.
proof fn lemma_touched_e()
    ensures
        touched(active_places(), e_table(), 21) <= 8,
        touched(corner_places(), e_table(), 8) <= 4,
{
    lemma_tables_differ();
    lemma_active_places();
    reveal_with_fuel(touched, 22);
}

/// The lower layer holds no more than eight of the edges, the corners and the
/// core, and no more than four corners.
proof fn lemma_touched_d()
    ensures
        touched(active_places(), d_table(), 21) <= 8,
        touched(corner_places(), d_table(), 8) <= 4,
{
    lemma_tables_differ();
    lemma_active_places();
    reveal_with_fuel(touched, 22);
}

/// A layer holds no more than eight of the edges, the corners and the core,
/// and no more than four corners.
pub proof fn lemma_touched(table: Seq<u8>)
    requires
        is_layer_table(table),
    ensures
        touched(active_places(), table, 21) <= 8,
        touched(corner_places(), table, 8) <= 4,
        forall|i: int| 0 <= i < 21 ==> #[trigger] active_places()[i] < 27,
        forall|i: int| 0 <= i < 8 ==> #[trigger] corner_places()[i] < 27,
        active_places().len() == 21,
        corner_places().len() == 8,
{
    lemma_active_places();
    if table == f_table() {
        lemma_touched_f();
    } else if table == s_table() {
        lemma_touched_s();
    } else if table == b_table() {
        lemma_touched_b();
    } else if table == l_table() {
        lemma_touched_l();
    } else if table == m_table() {
        lemma_touched_m();
    } else if table == r_table() {
        lemma_touched_r();
    } else if table == u_table() {
        lemma_touched_u();
    } else if table == e_table() {
        lemma_touched_e();
    } else {
        lemma_touched_d();
    }
}

/// One move lowers the number of tilted cubies among edges, corners and core
/// by eight at most, and the number of rotated corners by four at most.
pub proof fn lemma_measure_step(t: RubikLayerTransform, s: Seq<Cube>)
    requires
        t.wf(),
        s.len() == 27,
    ensures
        tilted_active(s) <= tilted_active(t.spec_apply(s)) + 8,
        rotated_corners(s) <= rotated_corners(t.spec_apply(s)) + 4,
{
    let table = t.spec_layer()@;
    t.lemma_apply(s);
    lemma_touched(table);
    lemma_tilted_step(s, t.spec_apply(s), active_places(), table, 21);
    lemma_rotated_step(s, t.spec_apply(s), corner_places(), table, 8);
}

/// Any number of moves lowers the two counts by no more than eight, or four,
/// for each move.
pub proof fn lemma_measure_path(p: Seq<RubikLayerTransform>, s: Seq<Cube>)
    requires
        moves_wf(p),
        s.len() == 27,
    ensures
        tilted_active(s) <= tilted_active(apply_moves(p, s)) + 8 * p.len(),
        rotated_corners(s) <= rotated_corners(apply_moves(p, s)) + 4 * p.len(),
    decreases p.len(),
{
    if p.len() > 0 {
        let head = p.drop_last();
        lemma_measure_path(head, s);
        lemma_apply_moves_len(head, s);
        lemma_measure_step(p.last(), apply_moves(head, s));
    }
}

/// The measures never overestimate: from a state of measure `m`, no fewer
/// than `m` moves, whichever they are, lead to a state of measure zero.
pub proof fn lemma_admissible(measure: Measure, s: Seq<Cube>, p: Seq<RubikLayerTransform>)
    requires
        s.len() == 27,
        moves_wf(p),
        measure.distance(apply_moves(p, s)) == 0,
    ensures
        measure.distance(s) <= p.len(),
{
    lemma_measure_path(p, s);
}

/// The class of a cubie for the first search: 0 where it shows top or
/// bottom at its top, 1 where it shows front or back there, else 2.
pub open spec fn g0_class(c: Cube) -> u64 {
    let u = c.spec_get(CubeFace::U);
    if u == CubeFace::U || u == CubeFace::D {
        0
    } else if u == CubeFace::F || u == CubeFace::B {
        1
    } else {
        2
    }
}

/// The class of a cubie for the second search, by the half turn that its
/// rotation splits into: 0 for none, 1 for the one about the axis from
/// front to back, 2 for the one about the axis from left to right, else 3.
pub open spec fn g1_class(c: Cube) -> u64 {
    let flip = CubePermutation::spec_factor_2_flip(c.rotation).bits();
    if flip == UNIT_BITS {
        0
    } else if flip == X_2_BITS {
        1
    } else if flip == Y_2_BITS {
        2
    } else {
        3
    }
}

/// The classes of the first `n` cubies, packed into one number with two bits
/// for each cubie, the first cubie in the highest bits.
pub open spec fn fold_classes(classes: Seq<u64>, n: nat) -> u64
    decreases n,
{
    if n == 0 {
        0
    } else {
        (fold_classes(classes, (n - 1) as nat) << 2) | classes[n - 1]
    }
}

/// The digest of the state `s` for the first search: the classes of edges,
/// corners and core. States in which these cubies fall into the same classes
/// have the same digest.
pub open spec fn g0_digest(s: Seq<Cube>) -> u64 {
    let cubes = pick(s, active_places());
    fold_classes(Seq::new(21, |i: int| g0_class(cubes[i])), 21)
}

/// The digest of the state `s` for the second search.
pub open spec fn g1_digest(s: Seq<Cube>) -> u64 {
    let cubes = pick(s, active_places());
    fold_classes(Seq::new(21, |i: int| g1_class(cubes[i])), 21)
}

/// How many of the cubies `cubes` show neither top nor bottom at their top.
fn tilted(cubes: &Vec<Cube>) -> (n: usize)
    ensures
        n == count_tilted(cubes@, cubes@.len()),
        n <= cubes@.len(),
{
    let mut n: usize = 0;
    let mut i: usize = 0;
    while i < cubes.len()
        invariant
            i <= cubes@.len(),
            n == count_tilted(cubes@, i as nat),
            n <= i,
        decreases cubes@.len() - i,
    {
        let u: CubeFace = cubes[i].get(CubeFace::U);
        if u != CubeFace::U && u != CubeFace::D {
            n += 1;
        }
        i += 1;
    }
    n
}

/// How many of the cubies `cubes` have been rotated.
fn rotated(cubes: &Vec<Cube>) -> (n: usize)
    ensures
        n == count_rotated(cubes@, cubes@.len()),
        n <= cubes@.len(),
{
    let mut n: usize = 0;
    let mut i: usize = 0;
    while i < cubes.len()
        invariant
            i <= cubes@.len(),
            n == count_rotated(cubes@, i as nat),
            n <= i,
        decreases cubes@.len() - i,
    {
        if cubes[i].rotation != CubePermutation::unit() {
            n += 1;
        }
        i += 1;
    }
    n
}

/// The measure of the first search.
pub fn dist_g0(rubik: &Rubik) -> (n: usize)
    ensures
        n == g0_distance(rubik@),
        n <= 3,
{
    let cubes: Vec<Cube> = rubik.active_cubes();
    (tilted(&cubes) + 7) / 8
}

/// The measure of the second search.
pub fn dist_g1(rubik: &Rubik) -> (n: usize)
    ensures
        n == g1_distance(rubik@),
        n <= 2,
{
    let corners: Vec<Cube> = rubik.corners();
    (rotated(&corners) + 3) / 4
}

/// The class of the cubie for the first search.
pub fn g0_align(c: Cube) -> (class: u64)
    ensures
        class == g0_class(c),
{
    let u: CubeFace = c.get(CubeFace::U);
    if u == CubeFace::U || u == CubeFace::D {
        0
    } else if u == CubeFace::F || u == CubeFace::B {
        1
    } else {
        2
    }
}

/// The class of the cubie for the second search.
pub fn g1_align(c: Cube) -> (class: u64)
    ensures
        class == g1_class(c),
{
    let flip: u8 = c.rotation.factor_2().0.into_inner();
    if flip == UNIT_BITS {
        0
    } else if flip == X_2_BITS {
        1
    } else if flip == Y_2_BITS {
        2
    } else {
        3
    }
}

/// The digest of the state for the first search.
pub fn digest_g0(rubik: &Rubik) -> (digest: u64)
    ensures
        digest == g0_digest(rubik@),
{
    let cubes: Vec<Cube> = rubik.active_cubes();
    let ghost classes = Seq::new(21, |i: int| g0_class(cubes@[i]));
    let mut digest: u64 = 0;
    let mut i: usize = 0;
    while i < 21
        invariant
            i <= 21,
            cubes@.len() == 21,
            classes == Seq::new(21, |i: int| g0_class(cubes@[i])),
            digest == fold_classes(classes, i as nat),
        decreases 21 - i,
    {
        let class: u64 = g0_align(cubes[i]);
        digest = (digest << 2) | class;
        i += 1;
    }
    digest
}

/// The digest of the state for the second search.
pub fn digest_g1(rubik: &Rubik) -> (digest: u64)
    ensures
        digest == g1_digest(rubik@),
{
    let cubes: Vec<Cube> = rubik.active_cubes();
    let ghost classes = Seq::new(21, |i: int| g1_class(cubes@[i]));
    let mut digest: u64 = 0;
    let mut i: usize = 0;
    while i < 21
        invariant
            i <= 21,
            cubes@.len() == 21,
            classes == Seq::new(21, |i: int| g1_class(cubes@[i])),
            digest == fold_classes(classes, i as nat),
        decreases 21 - i,
    {
        let class: u64 = g1_align(cubes[i]);
        digest = (digest << 2) | class;
        i += 1;
    }
    digest
}

/// Which of the two searches a solver makes.
#[derive(Debug, Clone, Copy, PartialEq, Eq, Structural)]
pub enum Measure {
    G0,
    G1,
}

impl Measure {
    /// The measure of the state `s`: zero where the search is at its goal.
    pub open spec fn distance(self, s: Seq<Cube>) -> nat {
        match self {
            Measure::G0 => g0_distance(s),
            Measure::G1 => g1_distance(s),
        }
    }

    /// The digest of the state `s`.
    pub open spec fn digest(self, s: Seq<Cube>) -> u64 {
        match self {
            Measure::G0 => g0_digest(s),
            Measure::G1 => g1_digest(s),
        }
    }

    /// The measure of the state of `rubik`.
    pub fn dist(&self, rubik: &Rubik) -> (n: usize)
        ensures
            n == self.distance(rubik@),
            n <= 3,
    {
        match self {
            Measure::G0 => dist_g0(rubik),
            Measure::G1 => dist_g1(rubik),
        }
    }

    /// The digest of the state of `rubik`.
    pub fn digest_of(&self, rubik: &Rubik) -> (digest: u64)
        ensures
            digest == self.digest(rubik@),
    {
        match self {
            Measure::G0 => digest_g0(rubik),
            Measure::G1 => digest_g1(rubik),
        }
    }
}

/// The moves of the first search: the quarter turns of the outer layers.
pub open spec fn g0_ops() -> Seq<RubikLayerTransform> {
    seq![
        RubikLayerTransform::r(),
        RubikLayerTransform::f(),
        RubikLayerTransform::b(),
        RubikLayerTransform::d(),
        RubikLayerTransform::u(),
        RubikLayerTransform::l(),
        RubikLayerTransform::ri(),
        RubikLayerTransform::fi(),
        RubikLayerTransform::bi(),
        RubikLayerTransform::di(),
        RubikLayerTransform::ui(),
        RubikLayerTransform::li(),
    ]
}

/// The moves of the second search: half turns of right, front, back and
/// left, quarter turns of bottom and top.
pub open spec fn g1_ops() -> Seq<RubikLayerTransform> {
    seq![
        RubikLayerTransform::r2(),
        RubikLayerTransform::f2(),
        RubikLayerTransform::b2(),
        RubikLayerTransform::l2(),
        RubikLayerTransform::d(),
        RubikLayerTransform::u(),
        RubikLayerTransform::di(),
        RubikLayerTransform::ui(),
    ]
}

/// The moves `q`, all of them among `ops`, lead from `start` to a state of
/// measure zero.
pub open spec fn arrives(
    ops: Seq<RubikLayerTransform>,
    measure: Measure,
    start: Seq<Cube>,
    q: Seq<RubikLayerTransform>,
) -> bool {
    moves_from(ops, q) && measure.distance(apply_moves(q, start)) == 0
}

/// No fewer than `n` moves of `ops` lead from `start` to a state of measure
/// zero.
pub open spec fn none_shorter(
    ops: Seq<RubikLayerTransform>,
    measure: Measure,
    start: Seq<Cube>,
    n: int,
) -> bool {
    forall|q: Seq<RubikLayerTransform>| #[trigger] arrives(ops, measure, start, q) ==> q.len() >= n
}

/// The moves `p` pass no state twice on their way from `start`.
pub open spec fn simple(start: Seq<Cube>, p: Seq<RubikLayerTransform>) -> bool {
    forall|j: int| 0 < j <= p.len() ==> !comes_back(start, #[trigger] p.take(j))
}

/// The moves `q` go on from the way `way`: both together are no more than
/// `limit` moves, pass no state twice on their way from `start`, and lead to
/// a state of measure zero.
pub open spec fn continues(
    ops: Seq<RubikLayerTransform>,
    measure: Measure,
    start: Seq<Cube>,
    way: Seq<RubikLayerTransform>,
    q: Seq<RubikLayerTransform>,
    limit: int,
) -> bool {
    &&& moves_from(ops, q)
    &&& way.len() + q.len() <= limit
    &&& simple(start, way + q)
    &&& measure.distance(apply_moves(way + q, start)) == 0
}

/// Nothing goes on from the way `way` within `limit` moves.
pub open spec fn dead_end(
    ops: Seq<RubikLayerTransform>,
    measure: Measure,
    start: Seq<Cube>,
    way: Seq<RubikLayerTransform>,
    limit: int,
) -> bool {
    forall|q: Seq<RubikLayerTransform>| !#[trigger] continues(ops, measure, start, way, q, limit)
}

/// Moves that come back to a state can leave out the round trip: where the
/// state after `i` moves of `q` is the state after `j` of them, the first
/// `i` moves followed by those from the `j`-th on lead where `q` leads.
pub proof fn lemma_cut(
    ops: Seq<RubikLayerTransform>,
    start: Seq<Cube>,
    q: Seq<RubikLayerTransform>,
    i: int,
    j: int,
)
    requires
        moves_from(ops, q),
        0 <= i < j <= q.len(),
        apply_moves(q.take(i), start) == apply_moves(q.take(j), start),
    ensures
        moves_from(ops, q.take(i) + q.skip(j)),
        apply_moves(q.take(i) + q.skip(j), start) == apply_moves(q, start),
        (q.take(i) + q.skip(j)).len() < q.len(),
{
    let cut = q.take(i) + q.skip(j);
    assert forall|k: int| 0 <= k < cut.len() implies ops.contains(#[trigger] cut[k]) by {
        if k < i {
            assert(cut[k] == q[k]);
        } else {
            assert(cut[k] == q[k - i + j]);
        }
    }
    lemma_apply_moves_concat(q.take(i), q.skip(j), start);
    lemma_apply_moves_concat(q.take(j), q.skip(j), start);
    assert(q.take(j) + q.skip(j) =~= q);
}

/// Where moves of `ops` lead to a state of measure zero, no more moves that
/// pass no state twice lead to one.
pub proof fn lemma_simple(
    ops: Seq<RubikLayerTransform>,
    measure: Measure,
    start: Seq<Cube>,
    q: Seq<RubikLayerTransform>,
) -> (r: Seq<RubikLayerTransform>)
    requires
        arrives(ops, measure, start, q),
    ensures
        arrives(ops, measure, start, r),
        simple(start, r),
        r.len() <= q.len(),
    decreases q.len(),
{
    if simple(start, q) {
        q
    } else {
        let j = choose|j: int| 0 < j <= q.len() && comes_back(start, #[trigger] q.take(j));
        let w = q.take(j);
        let i = choose|i: int|
            0 <= i < w.len() && apply_moves(#[trigger] w.take(i), start) == apply_moves(w, start);
        assert(w.take(i) =~= q.take(i));
        lemma_cut(ops, start, q, i, j);
        lemma_simple(ops, measure, start, q.take(i) + q.skip(j))
    }
}

/// A search by iterative deepening. The search goes down from the start as
/// long as depth and measure together stay within a bound; the bound starts
/// at the measure of the start and grows by one whenever the search comes
/// back empty-handed, up to a largest depth. The digests of the states that
/// were seen under a bound are kept: a state with a new digest is new, and
/// one whose digest was seen is held against the states on its own way and
/// left out where it is one of them.
pub struct IdaStarSolver {
    measure: Measure,
    ops: Vec<RubikLayerTransform>,
    max_depth: usize,
}

impl IdaStarSolver {
    /// The moves that the search makes.
    pub closed spec fn ops(&self) -> Seq<RubikLayerTransform> {
        self.ops@
    }

    /// The measure that the search brings to zero.
    pub closed spec fn measure(&self) -> Measure {
        self.measure
    }

    /// The bound that the search does not go beyond.
    pub closed spec fn max_depth(&self) -> int {
        self.max_depth as int
    }

    /// The search with the moves `ops` for a state in which `measure` is
    /// zero, by fewer than `max_depth` moves.
    pub fn with(measure: Measure, ops: Vec<RubikLayerTransform>, max_depth: usize) -> (r: Self)
        ensures
            r.ops() == ops@,
            r.measure() == measure,
            r.max_depth() == max_depth,
    {
        Self { measure, ops, max_depth }
    }

    /// The moves of the first search.
    pub fn g0_moves() -> (ops: Vec<RubikLayerTransform>)
        ensures
            ops@ == g0_ops(),
    {
        let mut ops: Vec<RubikLayerTransform> = Vec::new();
        ops.push(RubikLayerTransform::r());
        ops.push(RubikLayerTransform::f());
        ops.push(RubikLayerTransform::b());
        ops.push(RubikLayerTransform::d());
        ops.push(RubikLayerTransform::u());
        ops.push(RubikLayerTransform::l());
        ops.push(RubikLayerTransform::ri());
        ops.push(RubikLayerTransform::fi());
        ops.push(RubikLayerTransform::bi());
        ops.push(RubikLayerTransform::di());
        ops.push(RubikLayerTransform::ui());
        ops.push(RubikLayerTransform::li());
        assert(ops@ =~= g0_ops());
        ops
    }

    /// The moves of the second search.
    pub fn g1_moves() -> (ops: Vec<RubikLayerTransform>)
        ensures
            ops@ == g1_ops(),
    {
        let mut ops: Vec<RubikLayerTransform> = Vec::new();
        ops.push(RubikLayerTransform::r2());
        ops.push(RubikLayerTransform::f2());
        ops.push(RubikLayerTransform::b2());
        ops.push(RubikLayerTransform::l2());
        ops.push(RubikLayerTransform::d());
        ops.push(RubikLayerTransform::u());
        ops.push(RubikLayerTransform::di());
        ops.push(RubikLayerTransform::ui());
        assert(ops@ =~= g1_ops());
        ops
    }

    /// The first search: with the quarter turns of the outer layers, down to
    /// depth 40 at most.
    pub fn g0() -> (r: Self)
        ensures
            r.ops() == g0_ops(),
            r.measure() == Measure::G0,
            r.max_depth() == 40,
    {
        Self::with(Measure::G0, Self::g0_moves(), 40)
    }

    /// The second search: with half turns of right, front, back and left and
    /// quarter turns of bottom and top, down to depth 40 at most.
    pub fn g1() -> (r: Self)
        ensures
            r.ops() == g1_ops(),
            r.measure() == Measure::G1,
            r.max_depth() == 40,
    {
        Self::with(Measure::G1, Self::g1_moves(), 40)
    }

    /// The moves of the search, in a list of their own.
    fn moves(&self) -> (r: Vec<RubikLayerTransform>)
        ensures
            r@ == self.ops(),
    {
        let mut out: Vec<RubikLayerTransform> = Vec::new();
        let mut i: usize = 0;
        while i < self.ops.len()
            invariant
                i <= self.ops@.len(),
                out@ == self.ops@.take(i as int),
            decreases self.ops@.len() - i,
        {
            out.push(self.ops[i]);
            assert(out@ =~= self.ops@.take(i + 1));
            i += 1;
        }
        assert(out@ =~= self.ops@);
        out
    }
}

/// No cubie among the first `n` is tilted exactly where each of them shows
/// top or bottom at its top.
pub proof fn lemma_none_tilted(cubes: Seq<Cube>, n: nat)
    ensures
        count_tilted(cubes, n) == 0 <==> forall|i: int|
            0 <= i < n ==> shows_up_or_down(#[trigger] cubes[i]),
    decreases n,
{
    if n > 0 {
        lemma_none_tilted(cubes, (n - 1) as nat);
        if count_tilted(cubes, n) == 0 {
            assert forall|i: int| 0 <= i < n implies shows_up_or_down(#[trigger] cubes[i]) by {
                if i < n - 1 {
                    assert(count_tilted(cubes, (n - 1) as nat) == 0);
                }
            }
        }
    }
}

/// The first measure is zero exactly in the states that the second stage of
/// the solver in stages searches for.
pub proof fn lemma_measure_zero_is_goal(s: Seq<Cube>)
    ensures
        Measure::G0.distance(s) == 0 <==> Goal::ActiveUpOrDown.holds(s),
{
    let cubes = pick(s, active_places());
    lemma_active_places();
    assert(cubes.len() == 21);
    lemma_none_tilted(cubes, 21);
}

/// The first search and the second stage of the solver in stages make the
/// same moves.
pub proof fn lemma_same_moves(p: Seq<RubikLayerTransform>)
    ensures
        moves_from(g0_ops(), p) <==> moves_from(g0_gens(), p),
{
    let a = g0_ops();
    let b = g0_gens();
    assert(a[0] == b[4] && a[1] == b[0] && a[2] == b[1] && a[3] == b[2] && a[4] == b[3] && a[5]
        == b[5]);
    assert(a[6] == b[10] && a[7] == b[6] && a[8] == b[7] && a[9] == b[8] && a[10] == b[9]
        && a[11] == b[11]);
    assert forall|m: RubikLayerTransform| a.contains(m) <==> b.contains(m) by {
        if a.contains(m) {
            let i = a.index_of(m);
            let j: int = if i == 0 {
                4
            } else if i == 5 {
                5
            } else if i == 6 {
                10
            } else if i == 11 {
                11
            } else {
                i - 1
            };
            assert(b[j] == m);
        }
        if b.contains(m) {
            let j = b.index_of(m);
            let i: int = if j == 4 {
                0
            } else if j == 5 {
                5
            } else if j == 10 {
                6
            } else if j == 11 {
                11
            } else {
                j + 1
            };
            assert(a[i] == m);
        }
    }
    if moves_from(a, p) {
        assert forall|i: int| 0 <= i < p.len() implies b.contains(#[trigger] p[i]) by {
            assert(a.contains(p[i]));
        }
    }
    if moves_from(b, p) {
        assert forall|i: int| 0 <= i < p.len() implies a.contains(#[trigger] p[i]) by {
            assert(b.contains(p[i]));
        }
    }
}

/// The first search is as short as the breadth-first search: an answer of
/// the one and a shortest way of the second stage of the solver in stages
/// have the same number of moves.
pub proof fn lemma_as_short_as_breadth_first(
    start: Seq<Cube>,
    deepening: Seq<RubikLayerTransform>,
    breadth_first: Seq<RubikLayerTransform>,
)
    requires
        arrives(g0_ops(), Measure::G0, start, deepening),
        none_shorter(g0_ops(), Measure::G0, start, deepening.len() as int),
        shortest(g0_gens(), Goal::ActiveUpOrDown, start, breadth_first),
    ensures
        deepening.len() == breadth_first.len(),
{
    lemma_same_moves(deepening);
    lemma_same_moves(breadth_first);
    lemma_measure_zero_is_goal(apply_moves(deepening, start));
    lemma_measure_zero_is_goal(apply_moves(breadth_first, start));
    assert(arrives(g0_ops(), Measure::G0, start, breadth_first));
    assert(finds(g0_gens(), Goal::ActiveUpOrDown, start, deepening));
}

/// A quarter turn of a layer, given by its parts, is well formed, and its
/// inverse is the quarter turn the other way.
proof fn lemma_quarter_turn(table: Seq<u8>, bits: u8, back: u8)
    requires
        is_layer_table(table),
        valid_bits(bits),
        valid_bits(back),
        inverse_bits(bits) == back,
        inverse_bits(back) == bits,
    ensures
        RubikLayerTransform::spec_turn(table, bits, PtrRotate::Rotate1).wf(),
        RubikLayerTransform::spec_turn(table, back, PtrRotate::Rotate3).wf(),
        RubikLayerTransform::spec_turn(table, bits, PtrRotate::Rotate1).spec_inverse()
            == RubikLayerTransform::spec_turn(table, back, PtrRotate::Rotate3),
        RubikLayerTransform::spec_turn(table, back, PtrRotate::Rotate3).spec_inverse()
            == RubikLayerTransform::spec_turn(table, bits, PtrRotate::Rotate1),
{
    lemma_turn_inverse(table, bits, PtrRotate::Rotate1);
    lemma_turn_inverse(table, back, PtrRotate::Rotate3);
}

/// The bytes of the quarter turns are valid, and inverse to each other in
/// pairs.
proof fn lemma_quarter_bytes()
    ensures
        valid_bits(X_1_BITS) && valid_bits(X_3_BITS) && inverse_bits(X_1_BITS) == X_3_BITS
            && inverse_bits(X_3_BITS) == X_1_BITS,
        valid_bits(Y_1_BITS) && valid_bits(Y_3_BITS) && inverse_bits(Y_1_BITS) == Y_3_BITS
            && inverse_bits(Y_3_BITS) == Y_1_BITS,
        valid_bits(Z_1_BITS) && valid_bits(Z_3_BITS) && inverse_bits(Z_1_BITS) == Z_3_BITS
            && inverse_bits(Z_3_BITS) == Z_1_BITS,
{
    lemma_named_products();
    lemma_inverse_bits(X_1_BITS);
    lemma_inverse_bits(Y_1_BITS);
    lemma_inverse_bits(Z_1_BITS);
}

/// The moves of the first search are well formed, and each of them has its
/// inverse among them.
pub proof fn lemma_g0_ops_closed(m: RubikLayerTransform)
    requires
        g0_ops().contains(m),
    ensures
        m.wf(),
        g0_ops().contains(m.spec_inverse()),
{
    let a = g0_ops();
    let i = a.index_of(m);
    lemma_quarter_bytes();
    if i == 0 || i == 6 {
        lemma_quarter_turn(r_table(), Y_1_BITS, Y_3_BITS);
        assert(a[0] == a[6].spec_inverse() && a[6] == a[0].spec_inverse());
    } else if i == 1 || i == 7 {
        lemma_quarter_turn(f_table(), X_1_BITS, X_3_BITS);
        assert(a[1] == a[7].spec_inverse() && a[7] == a[1].spec_inverse());
    } else if i == 2 || i == 8 {
        lemma_quarter_turn(b_table(), X_3_BITS, X_1_BITS);
        assert(a[2] == a[8].spec_inverse() && a[8] == a[2].spec_inverse());
    } else if i == 3 || i == 9 {
        lemma_quarter_turn(d_table(), Z_3_BITS, Z_1_BITS);
        assert(a[3] == a[9].spec_inverse() && a[9] == a[3].spec_inverse());
    } else if i == 4 || i == 10 {
        lemma_quarter_turn(u_table(), Z_1_BITS, Z_3_BITS);
        assert(a[4] == a[10].spec_inverse() && a[10] == a[4].spec_inverse());
    } else {
        lemma_quarter_turn(l_table(), Y_3_BITS, Y_1_BITS);
        assert(a[5] == a[11].spec_inverse() && a[11] == a[5].spec_inverse());
    }
}

/// Moves of the first search are well formed, and the moves that undo them
/// are moves of the first search.
pub proof fn lemma_g0_way_back(p: Seq<RubikLayerTransform>)
    requires
        moves_from(g0_ops(), p),
    ensures
        moves_wf(p),
        moves_from(g0_ops(), inverse_moves(p)),
{
    let back = inverse_moves(p);
    assert forall|i: int| 0 <= i < p.len() implies (#[trigger] p[i]).wf() by {
        lemma_g0_ops_closed(p[i]);
    }
    assert forall|i: int| 0 <= i < back.len() implies g0_ops().contains(#[trigger] back[i]) by {
        lemma_g0_ops_closed(p[p.len() - 1 - i]);
    }
}

/// There are 21 places of edges, corners and core, all of them places of the
/// puzzle.
proof fn lemma_active_in_range()
    ensures
        active_places().len() == 21,
        forall|i: int| 0 <= i < 21 ==> #[trigger] active_places()[i] < 27,
{
    lemma_active_places();
}

/// An unrotated cubie shows the top at its top.
proof fn lemma_home_shows_up()
    ensures
        shows_up_or_down(Cube::spec_new()),
{
    lemma_named_products();
    lemma_shown_faces(Cube::spec_new());
}

/// The first measure of the solved puzzle is zero.
pub proof fn lemma_solved_measure()
    ensures
        Measure::G0.distance(initial_state()) == 0,
{
    let cubes = pick(initial_state(), active_places());
    lemma_active_in_range();
    lemma_home_shows_up();
    assert forall|i: int| 0 <= i < 21 implies shows_up_or_down(#[trigger] cubes[i]) by {
        assert(active_places()[i] < 27);
        assert(cubes[i] == Cube::spec_new());
    }
    lemma_none_tilted(cubes, 21);
}

/// After a scramble the first search is bound to find an answer: from a
/// state that fewer than 40 of its moves made of the solved puzzle, fewer
/// than 40 of its moves lead to a state of measure zero.
pub proof fn lemma_owed_after_scramble(solver: IdaStarSolver, p: Seq<RubikLayerTransform>)
    requires
        solver.ops() == g0_ops(),
        solver.measure() == Measure::G0,
        solver.max_depth() == 40,
        moves_from(g0_ops(), p),
        p.len() < 40,
    ensures
        solver.owes(apply_moves(p, initial_state())),
{
    let home = initial_state();
    let back = inverse_moves(p);
    lemma_g0_way_back(p);
    lemma_moves_undo(p, home);
    lemma_solved_measure();
    assert(arrives(g0_ops(), Measure::G0, apply_moves(p, home), back));
}

impl IdaStarSolver {
    /// Searches depth first from `node`, which was reached by `depth` moves,
    /// for a state of measure zero within `limit` moves from the root.
    fn descend(
        &self,
        node: RubikSolveState,
        depth: usize,
        limit: usize,
        reached: &mut HashSet<u64>,
    ) -> (r: Option<RubikSolveState>)
        requires
            node.op_set() == self.ops(),
            node.path().len() == depth,
            depth <= limit,
            moves_from(self.ops(), node.path()),
        ensures
            match r {
                Some(found) => {
                    &&& found.root() == node.root()
                    &&& found.path().len() <= limit
                    &&& arrives(self.ops(), self.measure(), node.root()@, found.path())
                },
                None => dead_end(
                    self.ops(),
                    self.measure(),
                    node.root()@,
                    node.path(),
                    limit as int,
                ),
            },
        decreases limit - depth,
    {
        broadcast use Rubik::lemma_view_len;

        let ghost ops = self.ops();
        let ghost home = node.root();
        let ghost start = node.root()@;
        let ghost way = node.path();
        let ghost here = node.spec_rubik()@;
        proof {
            use_type_invariant(&node);
        }
        let dist: usize = self.measure.dist(node.rubik());
        if dist == 0 {
            return Some(node);
        }
        if dist > limit - depth {
            proof {
                assert forall|q: Seq<RubikLayerTransform>| !#[trigger] continues(
                    ops,
                    self.measure(),
                    start,
                    way,
                    q,
                    limit as int,
                ) by {
                    if continues(ops, self.measure(), start, way, q, limit as int) {
                        lemma_apply_moves_concat(way, q, start);
                        assert forall|i: int| 0 <= i < q.len() implies (#[trigger] q[i]).wf() by {
                            assert(ops.contains(q[i]));
                        }
                        lemma_admissible(self.measure(), here, q);
                    }
                }
            }
            return None;
        }
        let children: Vec<RubikSolveState> = node.neighbors();
        let ghost kids_all = children@;
        let mut kids: Vec<RubikSolveState> = reversed(children);
        let ghost mut seen: int = 0;
        while kids.len() > 0
            invariant
                ops == self.ops(),
                start == home@,
                home == node.root(),
                depth < limit,
                way.len() == depth,
                moves_from(ops, way),
                kids_all.len() == ops.len(),
                forall|i: int|
                    0 <= i < kids_all.len() ==> {
                        &&& (#[trigger] kids_all[i]).root() == home
                        &&& kids_all[i].path() == way.push(ops[i])
                        &&& kids_all[i].op_set() == ops
                    },
                0 <= seen <= kids_all.len(),
                kids@.len() + seen == kids_all.len(),
                forall|k: int|
                    0 <= k < kids@.len() ==> #[trigger] kids@[k] == kids_all[kids_all.len() - 1 - k],
                forall|j: int|
                    0 <= j < seen ==> comes_back(start, way.push(ops[j])) || dead_end(
                        ops,
                        self.measure(),
                        start,
                        #[trigger] way.push(ops[j]),
                        limit as int,
                    ),
            decreases kids@.len(),
        {
            let child: RubikSolveState = kids.pop().unwrap();
            assert(child == kids_all[seen]);
            proof {
                let path = way.push(ops[seen]);
                assert forall|i: int| 0 <= i < path.len() implies ops.contains(
                    #[trigger] path[i],
                ) by {
                    if i < way.len() {
                        assert(path[i] == way[i]);
                    }
                }
            }
            let digest: u64 = self.measure.digest_of(child.rubik());
            if !(reached.contains(&digest) && child.revisits()) {
                reached.insert(digest);
                match self.descend(child, depth + 1, limit, reached) {
                    Some(found) => {
                        return Some(found);
                    },
                    None => {},
                }
            }
            proof {
                seen = seen + 1;
            }
        }
        proof {
            assert forall|q: Seq<RubikLayerTransform>| !#[trigger] continues(
                ops,
                self.measure(),
                start,
                way,
                q,
                limit as int,
            ) by {
                if continues(ops, self.measure(), start, way, q, limit as int) {
                    if q.len() == 0 {
                        assert(way + q =~= way);
                    } else {
                        assert(ops.contains(q[0]));
                        let j = ops.index_of(q[0]);
                        let next = way.push(ops[j]);
                        let rest = q.drop_first();
                        assert(next + rest =~= way + q);
                        assert((way + q).take(way.len() as int + 1) =~= next);
                        assert(!comes_back(start, next));
                        assert forall|i: int| 0 <= i < rest.len() implies ops.contains(
                            #[trigger] rest[i],
                        ) by {
                            assert(rest[i] == q[i + 1]);
                        }
                        assert(continues(ops, self.measure(), start, next, rest, limit as int));
                    }
                }
            }
        }
        None
    }
}

impl RubikSolver for IdaStarSolver {
    /// The moves are among the moves of the search, fewer than the largest
    /// depth, and lead to a state of measure zero; no fewer moves of the
    /// search do.
    open spec fn answers(&self, start: Seq<Cube>, moves: Seq<RubikLayerTransform>) -> bool {
        &&& arrives(self.ops(), self.measure(), start, moves)
        &&& moves.len() < self.max_depth()
        &&& none_shorter(self.ops(), self.measure(), start, moves.len() as int)
    }

    /// The search finds a state of measure zero wherever moves of its set,
    /// fewer than the largest depth, lead to one.
    open spec fn owes(&self, start: Seq<Cube>) -> bool {
        exists|q: Seq<RubikLayerTransform>| #[trigger]
            arrives(self.ops(), self.measure(), start, q) && q.len() < self.max_depth()
    }

    /// The search gives up only where no moves of its set, fewer than the
    /// largest depth, lead to a state of measure zero.
    fn solve(&self, rubik: Rubik) -> (r: Option<RubikSolveState>)
        ensures
            r.is_none() ==> !self.owes(rubik@),
    {
        broadcast use Rubik::lemma_view_len;

        let ghost ops = self.ops();
        let ghost start = rubik@;
        let mut target_limit: usize = self.measure.dist(&rubik);
        let mut reached_set: HashSet<u64> = HashSet::new();
        let root: RubikSolveState = RubikSolveState::new(rubik, self.moves());
        proof {
            assert forall|q: Seq<RubikLayerTransform>| #[trigger]
                arrives(ops, self.measure(), start, q) implies q.len() >= target_limit by {
                assert forall|i: int| 0 <= i < q.len() implies (#[trigger] q[i]).wf() by {
                    assert(ops.contains(q[i]));
                }
                lemma_admissible(self.measure(), start, q);
            }
        }
        while target_limit < self.max_depth
            invariant
                ops == self.ops(),
                start == rubik@,
                moves_wf(ops),
                root.root() == rubik,
                root.op_set() == ops,
                root.path() == Seq::<RubikLayerTransform>::empty(),
                none_shorter(ops, self.measure(), start, target_limit as int),
            decreases self.max_depth - target_limit,
        {
            reached_set.clear();
            reached_set.insert(self.measure.digest_of(&rubik));
            match self.descend(root.clone(), 0, target_limit, &mut reached_set) {
                Some(found) => {
                    return Some(found);
                },
                None => {
                    proof {
                        let none = Seq::<RubikLayerTransform>::empty();
                        assert forall|q: Seq<RubikLayerTransform>| #[trigger]
                            arrives(ops, self.measure(), start, q) implies q.len() >= target_limit
                            + 1 by {
                            if q.len() <= target_limit {
                                let p = lemma_simple(ops, self.measure(), start, q);
                                assert(none + p =~= p);
                                assert(continues(
                                    ops,
                                    self.measure(),
                                    start,
                                    none,
                                    p,
                                    target_limit as int,
                                ));
                            }
                        }
                    }
                },
            }
            target_limit += 1;
        }
        None
    }
}

} // verus!
