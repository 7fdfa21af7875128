//! Solving in stages: each stage searches breadth first, with the moves of
//! one subgroup, for a state of the next smaller subgroup.
use crate::cube::{Cube, CubeFace};
use crate::permutation::CubePermutation;
use crate::solver::{moves_from, reversed, RubikSolveState, RubikSolver};
use crate::state::{
    active_places, lemma_state_key_injective, pick, solved, state_key, state_wf, Rubik,
};
use crate::transform::layer::RubikLayerTransform;
use crate::transform::{apply_moves, lemma_apply_moves_concat, lemma_apply_moves_wf, moves_wf};
use std::collections::HashSet;
use vstd::prelude::*;

verus! {

broadcast use vstd::std_specs::hash::group_hash_axioms;

/// The cubie shows the top or the bottom face at its top.
pub open spec fn shows_up_or_down(c: Cube) -> bool {
    c.spec_get(CubeFace::U) == CubeFace::U || c.spec_get(CubeFace::U) == CubeFace::D
}

/// The cubie shows the left or the right face at its left.
pub open spec fn shows_left_or_right(c: Cube) -> bool {
    c.spec_get(CubeFace::L) == CubeFace::L || c.spec_get(CubeFace::L) == CubeFace::R
}

/// The cubie shows the front or the back face at its front.
pub open spec fn shows_front_or_back(c: Cube) -> bool {
    c.spec_get(CubeFace::F) == CubeFace::F || c.spec_get(CubeFace::F) == CubeFace::B
}

/// At each of its three axes the cubie shows one of the two faces of that
/// axis.
pub open spec fn shows_own_axes(c: Cube) -> bool {
    shows_left_or_right(c) && shows_front_or_back(c) && shows_up_or_down(c)
}

/// The core has not been rotated.
pub open spec fn core_fixed(s: Seq<Cube>) -> bool {
    s[13].rotation == CubePermutation::spec_unit()
}

/// Every one of the cubies `cubes` shows top or bottom at its top.
pub open spec fn all_up_or_down(cubes: Seq<Cube>) -> bool {
    forall|i: int| 0 <= i < cubes.len() ==> shows_up_or_down(#[trigger] cubes[i])
}

/// Every one of the cubies `cubes` shows left or right at its left.
pub open spec fn all_left_or_right(cubes: Seq<Cube>) -> bool {
    forall|i: int| 0 <= i < cubes.len() ==> shows_left_or_right(#[trigger] cubes[i])
}

/// Whether the cubie shows, at each of its three axes, one of the two faces
/// of that axis.
pub fn all_aligned(cube: &Cube) -> (r: bool)
    ensures
        r == shows_own_axes(*cube),
{
    let l: CubeFace = cube.get(CubeFace::L);
    let f: CubeFace = cube.get(CubeFace::F);
    let u: CubeFace = cube.get(CubeFace::U);
    (l == CubeFace::L || l == CubeFace::R) && (f == CubeFace::F || f == CubeFace::B) && (u
        == CubeFace::U || u == CubeFace::D)
}

/// Whether every one of the cubies `cubes` shows top or bottom at its top.
fn every_up_or_down(cubes: &Vec<Cube>) -> (r: bool)
    ensures
        r == all_up_or_down(cubes@),
{
    let mut i: usize = 0;
    while i < cubes.len()
        invariant
            i <= cubes@.len(),
            forall|k: int| 0 <= k < i ==> shows_up_or_down(#[trigger] cubes@[k]),
        decreases cubes@.len() - i,
    {
        let u: CubeFace = cubes[i].get(CubeFace::U);
        if !(u == CubeFace::U || u == CubeFace::D) {
            return false;
        }
        i += 1;
    }
    true
}

/// The goal of the first stage: the core has not been rotated.
pub fn checker_c(rubik: &Rubik) -> (r: bool)
    ensures
        r == core_fixed(rubik@),
{
    rubik.core_cube().rotation == CubePermutation::unit()
}

/// The goal of the second stage: every edge, every corner and the core show
/// top or bottom at their top.
pub fn checker_g0(rubik: &Rubik) -> (r: bool)
    ensures
        r == all_up_or_down(pick(rubik@, active_places())),
{
    let cubes: Vec<Cube> = rubik.active_cubes();
    every_up_or_down(&cubes)
}

/// The goal of the third stage: every cubie shows top or bottom at its top.
pub fn checker_g1(rubik: &Rubik) -> (r: bool)
    ensures
        r == all_up_or_down(rubik@),
{
    broadcast use Rubik::lemma_view_len;

    let mut i: usize = 0;
    while i < 27
        invariant
            i <= 27,
            rubik@.len() == 27,
            forall|k: int| 0 <= k < i ==> shows_up_or_down(#[trigger] rubik@[k]),
        decreases 27 - i,
    {
        let u: CubeFace = rubik.cube_at(i).get(CubeFace::U);
        if !(u == CubeFace::U || u == CubeFace::D) {
            return false;
        }
        i += 1;
    }
    true
}

/// The goal of the fourth stage: every cubie shows left or right at its
/// left.
pub fn checker_g2(rubik: &Rubik) -> (r: bool)
    ensures
        r == all_left_or_right(rubik@),
{
    broadcast use Rubik::lemma_view_len;

    let mut i: usize = 0;
    while i < 27
        invariant
            i <= 27,
            rubik@.len() == 27,
            forall|k: int| 0 <= k < i ==> shows_left_or_right(#[trigger] rubik@[k]),
        decreases 27 - i,
    {
        let f: CubeFace = rubik.cube_at(i).get(CubeFace::L);
        if !(f == CubeFace::L || f == CubeFace::R) {
            return false;
        }
        i += 1;
    }
    true
}

/// What a stage searches for.
#[derive(Debug, Clone, Copy, PartialEq, Eq, Structural)]
pub enum Goal {
    /// The core has not been rotated.
    CoreFixed,
    /// Edges, corners and core show top or bottom at their top.
    ActiveUpOrDown,
    /// Every cubie shows top or bottom at its top.
    AllUpOrDown,
    /// Every cubie shows left or right at its left.
    AllLeftOrRight,
    /// The puzzle is solved.
    Solved,
}

impl Goal {
    /// Whether the state `s` is what the stage searches for.
    pub open spec fn holds(self, s: Seq<Cube>) -> bool {
        match self {
            Goal::CoreFixed => core_fixed(s),
            Goal::ActiveUpOrDown => all_up_or_down(pick(s, active_places())),
            Goal::AllUpOrDown => all_up_or_down(s),
            Goal::AllLeftOrRight => all_left_or_right(s),
            Goal::Solved => solved(s),
        }
    }

    /// Whether the state of `rubik` is what the stage searches for.
    pub fn check(&self, rubik: &Rubik) -> (r: bool)
        ensures
            r == self.holds(rubik@),
    {
        match self {
            Goal::CoreFixed => checker_c(rubik),
            Goal::ActiveUpOrDown => checker_g0(rubik),
            Goal::AllUpOrDown => checker_g1(rubik),
            Goal::AllLeftOrRight => checker_g2(rubik),
            Goal::Solved => rubik.is_solved(),
        }
    }
}

/// The moves `p`, all of them among `gens`, lead from `start` to `target`.
pub open spec fn is_route(
    gens: Seq<RubikLayerTransform>,
    start: Seq<Cube>,
    target: Seq<Cube>,
    p: Seq<RubikLayerTransform>,
) -> bool {
    moves_from(gens, p) && apply_moves(p, start) == target
}

/// At most `d` moves of `gens` lead from `start` to `target`.
pub open spec fn near(
    gens: Seq<RubikLayerTransform>,
    start: Seq<Cube>,
    target: Seq<Cube>,
    d: int,
) -> bool {
    exists|p: Seq<RubikLayerTransform>| #[trigger] is_route(gens, start, target, p) && p.len() <= d
}

/// The moves `p`, all of them among `gens`, lead from `start` to a state in
/// which `goal` holds.
pub open spec fn finds(
    gens: Seq<RubikLayerTransform>,
    goal: Goal,
    start: Seq<Cube>,
    p: Seq<RubikLayerTransform>,
) -> bool {
    moves_from(gens, p) && goal.holds(apply_moves(p, start))
}

/// Some moves of `gens` lead from `start` to a state in which `goal` holds.
pub open spec fn solvable(gens: Seq<RubikLayerTransform>, goal: Goal, start: Seq<Cube>) -> bool {
    exists|p: Seq<RubikLayerTransform>| #[trigger] finds(gens, goal, start, p)
}

/// The moves `p` lead to the goal, and no fewer moves do.
pub open spec fn shortest(
    gens: Seq<RubikLayerTransform>,
    goal: Goal,
    start: Seq<Cube>,
    p: Seq<RubikLayerTransform>,
) -> bool {
    &&& finds(gens, goal, start, p)
    &&& forall|q: Seq<RubikLayerTransform>| #[trigger]
        finds(gens, goal, start, q) ==> p.len() <= q.len()
}

/// What the search has seen: the keys in `reached` are those of the states
/// within `d` moves and of the states of `next`.
pub open spec fn covered(
    gens: Seq<RubikLayerTransform>,
    start: Seq<Cube>,
    d: int,
    next: Seq<Seq<Cube>>,
    reached: Set<u128>,
) -> bool {
    forall|s: Seq<Cube>|
        state_wf(s) ==> (reached.contains(#[trigger] state_key(s)) <==> (near(gens, start, s, d)
            || next.contains(s)))
}

/// What holds of the level `frontier` at depth `d`: its states are within
/// `d` moves, every state that needs exactly `d` moves is among them, and
/// `goal` holds in no state within fewer moves.
pub open spec fn frontier_facts(
    gens: Seq<RubikLayerTransform>,
    goal: Goal,
    start: Seq<Cube>,
    d: int,
    frontier: Seq<Seq<Cube>>,
) -> bool {
    &&& forall|i: int|
        0 <= i < frontier.len() ==> state_wf(#[trigger] frontier[i]) && near(
            gens,
            start,
            frontier[i],
            d,
        )
    &&& forall|s: Seq<Cube>| #[trigger]
        near(gens, start, s, d) && !near(gens, start, s, d - 1) ==> frontier.contains(s)
    &&& forall|s: Seq<Cube>| #[trigger] near(gens, start, s, d - 1) ==> !goal.holds(s)
}

/// The first `done` states of `frontier` have all their neighbours in
/// `reached`.
pub open spec fn expanded(
    gens: Seq<RubikLayerTransform>,
    frontier: Seq<Seq<Cube>>,
    done: int,
    reached: Set<u128>,
) -> bool {
    forall|k: int, j: int|
        0 <= k < done && 0 <= j < gens.len() ==> reached.contains(
            state_key(#[trigger] gens[j].spec_apply(frontier[k])),
        )
}

/// `goal` holds in none of the first `done` states of `frontier`.
pub open spec fn no_goal(goal: Goal, frontier: Seq<Seq<Cube>>, done: int) -> bool {
    forall|k: int| 0 <= k < done ==> !goal.holds(#[trigger] frontier[k])
}

/// The states of `next` are well formed and within `d + 1` moves.
pub open spec fn fresh(
    gens: Seq<RubikLayerTransform>,
    start: Seq<Cube>,
    d: int,
    next: Seq<Seq<Cube>>,
) -> bool {
    forall|i: int|
        0 <= i < next.len() ==> state_wf(#[trigger] next[i]) && near(gens, start, next[i], d + 1)
}

/// A route can be made longer by one move of `gens`.
pub proof fn lemma_route_step(
    gens: Seq<RubikLayerTransform>,
    start: Seq<Cube>,
    target: Seq<Cube>,
    p: Seq<RubikLayerTransform>,
    j: int,
)
    requires
        is_route(gens, start, target, p),
        0 <= j < gens.len(),
    ensures
        is_route(gens, start, gens[j].spec_apply(target), p.push(gens[j])),
{
    let q = p.push(gens[j]);
    assert(q.drop_last() =~= p);
    assert forall|i: int| 0 <= i < q.len() implies gens.contains(#[trigger] q[i]) by {
        if i < p.len() {
            assert(q[i] == p[i]);
        }
    }
}

/// A route that is not empty is a route followed by one move of `gens`.
pub proof fn lemma_route_last(
    gens: Seq<RubikLayerTransform>,
    start: Seq<Cube>,
    target: Seq<Cube>,
    p: Seq<RubikLayerTransform>,
) -> (j: int)
    requires
        is_route(gens, start, target, p),
        p.len() > 0,
    ensures
        0 <= j < gens.len(),
        gens[j] == p.last(),
        is_route(gens, start, apply_moves(p.drop_last(), start), p.drop_last()),
        target == gens[j].spec_apply(apply_moves(p.drop_last(), start)),
{
    let q = p.drop_last();
    assert forall|i: int| 0 <= i < q.len() implies gens.contains(#[trigger] q[i]) by {
        assert(q[i] == p[i]);
    }
    assert(gens.contains(p[p.len() - 1]));
    gens.index_of(p.last())
}

/// States on a route from a well-formed state are well formed.
pub proof fn lemma_route_wf(
    gens: Seq<RubikLayerTransform>,
    start: Seq<Cube>,
    target: Seq<Cube>,
    p: Seq<RubikLayerTransform>,
)
    requires
        moves_wf(gens),
        state_wf(start),
        is_route(gens, start, target, p),
    ensures
        state_wf(target),
        moves_wf(p),
{
    assert forall|i: int| 0 <= i < p.len() implies (#[trigger] p[i]).wf() by {
        assert(gens.contains(p[i]));
    }
    lemma_apply_moves_wf(p, start);
}

/// One more state has been seen: it joins `next`, and its key joins
/// `reached`.
pub proof fn lemma_cover_child(
    gens: Seq<RubikLayerTransform>,
    start: Seq<Cube>,
    d: int,
    next: Seq<Seq<Cube>>,
    reached: Set<u128>,
    child: Seq<Cube>,
)
    requires
        covered(gens, start, d, next, reached),
        state_wf(child),
    ensures
        covered(gens, start, d, next.push(child), reached.insert(state_key(child))),
{
    let next2 = next.push(child);
    let reached2 = reached.insert(state_key(child));
    assert forall|s: Seq<Cube>| state_wf(s) implies (reached2.contains(#[trigger] state_key(s))
        <==> (near(gens, start, s, d) || next2.contains(s))) by {
        if next.contains(s) {
            let i = next.index_of(s);
            assert(next2[i] == s);
        }
        if next2.contains(s) && !next.contains(s) {
            let i = next2.index_of(s);
            assert(i == next.len());
        }
        if state_key(s) == state_key(child) {
            lemma_state_key_injective(s, child);
            assert(next2[next.len() as int] == child);
        }
    }
}

/// The end of a level: when all states of the level at depth `d` have been
/// expanded and none was a goal, the states gathered in `next` are the level
/// at depth `d + 1`.
pub proof fn lemma_next_level(
    gens: Seq<RubikLayerTransform>,
    goal: Goal,
    start: Seq<Cube>,
    d: int,
    frontier: Seq<Seq<Cube>>,
    next: Seq<Seq<Cube>>,
    reached: Set<u128>,
)
    requires
        moves_wf(gens),
        state_wf(start),
        d >= 0,
        frontier_facts(gens, goal, start, d, frontier),
        covered(gens, start, d, next, reached),
        expanded(gens, frontier, frontier.len() as int, reached),
        no_goal(goal, frontier, frontier.len() as int),
        fresh(gens, start, d, next),
    ensures
        covered(gens, start, d + 1, Seq::empty(), reached),
        frontier_facts(gens, goal, start, d + 1, next),
{
    let none = Seq::<Seq<Cube>>::empty();
    // a well-formed state within d + 1 moves has its key in `reached`
    assert forall|s: Seq<Cube>| state_wf(s) && near(gens, start, s, d + 1) implies reached.contains(
        state_key(s),
    ) by {
        if !near(gens, start, s, d) {
            let p = choose|p: Seq<RubikLayerTransform>| #[trigger]
                is_route(gens, start, s, p) && p.len() <= d + 1;
            assert(p.len() == d + 1);
            let j = lemma_route_last(gens, start, s, p);
            let q = p.drop_last();
            let before = apply_moves(q, start);
            assert(is_route(gens, start, before, q) && q.len() <= d);
            assert(near(gens, start, before, d));
            if near(gens, start, before, d - 1) {
                let r = choose|r: Seq<RubikLayerTransform>| #[trigger]
                    is_route(gens, start, before, r) && r.len() <= d - 1;
                lemma_route_step(gens, start, before, r, j);
                assert(is_route(gens, start, s, r.push(gens[j])));
                assert(false);
            }
            assert(frontier.contains(before));
            let k = frontier.index_of(before);
            assert(reached.contains(state_key(gens[j].spec_apply(frontier[k]))));
        }
    }
    assert forall|s: Seq<Cube>| state_wf(s) implies (reached.contains(#[trigger] state_key(s))
        <==> (near(gens, start, s, d + 1) || none.contains(s))) by {
        if reached.contains(state_key(s)) {
            if next.contains(s) {
                let i = next.index_of(s);
                assert(near(gens, start, next[i], d + 1));
            } else {
                let p = choose|p: Seq<RubikLayerTransform>| #[trigger]
                    is_route(gens, start, s, p) && p.len() <= d;
                assert(is_route(gens, start, s, p) && p.len() <= d + 1);
            }
        }
    }
    assert forall|s: Seq<Cube>| #[trigger]
        near(gens, start, s, d + 1) && !near(gens, start, s, d) implies next.contains(s) by {
        let p = choose|p: Seq<RubikLayerTransform>| #[trigger]
            is_route(gens, start, s, p) && p.len() <= d + 1;
        lemma_route_wf(gens, start, s, p);
        assert(reached.contains(state_key(s)));
    }
    assert forall|s: Seq<Cube>| #[trigger] near(gens, start, s, d) implies !goal.holds(s) by {
        if !near(gens, start, s, d - 1) {
            assert(frontier.contains(s));
            let k = frontier.index_of(s);
            assert(!goal.holds(frontier[k]));
        }
    }
}

/// A dead end: when the level behind the level at depth `d` is empty, every
/// state that can be reached at all is within `d` moves.
pub proof fn lemma_closed(
    gens: Seq<RubikLayerTransform>,
    start: Seq<Cube>,
    d: int,
    reached: Set<u128>,
    target: Seq<Cube>,
    p: Seq<RubikLayerTransform>,
)
    requires
        moves_wf(gens),
        state_wf(start),
        d >= 0,
        covered(gens, start, d, Seq::empty(), reached),
        covered(gens, start, d + 1, Seq::empty(), reached),
        is_route(gens, start, target, p),
    ensures
        near(gens, start, target, d),
    decreases p.len(),
{
    if p.len() <= d {
    } else {
        let j = lemma_route_last(gens, start, target, p);
        let before = apply_moves(p.drop_last(), start);
        lemma_closed(gens, start, d, reached, before, p.drop_last());
        let r = choose|r: Seq<RubikLayerTransform>| #[trigger]
            is_route(gens, start, before, r) && r.len() <= d;
        lemma_route_step(gens, start, before, r, j);
        assert(is_route(gens, start, target, r.push(gens[j])) && r.push(gens[j]).len() <= d + 1);
        assert(near(gens, start, target, d + 1));
        lemma_route_wf(gens, start, target, p);
        assert(reached.contains(state_key(target)));
        let none = Seq::<Seq<Cube>>::empty();
        assert(!none.contains(target));
    }
}

/// The states of the nodes `nodes`.
pub open spec fn states_of(nodes: Seq<RubikSolveState>) -> Seq<Seq<Cube>> {
    Seq::new(nodes.len(), |i: int| nodes[i].spec_rubik()@)
}

/// The node belongs to the level at depth `d` of the search from `rubik`
/// with the moves `gens`.
pub open spec fn node_ok(
    node: RubikSolveState,
    gens: Seq<RubikLayerTransform>,
    rubik: Rubik,
    d: int,
) -> bool {
    &&& node.root() == rubik
    &&& node.op_set() == gens
    &&& node.path().len() == d
    &&& is_route(gens, rubik@, node.spec_rubik()@, node.path())
    &&& state_wf(node.spec_rubik()@)
}

/// The level at depth 0 is the start alone.
pub proof fn lemma_first_level(gens: Seq<RubikLayerTransform>, goal: Goal, start: Seq<Cube>)
    requires
        state_wf(start),
    ensures
        covered(gens, start, 0, Seq::empty(), Set::empty().insert(state_key(start))),
        frontier_facts(gens, goal, start, 0, seq![start]),
{
    let none = Seq::<Seq<Cube>>::empty();
    let reached = Set::<u128>::empty().insert(state_key(start));
    let stay = Seq::<RubikLayerTransform>::empty();
    assert(is_route(gens, start, start, stay));
    assert forall|s: Seq<Cube>| #[trigger] near(gens, start, s, 0) implies s == start by {
        let p = choose|p: Seq<RubikLayerTransform>| #[trigger]
            is_route(gens, start, s, p) && p.len() <= 0;
        assert(p.len() == 0);
    }
    assert forall|s: Seq<Cube>| state_wf(s) implies (reached.contains(#[trigger] state_key(s))
        <==> (near(gens, start, s, 0) || none.contains(s))) by {
        if state_key(s) == state_key(start) {
            lemma_state_key_injective(s, start);
        }
    }
    let frontier = seq![start];
    assert(frontier[0] == start);
    assert forall|s: Seq<Cube>| #[trigger] near(gens, start, s, -1) implies !goal.holds(s) by {
        let p = choose|p: Seq<RubikLayerTransform>| #[trigger]
            is_route(gens, start, s, p) && p.len() <= -1;
    }
}

/// The moves of the first stage.
pub open spec fn c_gens() -> Seq<RubikLayerTransform> {
    seq![
        RubikLayerTransform::e(),
        RubikLayerTransform::s(),
        RubikLayerTransform::m(),
    ]
}

/// The moves of the second stage.
pub open spec fn g0_gens() -> Seq<RubikLayerTransform> {
    seq![
        RubikLayerTransform::f(),
        RubikLayerTransform::b(),
        RubikLayerTransform::d(),
        RubikLayerTransform::u(),
        RubikLayerTransform::r(),
        RubikLayerTransform::l(),
        RubikLayerTransform::fi(),
        RubikLayerTransform::bi(),
        RubikLayerTransform::di(),
        RubikLayerTransform::ui(),
        RubikLayerTransform::ri(),
        RubikLayerTransform::li(),
    ]
}

/// The moves of the third stage.
pub open spec fn g1_gens() -> Seq<RubikLayerTransform> {
    seq![
        RubikLayerTransform::f2(),
        RubikLayerTransform::b2(),
        RubikLayerTransform::r(),
        RubikLayerTransform::l(),
        RubikLayerTransform::d(),
        RubikLayerTransform::u(),
        RubikLayerTransform::ri(),
        RubikLayerTransform::li(),
        RubikLayerTransform::di(),
        RubikLayerTransform::ui(),
    ]
}

/// The moves of the fourth stage.
pub open spec fn g2_gens() -> Seq<RubikLayerTransform> {
    seq![
        RubikLayerTransform::f2(),
        RubikLayerTransform::b2(),
        RubikLayerTransform::r2(),
        RubikLayerTransform::l2(),
        RubikLayerTransform::d(),
        RubikLayerTransform::u(),
        RubikLayerTransform::di(),
        RubikLayerTransform::ui(),
    ]
}

/// The moves of the last stage.
pub open spec fn g3_gens() -> Seq<RubikLayerTransform> {
    seq![
        RubikLayerTransform::f2(),
        RubikLayerTransform::b2(),
        RubikLayerTransform::r2(),
        RubikLayerTransform::l2(),
        RubikLayerTransform::d2(),
        RubikLayerTransform::u2(),
    ]
}

/// A search, breadth first, with the moves of one set for a state in which
/// one goal holds.
pub struct BfsSolver {
    gen_group: Vec<RubikLayerTransform>,
    goal: Goal,
}

impl BfsSolver {
    /// The moves that the search makes.
    pub closed spec fn gens(&self) -> Seq<RubikLayerTransform> {
        self.gen_group@
    }

    /// What the search looks for.
    pub closed spec fn spec_goal(&self) -> Goal {
        self.goal
    }

    /// The search with the moves `gen_group` for a state in which `goal`
    /// holds.
    pub fn new(gen_group: Vec<RubikLayerTransform>, goal: Goal) -> (r: Self)
        ensures
            r.gens() == gen_group@,
            r.spec_goal() == goal,
    {
        Self { gen_group, goal }
    }

    /// The search of the first stage: the three middle slices, until the core has not been rotated.
    pub fn c() -> (r: Self)
        ensures
            r.gens() == c_gens(),
            r.spec_goal() == Goal::CoreFixed,
    {
        let mut gens: Vec<RubikLayerTransform> = Vec::new();
        gens.push(RubikLayerTransform::e());
        gens.push(RubikLayerTransform::s());
        gens.push(RubikLayerTransform::m());
        assert(gens@ =~= c_gens());
        Self::new(gens, Goal::CoreFixed)
    }

    /// The search of the second stage: all quarter turns of the outer layers,
    /// until edges, corners and core show top or bottom at their top.
    pub fn g0() -> (r: Self)
        ensures
            r.gens() == g0_gens(),
            r.spec_goal() == Goal::ActiveUpOrDown,
    {
        let mut gens: Vec<RubikLayerTransform> = Vec::new();
        gens.push(RubikLayerTransform::f());
        gens.push(RubikLayerTransform::b());
        gens.push(RubikLayerTransform::d());
        gens.push(RubikLayerTransform::u());
        gens.push(RubikLayerTransform::r());
        gens.push(RubikLayerTransform::l());
        gens.push(RubikLayerTransform::fi());
        gens.push(RubikLayerTransform::bi());
        gens.push(RubikLayerTransform::di());
        gens.push(RubikLayerTransform::ui());
        gens.push(RubikLayerTransform::ri());
        gens.push(RubikLayerTransform::li());
        assert(gens@ =~= g0_gens());
        Self::new(gens, Goal::ActiveUpOrDown)
    }

    /// The search of the third stage: half turns of front and back and
    /// quarter turns of the other outer layers, until every cubie shows top
    /// or bottom at its top.
    pub fn g1() -> (r: Self)
        ensures
            r.gens() == g1_gens(),
            r.spec_goal() == Goal::AllUpOrDown,
    {
        let mut gens: Vec<RubikLayerTransform> = Vec::new();
        gens.push(RubikLayerTransform::f2());
        gens.push(RubikLayerTransform::b2());
        gens.push(RubikLayerTransform::r());
        gens.push(RubikLayerTransform::l());
        gens.push(RubikLayerTransform::d());
        gens.push(RubikLayerTransform::u());
        gens.push(RubikLayerTransform::ri());
        gens.push(RubikLayerTransform::li());
        gens.push(RubikLayerTransform::di());
        gens.push(RubikLayerTransform::ui());
        assert(gens@ =~= g1_gens());
        Self::new(gens, Goal::AllUpOrDown)
    }

    /// The search of the fourth stage: half turns of front, back, right and
    /// left and quarter turns of top and bottom, until every cubie shows left
    /// or right at its left.
    pub fn g2() -> (r: Self)
        ensures
            r.gens() == g2_gens(),
            r.spec_goal() == Goal::AllLeftOrRight,
    {
        let mut gens: Vec<RubikLayerTransform> = Vec::new();
        gens.push(RubikLayerTransform::f2());
        gens.push(RubikLayerTransform::b2());
        gens.push(RubikLayerTransform::r2());
        gens.push(RubikLayerTransform::l2());
        gens.push(RubikLayerTransform::d());
        gens.push(RubikLayerTransform::u());
        gens.push(RubikLayerTransform::di());
        gens.push(RubikLayerTransform::ui());
        assert(gens@ =~= g2_gens());
        Self::new(gens, Goal::AllLeftOrRight)
    }

    /// The search of the last stage: the half turns of the outer layers,
    /// until the puzzle is solved.
    pub fn g3() -> (r: Self)
        ensures
            r.gens() == g3_gens(),
            r.spec_goal() == Goal::Solved,
    {
        let mut gens: Vec<RubikLayerTransform> = Vec::new();
        gens.push(RubikLayerTransform::f2());
        gens.push(RubikLayerTransform::b2());
        gens.push(RubikLayerTransform::r2());
        gens.push(RubikLayerTransform::l2());
        gens.push(RubikLayerTransform::d2());
        gens.push(RubikLayerTransform::u2());
        assert(gens@ =~= g3_gens());
        Self::new(gens, Goal::Solved)
    }

    /// The moves of the search, in a list of their own.
    fn moves(&self) -> (r: Vec<RubikLayerTransform>)
        ensures
            r@ == self.gens(),
    {
        let mut out: Vec<RubikLayerTransform> = Vec::new();
        let mut i: usize = 0;
        while i < self.gen_group.len()
            invariant
                i <= self.gen_group@.len(),
                out@ == self.gen_group@.take(i as int),
            decreases self.gen_group@.len() - i,
        {
            out.push(self.gen_group[i]);
            assert(out@ =~= self.gen_group@.take(i + 1));
            i += 1;
        }
        assert(out@ =~= self.gen_group@);
        out
    }

    /// Searches level by level: first the start, then the states one move
    /// away, then those two moves away, and so on; a state that was seen
    /// before is not taken up again. The first state of a level in which the
    /// goal holds is the answer, so no fewer moves lead to the goal. When a
    /// level is empty, no moves lead to the goal.
    pub fn bfs(&self, rubik: Rubik) -> (r: Option<RubikSolveState>)
        ensures
            match r {
                Some(node) => node.root() == rubik && shortest(
                    self.gens(),
                    self.spec_goal(),
                    rubik@,
                    node.path(),
                ),
                None => !solvable(self.gens(), self.spec_goal(), rubik@),
            },
    {
        broadcast use vstd::set::group_set_axioms;

        let ghost gens = self.gens();
        let ghost start = rubik@;
        let goal: Goal = self.goal;
        let root: RubikSolveState = RubikSolveState::new(rubik, self.moves());
        let mut reached: HashSet<u128> = HashSet::new();
        let root_key: u128 = rubik.key();
        reached.insert(root_key);
        let mut queue: Vec<RubikSolveState> = Vec::new();
        queue.push(root);
        let ghost mut d: int = 0;
        proof {
            lemma_first_level(gens, goal, start);
            assert(states_of(queue@) =~= seq![start]);
            assert(is_route(gens, start, start, root.path()));
        }
        loop
            invariant
                d >= 0,
                moves_wf(gens),
                state_wf(start),
                gens == self.gens(),
                goal == self.spec_goal(),
                start == rubik@,
                reached@.finite(),
                queue@.len() > 0,
                forall|i: int| 0 <= i < queue@.len() ==> node_ok(#[trigger] queue@[i], gens, rubik, d),
                frontier_facts(gens, goal, start, d, states_of(queue@)),
                covered(gens, start, d, Seq::empty(), reached@),
            decreases usize::MAX - reached@.len(),
        {
            let size: usize = reached.len();
            let ghost level = queue@;
            let ghost frontier = states_of(level);
            let mut stack: Vec<RubikSolveState> = reversed(queue);
            let mut next: Vec<RubikSolveState> = Vec::new();
            let ghost mut done: int = 0;
            proof {
                assert(states_of(next@) =~= Seq::<Seq<Cube>>::empty());
            }
            while stack.len() > 0
                invariant
                    d >= 0,
                    moves_wf(gens),
                    state_wf(start),
                    gens == self.gens(),
                    goal == self.spec_goal(),
                    start == rubik@,
                    frontier == states_of(level),
                    frontier_facts(gens, goal, start, d, frontier),
                    forall|i: int| 0 <= i < level.len() ==> node_ok(#[trigger] level[i], gens, rubik, d),
                    0 <= done <= level.len(),
                    stack@.len() + done == level.len(),
                    forall|k: int|
                        0 <= k < stack@.len() ==> #[trigger] stack@[k] == level[level.len() - 1 - k],
                    forall|i: int|
                        0 <= i < next@.len() ==> node_ok(#[trigger] next@[i], gens, rubik, d + 1),
                    covered(gens, start, d, states_of(next@), reached@),
                    expanded(gens, frontier, done, reached@),
                    no_goal(goal, frontier, done),
                    fresh(gens, start, d, states_of(next@)),
                    reached@.finite(),
                    reached@.len() >= size + next@.len(),
                decreases stack@.len(),
            {
                let state: RubikSolveState = stack.pop().unwrap();
                assert(state == level[done]);
                assert(frontier[done] == state.spec_rubik()@);
                if goal.check(state.rubik()) {
                    proof {
                        let p = state.path();
                        assert forall|q: Seq<RubikLayerTransform>| #[trigger]
                            finds(gens, goal, start, q) implies p.len() <= q.len() by {
                            if q.len() < d {
                                let t = apply_moves(q, start);
                                assert(is_route(gens, start, t, q) && q.len() <= d - 1);
                                assert(near(gens, start, t, d - 1));
                            }
                        }
                    }
                    return Some(state);
                }
                let ghost here = state.spec_rubik()@;
                let ghost way = state.path();
                let children: Vec<RubikSolveState> = state.neighbors();
                let ghost kids_all = children@;
                let mut kids: Vec<RubikSolveState> = reversed(children);
                let ghost mut seen: int = 0;
                while kids.len() > 0
                    invariant
                        d >= 0,
                        moves_wf(gens),
                        state_wf(start),
                        start == rubik@,
                        0 <= done < level.len(),
                        frontier == states_of(level),
                        here == frontier[done],
                        state_wf(here),
                        is_route(gens, start, here, way),
                        way.len() == d,
                        kids_all.len() == gens.len(),
                        forall|i: int|
                            0 <= i < kids_all.len() ==> {
                                &&& (#[trigger] kids_all[i]).spec_rubik()@ == gens[i].spec_apply(here)
                                &&& kids_all[i].root() == rubik
                                &&& kids_all[i].path() == way.push(gens[i])
                                &&& kids_all[i].op_set() == gens
                            },
                        0 <= seen <= kids_all.len(),
                        kids@.len() + seen == kids_all.len(),
                        forall|k: int|
                            0 <= k < kids@.len() ==> #[trigger] kids@[k] == kids_all[kids_all.len() - 1
                                - k],
                        forall|i: int|
                            0 <= i < next@.len() ==> node_ok(#[trigger] next@[i], gens, rubik, d + 1),
                        covered(gens, start, d, states_of(next@), reached@),
                        expanded(gens, frontier, done, reached@),
                        forall|j: int|
                            0 <= j < seen ==> reached@.contains(
                                state_key(#[trigger] gens[j].spec_apply(here)),
                            ),
                        fresh(gens, start, d, states_of(next@)),
                        reached@.finite(),
                        reached@.len() >= size + next@.len(),
                    decreases kids@.len(),
                {
                    let child: RubikSolveState = kids.pop().unwrap();
                    assert(child == kids_all[seen]);
                    let key: u128 = child.rubik().key();
                    let ghost there = child.spec_rubik()@;
                    proof {
                        lemma_route_step(gens, start, here, way, seen);
                        assert(near(gens, start, there, d + 1));
                    }
                    if !reached.contains(&key) {
                        proof {
                            lemma_cover_child(gens, start, d, states_of(next@), reached@, there);
                            assert(states_of(next@.push(child)) =~= states_of(next@).push(there));
                            lemma_expanded_grows(gens, frontier, done, reached@, key);
                            assert forall|j: int| 0 <= j < seen implies reached@.insert(key).contains(
                                state_key(#[trigger] gens[j].spec_apply(here)),
                            ) by {}
                        }
                        reached.insert(key);
                        next.push(child);
                    }
                    proof {
                        seen = seen + 1;
                    }
                }
                proof {
                    assert forall|k: int, j: int|
                        0 <= k < done + 1 && 0 <= j < gens.len() implies reached@.contains(
                        state_key(#[trigger] gens[j].spec_apply(frontier[k])),
                    ) by {
                        if k == done {
                            assert(reached@.contains(state_key(gens[j].spec_apply(here))));
                        }
                    }
                    done = done + 1;
                }
            }
            proof {
                lemma_next_level(gens, goal, start, d, frontier, states_of(next@), reached@);
            }
            if next.len() == 0 {
                proof {
                    assert(states_of(next@) =~= Seq::<Seq<Cube>>::empty());
                    assert forall|q: Seq<RubikLayerTransform>| !#[trigger] finds(gens, goal, start, q) by {
                        if finds(gens, goal, start, q) {
                            let t = apply_moves(q, start);
                            lemma_closed(gens, start, d, reached@, t, q);
                        }
                    }
                }
                return None;
            }
            let bound: usize = reached.len();
            proof {
                d = d + 1;
            }
            queue = next;
        }
    }
}

impl RubikSolver for BfsSolver {
    /// The moves are among the moves of the search, they lead to the goal,
    /// and no fewer moves do.
    open spec fn answers(&self, start: Seq<Cube>, moves: Seq<RubikLayerTransform>) -> bool {
        shortest(self.gens(), self.spec_goal(), start, moves)
    }

    /// The search finds the goal wherever moves of its set lead to it.
    open spec fn owes(&self, start: Seq<Cube>) -> bool {
        solvable(self.gens(), self.spec_goal(), start)
    }

    fn solve(&self, rubik: Rubik) -> (r: Option<RubikSolveState>) {
        self.bfs(rubik)
    }
}

/// The search of the first stage: the middle slices are turned until the
/// core has not been rotated.
pub struct CSolver;

impl RubikSolver for CSolver {
    open spec fn answers(&self, start: Seq<Cube>, moves: Seq<RubikLayerTransform>) -> bool {
        shortest(c_gens(), Goal::CoreFixed, start, moves)
    }

    open spec fn owes(&self, start: Seq<Cube>) -> bool {
        solvable(c_gens(), Goal::CoreFixed, start)
    }

    fn solve(&self, rubik: Rubik) -> (r: Option<RubikSolveState>) {
        BfsSolver::c().bfs(rubik)
    }
}

/// The moves `moves` are the moves `first` followed by the moves `second`,
/// `first` an answer of `a` from `start` and `second` an answer of `b` from
/// where `first` leads.
pub open spec fn splits<A: RubikSolver, B: RubikSolver>(
    a: A,
    b: B,
    start: Seq<Cube>,
    moves: Seq<RubikLayerTransform>,
    first: Seq<RubikLayerTransform>,
    second: Seq<RubikLayerTransform>,
) -> bool {
    &&& moves == first + second
    &&& a.answers(start, first)
    &&& b.answers(apply_moves(first, start), second)
}

/// Two solvers, one after the other: the second starts where the first
/// ended, and the moves of both, in this order, are the answer.
impl<A: RubikSolver, B: RubikSolver> RubikSolver for (A, B) {
    open spec fn answers(&self, start: Seq<Cube>, moves: Seq<RubikLayerTransform>) -> bool {
        exists|first: Seq<RubikLayerTransform>, second: Seq<RubikLayerTransform>| #[trigger]
            splits(self.0, self.1, start, moves, first, second)
    }

    /// Both find an answer: the first from `start`, the second from
    /// wherever an answer of the first may lead.
    open spec fn owes(&self, start: Seq<Cube>) -> bool {
        &&& self.0.owes(start)
        &&& forall|first: Seq<RubikLayerTransform>| #[trigger]
            self.0.answers(start, first) ==> self.1.owes(apply_moves(first, start))
    }

    fn solve(&self, rubik: Rubik) -> (r: Option<RubikSolveState>) {
        match self.0.solve(rubik) {
            Some(first) => {
                let middle: Rubik = *first.rubik();
                let ghost way = first.path();
                match self.1.solve(middle) {
                    Some(second) => {
                        let (_end, ops) = second.collect();
                        let node = first.follow(&ops);
                        assert(splits(self.0, self.1, rubik@, node.path(), way, ops@));
                        Some(node)
                    },
                    None => None,
                }
            },
            None => None,
        }
    }
}

/// Putting solvers one after the other is associative: three solvers in a
/// row give the same answers whichever two are put together first.
pub proof fn lemma_pair_assoc<A: RubikSolver, B: RubikSolver, C: RubikSolver>(
    a: A,
    b: B,
    c: C,
    start: Seq<Cube>,
    moves: Seq<RubikLayerTransform>,
)
    ensures
        ((a, b), c).answers(start, moves) <==> (a, (b, c)).answers(start, moves),
{
    if ((a, b), c).answers(start, moves) {
        let left = ((a, b), c);
        let (ab, pc) = choose|ab: Seq<RubikLayerTransform>, pc: Seq<RubikLayerTransform>| #[trigger]
            splits(left.0, left.1, start, moves, ab, pc);
        let (pa, pb) = choose|pa: Seq<RubikLayerTransform>, pb: Seq<RubikLayerTransform>| #[trigger]
            splits(left.0.0, left.0.1, start, ab, pa, pb);
        lemma_apply_moves_concat(pa, pb, start);
        let bc = (b, c);
        assert(splits(bc.0, bc.1, apply_moves(pa, start), pb + pc, pb, pc));
        assert(moves =~= pa + (pb + pc));
        let abc = (a, bc);
        assert(splits(abc.0, abc.1, start, moves, pa, pb + pc));
    }
    if (a, (b, c)).answers(start, moves) {
        let right = (a, (b, c));
        let (pa, bc) = choose|pa: Seq<RubikLayerTransform>, bc: Seq<RubikLayerTransform>| #[trigger]
            splits(right.0, right.1, start, moves, pa, bc);
        let (pb, pc) = choose|pb: Seq<RubikLayerTransform>, pc: Seq<RubikLayerTransform>| #[trigger]
            splits(right.1.0, right.1.1, apply_moves(pa, start), bc, pb, pc);
        lemma_apply_moves_concat(pa, pb, start);
        let ab = (a, b);
        assert(splits(ab.0, ab.1, start, pa + pb, pa, pb));
        assert(moves =~= (pa + pb) + pc);
        let abc = (ab, c);
        assert(splits(abc.0, abc.1, start, moves, pa + pb, pc));
    }
}

/// The moves of stage `k` of the five stages.
pub open spec fn stage_gens(k: int) -> Seq<RubikLayerTransform> {
    if k == 0 {
        c_gens()
    } else if k == 1 {
        g0_gens()
    } else if k == 2 {
        g1_gens()
    } else if k == 3 {
        g2_gens()
    } else {
        g3_gens()
    }
}

/// The goal of stage `k` of the five stages.
pub open spec fn stage_goal(k: int) -> Goal {
    if k == 0 {
        Goal::CoreFixed
    } else if k == 1 {
        Goal::ActiveUpOrDown
    } else if k == 2 {
        Goal::AllUpOrDown
    } else if k == 3 {
        Goal::AllLeftOrRight
    } else {
        Goal::Solved
    }
}

/// The moves `moves` are `first`, a shortest way from `start` to the goal of
/// stage `k`, followed by `rest`.
pub open spec fn stage_cut(
    k: int,
    start: Seq<Cube>,
    moves: Seq<RubikLayerTransform>,
    first: Seq<RubikLayerTransform>,
    rest: Seq<RubikLayerTransform>,
) -> bool {
    &&& 0 <= k < 5
    &&& moves == first + rest
    &&& shortest(stage_gens(k), stage_goal(k), start, first)
}

/// The moves `moves` are made of one answer for each stage from stage `k`
/// on: a shortest way to the goal of stage `k`, then one to the goal of the
/// next stage from there, and so on to the last stage.
pub open spec fn staged(k: int, start: Seq<Cube>, moves: Seq<RubikLayerTransform>) -> bool
    decreases 5 - k,
{
    if k >= 5 {
        moves.len() == 0
    } else {
        exists|first: Seq<RubikLayerTransform>, rest: Seq<RubikLayerTransform>| #[trigger]
            stage_cut(k, start, moves, first, rest) && staged(
                k + 1,
                apply_moves(first, start),
                rest,
            )
    }
}

/// From stage `k` on every stage finds its goal: the goal of stage `k` can
/// be reached from `start`, and wherever a shortest way to it leads, the
/// same holds of the next stage.
pub open spec fn staged_owes(k: int, start: Seq<Cube>) -> bool
    decreases 5 - k,
{
    if k >= 5 {
        true
    } else {
        &&& solvable(stage_gens(k), stage_goal(k), start)
        &&& forall|first: Seq<RubikLayerTransform>| #[trigger]
            shortest(stage_gens(k), stage_goal(k), start, first) ==> staged_owes(
                k + 1,
                apply_moves(first, start),
            )
    }
}

/// Answers for all stages from one of the five on lead to the solved
/// puzzle.
pub proof fn lemma_staged_solves(k: int, start: Seq<Cube>, moves: Seq<RubikLayerTransform>)
    requires
        0 <= k < 5,
        staged(k, start, moves),
    ensures
        solved(apply_moves(moves, start)),
    decreases 5 - k,
{
    let (first, rest) = choose|first: Seq<RubikLayerTransform>, rest: Seq<RubikLayerTransform>| #[trigger]
        stage_cut(k, start, moves, first, rest) && staged(k + 1, apply_moves(first, start), rest);
    lemma_apply_moves_concat(first, rest, start);
    if k == 4 {
        assert(rest.len() == 0);
        assert(first + rest =~= first);
    } else {
        lemma_staged_solves(k + 1, apply_moves(first, start), rest);
    }
}

/// The solver in five stages. Each stage searches breadth first with the
/// moves of its subgroup for a state of the next subgroup; the moves of all
/// stages, in order, are the answer.
pub struct Thistlethwaite {
    pub thread: usize,
}

impl Thistlethwaite {
    /// Lets `solver` search from the state of `node`, and goes on from
    /// `node` by the moves that it found.
    fn stage(node: RubikSolveState, solver: &BfsSolver) -> (r: Option<
        (RubikSolveState, Vec<RubikLayerTransform>),
    >)
        ensures
            match r {
                Some((after, ops)) => {
                    &&& after.root() == node.root()
                    &&& after.path() == node.path() + ops@
                    &&& after.spec_rubik()@ == apply_moves(ops@, node.spec_rubik()@)
                    &&& shortest(solver.gens(), solver.spec_goal(), node.spec_rubik()@, ops@)
                },
                None => !solvable(solver.gens(), solver.spec_goal(), node.spec_rubik()@),
            },
    {
        match solver.bfs(*node.rubik()) {
            Some(found) => {
                let (_end, ops) = found.collect();
                let after = node.follow(&ops);
                Some((after, ops))
            },
            None => None,
        }
    }
}

impl RubikSolver for Thistlethwaite {
    /// One shortest way for each of the five stages, in order.
    open spec fn answers(&self, start: Seq<Cube>, moves: Seq<RubikLayerTransform>) -> bool {
        staged(0, start, moves)
    }

    /// Every stage finds its goal.
    open spec fn owes(&self, start: Seq<Cube>) -> bool {
        staged_owes(0, start)
    }

    fn solve(&self, rubik: Rubik) -> (r: Option<RubikSolveState>)
        ensures
            r matches Some(node) ==> solved(node.spec_rubik()@),
    {
        let ghost s0 = rubik@;
        proof {
            reveal_with_fuel(staged_owes, 6);
        }
        let root: RubikSolveState = RubikSolveState::new(rubik, Vec::new());
        let (n1, p0) = match Self::stage(root, &BfsSolver::c()) {
            Some(r) => r,
            None => {
                return None;
            },
        };
        let ghost s1 = apply_moves(p0@, s0);
        let (n2, p1) = match Self::stage(n1, &BfsSolver::g0()) {
            Some(r) => r,
            None => {
                return None;
            },
        };
        let ghost s2 = apply_moves(p1@, s1);
        let (n3, p2) = match Self::stage(n2, &BfsSolver::g1()) {
            Some(r) => r,
            None => {
                return None;
            },
        };
        let ghost s3 = apply_moves(p2@, s2);
        let (n4, p3) = match Self::stage(n3, &BfsSolver::g2()) {
            Some(r) => r,
            None => {
                return None;
            },
        };
        let ghost s4 = apply_moves(p3@, s3);
        let (n5, p4) = match Self::stage(n4, &BfsSolver::g3()) {
            Some(r) => r,
            None => {
                return None;
            },
        };
        proof {
            let none = Seq::<RubikLayerTransform>::empty();
            let r4 = p4@ + none;
            let r3 = p3@ + r4;
            let r2 = p2@ + r3;
            let r1 = p1@ + r2;
            let r0 = p0@ + r1;
            assert(staged(5, apply_moves(p4@, s4), none));
            assert(stage_cut(4, s4, r4, p4@, none));
            assert(staged(4, s4, r4));
            assert(stage_cut(3, s3, r3, p3@, r4));
            assert(staged(3, s3, r3));
            assert(stage_cut(2, s2, r2, p2@, r3));
            assert(staged(2, s2, r2));
            assert(stage_cut(1, s1, r1, p1@, r2));
            assert(staged(1, s1, r1));
            assert(stage_cut(0, s0, r0, p0@, r1));
            assert(staged(0, s0, r0));
            assert(n5.path() =~= r0);
            lemma_staged_solves(0, s0, r0);
            use_type_invariant(&n5);
        }
        Some(n5)
    }
}

/// A key more in `reached` takes none away.
proof fn lemma_expanded_grows(
    gens: Seq<RubikLayerTransform>,
    frontier: Seq<Seq<Cube>>,
    done: int,
    reached: Set<u128>,
    key: u128,
)
    requires
        expanded(gens, frontier, done, reached),
    ensures
        expanded(gens, frontier, done, reached.insert(key)),
{
}

} // verus!
