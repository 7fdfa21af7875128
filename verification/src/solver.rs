//! Search for move sequences: the nodes of the search tree, what a solver
//! promises, and the solvers.
use crate::cube::Cube;
use crate::solver::shuffle::{is_shuffle_move, shuffle_index, Shuffle};
use crate::state::{lemma_state_key_injective, state_key, state_wf, Rubik};
use crate::transform::layer::RubikLayerTransform;
use crate::transform::{apply_moves, moves_wf};
use std::sync::Arc;
use vstd::prelude::*;

pub mod ida_star;
pub mod shuffle;
pub mod thistlethwaite;

verus! {

/// A node of the search tree: a state of the puzzle, the moves that the
/// search may make from it, and the way by which it was reached. Nodes share
/// their ancestors: the way is held as the last move and the node before it.
pub struct RubikSolveState {
    rubik: Rubik,
    op_set: Arc<Vec<RubikLayerTransform>>,
    from: Option<(Arc<RubikSolveState>, RubikLayerTransform)>,
}

/// Every move of `moves` is one of `gens`.
pub open spec fn moves_from(gens: Seq<RubikLayerTransform>, moves: Seq<RubikLayerTransform>) -> bool {
    forall|i: int| 0 <= i < moves.len() ==> gens.contains(#[trigger] moves[i])
}

/// The moves `way` lead from `start` to a state that they passed before:
/// the state after all of them is the state after the first `i` of them, for
/// some `i` below their number.
pub open spec fn comes_back(start: Seq<Cube>, way: Seq<RubikLayerTransform>) -> bool {
    exists|i: int|
        0 <= i < way.len() && apply_moves(#[trigger] way.take(i), start) == apply_moves(way, start)
}

/// The items of `list` in the opposite order.
pub fn reversed<T>(list: Vec<T>) -> (r: Vec<T>)
    ensures
        r@ == list@.reverse(),
{
    let mut rest: Vec<T> = list;
    let mut out: Vec<T> = Vec::new();
    while rest.len() > 0
        invariant
            rest@.len() <= list@.len(),
            rest@ == list@.take(rest@.len() as int),
            out@.len() == list@.len() - rest@.len(),
            forall|k: int| 0 <= k < out@.len() ==> out@[k] == list@[list@.len() - 1 - k],
        decreases rest@.len(),
    {
        let item: T = rest.pop().unwrap();
        out.push(item);
        assert(rest@ =~= list@.take(rest@.len() as int));
    }
    assert(out@ =~= list@.reverse());
    out
}

/// A way to find moves for a puzzle.
pub trait RubikSolver {
    /// What the solver promises of an answer: whether the moves `moves`,
    /// made from the state `start`, may be what it returns.
    spec fn answers(&self, start: Seq<Cube>, moves: Seq<RubikLayerTransform>) -> bool;

    /// The states from which the solver is bound to find an answer.
    spec fn owes(&self, start: Seq<Cube>) -> bool;

    /// Searches from the state `rubik`. The node that comes back has `rubik`
    /// as its root, so its state is `rubik` after the moves of its path, and
    /// its path is an answer. `None` says that the search was given up.
    fn solve(&self, rubik: Rubik) -> (r: Option<RubikSolveState>)
        ensures
            self.owes(rubik@) ==> r.is_some(),
            r matches Some(node) ==> node.root() == rubik && self.answers(rubik@, node.path()),
    ;
}

/// `Arc::clone`: another handle to the value that `shared` points to.
#[verifier::external_body]
fn share<T>(shared: &Arc<T>) -> (r: Arc<T>)
    ensures
        r == *shared,
{
    shared.clone()
}

/// `rand::random::<usize>()`: a number drawn by the thread's generator.
/// Nothing is said of the number: each call may give another.
#[verifier::external_body]
fn random_usize() -> usize {
    rand::random::<usize>()
}

impl RubikSolveState {
    /// The state of the puzzle at the node.
    pub closed spec fn spec_rubik(&self) -> Rubik {
        self.rubik
    }

    /// The moves that the search may make from the node.
    pub closed spec fn op_set(&self) -> Seq<RubikLayerTransform> {
        self.op_set@
    }

    /// The moves by which the node was reached from the root, in order.
    pub closed spec fn path(&self) -> Seq<RubikLayerTransform>
        decreases self,
    {
        match self.from {
            None => Seq::empty(),
            Some((parent, op)) => parent.path().push(op),
        }
    }

    /// The state at the root of the tree.
    pub closed spec fn root(&self) -> Rubik
        decreases self,
    {
        match self.from {
            None => self.rubik,
            Some((parent, op)) => parent.root(),
        }
    }

    /// The node's state is the root's state after the moves of the path, and
    /// the moves of the path and of the set are well formed. Every node that
    /// a program can hold is of this kind.
    #[verifier::type_invariant]
    pub open spec fn wf(&self) -> bool {
        &&& self.spec_rubik()@ == apply_moves(self.path(), self.root()@)
        &&& moves_wf(self.path())
        &&& moves_wf(self.op_set())
    }

    /// The root of a search from the state `rubik` with the moves `op_set`.
    pub fn new(rubik: Rubik, op_set: Vec<RubikLayerTransform>) -> (node: Self)
        ensures
            node.spec_rubik() == rubik,
            node.root() == rubik,
            node.path() == Seq::<RubikLayerTransform>::empty(),
            node.op_set() == op_set@,
            moves_wf(op_set@),
    {
        let mut i: usize = 0;
        while i < op_set.len()
            invariant
                i <= op_set@.len(),
                forall|k: int| 0 <= k < i ==> (#[trigger] op_set@[k]).wf(),
            decreases op_set@.len() - i,
        {
            let op: RubikLayerTransform = op_set[i];
            proof {
                use_type_invariant(&op);
            }
            i += 1;
        }
        Self { rubik, op_set: Arc::new(op_set), from: None }
    }

    /// The moves that the search may make from the node.
    pub fn moves(&self) -> (r: &Vec<RubikLayerTransform>)
        ensures
            r@ == self.op_set(),
    {
        &*self.op_set
    }

    /// The state of the puzzle at the node.
    pub fn rubik(&self) -> (r: &Rubik)
        ensures
            *r == self.spec_rubik(),
            r@ == apply_moves(self.path(), self.root()@),
    {
        proof {
            use_type_invariant(self);
        }
        &self.rubik
    }

    /// The node's state, and the moves by which it was reached from the
    /// root, in order.
    pub fn collect(self) -> (r: (Rubik, Vec<RubikLayerTransform>))
        ensures
            r.0 == self.spec_rubik(),
            r.1@ == self.path(),
            r.0@ == apply_moves(r.1@, self.root()@),
            moves_wf(r.1@),
    {
        proof {
            use_type_invariant(&self);
        }
        let rubik = self.rubik;
        let mut ops: Vec<RubikLayerTransform> = Vec::new();
        let mut cur: &RubikSolveState = &self;
        loop
            invariant
                cur.path() + ops@.reverse() == self.path(),
            ensures
                ops@.reverse() == self.path(),
            decreases cur,
        {
            match &cur.from {
                None => {
                    break ;
                },
                Some((parent, op)) => {
                    ops.push(*op);
                    cur = &**parent;
                },
            }
        }
        let mut path: Vec<RubikLayerTransform> = Vec::new();
        let mut i: usize = ops.len();
        while i > 0
            invariant
                i <= ops@.len(),
                path@.len() == ops@.len() - i,
                forall|k: int| 0 <= k < path@.len() ==> path@[k] == ops@[ops@.len() - 1 - k],
            decreases i,
        {
            i -= 1;
            path.push(ops[i]);
        }
        assert(path@ =~= ops@.reverse());
        (rubik, path)
    }

    /// The node that the move `op` leads to from this one, with the same set
    /// of moves.
    pub fn step(self, op: RubikLayerTransform) -> (child: Self)
        ensures
            child.spec_rubik()@ == op.spec_apply(self.spec_rubik()@),
            child.root() == self.root(),
            child.path() == self.path().push(op),
            child.op_set() == self.op_set(),
    {
        let parent: Arc<RubikSolveState> = Arc::new(self);
        Self::child_of(&parent, op)
    }

    /// The node that the move `op` leads to from `parent`.
    fn child_of(parent: &Arc<RubikSolveState>, op: RubikLayerTransform) -> (child: Self)
        ensures
            child.spec_rubik()@ == op.spec_apply(parent.spec_rubik()@),
            child.root() == parent.root(),
            child.path() == parent.path().push(op),
            child.op_set() == parent.op_set(),
    {
        let node: &RubikSolveState = &**parent;
        proof {
            use_type_invariant(node);
            use_type_invariant(&op);
            let path = node.path().push(op);
            assert(path.drop_last() =~= node.path());
        }
        let mut rubik: Rubik = node.rubik;
        op.apply_on(&mut rubik);
        Self { rubik, op_set: share(&node.op_set), from: Some((share(parent), op)) }
    }

    /// Whether the node's state stood on its way before: whether the state
    /// after the first `i` moves of the path, for some `i` below the length
    /// of the path, is the state of the node.
    pub fn revisits(&self) -> (r: bool)
        ensures
            r == comes_back(self.root()@, self.path()),
    {
        proof {
            use_type_invariant(self);
        }
        let key: u128 = self.rubik.key();
        let ghost way = self.path();
        let ghost start = self.root()@;
        let mut cur: &RubikSolveState = self;
        loop
            invariant
                way == self.path(),
                start == self.root()@,
                key == state_key(apply_moves(way, start)),
                state_wf(apply_moves(way, start)),
                cur.root()@ == start,
                cur.path().len() <= way.len(),
                cur.path() == way.take(cur.path().len() as int),
                forall|i: int|
                    cur.path().len() <= i < way.len() ==> apply_moves(#[trigger] way.take(i), start)
                        != apply_moves(way, start),
            decreases cur,
        {
            match &cur.from {
                None => {
                    return false;
                },
                Some((parent, op)) => {
                    let before: &RubikSolveState = &**parent;
                    proof {
                        use_type_invariant(before);
                        assert(cur.path().drop_last() =~= before.path());
                        assert(way.take(before.path().len() as int) =~= before.path());
                    }
                    let other: u128 = before.rubik.key();
                    if other == key {
                        proof {
                            lemma_state_key_injective(
                                before.spec_rubik()@,
                                apply_moves(way, start),
                            );
                        }
                        return true;
                    }
                    cur = before;
                },
            }
        }
    }

    /// The node that the moves `ops`, made in order, lead to from this one.
    pub fn follow(self, ops: &Vec<RubikLayerTransform>) -> (node: Self)
        ensures
            node.spec_rubik()@ == apply_moves(ops@, self.spec_rubik()@),
            node.root() == self.root(),
            node.path() == self.path() + ops@,
            node.op_set() == self.op_set(),
    {
        let mut node: Self = self;
        let mut i: usize = 0;
        while i < ops.len()
            invariant
                i <= ops@.len(),
                node.spec_rubik()@ == apply_moves(ops@.take(i as int), self.spec_rubik()@),
                node.root() == self.root(),
                node.path() == self.path() + ops@.take(i as int),
                node.op_set() == self.op_set(),
            decreases ops@.len() - i,
        {
            proof {
                assert(ops@.take(i + 1).drop_last() =~= ops@.take(i as int));
                assert(self.path() + ops@.take(i + 1) =~= (self.path() + ops@.take(i as int)).push(
                    ops@[i as int],
                ));
            }
            node = node.step(ops[i]);
            i += 1;
        }
        assert(ops@.take(i as int) =~= ops@);
        node
    }

    /// One node for each move of the set, in the set's order: the node that
    /// the move leads to from this one.
    pub fn neighbors(self) -> (r: Vec<Self>)
        ensures
            r@.len() == self.op_set().len(),
            forall|i: int|
                0 <= i < r@.len() ==> {
                    &&& (#[trigger] r@[i]).spec_rubik()@ == self.op_set()[i].spec_apply(
                        self.spec_rubik()@,
                    )
                    &&& r@[i].root() == self.root()
                    &&& r@[i].path() == self.path().push(self.op_set()[i])
                    &&& r@[i].op_set() == self.op_set()
                },
    {
        let parent: Arc<RubikSolveState> = Arc::new(self);
        let mut out: Vec<Self> = Vec::new();
        let mut i: usize = 0;
        while i < parent.op_set.len()
            invariant
                *parent == self,
                i <= self.op_set().len(),
                out@.len() == i,
                forall|k: int|
                    0 <= k < i ==> {
                        &&& (#[trigger] out@[k]).spec_rubik()@ == self.op_set()[k].spec_apply(
                            self.spec_rubik()@,
                        )
                        &&& out@[k].root() == self.root()
                        &&& out@[k].path() == self.path().push(self.op_set()[k])
                        &&& out@[k].op_set() == self.op_set()
                    },
            decreases self.op_set().len() - i,
        {
            let op: RubikLayerTransform = parent.op_set[i];
            out.push(Self::child_of(&parent, op));
            i += 1;
        }
        out
    }

    /// The node that move number `pick % n` of the set leads to, `n` being
    /// the number of moves in the set.
    pub fn transfer(self, pick: usize) -> (child: Self)
        requires
            self.op_set().len() > 0,
        ensures
            child.spec_rubik()@ == self.op_set()[pick as int % self.op_set().len() as int].spec_apply(
                self.spec_rubik()@,
            ),
            child.root() == self.root(),
            child.path() == self.path().push(self.op_set()[pick as int % self.op_set().len() as int]),
            child.op_set() == self.op_set(),
    {
        let op: RubikLayerTransform = self.op_set[pick % self.op_set.len()];
        self.step(op)
    }

    /// The node that a move of the set leads to, the move chosen at random.
    pub fn random_transfer(self) -> (child: Self)
        requires
            self.op_set().len() > 0,
        ensures
            exists|i: int|
                0 <= i < self.op_set().len() && child.path() == self.path().push(
                    #[trigger] self.op_set()[i],
                ) && child.spec_rubik()@ == self.op_set()[i].spec_apply(self.spec_rubik()@),
            child.root() == self.root(),
            child.op_set() == self.op_set(),
    {
        let pick: usize = random_usize();
        let ghost i = pick as int % self.op_set().len() as int;
        let child = self.transfer(pick);
        assert(child.path() == self.path().push(self.op_set()[i]));
        child
    }
}

impl Clone for RubikSolveState {
    /// Another handle to the node: same state, same moves, same way.
    fn clone(&self) -> (r: Self)
        ensures
            r.spec_rubik() == self.spec_rubik(),
            r.op_set() == self.op_set(),
            r.path() == self.path(),
            r.root() == self.root(),
    {
        proof {
            use_type_invariant(self);
        }
        let from: Option<(Arc<RubikSolveState>, RubikLayerTransform)> = match &self.from {
            None => None,
            Some((parent, op)) => Some((share(parent), *op)),
        };
        Self { rubik: self.rubik, op_set: share(&self.op_set), from }
    }
}

impl Rubik {
    /// Lets `solver` search from the puzzle's state, and makes the moves that
    /// it found: the puzzle is then in the state that the solver reached, and
    /// the moves are handed back. Where the solver gives up, the puzzle is
    /// left as it is.
    pub fn solve<S: RubikSolver>(&mut self, solver: S) -> (r: Option<Vec<RubikLayerTransform>>)
        ensures
            solver.owes(old(self)@) ==> r.is_some(),
            match r {
                Some(ops) => {
                    &&& final(self)@ == apply_moves(ops@, old(self)@)
                    &&& moves_wf(ops@)
                    &&& solver.answers(old(self)@, ops@)
                },
                None => *final(self) == *old(self),
            },
    {
        match solver.solve(*self) {
            Some(node) => {
                let (rubik, ops) = node.collect();
                *self = rubik;
                Some(ops)
            },
            None => None,
        }
    }

    /// Makes `steps` moves chosen at random among the quarter turns `R`, `F`,
    /// `B`, `D`, `U` and `L`, and hands back the moves that were made.
    pub fn shuffle(&mut self, steps: usize) -> (ops: Vec<RubikLayerTransform>)
        ensures
            final(self)@ == apply_moves(ops@, old(self)@),
            moves_wf(ops@),
            ops@.len() == steps,
            forall|i: int| 0 <= i < ops@.len() ==> is_shuffle_move(#[trigger] ops@[i]),
    {
        let r: Option<Vec<RubikLayerTransform>> = self.solve(Shuffle::new(steps));
        r.unwrap()
    }

    /// Makes one move for each number of `picks`: the number modulo six says
    /// which of the quarter turns `R`, `F`, `B`, `D`, `U` and `L` is made.
    /// The moves that were made are handed back.
    pub fn shuffle_with(&mut self, picks: &[usize]) -> (ops: Vec<RubikLayerTransform>)
        ensures
            final(self)@ == apply_moves(ops@, old(self)@),
            moves_wf(ops@),
            ops@.len() == picks@.len(),
            forall|i: int|
                0 <= i < ops@.len() ==> is_shuffle_move(#[trigger] ops@[i]) && shuffle_index(
                    ops@[i],
                ) == picks@[i] % 6,
    {
        let node: RubikSolveState = Shuffle::replay(*self, picks);
        let (rubik, ops) = node.collect();
        *self = rubik;
        ops
    }
}

} // verus!
