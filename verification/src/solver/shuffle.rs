//! Random moves: scrambling, and the moves that annealing draws from.
use crate::cube::Cube;
use crate::layer::{b_table, d_table, f_table, l_table, r_table, u_table};
use crate::permutation::{X_1_BITS, X_3_BITS, Y_1_BITS, Y_3_BITS, Z_1_BITS, Z_3_BITS};
use crate::solver::{RubikSolveState, RubikSolver};
use crate::state::Rubik;
use crate::transform::layer::{PtrRotate, RubikLayerTransform};
use vstd::prelude::*;

verus! {

/// Which of the six moves of a scramble `op` is: 0 for `R`, then `F`, `B`,
/// `D`, `U`, and 5 for `L`; 6 for any other move.
pub open spec fn shuffle_index(op: RubikLayerTransform) -> int {
    if op.is_turn(r_table(), Y_1_BITS, PtrRotate::Rotate1) {
        0
    } else if op.is_turn(f_table(), X_1_BITS, PtrRotate::Rotate1) {
        1
    } else if op.is_turn(b_table(), X_3_BITS, PtrRotate::Rotate1) {
        2
    } else if op.is_turn(d_table(), Z_3_BITS, PtrRotate::Rotate1) {
        3
    } else if op.is_turn(u_table(), Z_1_BITS, PtrRotate::Rotate1) {
        4
    } else if op.is_turn(l_table(), Y_3_BITS, PtrRotate::Rotate1) {
        5
    } else {
        6
    }
}

/// `op` is one of the six clockwise quarter turns of an outer layer.
pub open spec fn is_shuffle_move(op: RubikLayerTransform) -> bool {
    0 <= shuffle_index(op) < 6
}

/// The moves among which annealing chooses: all turns of all nine layers,
/// first the quarter turns of the outer layers, then their inverses, then
/// their squares, then the same of the three slices.
pub open spec fn annealing_ops() -> Seq<RubikLayerTransform> {
    seq![
        RubikLayerTransform::r(),
        RubikLayerTransform::l(),
        RubikLayerTransform::f(),
        RubikLayerTransform::u(),
        RubikLayerTransform::d(),
        RubikLayerTransform::b(),
        RubikLayerTransform::ri(),
        RubikLayerTransform::li(),
        RubikLayerTransform::fi(),
        RubikLayerTransform::ui(),
        RubikLayerTransform::di(),
        RubikLayerTransform::bi(),
        RubikLayerTransform::r2(),
        RubikLayerTransform::l2(),
        RubikLayerTransform::f2(),
        RubikLayerTransform::u2(),
        RubikLayerTransform::d2(),
        RubikLayerTransform::b2(),
        RubikLayerTransform::e(),
        RubikLayerTransform::s(),
        RubikLayerTransform::m(),
        RubikLayerTransform::ei(),
        RubikLayerTransform::si(),
        RubikLayerTransform::mi(),
        RubikLayerTransform::e2(),
        RubikLayerTransform::s2(),
        RubikLayerTransform::m2(),
    ]
}

/// The moves among which annealing chooses.
pub fn annealing_moves() -> (ops: Vec<RubikLayerTransform>)
    ensures
        ops@ == annealing_ops(),
{
    let mut ops: Vec<RubikLayerTransform> = Vec::new();
    ops.push(RubikLayerTransform::r());
    ops.push(RubikLayerTransform::l());
    ops.push(RubikLayerTransform::f());
    ops.push(RubikLayerTransform::u());
    ops.push(RubikLayerTransform::d());
    ops.push(RubikLayerTransform::b());
    ops.push(RubikLayerTransform::ri());
    ops.push(RubikLayerTransform::li());
    ops.push(RubikLayerTransform::fi());
    ops.push(RubikLayerTransform::ui());
    ops.push(RubikLayerTransform::di());
    ops.push(RubikLayerTransform::bi());
    ops.push(RubikLayerTransform::r2());
    ops.push(RubikLayerTransform::l2());
    ops.push(RubikLayerTransform::f2());
    ops.push(RubikLayerTransform::u2());
    ops.push(RubikLayerTransform::d2());
    ops.push(RubikLayerTransform::b2());
    ops.push(RubikLayerTransform::e());
    ops.push(RubikLayerTransform::s());
    ops.push(RubikLayerTransform::m());
    ops.push(RubikLayerTransform::ei());
    ops.push(RubikLayerTransform::si());
    ops.push(RubikLayerTransform::mi());
    ops.push(RubikLayerTransform::e2());
    ops.push(RubikLayerTransform::s2());
    ops.push(RubikLayerTransform::m2());
    assert(ops@ =~= annealing_ops());
    ops
}

/// The solver that scrambles: it makes a number of random moves.
pub struct Shuffle {
    pub steps: usize,
}

impl Shuffle {
    /// The scramble of `steps` moves.
    pub fn new(steps: usize) -> (r: Self)
        ensures
            r.steps == steps,
    {
        Self { steps }
    }

    /// The six moves of a scramble: `R`, `F`, `B`, `D`, `U`, `L`.
    pub fn moves() -> (ops: Vec<RubikLayerTransform>)
        ensures
            ops@.len() == 6,
            forall|i: int| 0 <= i < 6 ==> shuffle_index(#[trigger] ops@[i]) == i,
    {
        let mut ops: Vec<RubikLayerTransform> = Vec::new();
        ops.push(RubikLayerTransform::r());
        ops.push(RubikLayerTransform::f());
        ops.push(RubikLayerTransform::b());
        ops.push(RubikLayerTransform::d());
        ops.push(RubikLayerTransform::u());
        ops.push(RubikLayerTransform::l());
        proof {
            crate::layer::lemma_tables_differ();
        }
        ops
    }

    /// The node reached from `rubik` by one move for each number of `picks`:
    /// the number modulo six says which of the six moves is made.
    pub fn replay(rubik: Rubik, picks: &[usize]) -> (node: RubikSolveState)
        ensures
            node.root() == rubik,
            node.path().len() == picks@.len(),
            forall|i: int|
                0 <= i < picks@.len() ==> shuffle_index(#[trigger] node.path()[i]) == picks@[i] % 6,
    {
        let mut state: RubikSolveState = RubikSolveState::new(rubik, Self::moves());
        let mut round: usize = 0;
        while round < picks.len()
            invariant
                round <= picks@.len(),
                state.root() == rubik,
                state.op_set().len() == 6,
                forall|i: int| 0 <= i < 6 ==> shuffle_index(#[trigger] state.op_set()[i]) == i,
                state.path().len() == round,
                forall|i: int|
                    0 <= i < round ==> shuffle_index(#[trigger] state.path()[i]) == picks@[i] % 6,
            decreases picks@.len() - round,
        {
            state = state.transfer(picks[round]);
            round += 1;
        }
        state
    }
}

impl RubikSolver for Shuffle {
    /// As many moves as the scramble has steps, each one of the six.
    open spec fn answers(&self, start: Seq<Cube>, moves: Seq<RubikLayerTransform>) -> bool {
        &&& moves.len() == self.steps
        &&& forall|i: int| 0 <= i < moves.len() ==> is_shuffle_move(#[trigger] moves[i])
    }

    /// A scramble never fails.
    open spec fn owes(&self, start: Seq<Cube>) -> bool {
        true
    }

    fn solve(&self, rubik: Rubik) -> (r: Option<RubikSolveState>) {
        let mut state: RubikSolveState = RubikSolveState::new(rubik, Self::moves());
        let mut round: usize = 0;
        while round < self.steps
            invariant
                round <= self.steps,
                state.root() == rubik,
                state.op_set().len() == 6,
                forall|i: int| 0 <= i < 6 ==> shuffle_index(#[trigger] state.op_set()[i]) == i,
                state.path().len() == round,
                forall|i: int| 0 <= i < round ==> is_shuffle_move(#[trigger] state.path()[i]),
            decreases self.steps - round,
        {
            state = state.random_transfer();
            round += 1;
        }
        Some(state)
    }
}

} // verus!
