//! Moves: turns of single layers, and what is built from them by repeating
//! and by putting one after the other.
use crate::colored::RubikColor;
use crate::cube::{Cube, CubeFace};
use crate::state::{state_wf, Rubik};
use crate::transform::layer::{
    lemma_apply_wf, lemma_derived_moves, lemma_inverse_undoes, RubikLayerTransform,
};
use vstd::prelude::*;

pub mod layer;

verus! {

broadcast use vstd::std_specs::vec::axiom_vec_index_decreases;

/// What a move is, apart from how it is held in memory: a turn of a layer,
/// a move made a number of times, or a list of moves made in order.
pub enum TransformModel {
    Layer(RubikLayerTransform),
    Repeat(Box<TransformModel>, nat),
    Combine(Seq<TransformModel>),
}

impl TransformModel {
    /// Every turn in the move is well formed.
    pub open spec fn wf(self) -> bool
        decreases self,
    {
        match self {
            TransformModel::Layer(t) => t.wf(),
            TransformModel::Repeat(inner, times) => inner.wf(),
            TransformModel::Combine(list) => forall|i: int|
                0 <= i < list.len() ==> (#[trigger] list[i]).wf(),
        }
    }

    /// The state `s` after the move.
    pub open spec fn apply(self, s: Seq<Cube>) -> Seq<Cube>
        decreases self, 0nat, 0nat,
    {
        match self {
            TransformModel::Layer(t) => t.spec_apply(s),
            TransformModel::Repeat(inner, times) => inner.apply_times(times, s),
            TransformModel::Combine(list) => Self::apply_first(list, list.len(), s),
        }
    }

    /// The state `s` after the move has been made `times` times.
    pub open spec fn apply_times(self, times: nat, s: Seq<Cube>) -> Seq<Cube>
        decreases self, 1nat, times,
    {
        if times == 0 {
            s
        } else {
            self.apply(self.apply_times((times - 1) as nat, s))
        }
    }

    /// The state `s` after the first `count` moves of `list`, in order.
    pub open spec fn apply_first(list: Seq<Self>, count: nat, s: Seq<Cube>) -> Seq<Cube>
        decreases list, 1nat, count,
    {
        if count == 0 || count > list.len() {
            s
        } else {
            list[count - 1].apply(Self::apply_first(list, (count - 1) as nat, s))
        }
    }

    /// The move that undoes this one: a turn is inverted, a repeated move
    /// repeats the inverse as often, a list inverts each of its moves and
    /// makes them in the opposite order.
    pub open spec fn inverse(self) -> Self
        decreases self,
    {
        match self {
            TransformModel::Layer(t) => TransformModel::Layer(t.spec_inverse()),
            TransformModel::Repeat(inner, times) => TransformModel::Repeat(
                Box::new(inner.inverse()),
                times,
            ),
            TransformModel::Combine(list) => TransformModel::Combine(
                Seq::new(
                    list.len(),
                    |i: int|
                        if 0 <= i < list.len() {
                            list[list.len() - 1 - i].inverse()
                        } else {
                            self
                        },
                ),
            ),
        }
    }
}

/// The moves of `list`, each inverted, in the opposite order.
pub open spec fn inverse_list(list: Seq<TransformModel>) -> Seq<TransformModel> {
    TransformModel::Combine(list).inverse()->Combine_0
}

/// The state `s` after the turns `moves`, made in order.
pub open spec fn apply_moves(moves: Seq<RubikLayerTransform>, s: Seq<Cube>) -> Seq<Cube>
    decreases moves.len(),
{
    if moves.len() == 0 {
        s
    } else {
        moves.last().spec_apply(apply_moves(moves.drop_last(), s))
    }
}

/// The turns that undo `moves`: each inverted, in the opposite order.
pub open spec fn inverse_moves(moves: Seq<RubikLayerTransform>) -> Seq<RubikLayerTransform> {
    Seq::new(moves.len(), |i: int| moves[moves.len() - 1 - i].spec_inverse())
}

/// Every turn of `moves` is well formed.
pub open spec fn moves_wf(moves: Seq<RubikLayerTransform>) -> bool {
    forall|i: int| 0 <= i < moves.len() ==> (#[trigger] moves[i]).wf()
}

/// A well-formed move leaves a state of 27 cubies a state of 27 cubies.
pub proof fn lemma_apply_len(t: TransformModel, s: Seq<Cube>)
    requires
        t.wf(),
        s.len() == 27,
    ensures
        t.apply(s).len() == 27,
    decreases t, 0nat, 0nat,
{
    match t {
        TransformModel::Layer(m) => {
            m.lemma_apply(s);
        },
        TransformModel::Repeat(inner, times) => {
            lemma_apply_times_len(*inner, times, s);
        },
        TransformModel::Combine(list) => {
            lemma_apply_first_len(list, list.len(), s);
        },
    }
}

/// As [`lemma_apply_len`], for a move made `times` times.
pub proof fn lemma_apply_times_len(t: TransformModel, times: nat, s: Seq<Cube>)
    requires
        t.wf(),
        s.len() == 27,
    ensures
        t.apply_times(times, s).len() == 27,
    decreases t, 1nat, times,
{
    if times > 0 {
        lemma_apply_times_len(t, (times - 1) as nat, s);
        lemma_apply_len(t, t.apply_times((times - 1) as nat, s));
    }
}

/// As [`lemma_apply_len`], for the first `count` moves of a list.
pub proof fn lemma_apply_first_len(list: Seq<TransformModel>, count: nat, s: Seq<Cube>)
    requires
        TransformModel::Combine(list).wf(),
        s.len() == 27,
    ensures
        TransformModel::apply_first(list, count, s).len() == 27,
    decreases list, 1nat, count,
{
    if count == 0 || count > list.len() {
    } else {
        lemma_apply_first_len(list, (count - 1) as nat, s);
        assert(TransformModel::Combine(list)->Combine_0 == list);
        lemma_apply_len(list[count - 1], TransformModel::apply_first(list, (count - 1) as nat, s));
    }
}

/// The inverse of a well-formed move is well formed.
pub proof fn lemma_inverse_wf(t: TransformModel)
    requires
        t.wf(),
    ensures
        t.inverse().wf(),
    decreases t,
{
    match t {
        TransformModel::Layer(m) => {
            lemma_derived_moves(m);
        },
        TransformModel::Repeat(inner, times) => {
            lemma_inverse_wf(*inner);
        },
        TransformModel::Combine(list) => {
            let inv = inverse_list(list);
            assert forall|i: int| 0 <= i < inv.len() implies (#[trigger] inv[i]).wf() by {
                lemma_inverse_wf(list[list.len() - 1 - i]);
            }
        },
    }
}

/// A move made once and then `n` times is the move made `n` times and then
/// once.
pub proof fn lemma_apply_times_shift(t: TransformModel, n: nat, s: Seq<Cube>)
    ensures
        t.apply_times(n + 1, s) == t.apply_times(n, t.apply(s)),
    decreases n,
{
    if n > 0 {
        lemma_apply_times_shift(t, (n - 1) as nat, s);
        assert(t.apply_times(n + 1, s) == t.apply(t.apply_times(n, s)));
        assert(t.apply_times(n, t.apply(s)) == t.apply(
            t.apply_times((n - 1) as nat, t.apply(s)),
        ));
    } else {
        assert(t.apply_times(1, s) == t.apply(t.apply_times(0, s)));
    }
}

/// A well-formed move followed by its inverse leaves every state as it was.
pub proof fn lemma_transform_undo(t: TransformModel, s: Seq<Cube>)
    requires
        t.wf(),
        s.len() == 27,
    ensures
        t.inverse().apply(t.apply(s)) == s,
    decreases t, 0nat, 0nat,
{
    match t {
        TransformModel::Layer(m) => {
            lemma_inverse_undoes(m, s);
        },
        TransformModel::Repeat(inner, times) => {
            lemma_repeat_undo(*inner, times, s);
        },
        TransformModel::Combine(list) => {
            lemma_list_undo(list, list.len(), s);
        },
    }
}

/// A well-formed move made `n` times, and then its inverse made `n` times,
/// leaves every state as it was.
pub proof fn lemma_repeat_undo(t: TransformModel, n: nat, s: Seq<Cube>)
    requires
        t.wf(),
        s.len() == 27,
    ensures
        t.inverse().apply_times(n, t.apply_times(n, s)) == s,
    decreases t, 1nat, n,
{
    if n > 0 {
        let before = t.apply_times((n - 1) as nat, s);
        lemma_apply_times_len(t, (n - 1) as nat, s);
        assert(t.apply_times(n, s) == t.apply(before));
        lemma_apply_times_shift(t.inverse(), (n - 1) as nat, t.apply(before));
        lemma_transform_undo(t, before);
        lemma_repeat_undo(t, (n - 1) as nat, s);
    }
}

/// After the whole of a well-formed list, the first `j` moves of the inverse
/// list lead back to where the list stood before its last `j` moves.
pub proof fn lemma_list_undo(list: Seq<TransformModel>, j: nat, s: Seq<Cube>)
    requires
        TransformModel::Combine(list).wf(),
        s.len() == 27,
        j <= list.len(),
    ensures
        TransformModel::apply_first(
            inverse_list(list),
            j,
            TransformModel::apply_first(list, list.len(), s),
        ) == TransformModel::apply_first(list, (list.len() - j) as nat, s),
    decreases list, 1nat, j,
{
    if j > 0 {
        let n = list.len();
        let inv = inverse_list(list);
        let end = TransformModel::apply_first(list, n, s);
        lemma_list_undo(list, (j - 1) as nat, s);
        let here = TransformModel::apply_first(list, (n - j + 1) as nat, s);
        let before = TransformModel::apply_first(list, (n - j) as nat, s);
        assert(TransformModel::apply_first(inv, (j - 1) as nat, end) == here);
        assert(inv[j - 1] == list[n - j].inverse());
        assert(here == list[n - j].apply(before));
        lemma_apply_first_len(list, (n - j) as nat, s);
        lemma_transform_undo(list[n - j], before);
    }
}

/// Turns made in order leave a state of 27 cubies a state of 27 cubies.
pub proof fn lemma_apply_moves_len(moves: Seq<RubikLayerTransform>, s: Seq<Cube>)
    requires
        moves_wf(moves),
        s.len() == 27,
    ensures
        apply_moves(moves, s).len() == 27,
    decreases moves.len(),
{
    if moves.len() > 0 {
        lemma_apply_moves_len(moves.drop_last(), s);
        moves.last().lemma_apply(apply_moves(moves.drop_last(), s));
    }
}

/// Well-formed turns leave valid rotations valid.
pub proof fn lemma_apply_moves_wf(moves: Seq<RubikLayerTransform>, s: Seq<Cube>)
    requires
        moves_wf(moves),
        state_wf(s),
    ensures
        state_wf(apply_moves(moves, s)),
    decreases moves.len(),
{
    if moves.len() > 0 {
        lemma_apply_moves_wf(moves.drop_last(), s);
        lemma_apply_wf(moves.last(), apply_moves(moves.drop_last(), s));
    }
}

/// Making the turns `a` and then the turns `b` is making the turns of `a`
/// followed by those of `b`.
pub proof fn lemma_apply_moves_concat(
    a: Seq<RubikLayerTransform>,
    b: Seq<RubikLayerTransform>,
    s: Seq<Cube>,
)
    ensures
        apply_moves(a + b, s) == apply_moves(b, apply_moves(a, s)),
    decreases b.len(),
{
    if b.len() == 0 {
        assert(a + b =~= a);
    } else {
        lemma_apply_moves_concat(a, b.drop_last(), s);
        assert((a + b).drop_last() =~= a + b.drop_last());
        assert((a + b).last() == b.last());
    }
}

/// A list of turns is the turns made in order.
pub proof fn lemma_sequence_is_moves(moves: Seq<RubikLayerTransform>, count: nat, s: Seq<Cube>)
    requires
        count <= moves.len(),
    ensures
        TransformModel::apply_first(
            Seq::new(moves.len(), |i: int| TransformModel::Layer(moves[i])),
            count,
            s,
        ) == apply_moves(moves.take(count as int), s),
    decreases count,
{
    let list = Seq::new(moves.len(), |i: int| TransformModel::Layer(moves[i]));
    if count > 0 {
        lemma_sequence_is_moves(moves, (count - 1) as nat, s);
        assert(moves.take(count as int).drop_last() =~= moves.take(count - 1));
        assert(moves.take(count as int).last() == moves[count - 1]);
        assert(list[count - 1].apply(TransformModel::apply_first(list, (count - 1) as nat, s))
            == moves[count - 1].spec_apply(TransformModel::apply_first(list, (count - 1) as nat, s)));
    } else {
        assert(moves.take(0).len() == 0);
    }
}

/// Scramble and way back: after the turns `moves`, their inverses in the
/// opposite order restore the state from which the turns were made.
pub proof fn lemma_moves_undo(moves: Seq<RubikLayerTransform>, s: Seq<Cube>)
    requires
        moves_wf(moves),
        s.len() == 27,
    ensures
        apply_moves(inverse_moves(moves), apply_moves(moves, s)) == s,
    decreases moves.len(),
{
    if moves.len() == 0 {
        assert(inverse_moves(moves).len() == 0);
    } else {
        let head = moves.drop_last();
        let last = moves.last();
        let mid = apply_moves(head, s);
        lemma_apply_moves_len(head, s);
        // the way back starts with the inverse of the last turn
        let back = inverse_moves(moves);
        assert(back =~= seq![last.spec_inverse()] + inverse_moves(head));
        lemma_apply_moves_concat(seq![last.spec_inverse()], inverse_moves(head), last.spec_apply(mid));
        let one = seq![last.spec_inverse()];
        assert(one.drop_last().len() == 0);
        assert(apply_moves(one, last.spec_apply(mid)) == last.spec_inverse().spec_apply(
            apply_moves(one.drop_last(), last.spec_apply(mid)),
        ));
        lemma_inverse_undoes(last, mid);
        lemma_moves_undo(head, s);
    }
}

/// A move: a turn of one layer, a move repeated, or a list of moves.
#[derive(Debug)]
pub enum RubikTransform {
    Layer(RubikLayerTransform),
    Repeat(Box<Self>, usize),
    Combine(Vec<Self>),
}

impl RubikTransform {
    /// What the move is, apart from how it is held in memory.
    pub open spec fn model(&self) -> TransformModel
        decreases self,
    {
        match self {
            RubikTransform::Layer(t) => TransformModel::Layer(*t),
            RubikTransform::Repeat(inner, times) => TransformModel::Repeat(
                Box::new(inner.model()),
                *times as nat,
            ),
            RubikTransform::Combine(list) => TransformModel::Combine(
                Seq::new(
                    list@.len(),
                    |i: int|
                        if 0 <= i < list@.len() {
                            list@[i].model()
                        } else {
                            TransformModel::Combine(Seq::empty())
                        },
                ),
            ),
        }
    }
}

impl RubikTransform {
    /// Makes the move on `rubik`: a turn is made, a repeated move is made as
    /// often as it says (not at all for a count of zero), the moves of a list
    /// are made in order.
    pub fn apply_on(&self, rubik: &mut Rubik)
        ensures
            final(rubik)@ == self@.apply(old(rubik)@),
        decreases self,
    {
        match self {
            RubikTransform::Layer(layer) => layer.apply_on(rubik),
            RubikTransform::Repeat(transform, times) => {
                let mut i: usize = 0;
                while i < *times
                    invariant
                        i <= *times,
                        decreases_to!(self => transform),
                        rubik@ == transform@.apply_times(i as nat, old(rubik)@),
                    decreases *times - i,
                {
                    transform.apply_on(rubik);
                    i += 1;
                }
            },
            RubikTransform::Combine(transforms) => {
                let ghost models = self@->Combine_0;
                let mut i: usize = 0;
                assert(models.len() == transforms@.len());
                while i < transforms.len()
                    invariant
                        i <= transforms@.len(),
                        *self == RubikTransform::Combine(*transforms),
                        models == self@->Combine_0,
                        models.len() == transforms@.len(),
                        rubik@ == TransformModel::apply_first(models, i as nat, old(rubik)@),
                    decreases transforms@.len() - i,
                {
                    assert(models[i as int] == transforms@[i as int]@);
                    transforms[i].apply_on(rubik);
                    i += 1;
                }
            },
        }
    }

    /// The move that undoes this one.
    pub fn inverse(self) -> (r: Self)
        ensures
            r@ == self@.inverse(),
        decreases self,
    {
        match self {
            RubikTransform::Layer(layer) => RubikTransform::Layer(layer.inverse()),
            RubikTransform::Repeat(transform, times) => {
                let inner: RubikTransform = *transform;
                RubikTransform::Repeat(Box::new(inner.inverse()), times)
            },
            RubikTransform::Combine(transforms) => {
                let ghost whole = transforms;
                let ghost models = self@->Combine_0;
                let mut rest: Vec<RubikTransform> = transforms;
                let mut out: Vec<RubikTransform> = Vec::new();
                assert(models.len() == whole@.len());
                while rest.len() > 0
                    invariant
                        self == RubikTransform::Combine(whole),
                        models == self@->Combine_0,
                        models.len() == whole@.len(),
                        rest@ == whole@.take(rest@.len() as int),
                        rest@.len() <= whole@.len(),
                        out@.len() == whole@.len() - rest@.len(),
                        forall|i: int|
                            0 <= i < out@.len() ==> (#[trigger] out@[i])@ == models[models.len() - 1
                                - i].inverse(),
                    decreases rest@.len(),
                {
                    let ghost n = rest@.len() - 1;
                    let last: RubikTransform = rest.pop().unwrap();
                    assert(last == whole@[n]);
                    assert(models[n] == whole@[n]@);
                    assert(rest@ =~= whole@.take(rest@.len() as int));
                    out.push(last.inverse());
                }
                let r = RubikTransform::Combine(out);
                assert(r@->Combine_0 =~= self@.inverse()->Combine_0);
                r
            },
        }
    }

    /// The move made `n` times.
    pub fn repeat(self, n: usize) -> (r: Self)
        ensures
            r@ == TransformModel::Repeat(Box::new(self@), n as nat),
    {
        Self::Repeat(Box::new(self), n)
    }

    /// The list of the turns `moves`, to be made in order.
    pub fn sequence(moves: &[RubikLayerTransform]) -> (r: Self)
        ensures
            r@ == TransformModel::Combine(
                Seq::new(moves@.len(), |i: int| TransformModel::Layer(moves@[i])),
            ),
    {
        let mut out: Vec<RubikTransform> = Vec::new();
        let mut i: usize = 0;
        while i < moves.len()
            invariant
                i <= moves@.len(),
                out@.len() == i,
                forall|k: int| 0 <= k < i ==> (#[trigger] out@[k])@ == TransformModel::Layer(moves@[k]),
            decreases moves@.len() - i,
        {
            out.push(RubikTransform::Layer(moves[i]));
            i += 1;
        }
        let r = RubikTransform::Combine(out);
        assert(r@->Combine_0 =~= Seq::new(
            moves@.len(),
            |i: int| TransformModel::Layer(moves@[i]),
        ));
        r
    }
}

impl Rubik {
    /// Makes the turn `turn` on the puzzle.
    pub fn turn(&mut self, turn: &RubikLayerTransform) -> (ret: &mut Self)
        ensures
            ret@ == turn.spec_apply(old(self)@),
            *final(self) == *final(ret),
    {
        turn.apply_on(self);
        self
    }

    /// Turns the right layer by a quarter, clockwise.
    pub fn r(&mut self) -> (ret: &mut Self)
        ensures
            ret@ == RubikLayerTransform::r().spec_apply(old(self)@),
            *final(self) == *final(ret),
    {
        self.turn(&RubikLayerTransform::r())
    }

    /// Turns the left layer by a quarter, clockwise.
    pub fn l(&mut self) -> (ret: &mut Self)
        ensures
            ret@ == RubikLayerTransform::l().spec_apply(old(self)@),
            *final(self) == *final(ret),
    {
        self.turn(&RubikLayerTransform::l())
    }

    /// Turns the upper layer by a quarter, clockwise.
    pub fn u(&mut self) -> (ret: &mut Self)
        ensures
            ret@ == RubikLayerTransform::u().spec_apply(old(self)@),
            *final(self) == *final(ret),
    {
        self.turn(&RubikLayerTransform::u())
    }

    /// Turns the lower layer by a quarter, clockwise.
    pub fn d(&mut self) -> (ret: &mut Self)
        ensures
            ret@ == RubikLayerTransform::d().spec_apply(old(self)@),
            *final(self) == *final(ret),
    {
        self.turn(&RubikLayerTransform::d())
    }

    /// Turns the front layer by a quarter, clockwise.
    pub fn f(&mut self) -> (ret: &mut Self)
        ensures
            ret@ == RubikLayerTransform::f().spec_apply(old(self)@),
            *final(self) == *final(ret),
    {
        self.turn(&RubikLayerTransform::f())
    }

    /// Turns the back layer by a quarter, clockwise.
    pub fn b(&mut self) -> (ret: &mut Self)
        ensures
            ret@ == RubikLayerTransform::b().spec_apply(old(self)@),
            *final(self) == *final(ret),
    {
        self.turn(&RubikLayerTransform::b())
    }

    /// The colour of the face `face` in the usual colouring.
    pub fn get_color(&self, face: CubeFace) -> (color: RubikColor)
        ensures
            color == *RubikColor::classic_map().spec_get(face),
    {
        *RubikColor::classic_map().get(face)
    }

    /// Makes the move `operation` on the puzzle.
    pub fn execute(&mut self, operation: &RubikTransform) -> (ret: &mut Self)
        ensures
            ret@ == operation@.apply(old(self)@),
            *final(self) == *final(ret),
    {
        operation.apply_on(self);
        self
    }
}

impl From<RubikLayerTransform> for RubikTransform {
    /// The turn as a move.
    fn from(val: RubikLayerTransform) -> (r: Self) {
        RubikTransform::Layer(val)
    }
}

impl vstd::std_specs::convert::FromSpecImpl<RubikLayerTransform> for RubikTransform {
    open spec fn obeys_from_spec() -> bool {
        true
    }

    open spec fn from_spec(val: RubikLayerTransform) -> Self {
        RubikTransform::Layer(val)
    }
}

impl Clone for RubikTransform {
    /// A copy of the move.
    fn clone(&self) -> (r: Self)
        ensures
            r@ == self@,
        decreases self,
    {
        match self {
            RubikTransform::Layer(layer) => RubikTransform::Layer(*layer),
            RubikTransform::Repeat(transform, times) => RubikTransform::Repeat(
                Box::new((**transform).clone()),
                *times,
            ),
            RubikTransform::Combine(transforms) => {
                let ghost models = self@->Combine_0;
                let mut out: Vec<RubikTransform> = Vec::new();
                let mut i: usize = 0;
                assert(models.len() == transforms@.len());
                while i < transforms.len()
                    invariant
                        i <= transforms@.len(),
                        *self == RubikTransform::Combine(*transforms),
                        models == self@->Combine_0,
                        models.len() == transforms@.len(),
                        out@.len() == i,
                        forall|k: int| 0 <= k < i ==> (#[trigger] out@[k])@ == models[k],
                    decreases transforms@.len() - i,
                {
                    assert(models[i as int] == transforms@[i as int]@);
                    out.push(transforms[i].clone());
                    i += 1;
                }
                let r = RubikTransform::Combine(out);
                assert(r@->Combine_0 =~= models);
                r
            },
        }
    }
}

impl View for RubikTransform {
    type V = TransformModel;

    open spec fn view(&self) -> TransformModel {
        self.model()
    }
}

} // verus!
