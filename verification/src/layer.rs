//! The nine slices of the puzzle and the 27 places of its cubies.
//!
//! A place is numbered `9 * depth + 3 * row + column`: depth 0 is the front,
//! row 0 the top, column 0 the left, all seen from the front. A layer lists
//! its nine places row by row as they appear to somebody who looks straight
//! at the layer from outside (for a middle layer: from the side of the outer
//! layer it turns with), so that a clockwise turn carries place 0 of the list
//! to place 2, 2 to 8, 8 to 6 and 6 to 0.
use vstd::prelude::*;

verus! {

/// The places of the front layer.
pub open spec fn f_table() -> Seq<u8> {
    seq![0u8, 1, 2, 3, 4, 5, 6, 7, 8]
}

/// The places of the back layer, seen from behind.
pub open spec fn b_table() -> Seq<u8> {
    seq![20u8, 19, 18, 23, 22, 21, 26, 25, 24]
}

/// The places of the slice between front and back, seen from behind.
pub open spec fn s_table() -> Seq<u8> {
    seq![11u8, 10, 9, 14, 13, 12, 17, 16, 15]
}

/// The places of the left layer, seen from the left.
pub open spec fn l_table() -> Seq<u8> {
    seq![18u8, 9, 0, 21, 12, 3, 24, 15, 6]
}

/// The places of the slice between left and right, seen from the left.
pub open spec fn m_table() -> Seq<u8> {
    seq![19u8, 10, 1, 22, 13, 4, 25, 16, 7]
}

/// The places of the right layer, seen from the right.
pub open spec fn r_table() -> Seq<u8> {
    seq![2u8, 11, 20, 5, 14, 23, 8, 17, 26]
}

/// The places of the upper layer, seen from above.
pub open spec fn u_table() -> Seq<u8> {
    seq![18u8, 19, 20, 9, 10, 11, 0, 1, 2]
}

/// The places of the lower layer, seen from below.
pub open spec fn d_table() -> Seq<u8> {
    seq![6u8, 7, 8, 15, 16, 17, 24, 25, 26]
}

/// The places of the slice between top and bottom, seen from below.
pub open spec fn e_table() -> Seq<u8> {
    seq![3u8, 4, 5, 12, 13, 14, 21, 22, 23]
}

/// `t` is the table of one of the nine layers.
pub open spec fn is_layer_table(t: Seq<u8>) -> bool {
    t == f_table() || t == b_table() || t == s_table() || t == l_table() || t == m_table() || t
        == r_table() || t == u_table() || t == d_table() || t == e_table()
}

/// `t` with every entry moved by `offset`.
pub open spec fn bias_table(t: Seq<u8>, offset: int) -> Seq<u8> {
    Seq::new(9, |j: int| (t[j] + offset) as u8)
}

/// `t` with its three rows in the opposite order.
pub open spec fn flip_vertical_table(t: Seq<u8>) -> Seq<u8> {
    seq![t[6], t[7], t[8], t[3], t[4], t[5], t[0], t[1], t[2]]
}

/// `t` with each of its three rows reversed.
pub open spec fn flip_horizontal_table(t: Seq<u8>) -> Seq<u8> {
    seq![t[2], t[1], t[0], t[5], t[4], t[3], t[8], t[7], t[6]]
}

/// A layer's table has nine entries, all of them places of the puzzle, and no
/// place twice.
pub proof fn lemma_layer_table(t: Seq<u8>)
    requires
        is_layer_table(t),
    ensures
        t.len() == 9,
        forall|j: int| 0 <= j < 9 ==> #[trigger] t[j] < 27,
        forall|i: int, j: int| 0 <= i < j < 9 ==> #[trigger] t[i] != #[trigger] t[j],
{
}

/// Which places a layer holds, by depth, row and column of the place `k`.
pub open spec fn layer_holds(t: Seq<u8>, k: int) -> bool {
    if t == f_table() {
        k / 9 == 0
    } else if t == s_table() {
        k / 9 == 1
    } else if t == b_table() {
        k / 9 == 2
    } else if t == l_table() {
        k % 3 == 0
    } else if t == m_table() {
        k % 3 == 1
    } else if t == r_table() {
        k % 3 == 2
    } else if t == u_table() {
        (k % 9) / 3 == 0
    } else if t == e_table() {
        (k % 9) / 3 == 1
    } else {
        (k % 9) / 3 == 2
    }
}

proof fn lemma_table_members(t: Seq<u8>, k: int, witness: int)
    requires
        t.len() == 9,
        0 <= k < 27,
        0 <= witness < 9,
        forall|j: int| 0 <= j < 9 ==> layer_holds(t, #[trigger] t[j] as int),
        layer_holds(t, k) ==> t[witness] == k,
    ensures
        t.contains(k as u8) <==> layer_holds(t, k),
{
    if t.contains(k as u8) {
        let j = t.index_of(k as u8);
        assert(layer_holds(t, t[j] as int));
    }
}

/// A layer holds the places of one depth, one row or one column.
pub proof fn lemma_layer_members(t: Seq<u8>, k: int)
    requires
        is_layer_table(t),
        0 <= k < 27,
    ensures
        t.contains(k as u8) <==> layer_holds(t, k),
{
    let column = k % 3;
    let row = (k % 9) / 3;
    let depth = k / 9;
    assert(f_table()[0] != s_table()[0] && f_table()[0] != b_table()[0] && f_table()[0]
        != l_table()[0] && f_table()[0] != m_table()[0] && f_table()[0] != r_table()[0]
        && f_table()[0] != u_table()[0] && f_table()[0] != e_table()[0] && f_table()[0]
        != d_table()[0]);
    if t == f_table() {
        lemma_table_members(t, k, 3 * row + column);
    } else if t == s_table() {
        lemma_table_members(t, k, 3 * row + (2 - column));
    } else if t == b_table() {
        lemma_table_members(t, k, 3 * row + (2 - column));
    } else if t == l_table() {
        lemma_table_members(t, k, 3 * row + (2 - depth));
    } else if t == m_table() {
        lemma_table_members(t, k, 3 * row + (2 - depth));
    } else if t == r_table() {
        lemma_table_members(t, k, 3 * row + depth);
    } else if t == u_table() {
        lemma_table_members(t, k, 3 * (2 - depth) + column);
    } else if t == e_table() {
        lemma_table_members(t, k, 3 * depth + column);
    } else {
        lemma_table_members(t, k, 3 * depth + column);
    }
}

/// Whether the layer `table` is crossed by `layer`: of its middle and two
/// opposite corners, `layer` holds some and not all.
pub open spec fn crossed(layer: Seq<u8>, table: Seq<u8>) -> bool {
    layer.contains(table[0]) != layer.contains(table[4]) || layer.contains(table[4])
        != layer.contains(table[8])
}

/// No two of the nine tables are the same.
pub proof fn lemma_tables_differ()
    ensures
        f_table() != b_table() && f_table() != s_table() && f_table() != l_table() && f_table()
            != m_table() && f_table() != r_table() && f_table() != u_table() && f_table()
            != d_table() && f_table() != e_table(),
        b_table() != s_table() && b_table() != l_table() && b_table() != m_table() && b_table()
            != r_table() && b_table() != u_table() && b_table() != d_table() && b_table()
            != e_table(),
        s_table() != l_table() && s_table() != m_table() && s_table() != r_table() && s_table()
            != u_table() && s_table() != d_table() && s_table() != e_table(),
        l_table() != m_table() && l_table() != r_table() && l_table() != u_table() && l_table()
            != d_table() && l_table() != e_table(),
        m_table() != r_table() && m_table() != u_table() && m_table() != d_table() && m_table()
            != e_table(),
        r_table() != u_table() && r_table() != d_table() && r_table() != e_table(),
        u_table() != d_table() && u_table() != e_table(),
        d_table() != e_table(),
{
    assert(f_table()[0] == 0 && f_table()[8] == 8);
    assert(b_table()[0] == 20 && b_table()[8] == 24);
    assert(s_table()[0] == 11 && s_table()[8] == 15);
    assert(l_table()[0] == 18 && l_table()[8] == 6);
    assert(m_table()[0] == 19 && m_table()[8] == 7);
    assert(r_table()[0] == 2 && r_table()[8] == 26);
    assert(u_table()[0] == 18 && u_table()[8] == 2);
    assert(d_table()[0] == 6 && d_table()[8] == 26);
    assert(e_table()[0] == 3 && e_table()[8] == 23);
}

/// Every layer crosses two of the three layers front, right and top.
pub proof fn lemma_crossing_layers(layer: Seq<u8>)
    requires
        is_layer_table(layer),
    ensures
        (crossed(layer, f_table()) && crossed(layer, r_table())) || (crossed(layer, f_table())
            && crossed(layer, u_table())) || (crossed(layer, r_table()) && crossed(
            layer,
            u_table(),
        )),
{
    lemma_tables_differ();
    assert(f_table()[0] == 0 && f_table()[4] == 4 && f_table()[8] == 8);
    assert(r_table()[0] == 2 && r_table()[4] == 14 && r_table()[8] == 26);
    assert(u_table()[0] == 18 && u_table()[4] == 10 && u_table()[8] == 2);
    lemma_layer_members(layer, 0);
    lemma_layer_members(layer, 4);
    lemma_layer_members(layer, 8);
    lemma_layer_members(layer, 2);
    lemma_layer_members(layer, 14);
    lemma_layer_members(layer, 26);
    lemma_layer_members(layer, 18);
    lemma_layer_members(layer, 10);
    if layer == f_table() || layer == s_table() || layer == b_table() {
        assert(crossed(layer, r_table()));
        assert(crossed(layer, u_table()));
    } else if layer == l_table() || layer == m_table() || layer == r_table() {
        assert(crossed(layer, f_table()));
        assert(crossed(layer, u_table()));
    } else {
        assert(crossed(layer, f_table()));
        assert(crossed(layer, r_table()));
    }
}

/// One of the nine slices that a move turns: the places of its nine cubies.
#[derive(Debug, Hash, PartialEq, Eq, Clone, Copy)]
pub struct RubikLayer {
    // places of the cubies, in clockwise order
    cude_indexes: [u8; 9],
}

impl View for RubikLayer {
    type V = Seq<u8>;

    /// The nine places of the layer, in the layer's order.
    closed spec fn view(&self) -> Seq<u8> {
        self.cude_indexes@
    }
}

impl RubikLayer {
    /// Every layer that a program can hold is one of the nine.
    #[verifier::type_invariant]
    pub open spec fn wf(self) -> bool {
        is_layer_table(self@)
    }

    /// The layer with the places `t`.
    pub closed spec fn with_table(t: Seq<u8>) -> Self {
        RubikLayer { cude_indexes: [t[0], t[1], t[2], t[3], t[4], t[5], t[6], t[7], t[8]] }
    }

    /// The layer with the places `t` has the places `t`.
    pub broadcast proof fn lemma_with_table(t: Seq<u8>)
        requires
            t.len() == 9,
        ensures
            (#[trigger] Self::with_table(t))@ == t,
    {
        assert(Self::with_table(t).cude_indexes@ =~= t);
    }

    /// Two layers with the same places are the same layer.
    pub broadcast proof fn lemma_view_injective(a: Self, b: Self)
        requires
            #[trigger] a@ == #[trigger] b@,
        ensures
            a == b,
    {
        assert(a.cude_indexes@ =~= b.cude_indexes@);
        assert(a.cude_indexes == b.cude_indexes);
    }

    fn bias(table: [u8; 9], offset: i8) -> (r: [u8; 9])
        requires
            forall|j: int| 0 <= j < 9 ==> #[trigger] table[j] < 128 && 0 <= table[j] + offset < 128,
        ensures
            r@ == bias_table(table@, offset as int),
    {
        let r: [u8; 9] = [
            (table[0] as i8 + offset) as u8,
            (table[1] as i8 + offset) as u8,
            (table[2] as i8 + offset) as u8,
            (table[3] as i8 + offset) as u8,
            (table[4] as i8 + offset) as u8,
            (table[5] as i8 + offset) as u8,
            (table[6] as i8 + offset) as u8,
            (table[7] as i8 + offset) as u8,
            (table[8] as i8 + offset) as u8,
        ];
        assert(r@ =~= bias_table(table@, offset as int));
        r
    }

    fn flip_vertical(table: [u8; 9]) -> (r: [u8; 9])
        ensures
            r@ == flip_vertical_table(table@),
    {
        let r: [u8; 9] = [
            table[6],
            table[7],
            table[8],
            table[3],
            table[4],
            table[5],
            table[0],
            table[1],
            table[2],
        ];
        assert(r@ =~= flip_vertical_table(table@));
        r
    }

    fn flip_horizonal(table: [u8; 9]) -> (r: [u8; 9])
        ensures
            r@ == flip_horizontal_table(table@),
    {
        let r: [u8; 9] = [
            table[2],
            table[1],
            table[0],
            table[5],
            table[4],
            table[3],
            table[8],
            table[7],
            table[6],
        ];
        assert(r@ =~= flip_horizontal_table(table@));
        r
    }

    /// The places of the layer's cubies, in clockwise order.
    pub fn indexes(&self) -> (r: &[u8; 9])
        ensures
            r@ == self@,
            is_layer_table(r@),
    {
        proof {
            use_type_invariant(self);
        }
        &self.cude_indexes
    }

    /// The letter that names the layer.
    pub fn marker(&self) -> (r: &'static str)
        ensures
            r@ == Self::spec_marker(self@),
    {
        proof {
            use_type_invariant(self);
        }
        let first: u8 = self.cude_indexes[0];
        let last: u8 = self.cude_indexes[8];
        if first == 0 && last == 8 {
            "F"
        } else if first == 20 && last == 24 {
            "B"
        } else if first == 11 && last == 15 {
            "S"
        } else if first == 18 && last == 6 {
            "L"
        } else if first == 19 && last == 7 {
            "M"
        } else if first == 2 && last == 26 {
            "R"
        } else if first == 18 && last == 2 {
            "U"
        } else if first == 6 && last == 26 {
            "D"
        } else {
            "E"
        }
    }

    /// The letter of the layer with table `t`.
    pub open spec fn spec_marker(t: Seq<u8>) -> Seq<char> {
        if t == f_table() {
            "F"@
        } else if t == b_table() {
            "B"@
        } else if t == s_table() {
            "S"@
        } else if t == l_table() {
            "L"@
        } else if t == m_table() {
            "M"@
        } else if t == r_table() {
            "R"@
        } else if t == u_table() {
            "U"@
        } else if t == d_table() {
            "D"@
        } else {
            "E"@
        }
    }

    /// The front layer.
    pub fn f() -> (r: Self)
        ensures
            r@ == f_table(),
    {
        let t: [u8; 9] = [0, 1, 2, 3, 4, 5, 6, 7, 8];
        assert(t@ =~= f_table());
        Self { cude_indexes: t }
    }

    /// The back layer: the front one seen from behind, two slices further.
    pub fn b() -> (r: Self)
        ensures
            r@ == b_table(),
    {
        let t: [u8; 9] = Self::bias(Self::flip_horizonal(*Self::f().indexes()), 18);
        assert(t@ =~= b_table());
        Self { cude_indexes: t }
    }

    /// The slice between front and back, which turns with the back.
    pub fn s() -> (r: Self)
        ensures
            r@ == s_table(),
    {
        let t: [u8; 9] = Self::bias(Self::flip_horizonal(*Self::f().indexes()), 9);
        assert(t@ =~= s_table());
        Self { cude_indexes: t }
    }

    /// The left layer.
    pub fn l() -> (r: Self)
        ensures
            r@ == l_table(),
    {
        let t: [u8; 9] = [18, 9, 0, 21, 12, 3, 24, 15, 6];
        assert(t@ =~= l_table());
        Self { cude_indexes: t }
    }

    /// The slice between left and right, which turns with the left.
    pub fn m() -> (r: Self)
        ensures
            r@ == m_table(),
    {
        let t: [u8; 9] = Self::bias(*Self::l().indexes(), 1);
        assert(t@ =~= m_table());
        Self { cude_indexes: t }
    }

    /// The right layer: the left one seen from the other side.
    pub fn r() -> (r: Self)
        ensures
            r@ == r_table(),
    {
        let t: [u8; 9] = Self::bias(Self::flip_horizonal(*Self::l().indexes()), 2);
        assert(t@ =~= r_table());
        Self { cude_indexes: t }
    }

    /// The upper layer.
    pub fn u() -> (r: Self)
        ensures
            r@ == u_table(),
    {
        let t: [u8; 9] = [18, 19, 20, 9, 10, 11, 0, 1, 2];
        assert(t@ =~= u_table());
        Self { cude_indexes: t }
    }

    /// The lower layer: the upper one seen from below.
    pub fn d() -> (r: Self)
        ensures
            r@ == d_table(),
    {
        let t: [u8; 9] = Self::bias(Self::flip_vertical(*Self::u().indexes()), 6);
        assert(t@ =~= d_table());
        Self { cude_indexes: t }
    }

    /// The slice between top and bottom, which turns with the bottom.
    pub fn e() -> (r: Self)
        ensures
            r@ == e_table(),
    {
        let t: [u8; 9] = Self::bias(*Self::d().indexes(), -3);
        assert(t@ =~= e_table());
        Self { cude_indexes: t }
    }
}

} // verus!
