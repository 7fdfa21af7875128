//! The 27 places of the puzzle, by name.
use crate::layer::{
    b_table, d_table, e_table, f_table, l_table, m_table, r_table, s_table, u_table, RubikLayer,
};
use vstd::prelude::*;

verus! {

/// A place of the puzzle. The letters name the outer layers that meet there;
/// `C` is the core. Place `9 * depth + 3 * row + column` is the one at that
/// depth behind the front, in that row from the top and that column from the
/// left.
#[derive(Debug, Clone, Copy, PartialEq, Eq, Hash, Structural)]
pub enum CubePosition {
    FUL,
    FU,
    FUR,
    FL,
    F,
    FR,
    FDL,
    FD,
    FDR,
    UL,
    U,
    UR,
    L,
    C,
    R,
    DLL,
    DL,
    DLR,
    BUL,
    BU,
    BUR,
    BL,
    B,
    BR,
    BDL,
    BD,
    BDR,
}

impl CubePosition {
    /// The number of the place, from 0 to 26.
    pub open spec fn spec_index(self) -> u8 {
        match self {
            CubePosition::FUL => 0,
            CubePosition::FU => 1,
            CubePosition::FUR => 2,
            CubePosition::FL => 3,
            CubePosition::F => 4,
            CubePosition::FR => 5,
            CubePosition::FDL => 6,
            CubePosition::FD => 7,
            CubePosition::FDR => 8,
            CubePosition::UL => 9,
            CubePosition::U => 10,
            CubePosition::UR => 11,
            CubePosition::L => 12,
            CubePosition::C => 13,
            CubePosition::R => 14,
            CubePosition::DLL => 15,
            CubePosition::DL => 16,
            CubePosition::DLR => 17,
            CubePosition::BUL => 18,
            CubePosition::BU => 19,
            CubePosition::BUR => 20,
            CubePosition::BL => 21,
            CubePosition::B => 22,
            CubePosition::BR => 23,
            CubePosition::BDL => 24,
            CubePosition::BD => 25,
            CubePosition::BDR => 26,
        }
    }

    /// The number of the place, from 0 to 26.
    #[verifier::when_used_as_spec(spec_index)]
    pub fn index(self) -> (code: u8)
        ensures
            code == self.spec_index(),
            code < 27,
    {
        match self {
            CubePosition::FUL => 0,
            CubePosition::FU => 1,
            CubePosition::FUR => 2,
            CubePosition::FL => 3,
            CubePosition::F => 4,
            CubePosition::FR => 5,
            CubePosition::FDL => 6,
            CubePosition::FD => 7,
            CubePosition::FDR => 8,
            CubePosition::UL => 9,
            CubePosition::U => 10,
            CubePosition::UR => 11,
            CubePosition::L => 12,
            CubePosition::C => 13,
            CubePosition::R => 14,
            CubePosition::DLL => 15,
            CubePosition::DL => 16,
            CubePosition::DLR => 17,
            CubePosition::BUL => 18,
            CubePosition::BU => 19,
            CubePosition::BUR => 20,
            CubePosition::BL => 21,
            CubePosition::B => 22,
            CubePosition::BR => 23,
            CubePosition::BDL => 24,
            CubePosition::BD => 25,
            CubePosition::BDR => 26,
        }
    }

    /// The place with number `pos_code`.
    pub fn from_u8(pos_code: u8) -> (position: Self)
        requires
            pos_code < 27,
        ensures
            position.spec_index() == pos_code,
    {
        if pos_code == 0 {
            CubePosition::FUL
        } else if pos_code == 1 {
            CubePosition::FU
        } else if pos_code == 2 {
            CubePosition::FUR
        } else if pos_code == 3 {
            CubePosition::FL
        } else if pos_code == 4 {
            CubePosition::F
        } else if pos_code == 5 {
            CubePosition::FR
        } else if pos_code == 6 {
            CubePosition::FDL
        } else if pos_code == 7 {
            CubePosition::FD
        } else if pos_code == 8 {
            CubePosition::FDR
        } else if pos_code == 9 {
            CubePosition::UL
        } else if pos_code == 10 {
            CubePosition::U
        } else if pos_code == 11 {
            CubePosition::UR
        } else if pos_code == 12 {
            CubePosition::L
        } else if pos_code == 13 {
            CubePosition::C
        } else if pos_code == 14 {
            CubePosition::R
        } else if pos_code == 15 {
            CubePosition::DLL
        } else if pos_code == 16 {
            CubePosition::DL
        } else if pos_code == 17 {
            CubePosition::DLR
        } else if pos_code == 18 {
            CubePosition::BUL
        } else if pos_code == 19 {
            CubePosition::BU
        } else if pos_code == 20 {
            CubePosition::BUR
        } else if pos_code == 21 {
            CubePosition::BL
        } else if pos_code == 22 {
            CubePosition::B
        } else if pos_code == 23 {
            CubePosition::BR
        } else if pos_code == 24 {
            CubePosition::BDL
        } else if pos_code == 25 {
            CubePosition::BD
        } else {
            CubePosition::BDR
        }
    }

    /// The place with number `pos_code`, if there is one.
    pub fn try_from_u8(pos_code: u8) -> (position: Option<Self>)
        ensures
            pos_code < 27 ==> position.is_some() && position.unwrap().spec_index() == pos_code,
            pos_code >= 27 ==> position.is_none(),
    {
        if pos_code < 27 {
            Some(Self::from_u8(pos_code))
        } else {
            None
        }
    }

    /// The table of the horizontal layer through the place: upper, middle or
    /// lower, by the row.
    pub open spec fn spec_horizon_table(self) -> Seq<u8> {
        let row = (self.spec_index() % 9) / 3;
        if row == 0 {
            u_table()
        } else if row == 1 {
            e_table()
        } else {
            d_table()
        }
    }

    /// The table of the layer through the place that is parallel to the
    /// front: front, middle or back, by the depth.
    pub open spec fn spec_frontal_table(self) -> Seq<u8> {
        let depth = self.spec_index() / 9;
        if depth == 0 {
            f_table()
        } else if depth == 1 {
            s_table()
        } else {
            b_table()
        }
    }

    /// The table of the layer through the place that is parallel to the
    /// sides: left, middle or right, by the column.
    pub open spec fn spec_lateral_table(self) -> Seq<u8> {
        let column = self.spec_index() % 3;
        if column == 0 {
            l_table()
        } else if column == 1 {
            m_table()
        } else {
            r_table()
        }
    }

    /// The horizontal layer that the place lies in.
    pub fn horizon_layer(self) -> (layer: RubikLayer)
        ensures
            layer@ == self.spec_horizon_table(),
            layer@.contains(self.spec_index()),
    {
        let row: u8 = (self.index() % 9) / 3;
        let layer: RubikLayer = if row == 0 {
            RubikLayer::u()
        } else if row == 1 {
            RubikLayer::e()
        } else {
            RubikLayer::d()
        };
        proof {
            self.lemma_layers_hold_place();
        }
        layer
    }

    /// The layer parallel to the front that the place lies in.
    pub fn frontal_layer(self) -> (layer: RubikLayer)
        ensures
            layer@ == self.spec_frontal_table(),
            layer@.contains(self.spec_index()),
    {
        let depth: u8 = self.index() / 9;
        let layer: RubikLayer = if depth == 0 {
            RubikLayer::f()
        } else if depth == 1 {
            RubikLayer::s()
        } else {
            RubikLayer::b()
        };
        proof {
            self.lemma_layers_hold_place();
        }
        layer
    }

    /// The layer parallel to the sides that the place lies in.
    pub fn lateral_layer(self) -> (layer: RubikLayer)
        ensures
            layer@ == self.spec_lateral_table(),
            layer@.contains(self.spec_index()),
    {
        let column: u8 = self.index() % 3;
        let layer: RubikLayer = if column == 0 {
            RubikLayer::l()
        } else if column == 1 {
            RubikLayer::m()
        } else {
            RubikLayer::r()
        };
        proof {
            self.lemma_layers_hold_place();
        }
        layer
    }

    /// Each of the three layers through a place holds the place.
    pub proof fn lemma_layers_hold_place(self)
        ensures
            self.spec_horizon_table().contains(self.spec_index()),
            self.spec_frontal_table().contains(self.spec_index()),
            self.spec_lateral_table().contains(self.spec_index()),
    {
        let i = self.spec_index() as int;
        let column = i % 3;
        let row = (i % 9) / 3;
        let depth = i / 9;
        let h = self.spec_horizon_table();
        let f = self.spec_frontal_table();
        let l = self.spec_lateral_table();
        // the upper layer lists the back row first; the other two are seen from below
        let hj = if row == 0 {
            3 * (2 - depth) + column
        } else {
            3 * depth + column
        };
        assert(h[hj] == i);
        // layers parallel to the front list rows from the top; all but the front are mirrored
        let fj = if depth == 0 {
            3 * row + column
        } else {
            3 * row + (2 - column)
        };
        assert(f[fj] == i);
        // layers parallel to the sides list rows from the top; the right one is mirrored
        let lj = if column == 2 {
            3 * row + depth
        } else {
            3 * row + (2 - depth)
        };
        assert(l[lj] == i);
    }
}

} // verus!
