//! Colours for the six faces.
use crate::cube::CubeFace;
use vstd::prelude::*;

verus! {

/// The colours of the stickers.
#[derive(Debug, PartialEq, Eq, Clone, Copy, Structural)]
pub enum RubikColor {
    White,
    Yellow,
    Red,
    Orange,
    Blue,
    Green,
}

impl RubikColor {
    pub open spec fn spec_classic_map() -> CubeFaceMap<Self> {
        CubeFaceMap {
            f: RubikColor::Red,
            r: RubikColor::Blue,
            u: RubikColor::White,
            b: RubikColor::Orange,
            l: RubikColor::Green,
            d: RubikColor::Yellow,
        }
    }

    /// The usual colouring: red in front, blue on the right, white on top,
    /// orange behind, green on the left, yellow below.
    #[verifier::when_used_as_spec(spec_classic_map)]
    pub fn classic_map() -> (map: CubeFaceMap<Self>)
        ensures
            map == Self::spec_classic_map(),
    {
        CubeFaceMap::new(
            RubikColor::Red,
            RubikColor::Blue,
            RubikColor::White,
            RubikColor::Orange,
            RubikColor::Green,
            RubikColor::Yellow,
        )
    }
}

/// One value for each face.
#[derive(Clone, Copy)]
pub struct CubeFaceMap<T> {
    pub f: T,
    pub r: T,
    pub u: T,
    pub b: T,
    pub l: T,
    pub d: T,
}

impl<T> CubeFaceMap<T> {
    /// The value for `face`.
    pub open spec fn spec_get(&self, face: CubeFace) -> &T {
        match face {
            CubeFace::F => &self.f,
            CubeFace::B => &self.b,
            CubeFace::R => &self.r,
            CubeFace::L => &self.l,
            CubeFace::U => &self.u,
            CubeFace::D => &self.d,
        }
    }

    /// The map with the values for front, right, top, back, left and bottom,
    /// in this order.
    pub fn new(f: T, r: T, u: T, b: T, l: T, d: T) -> (map: Self)
        ensures
            map == (Self { f, r, u, b, l, d }),
    {
        Self { f, r, u, b, l, d }
    }

    /// The value for `face`.
    #[verifier::when_used_as_spec(spec_get)]
    pub fn get(&self, face: CubeFace) -> (value: &T)
        ensures
            value == self.spec_get(face),
    {
        match face {
            CubeFace::F => &self.f,
            CubeFace::B => &self.b,
            CubeFace::R => &self.r,
            CubeFace::L => &self.l,
            CubeFace::U => &self.u,
            CubeFace::D => &self.d,
        }
    }
}

} // verus!
