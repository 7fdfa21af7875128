//! The names that most users of the library need.
pub use crate::colored::{CubeFaceMap, RubikColor};
pub use crate::cube::{Cube, CubeFace};
pub use crate::layer::RubikLayer;
pub use crate::permutation::CubePermutation;
pub use crate::position::CubePosition;
pub use crate::state::{Rubik, RubikLayerIter};
pub use crate::transform::layer::{PtrRotate, RubikLayerTransform};
pub use crate::transform::RubikTransform;
