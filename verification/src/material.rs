//! Surface types.

use vstd::prelude::*;

verus! {

/// How a surface sends light on: in all directions, as a mirror does, or as
/// glass does, which reflects a part and lets the rest through.
#[derive(Clone, Copy, Debug, PartialEq, Eq, Structural)]
pub enum MaterialType {
    DIFFUSE,
    MIRROR,
    GLASS,
}

} // verus!
