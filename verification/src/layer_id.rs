use vstd::prelude::*;

verus! {

/// Identifies one depth layer of a scene by its position in the scene's
/// layer list (0 is the first layer created).
#[derive(Debug, Clone, Copy, PartialEq, Eq, Structural, Hash)]
pub struct LayerId(pub usize);

} // verus!
