//! The per-atom record stored at each graph node.

use vstd::prelude::*;

use crate::elements::Element;
use crate::ids::AtomSpecifier;

verus! {

/// Data stored for each atom in a molecule: its element, its own stable
/// identifier, and the atom it was bonded to when created.  The `head` atom
/// defines the atom's local "forward" direction; a root atom has none and
/// faces along the molecule's +z axis.
#[derive(Clone, Copy, PartialEq, Eq, Structural, Hash, Debug)]
pub struct AtomNode {
    pub element: Element,
    pub spec: AtomSpecifier,
    pub head: Option<AtomSpecifier>,
}

} // verus!
