//! Stable external identifiers for atoms.

use vstd::prelude::*;

verus! {

/// A stable, externally assigned identifier for an atom, independent of the
/// graph's internal index space.  Atoms created by a feature are numbered by
/// the feature's timeline id together with a per-feature counter, so an
/// identifier is never reused for a different atom, no matter how history is
/// rewritten.
#[derive(Clone, Copy, PartialEq, Eq, Structural, Hash, Debug)]
pub struct AtomSpecifier {
    /// Timeline id of the feature that created the atom.
    pub feature: u64,
    /// Index of the atom among those the feature created.
    pub child: u64,
}

impl AtomSpecifier {
    /// The identifier of the `child`-th atom created by feature `feature`.
    pub fn new(feature: u64, child: u64) -> (r: AtomSpecifier)
        ensures
            r == (AtomSpecifier { feature, child }),
    {
        AtomSpecifier { feature, child }
    }
}

} // verus!
