//! Errors reported by graph mutators and feature application.

use vstd::prelude::*;

verus! {

/// Why a graph edit or a feature application was refused.
#[derive(Clone, Copy, PartialEq, Eq, Structural, Debug)]
pub enum FeatureError {
    /// An insert would reuse an atom specifier that is already present.
    AtomOverwrite,
    /// An operation referenced an atom specifier that is not present.
    BrokenReference,
    /// A feature named an element the radius table does not cover.
    UnknownElement,
}

impl FeatureError {
    /// A short description of the error, fixed per variant.
    pub fn describe(&self) -> (r: &'static str)
        ensures
            self is AtomOverwrite ==> r@ == "atom specifier already in use"@,
            self is BrokenReference ==> r@ == "reference to an unknown atom"@,
            self is UnknownElement ==> r@ == "element not covered by the radius table"@,
    {
        match self {
            FeatureError::AtomOverwrite => "atom specifier already in use",
            FeatureError::BrokenReference => "reference to an unknown atom",
            FeatureError::UnknownElement => "element not covered by the radius table",
        }
    }
}

} // verus!
