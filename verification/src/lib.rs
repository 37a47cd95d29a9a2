//! A feature-history engine for molecular editing.
//!
//! A molecule is built through an ordered timeline of reversible edit
//! operations ("features").  The library keeps a materialized molecular graph
//! in sync with a cursor into that timeline, caches checkpoints so that
//! scrubbing through history is affordable, relaxes atom positions after
//! every structural change, and answers ray queries against the result.
//!
//! All geometry uses fixed-point coordinates: [`SCALE`] fixed-point units per
//! world-space unit.

pub mod ids;
pub mod elements;
pub mod geom;
pub mod spec_map;
pub mod atom;
pub mod graph_ext;
pub mod error;
pub mod repr;
pub mod dynamics;
pub mod feature;
pub mod history;

use vstd::prelude::*;

verus! {

/// Fixed-point scale: 1000 fixed-point units per world-space unit.
pub const SCALE: i64 = 1000;

} // verus!
