//! The stages that one run performs.

use vstd::prelude::*;

verus! {

/// Which stages to run: download every available editor, build the
/// VERSIONS.md report, and build and diff the single headers.
#[derive(Debug, PartialEq, Eq, Structural, Clone, Copy)]
pub struct Arguments {
    pub stage_1: bool,
    pub stage_2: bool,
    pub stage_3: bool,
}

} // verus!
