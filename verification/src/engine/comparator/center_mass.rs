//! Ranks solutions by the distance of the placed panels' center of mass to the origin, smaller first.

use vstd::prelude::*;

verus! {

/// Ranks solutions by the distance of the placed panels' center of mass to the origin, smaller first. The measure is floating point; the comparison itself is made where floating point is available.
#[derive(Debug, Clone, Copy)]
pub struct SolutionSmallestCenterOfMassDistToOriginComparator;

impl SolutionSmallestCenterOfMassDistToOriginComparator {
    pub fn new() -> (c: Self) {
        SolutionSmallestCenterOfMassDistToOriginComparator
    }
}

} // verus!
