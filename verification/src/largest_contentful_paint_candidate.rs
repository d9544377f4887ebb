//! Candidates for the largest contentful paint, and the paint that one of
//! them becomes once it has been painted.

use vstd::prelude::*;

verus! {

/// The identity of the element that a candidate stands for.
#[derive(Clone, Copy, Debug, PartialEq, Eq, PartialOrd, Ord, Hash)]
pub struct LCPCandidateID(pub usize);

/// A candidate for the largest contentful paint: an image, or a block-level
/// element that contains text.
#[derive(Clone, Copy, Debug)]
pub struct LCPCandidate {
    /// The identity of the element.
    pub id: LCPCandidateID,
    /// The size of the visual area.
    pub area: usize,
}

impl LCPCandidate {
    pub fn new(id: LCPCandidateID, area: usize) -> (candidate: Self)
        ensures
            candidate.id == id,
            candidate.area == area,
    {
        Self { id, area }
    }
}

/// A point in time that means the same in every process: nanoseconds since
/// an epoch that all processes share.
#[derive(Clone, Copy, Debug, PartialEq, Eq, PartialOrd, Ord, Hash)]
pub struct CrossProcessInstant {
    pub nanos: u64,
}

/// The largest contentful paint: a candidate together with the time at which
/// it was painted.
#[derive(Clone, Copy, Debug)]
pub struct LargestContentfulPaint {
    pub id: LCPCandidateID,
    pub area: usize,
    pub paint_time: CrossProcessInstant,
}

impl LargestContentfulPaint {
    pub fn from(lcp_candidate: LCPCandidate, paint_time: CrossProcessInstant) -> (paint: Self)
        ensures
            paint.id == lcp_candidate.id,
            paint.area == lcp_candidate.area,
            paint.paint_time == paint_time,
    {
        Self { id: lcp_candidate.id, area: lcp_candidate.area, paint_time }
    }
}

} // verus!
