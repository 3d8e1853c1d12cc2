//! What a request to build a resonator plan asks of the planner.

use vstd::prelude::*;

verus! {

/// How the plan of a build request comes about.
#[derive(Clone, Copy, Debug, PartialEq, Eq, Structural)]
pub enum PlanRequest {
    /// The frequency band is empty: the plan holds no resonator, and the
    /// planner is not called.
    Empty,
    /// The planner is called, once, on the band as given.
    Invoke,
}

/// Decides a build request from the two ends of the frequency band.
///
/// The ends are ordinals: integers in the order of the frequencies they
/// stand for. A band whose lower end is not below its upper end is empty.
pub fn plan_request(min_range: i64, max_range: i64) -> (r: PlanRequest)
    ensures
        min_range >= max_range ==> r == PlanRequest::Empty,
        min_range < max_range ==> r == PlanRequest::Invoke,
{
    if min_range >= max_range {
        PlanRequest::Empty
    } else {
        PlanRequest::Invoke
    }
}

} // verus!
