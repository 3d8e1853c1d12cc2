//! The level of the adaptive limiter from one buffer to the next.
//!
//! Levels are ordinals: signed integers that stand in the order of the
//! levels they stand for. The limiter only compares them and picks one.

use vstd::prelude::*;

verus! {

/// What the limiter may move to in one buffer, seen from its present level.
#[derive(Clone, Copy, Debug, PartialEq, Eq, Structural)]
pub struct LimiterSteps {
    /// The present level.
    pub scale: i64,
    /// The present level raised by the distance beyond which a peak is met
    /// at once.
    pub snap_bound: i64,
    /// The present level raised by one slow step.
    pub attack: i64,
    /// The present level lowered by one slow step.
    pub release: i64,
    /// The level below which the limiter never falls.
    pub floor: i64,
}

impl LimiterSteps {
    /// The steps lie around the present level as their names say, and the
    /// present level is not below the floor.
    pub open spec fn wf(self) -> bool {
        &&& self.floor <= self.scale
        &&& self.release <= self.scale <= self.attack
        &&& self.scale <= self.snap_bound
    }

    /// The level that `level`, the level of the peak of a buffer, moves the
    /// limiter to, before the floor is applied: the peak's own level where
    /// it lies beyond the snap bound, one step up where it lies above the
    /// present level, one step down otherwise.
    pub open spec fn target(self, level: i64) -> i64 {
        if level > self.snap_bound {
            level
        } else if level > self.scale {
            self.attack
        } else {
            self.release
        }
    }

    /// The level of the limiter after a buffer whose peak has level `level`.
    pub open spec fn next(self, level: i64) -> i64 {
        if self.target(level) < self.floor {
            self.floor
        } else {
            self.target(level)
        }
    }

    /// The level of the limiter after a buffer whose peak has level `level`.
    pub fn next_scale(&self, level: i64) -> (r: i64)
        ensures
            r == self.next(level),
    {
        let target: i64 = if level > self.snap_bound {
            level
        } else if level > self.scale {
            self.attack
        } else {
            self.release
        };
        if target < self.floor {
            self.floor
        } else {
            target
        }
    }
}

/// The limiter never falls below its floor, whatever the peak.
pub proof fn lemma_limiter_keeps_floor(steps: LimiterSteps, level: i64)
    ensures
        steps.next(level) >= steps.floor,
{
}

/// A peak beyond the snap bound is met at once: the next level is the
/// peak's own, with no ramp over several buffers.
pub proof fn lemma_limiter_snaps(steps: LimiterSteps, level: i64)
    requires
        steps.wf(),
        level > steps.snap_bound,
    ensures
        steps.next(level) == level,
{
}

/// A peak above the present level, but not beyond the snap bound, raises
/// the level by exactly one step.
pub proof fn lemma_limiter_attacks(steps: LimiterSteps, level: i64)
    requires
        steps.wf(),
        steps.scale < level <= steps.snap_bound,
    ensures
        steps.next(level) == steps.attack,
{
}

/// A peak at or below the present level lowers the level by exactly one
/// step, where that step does not pass the floor.
pub proof fn lemma_limiter_releases(steps: LimiterSteps, level: i64)
    requires
        steps.wf(),
        level <= steps.scale,
        steps.floor <= steps.release,
    ensures
        steps.next(level) == steps.release,
{
}

} // verus!
