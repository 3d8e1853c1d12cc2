//! The resonant synthesis stage of one source: which plan and filter pair
//! are installed, and which parameter edits the filters have yet to see.

use vstd::prelude::*;

verus! {

/// The synthesis stage of one source.
///
/// `P` is the resonator plan and `A` the pair of channel filters built from
/// it. A filter pair never exists without the plan it was built from, and
/// plan and pair are only ever replaced together.
pub enum SynthesisStage<P, A> {
    /// No plan has been handed over.
    Unplanned,
    /// A plan exists, but no filter pair was built from it.
    Planned { plan: P },
    /// A filter pair built from `plan` is installed.
    Active { plan: P, arrays: A },
}

/// The stage that follows `stage` when a build from `plan` ended in `built`.
///
/// A successful build installs the new plan and pair whatever was there. A
/// failed one leaves an active stage as it was; a stage without filters
/// keeps the plan, without filters.
pub open spec fn after_build<P, A, E>(
    stage: SynthesisStage<P, A>,
    plan: P,
    built: Result<A, E>,
) -> SynthesisStage<P, A> {
    match built {
        Ok(arrays) => SynthesisStage::Active { plan, arrays },
        Err(_) => match stage {
            SynthesisStage::Active { .. } => stage,
            _ => SynthesisStage::Planned { plan },
        },
    }
}

/// A failed build takes no filters away and installs none: an active stage
/// stays exactly as it was, and a stage without filters stays without.
pub proof fn lemma_failed_build_keeps_filters<P, A, E>(stage: SynthesisStage<P, A>, plan: P, e: E)
    ensures
        after_build(stage, plan, Err::<A, E>(e)) is Active <==> stage is Active,
        stage is Active ==> after_build(stage, plan, Err::<A, E>(e)) == stage,
{
}

impl<P, A> SynthesisStage<P, A> {
    /// Whether a filter pair is installed.
    pub open spec fn spec_is_active(&self) -> bool {
        self is Active
    }

    /// A stage without plan or filters.
    pub fn new() -> (r: SynthesisStage<P, A>)
        ensures
            r is Unplanned,
    {
        SynthesisStage::Unplanned
    }

    /// Whether a filter pair is installed.
    #[verifier::when_used_as_spec(spec_is_active)]
    pub fn is_active(&self) -> (r: bool)
        ensures
            r == self.spec_is_active(),
    {
        match self {
            SynthesisStage::Active { .. } => true,
            _ => false,
        }
    }

    /// Takes in the outcome of a build of the filter pair from `plan`.
    ///
    /// Returns the build's error, if it failed, for the caller to report.
    pub fn rebuild<E>(&mut self, plan: P, built: Result<A, E>) -> (r: Result<(), E>)
        ensures
            *final(self) == after_build(*old(self), plan, built),
            built matches Err(e) ==> r == Err::<(), E>(e),
            built is Ok ==> r is Ok,
    {
        match built {
            Ok(arrays) => {
                *self = SynthesisStage::Active { plan, arrays };
                Ok(())
            },
            Err(e) => {
                if !self.is_active() {
                    *self = SynthesisStage::Planned { plan };
                }
                Err(e)
            },
        }
    }

    /// Drops plan and filters.
    pub fn clear(&mut self)
        ensures
            *final(self) is Unplanned,
    {
        *self = SynthesisStage::Unplanned;
    }
}

/// A parameter that the control side edits at any time and the filters take
/// up at the next buffer.
///
/// Values are opaque 64-bit codes: the stage stores them, hands them on and
/// tells whether two of them are the same, nothing else.
#[derive(Clone, Copy, Debug, PartialEq, Eq, Structural)]
pub struct HotParameter {
    /// The value the control side set last.
    pub current: u64,
    /// The value the filters were last given.
    pub applied: u64,
}

impl HotParameter {
    /// The edit that the filters have not seen, if there is one.
    pub open spec fn pending(self) -> Option<u64> {
        if self.current != self.applied {
            Some(self.current)
        } else {
            None
        }
    }

    /// The parameter once the control side has set it to `value`.
    pub open spec fn edited(self, value: u64) -> HotParameter {
        HotParameter { current: value, applied: self.applied }
    }

    /// The parameter once the filters have been given the current value.
    pub open spec fn settled(self) -> HotParameter {
        HotParameter { current: self.current, applied: self.current }
    }

    /// A parameter at `value` that the filters already have.
    pub fn new(value: u64) -> (r: HotParameter)
        ensures
            r == (HotParameter { current: value, applied: value }),
    {
        HotParameter { current: value, applied: value }
    }

    /// Records an edit by the control side.
    pub fn set(&mut self, value: u64)
        ensures
            *final(self) == old(self).edited(value),
    {
        self.current = value;
    }

    /// Hands out the pending edit, if any, and counts it as applied.
    pub fn take_change(&mut self) -> (r: Option<u64>)
        ensures
            r == old(self).pending(),
            *final(self) == old(self).settled(),
    {
        if self.current != self.applied {
            self.applied = self.current;
            Some(self.current)
        } else {
            None
        }
    }
}

/// Once a pending edit has been handed out, nothing is pending until the
/// value is edited again: an unchanged value reaches the filters no second
/// time.
pub proof fn lemma_unchanged_value_is_not_reapplied(p: HotParameter)
    ensures
        p.settled().pending() is None,
        p.settled().settled() == p.settled(),
{
}

/// An edit to a value other than the applied one is handed out exactly
/// once: it is pending after the edit, with the new value, and no longer
/// after it was taken.
pub proof fn lemma_changed_value_is_applied_once(p: HotParameter, value: u64)
    requires
        value != p.applied,
    ensures
        p.edited(value).pending() == Some(value),
        p.edited(value).settled().pending() is None,
{
}

/// What the filters are given depends on the last edit alone, not on the
/// edits before it: a value set after any others is handed out as it is,
/// and setting the applied value again leaves nothing to hand out.
pub proof fn lemma_last_edit_counts(p: HotParameter, earlier: u64, last: u64)
    ensures
        p.edited(earlier).edited(last) == p.edited(last),
        p.edited(earlier).edited(p.applied).pending() is None,
{
}

} // verus!
