//! Transient "just hit" feedback timers.
//!
//! An entity that has just taken damage carries a one-shot countdown with a
//! fixed default duration. Re-triggering while the countdown is still active
//! resets it to the full duration — it never stacks or extends beyond it.
//! Time is measured in whole milliseconds of simulated time.

use vstd::prelude::*;

verus! {

/// Default duration of the hit-feedback flash, in milliseconds.
pub const HIT_FEEDBACK_MILLIS: u64 = 100;

/// A one-shot countdown attached to an entity that was just hit.
///
/// While present, the entity renders with a hit tint; the world removes the
/// timer as soon as its remaining time runs out.
#[derive(Clone, Copy, Debug)]
pub struct HitFeedback {
    /// Simulated milliseconds left before the flash ends. Always positive:
    /// an expired timer is removed rather than kept at zero.
    pub remaining: u64,
}

impl HitFeedback {
    /// An active feedback timer has time left and never holds more than the
    /// default duration.
    pub open spec fn wf(self) -> bool {
        0 < self.remaining <= HIT_FEEDBACK_MILLIS
    }

    /// Start (or re-trigger) the flash at the full default duration.
    pub fn begin() -> (f: HitFeedback)
        ensures
            f.remaining == HIT_FEEDBACK_MILLIS,
            f.wf(),
    {
        HitFeedback { remaining: HIT_FEEDBACK_MILLIS }
    }
}

/// An optional feedback timer is well formed when, if present, it is active
/// and within the default duration.
pub open spec fn feedback_wf(f: Option<HitFeedback>) -> bool {
    f matches Some(t) ==> t.wf()
}

/// The feedback slot after `delta` milliseconds have elapsed: the countdown
/// loses `delta`, and the timer is removed once no time remains.
pub open spec fn feedback_ticked(f: Option<HitFeedback>, delta: u64) -> Option<HitFeedback> {
    match f {
        None => None,
        Some(t) => if t.remaining <= delta {
            None
        } else {
            Some(HitFeedback { remaining: (t.remaining - delta) as u64 })
        },
    }
}

/// Advance a feedback slot by `delta` milliseconds, clearing it on expiry.
pub fn tick_feedback_slot(f: &mut Option<HitFeedback>, delta: u64)
    ensures
        *final(f) == feedback_ticked(*old(f), delta),
{
    match *f {
        None => {},
        Some(t) => {
            if t.remaining <= delta {
                *f = None;
            } else {
                *f = Some(HitFeedback { remaining: t.remaining - delta });
            }
        },
    }
}

/// Law: the remaining time of a hit-feedback timer never exceeds the default
/// duration — a re-trigger resets it to exactly the full duration (see
/// [`HitFeedback::begin`]) and advancing it only shrinks it.
pub proof fn lemma_feedback_never_exceeds_default(f: Option<HitFeedback>, delta: u64)
    requires
        feedback_wf(f),
    ensures
        feedback_wf(feedback_ticked(f, delta)),
        feedback_ticked(f, delta) matches Some(t) ==> t.remaining <= f.unwrap().remaining,
{
}

} // verus!
