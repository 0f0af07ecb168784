//! The schedule of the multi-bounce light-probe solve.
//!
//! Each pass re-captures every probe and projects the captured radiance; from bounce 2
//! on, the capture re-lights the static scene with the previous pass's probe field.
//! Two stops, whichever fires first: a fixed cap of [`MAX_BOUNCES`] passes, and an
//! early-out when a pass added too little energy to matter. The capture and the energy
//! comparison happen outside; this module decides, after each pass, what comes next.

use vstd::prelude::*;

verus! {

/// Hard cap on bounce iterations: direct light plus four indirect bounces.
pub const MAX_BOUNCES: u32 = 5;

/// Outcome of a multi-bounce bake: how the solve terminated.
#[derive(Clone, Copy, Debug, PartialEq, Eq, Structural)]
pub struct BounceReport {
    /// Number of capture passes actually run (0 with no probes, else up to [`MAX_BOUNCES`]).
    pub bounces: u32,
    /// `true` if the early-out (energy below the threshold) stopped it before the cap.
    pub converged: bool,
}

/// What the solve does next.
#[derive(Clone, Copy, Debug, PartialEq, Eq, Structural)]
pub enum BounceStep {
    /// Capture and project every probe for pass `bounce`; `lit` captures re-light the
    /// static scene with the current probe field (every pass after the first).
    Capture { bounce: u32, lit: bool },
    /// The solve is over.
    Finish(BounceReport),
}

/// The first step of a solve over `probe_count` probes: nothing to do without probes,
/// else a direct-only first capture.
pub open spec fn first_step_spec(probe_count: int) -> BounceStep {
    if probe_count == 0 {
        BounceStep::Finish(BounceReport { bounces: 0, converged: true })
    } else {
        BounceStep::Capture { bounce: 1, lit: false }
    }
}

/// The step after pass `bounce` has been written, given whether that pass added less
/// energy than the threshold (only consulted from pass 2 on).
pub open spec fn after_pass_spec(bounce: u32, converged: bool) -> BounceStep {
    if bounce >= 2 && converged {
        BounceStep::Finish(BounceReport { bounces: bounce, converged: true })
    } else if bounce >= MAX_BOUNCES {
        BounceStep::Finish(BounceReport { bounces: MAX_BOUNCES, converged: false })
    } else {
        BounceStep::Capture { bounce: (bounce + 1) as u32, lit: true }
    }
}

/// The first step of a solve over `probe_count` probes.
pub fn first_step(probe_count: usize) -> (step: BounceStep)
    ensures
        step == first_step_spec(probe_count as int),
{
    if probe_count == 0 {
        BounceStep::Finish(BounceReport { bounces: 0, converged: true })
    } else {
        BounceStep::Capture { bounce: 1, lit: false }
    }
}

/// The step after pass `bounce`: stop early when the pass converged, stop at the cap,
/// else capture the next bounce lit by the field just written.
pub fn after_pass(bounce: u32, converged: bool) -> (step: BounceStep)
    requires
        1 <= bounce <= MAX_BOUNCES,
    ensures
        step == after_pass_spec(bounce, converged),
{
    if bounce >= 2 && converged {
        BounceStep::Finish(BounceReport { bounces: bounce, converged: true })
    } else if bounce >= MAX_BOUNCES {
        BounceStep::Finish(BounceReport { bounces: MAX_BOUNCES, converged: false })
    } else {
        BounceStep::Capture { bounce: bounce + 1, lit: true }
    }
}

/// Drive the schedule from pass `bounce` on, where `answers[i]` says whether pass
/// `i + 2` converged.
pub open spec fn drive(bounce: u32, answers: Seq<bool>) -> BounceReport
    decreases MAX_BOUNCES - bounce,
{
    let converged = if bounce >= 2 && bounce - 2 < answers.len() { answers[bounce - 2] } else { false };
    match after_pass_spec(bounce, converged) {
        BounceStep::Finish(report) => report,
        BounceStep::Capture { bounce: next, .. } => if 1 <= bounce < MAX_BOUNCES {
            drive(next, answers)
        } else {
            report_at_cap()
        },
    }
}

pub open spec fn report_at_cap() -> BounceReport {
    BounceReport { bounces: MAX_BOUNCES, converged: false }
}

/// Whatever the passes report, a solve over at least one probe runs between 2 and
/// [`MAX_BOUNCES`] passes; it reports convergence exactly when some pass from 2 to the
/// cap converged, and then it stopped at the first such pass; otherwise it ran to the
/// cap.
pub proof fn lemma_schedule_outcome(answers: Seq<bool>)
    requires
        answers.len() >= MAX_BOUNCES - 1,
    ensures
        ({
            let r = drive(1, answers);
            &&& 2 <= r.bounces <= MAX_BOUNCES
            &&& r.converged ==> answers[r.bounces - 2] && forall|i: int| 0 <= i < r.bounces - 2 ==> !answers[i]
            &&& !r.converged ==> r.bounces == MAX_BOUNCES && forall|i: int| 0 <= i < MAX_BOUNCES - 1 ==> !answers[i]
        }),
{
    reveal_with_fuel(drive, 6);
}

} // verus!
