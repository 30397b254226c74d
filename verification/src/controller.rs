//! The reconciler and the control loop's policies: one reconciliation
//! pass's decisions, the error policy, and the fixed-cadence requeue.
use vstd::prelude::*;

use crate::crd::PatchStrategy;
use crate::crd::TradeSecretSpec;
use crate::diff::all_sources_present;
use crate::diff::compute_updates;
use crate::diff::first_missing_source;
use crate::diff::updates_of;
use crate::duration::Duration;
use crate::patch::patch_doc_of;
use crate::patch::render_merge_patch;
use crate::secret_data::SecretData;

verus! {

/// Which secret of the pair a fetch failure concerns.
#[derive(Debug, Clone, Copy, PartialEq, Eq, Structural)]
pub enum SecretRole {
    Source,
    Destination,
}

/// The error type returned by the controller.
#[derive(Debug, Clone, PartialEq, Eq)]
pub enum ReconcilerError {
    /// The source or destination secret wasn't found.
    SecretNotFound(SecretRole),
    /// A mapping's source field is missing from the source secret's data.
    SourceFieldMissing(String),
    /// Any other failure, deliberately uncategorized at this layer.
    Unknown,
}

/// What the controller asks its caller to do once a pass ends.
#[derive(Debug, Clone, Copy, PartialEq, Eq, Structural)]
pub struct ReconcilerAction {
    /// Wake the same rule again this long after the pass.
    pub requeue_after: Option<Duration>,
}

/// The context passed to the controller: the fixed requeue interval,
/// immutable after startup.
#[derive(Debug, Clone, Copy, PartialEq, Eq, Structural)]
pub struct Ctx {
    pub requeue_time: Duration,
}

/// The single action every pass ends in: requeue after the context's
/// fixed interval.
pub open spec fn requeue_action_of(ctx: Ctx) -> ReconcilerAction {
    ReconcilerAction { requeue_after: Some(ctx.requeue_time) }
}

impl Ctx {
    pub fn new(requeue_time: Duration) -> (r: Self)
        ensures
            r.requeue_time == requeue_time,
    {
        Ctx { requeue_time }
    }

    pub fn requeue_action(&self) -> (r: ReconcilerAction)
        ensures
            r == requeue_action_of(*self),
    {
        ReconcilerAction { requeue_after: Some(self.requeue_time) }
    }
}

/// What one reconciliation pass asks of the caller before requeueing.
#[derive(Debug)]
pub enum PatchPlan {
    /// The destination already agrees with the source: no patch call.
    NoChange,
    /// Issue one merge patch with this document against the destination.
    Apply { document: Vec<char>, updates: SecretData },
}

/// A successful pass's outcome: what to apply, then when to wake again.
#[derive(Debug)]
pub struct ReconcileOutcome {
    pub plan: PatchPlan,
    pub action: ReconcilerAction,
}

/// The core of one reconciliation pass, from what the fetches found
/// (`None` marks a secret missing or inaccessible) to the decision: fail
/// with the pass's error, or name the single patch to issue — none when
/// the destination already agrees — and the requeue action.
pub fn reconcile(
    trade: &TradeSecretSpec,
    source: Option<&SecretData>,
    dest: Option<&SecretData>,
    ctx: &Ctx,
) -> (r: Result<ReconcileOutcome, ReconcilerError>)
    requires
        (source matches Some(s) ==> s.well_formed()),
        (dest matches Some(d) ==> d.well_formed()),
    ensures
        match r {
            Ok(outcome) => {
                &&& source matches Some(src)
                &&& dest matches Some(dst)
                &&& outcome.action == requeue_action_of(*ctx)
                &&& match trade.strategy {
                    PatchStrategy::Copy { items } => {
                        &&& all_sources_present(items@, src@)
                        &&& match outcome.plan {
                            PatchPlan::NoChange => updates_of(items@, src@, dst@) == Map::<
                                Seq<char>,
                                Seq<u8>,
                            >::empty(),
                            PatchPlan::Apply { document, updates } => {
                                &&& updates.well_formed()
                                &&& updates@ == updates_of(items@, src@, dst@)
                                &&& updates@ != Map::<Seq<char>, Seq<u8>>::empty()
                                &&& document@ == patch_doc_of(updates.entry_seq())
                            },
                        }
                    },
                }
            },
            Err(e) => match e {
                ReconcilerError::SecretNotFound(role) => (role == SecretRole::Source && source
                    is None) || (role == SecretRole::Destination && source is Some && dest
                    is None),
                ReconcilerError::SourceFieldMissing(k) => {
                    &&& source matches Some(src)
                    &&& dest is Some
                    &&& match trade.strategy {
                        PatchStrategy::Copy { items } => first_missing_source(items@, src@)
                            == Some(k@),
                    }
                },
                ReconcilerError::Unknown => false,
            },
        },
{
    let src = match source {
        None => {
            return Err(ReconcilerError::SecretNotFound(SecretRole::Source));
        },
        Some(s) => s,
    };
    let dst = match dest {
        None => {
            return Err(ReconcilerError::SecretNotFound(SecretRole::Destination));
        },
        Some(d) => d,
    };
    match &trade.strategy {
        PatchStrategy::Copy { items } => {
            let updates = match compute_updates(items, src, dst) {
                Ok(u) => u,
                Err(e) => {
                    return Err(e);
                },
            };
            if updates.is_empty() {
                Ok(ReconcileOutcome { plan: PatchPlan::NoChange, action: ctx.requeue_action() })
            } else {
                let document = render_merge_patch(&updates);
                Ok(
                    ReconcileOutcome {
                        plan: PatchPlan::Apply { document, updates },
                        action: ctx.requeue_action(),
                    },
                )
            }
        },
    }
}

/// Fold the external store's answer to an issued patch into the pass's
/// result: success keeps the standard requeue action, any failure becomes
/// the opaque unknown error.
pub fn on_patch_result(patch_ok: bool, ctx: &Ctx) -> (r: Result<ReconcilerAction, ReconcilerError>)
    ensures
        patch_ok ==> (r matches Ok(a) && a == requeue_action_of(*ctx)),
        !patch_ok ==> (r matches Err(e) && e == ReconcilerError::Unknown),
{
    if patch_ok {
        Ok(ctx.requeue_action())
    } else {
        Err(ReconcilerError::Unknown)
    }
}

/// The control loop's error policy: whatever error a pass failed with,
/// the same single requeue action — no escalation, no backoff, no cutoff.
pub open spec fn error_policy_spec(error: ReconcilerError, ctx: Ctx) -> ReconcilerAction {
    requeue_action_of(ctx)
}

/// The controller error handler: don't do anything, just requeue.
pub fn error_policy(error: &ReconcilerError, ctx: &Ctx) -> (r: ReconcilerAction)
    ensures
        r == error_policy_spec(*error, *ctx),
{
    ctx.requeue_action()
}

/// When the loop wakes a rule again: the moment the pass ended plus the
/// action's requeue delay.
pub fn next_wake(action: &ReconcilerAction, now_secs: u64) -> (wake: Option<u64>)
    requires
        (action.requeue_after matches Some(d) ==> now_secs + d.secs <= u64::MAX),
    ensures
        match action.requeue_after {
            Some(d) => wake == Some((now_secs + d.secs) as u64),
            None => wake is None,
        },
{
    match &action.requeue_after {
        Some(d) => Some(now_secs + d.secs),
        None => None,
    }
}

/// Law: every pass ends in exactly one scheduled re-invocation, the fixed
/// interval after the pass ends. A successful pass's action and the error
/// policy's action for any error are the same single requeue, so the loop
/// never drops a rule and never schedules it twice for one pass.
pub proof fn lemma_pass_always_requeues(error: ReconcilerError, ctx: Ctx)
    ensures
        error_policy_spec(error, ctx) == requeue_action_of(ctx),
        requeue_action_of(ctx).requeue_after == Some(ctx.requeue_time),
{
}

} // verus!
