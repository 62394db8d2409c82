use vstd::prelude::*;
use crate::action::{error_policy, Action, ERROR_REQUEUE_SECS, SETTLED_REQUEUE_SECS};
use crate::document::{Document, Fields};
use crate::echo::{ApplyStep, ApplyStepView};
use crate::error::{
    ApiError, ApiErrorView, CallbackError, CallbackErrorView, ReconcileError, ReconcileErrorView,
};
use crate::lifecycle::{
    after_callback, after_patch, callback_returned, handle, opening, outcome_view, patch_returned,
    reply_view, Event, Opening, OpeningView, PatchRequest, PatchRequestView, Pending, Step,
    StepView,
};
use crate::resource::{Echo, EchoView};

verus! {

/// The finalizer that this controller puts on the objects it manages.
pub const ECHO_FINALIZER: &'static str = "echo.pontifex.dev/finalizer";

/// A request to the cluster that an attempt waits on.
#[derive(Debug, PartialEq, Eq)]
pub enum Effect {
    /// Patch the finalizer list of the object.
    PatchFinalizers { request: PatchRequest },
    /// Merge `status` into the status of the object `name`, and touch nothing else of it;
    /// `namespace` is `None` where the object names none.
    PatchStatus { namespace: Option<String>, name: String, status: Document },
}

/// An effect as a mathematical value.
pub enum EffectView {
    PatchFinalizers { request: PatchRequestView },
    PatchStatus { namespace: Option<Seq<char>>, name: Seq<char>, status: Fields },
}

impl View for Effect {
    type V = EffectView;

    open spec fn view(&self) -> EffectView {
        match self {
            Effect::PatchFinalizers { request } => EffectView::PatchFinalizers {
                request: request@,
            },
            Effect::PatchStatus { namespace, name, status } => EffectView::PatchStatus {
                namespace: namespace.deep_view(),
                name: name@,
                status: status@,
            },
        }
    }
}

/// Who takes the cluster's answer to an effect.
#[derive(Clone, Copy, Debug, PartialEq, Eq, Structural)]
pub enum Resume {
    /// The finalizer protocol, which is waiting on its patch.
    Finalizer { pending: Pending },
    /// The apply callback, which is waiting on its status patch.
    Apply,
}

/// Where one reconciliation attempt stands.
#[derive(Debug, PartialEq, Eq)]
pub enum Progress {
    /// Perform `effect`, then call `resume` with the cluster's answer.
    Call { effect: Effect, resume: Resume },
    /// The attempt is over.
    Done { outcome: Result<Action, ReconcileError> },
}

/// The stand of an attempt as a mathematical value.
pub enum ProgressView {
    Call { effect: EffectView, resume: Resume },
    Done { outcome: Result<Action, ReconcileErrorView> },
}

impl View for Progress {
    type V = ProgressView;

    open spec fn view(&self) -> ProgressView {
        match self {
            Progress::Call { effect, resume } => ProgressView::Call {
                effect: effect@,
                resume: *resume,
            },
            Progress::Done { outcome } => ProgressView::Done { outcome: outcome_view(*outcome) },
        }
    }
}

/// What a step means for the attempt: a patch is an effect to wait on, the end is the end.
pub open spec fn carried(step: StepView) -> ProgressView {
    match step {
        StepView::Patch { request, pending } => ProgressView::Call {
            effect: EffectView::PatchFinalizers { request },
            resume: Resume::Finalizer { pending },
        },
        StepView::Done { outcome } => ProgressView::Done { outcome },
    }
}

/// How an attempt on `echo` starts. The object's phase opens it; an apply runs the apply
/// callback, which is either settled at once, or fails at once, or waits on its status patch; a
/// cleanup runs the cleanup callback, which succeeds at once, and goes on to the removal of
/// the finalizer.
pub open spec fn started(echo: EchoView, finalizer: Seq<char>) -> ProgressView {
    match opening(echo.metadata, finalizer) {
        OpeningView::Invoke { event: Event::Apply } => match echo.apply_step() {
            Ok(ApplyStepView::Settled { action }) => carried(
                after_callback(echo.metadata, finalizer, Event::Apply, Ok(action)),
            ),
            Ok(ApplyStepView::PatchStatus { namespace, name, status }) => ProgressView::Call {
                effect: EffectView::PatchStatus { namespace, name, status },
                resume: Resume::Apply,
            },
            Err(e) => carried(after_callback(echo.metadata, finalizer, Event::Apply, Err(e@))),
        },
        OpeningView::Invoke { event: Event::Cleanup } => carried(
            after_callback(
                echo.metadata,
                finalizer,
                Event::Cleanup,
                Ok(Action::AwaitExternalChange),
            ),
        ),
        OpeningView::Proceed { step } => carried(step),
    }
}

/// How an attempt ends once the cluster has answered its one request.
pub open spec fn resumed(resume: Resume, reply: Result<(), ApiErrorView>) -> Result<
    Action,
    ReconcileErrorView,
> {
    match resume {
        Resume::Finalizer { pending } => after_patch(pending, reply),
        Resume::Apply => match reply {
            Ok(_) => Ok(Action::RequeueAfter { secs: SETTLED_REQUEUE_SECS }),
            Err(e) => Err(ReconcileErrorView::ApplyFailed(CallbackErrorView::Api(e))),
        },
    }
}

/// What the scheduler is told once the attempt is over: the action of a success, and the retry
/// of the error policy for any failure.
pub open spec fn settled(outcome: Result<Action, ReconcileErrorView>) -> Action {
    match outcome {
        Ok(action) => action,
        Err(_) => Action::RequeueAfter { secs: ERROR_REQUEUE_SECS },
    }
}

fn carry(step: Step) -> (out: Progress)
    ensures
        out@ == carried(step@),
{
    match step {
        Step::Patch { request, pending } => Progress::Call {
            effect: Effect::PatchFinalizers { request },
            resume: Resume::Finalizer { pending },
        },
        Step::Done { outcome } => Progress::Done { outcome },
    }
}

/// Starts one reconciliation attempt on `echo` and runs it up to its first request to the
/// cluster, or to its end where it needs none.
pub fn reconcile(echo: &Echo, finalizer: &str) -> (out: Progress)
    ensures
        out@ == started(echo@, finalizer@),
        out matches Progress::Call { effect: Effect::PatchStatus { status, .. }, .. }
            ==> status.wf(),
{
    match handle(&echo.metadata, finalizer) {
        Opening::Invoke { event: Event::Apply } => match echo.reconcile() {
            Ok(ApplyStep::Settled { action }) => carry(
                callback_returned(&echo.metadata, finalizer, Event::Apply, Ok(action)),
            ),
            Ok(ApplyStep::PatchStatus { namespace, name, status }) => Progress::Call {
                effect: Effect::PatchStatus { namespace, name, status },
                resume: Resume::Apply,
            },
            Err(e) => carry(callback_returned(&echo.metadata, finalizer, Event::Apply, Err(e))),
        },
        Opening::Invoke { event: Event::Cleanup } => carry(
            callback_returned(&echo.metadata, finalizer, Event::Cleanup, echo.cleanup()),
        ),
        Opening::Proceed { step } => carry(step),
    }
}

/// Ends the attempt with the cluster's answer to the request it was waiting on.
pub fn resume(waiting: Resume, reply: Result<(), ApiError>) -> (out: Result<Action, ReconcileError>)
    ensures
        outcome_view(out) == resumed(waiting, reply_view(reply)),
{
    match waiting {
        Resume::Finalizer { pending } => patch_returned(pending, reply),
        Resume::Apply => match Echo::status_patched(reply) {
            Ok(action) => Ok(action),
            Err(e) => Err(ReconcileError::ApplyFailed(e)),
        },
    }
}

/// Turns the outcome of an attempt into what the scheduler does next.
pub fn settle(echo: &Echo, outcome: &Result<Action, ReconcileError>) -> (out: Action)
    ensures
        out == settled(outcome_view(*outcome)),
{
    match outcome {
        Ok(action) => *action,
        Err(error) => error_policy(echo, error),
    }
}

/// No attempt is ever given up: whatever the failure, the scheduler is told to run the object
/// again after a positive delay.
pub proof fn lemma_failure_is_retried(error: ReconcileErrorView)
    ensures
        settled(Err(error)) matches Action::RequeueAfter { secs } && secs > 0,
{
}

/// An attempt on an object whose status already reflects its spec sends nothing to the
/// cluster and ends with the settled requeue.
pub proof fn lemma_settled_attempt_is_quiet(echo: EchoView, finalizer: Seq<char>)
    requires
        !echo.metadata.is_deleting(),
        echo.metadata.finalizers.contains(finalizer),
        echo.already_echoed(),
    ensures
        started(echo, finalizer) == (ProgressView::Done {
            outcome: Ok(Action::RequeueAfter { secs: SETTLED_REQUEUE_SECS }),
        }),
{
}

/// An attempt never touches the status of an object that is marked for deletion, nor of one
/// that does not carry the finalizer yet.
pub proof fn lemma_status_patch_only_when_managed(echo: EchoView, finalizer: Seq<char>)
    requires
        started(echo, finalizer) matches ProgressView::Call {
            effect: EffectView::PatchStatus { .. },
            ..
        },
    ensures
        !echo.metadata.is_deleting(),
        echo.metadata.finalizers.contains(finalizer),
        !echo.already_echoed(),
{
}

} // verus!
