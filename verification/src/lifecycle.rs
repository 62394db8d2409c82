use vstd::prelude::*;
use crate::action::Action;
use crate::error::{
    ApiError, ApiErrorView, CallbackError, CallbackErrorView, ReconcileError, ReconcileErrorView,
};
use crate::finalizer::{
    first_at, first_index, lemma_first_at_unique, lemma_first_index, phase, phase_of, FinalizerPatch,
    FinalizerPatchView, Phase,
};
use crate::resource::{Metadata, MetadataView};

verus! {

/// The callback that an object is due.
#[derive(Clone, Copy, Debug, PartialEq, Eq, Structural)]
pub enum Event {
    /// The object is live and managed: drive it toward its spec.
    Apply,
    /// The object is being deleted and still managed: undo what was done for it.
    Cleanup,
}

/// What an attempt waits for while its finalizer patch is with the cluster.
#[derive(Clone, Copy, Debug, PartialEq, Eq, Structural)]
pub enum Pending {
    /// The finalizer is being added; no callback has run.
    AddingFinalizer,
    /// Cleanup succeeded with `then`, and the finalizer is being removed.
    RemovingFinalizer { then: Action },
}

/// A finalizer patch together with the object it is for.
#[derive(Clone, Debug, PartialEq, Eq)]
pub struct PatchRequest {
    pub namespace: String,
    pub name: String,
    pub patch: FinalizerPatch,
}

/// A patch request as a mathematical value.
pub struct PatchRequestView {
    pub namespace: Seq<char>,
    pub name: Seq<char>,
    pub patch: FinalizerPatchView,
}

impl View for PatchRequest {
    type V = PatchRequestView;

    open spec fn view(&self) -> PatchRequestView {
        PatchRequestView { namespace: self.namespace@, name: self.name@, patch: self.patch@ }
    }
}

/// What an attempt goes on with where no callback is due, or none any more.
#[derive(Debug, PartialEq, Eq)]
pub enum Step {
    /// Send the patch and come back with the cluster's answer.
    Patch { request: PatchRequest, pending: Pending },
    /// The attempt is over.
    Done { outcome: Result<Action, ReconcileError> },
}

/// A step as a mathematical value.
pub enum StepView {
    Patch { request: PatchRequestView, pending: Pending },
    Done { outcome: Result<Action, ReconcileErrorView> },
}

/// How an attempt opens.
#[derive(Debug, PartialEq, Eq)]
pub enum Opening {
    /// Run the callback for `event` and come back with its result.
    Invoke { event: Event },
    /// No callback is due: go on with `step`.
    Proceed { step: Step },
}

/// An opening as a mathematical value.
pub enum OpeningView {
    Invoke { event: Event },
    Proceed { step: StepView },
}

/// The view of an attempt's outcome.
pub open spec fn outcome_view(outcome: Result<Action, ReconcileError>) -> Result<
    Action,
    ReconcileErrorView,
> {
    match outcome {
        Ok(a) => Ok(a),
        Err(e) => Err(e@),
    }
}

/// The view of a callback's result.
pub open spec fn result_view(result: Result<Action, CallbackError>) -> Result<
    Action,
    CallbackErrorView,
> {
    match result {
        Ok(a) => Ok(a),
        Err(e) => Err(e@),
    }
}

/// The view of the cluster's answer to a patch.
pub open spec fn reply_view(reply: Result<(), ApiError>) -> Result<(), ApiErrorView> {
    match reply {
        Ok(_) => Ok(()),
        Err(e) => Err(e@),
    }
}

impl View for Step {
    type V = StepView;

    open spec fn view(&self) -> StepView {
        match self {
            Step::Patch { request, pending } => StepView::Patch {
                request: request@,
                pending: *pending,
            },
            Step::Done { outcome } => StepView::Done { outcome: outcome_view(*outcome) },
        }
    }
}

impl View for Opening {
    type V = OpeningView;

    open spec fn view(&self) -> OpeningView {
        match self {
            Opening::Invoke { event } => OpeningView::Invoke { event: *event },
            Opening::Proceed { step } => OpeningView::Proceed { step: step@ },
        }
    }
}

/// The attempt that ends at once with `error`.
pub open spec fn failed(error: ReconcileErrorView) -> StepView {
    StepView::Done { outcome: Err(error) }
}

/// The attempt that ends at once with `action`.
pub open spec fn finished(action: Action) -> StepView {
    StepView::Done { outcome: Ok(action) }
}

/// The request to `patch` the finalizers of the object that `meta` names.
pub open spec fn request_for(meta: MetadataView, patch: FinalizerPatchView) -> PatchRequestView {
    PatchRequestView {
        namespace: meta.namespace_or_default(),
        name: meta.name->Some_0,
        patch,
    }
}

/// How an attempt on an object opens, by the phase its metadata shows:
/// a managed live object is applied; an unmanaged live object gets the finalizer and nothing
/// else; a managed object under deletion is cleaned up; one whose finalizer is gone is left
/// alone. A patch needs the object's name, and so does a cleanup, whose success leads to one.
pub open spec fn opening(meta: MetadataView, finalizer: Seq<char>) -> OpeningView {
    match phase_of(meta, finalizer) {
        Phase::Managed => OpeningView::Invoke { event: Event::Apply },
        Phase::Unmanaged => if meta.name is Some {
            OpeningView::Proceed {
                step: StepView::Patch {
                    request: request_for(
                        meta,
                        FinalizerPatchView::Append { expected: meta.finalizers, name: finalizer },
                    ),
                    pending: Pending::AddingFinalizer,
                },
            }
        } else {
            OpeningView::Proceed { step: failed(ReconcileErrorView::UnnamedObject) }
        },
        Phase::Deleting => if meta.name is Some {
            OpeningView::Invoke { event: Event::Cleanup }
        } else {
            OpeningView::Proceed { step: failed(ReconcileErrorView::UnnamedObject) }
        },
        Phase::Removed => OpeningView::Proceed { step: finished(Action::AwaitExternalChange) },
    }
}

/// How the attempt goes on once the callback for `event` has returned `result`.
/// An apply ends the attempt either way. A failed cleanup ends it and leaves the finalizer on
/// the object; only a successful one leads to the patch that removes the finalizer.
pub open spec fn after_callback(
    meta: MetadataView,
    finalizer: Seq<char>,
    event: Event,
    result: Result<Action, CallbackErrorView>,
) -> StepView {
    match event {
        Event::Apply => match result {
            Ok(action) => finished(action),
            Err(e) => failed(ReconcileErrorView::ApplyFailed(e)),
        },
        Event::Cleanup => match result {
            Err(e) => failed(ReconcileErrorView::CleanupFailed(e)),
            Ok(action) => if !meta.finalizers.contains(finalizer) {
                finished(action)
            } else if meta.name is None {
                failed(ReconcileErrorView::UnnamedObject)
            } else {
                StepView::Patch {
                    request: request_for(
                        meta,
                        FinalizerPatchView::RemoveAt {
                            index: first_index(meta.finalizers, finalizer),
                            name: finalizer,
                        },
                    ),
                    pending: Pending::RemovingFinalizer { then: action },
                }
            },
        },
    }
}

/// How the attempt ends once the cluster has answered the finalizer patch.
pub open spec fn after_patch(pending: Pending, reply: Result<(), ApiErrorView>) -> Result<
    Action,
    ReconcileErrorView,
> {
    match pending {
        Pending::AddingFinalizer => match reply {
            Ok(_) => Ok(Action::AwaitExternalChange),
            Err(e) => Err(ReconcileErrorView::AddFinalizer(e)),
        },
        Pending::RemovingFinalizer { then } => match reply {
            Ok(_) => Ok(then),
            Err(e) => Err(ReconcileErrorView::RemoveFinalizer(e)),
        },
    }
}

/// Opens a reconciliation attempt on the object with metadata `meta`, for the finalizer
/// `finalizer`.
pub fn handle(meta: &Metadata, finalizer: &str) -> (out: Opening)
    ensures
        out@ == opening(meta@, finalizer@),
{
    match phase(meta, finalizer) {
        Phase::Managed => Opening::Invoke { event: Event::Apply },
        Phase::Unmanaged => match &meta.name {
            Some(name) => Opening::Proceed {
                step: Step::Patch {
                    request: PatchRequest {
                        namespace: meta.namespace_or_default(),
                        name: name.clone(),
                        patch: FinalizerPatch::append(&meta.finalizers, finalizer),
                    },
                    pending: Pending::AddingFinalizer,
                },
            },
            None => Opening::Proceed {
                step: Step::Done { outcome: Err(ReconcileError::UnnamedObject) },
            },
        },
        Phase::Deleting => match &meta.name {
            Some(_) => Opening::Invoke { event: Event::Cleanup },
            None => Opening::Proceed {
                step: Step::Done { outcome: Err(ReconcileError::UnnamedObject) },
            },
        },
        Phase::Removed => Opening::Proceed {
            step: Step::Done { outcome: Ok(Action::AwaitExternalChange) },
        },
    }
}

/// Takes the attempt on from the callback's result.
pub fn callback_returned(
    meta: &Metadata,
    finalizer: &str,
    event: Event,
    result: Result<Action, CallbackError>,
) -> (out: Step)
    ensures
        out@ == after_callback(meta@, finalizer@, event, result_view(result)),
{
    match event {
        Event::Apply => match result {
            Ok(action) => Step::Done { outcome: Ok(action) },
            Err(e) => Step::Done { outcome: Err(ReconcileError::ApplyFailed(e)) },
        },
        Event::Cleanup => match result {
            Err(e) => Step::Done { outcome: Err(ReconcileError::CleanupFailed(e)) },
            Ok(action) => match FinalizerPatch::remove(&meta.finalizers, finalizer) {
                None => Step::Done { outcome: Ok(action) },
                Some(patch) => match &meta.name {
                    None => Step::Done { outcome: Err(ReconcileError::UnnamedObject) },
                    Some(name) => {
                        proof {
                            let list = meta@.finalizers;
                            let index = patch@->RemoveAt_index;
                            assert(list.contains(finalizer@));
                            lemma_first_index(list, finalizer@);
                            lemma_first_at_unique(
                                list,
                                finalizer@,
                                index,
                                first_index(list, finalizer@),
                            );
                        }
                        Step::Patch {
                            request: PatchRequest {
                                namespace: meta.namespace_or_default(),
                                name: name.clone(),
                                patch,
                            },
                            pending: Pending::RemovingFinalizer { then: action },
                        }
                    },
                },
            },
        },
    }
}

/// Ends the attempt with the cluster's answer to the finalizer patch.
pub fn patch_returned(pending: Pending, reply: Result<(), ApiError>) -> (out: Result<
    Action,
    ReconcileError,
>)
    ensures
        outcome_view(out) == after_patch(pending, reply_view(reply)),
{
    match pending {
        Pending::AddingFinalizer => match reply {
            Ok(_) => Ok(Action::AwaitExternalChange),
            Err(e) => Err(ReconcileError::AddFinalizer(e)),
        },
        Pending::RemovingFinalizer { then } => match reply {
            Ok(_) => Ok(then),
            Err(e) => Err(ReconcileError::RemoveFinalizer(e)),
        },
    }
}

/// An object marked for deletion is never applied: an apply is let through only for a
/// live object that carries the finalizer.
pub proof fn lemma_apply_only_when_managed(meta: MetadataView, finalizer: Seq<char>)
    ensures
        opening(meta, finalizer) == (OpeningView::Invoke { event: Event::Apply }) <==> phase_of(
            meta,
            finalizer,
        ) == Phase::Managed,
        meta.is_deleting() ==> opening(meta, finalizer) != (OpeningView::Invoke {
            event: Event::Apply,
        }),
{
}

/// A named object that is marked for deletion while managed is cleaned up: the opening asks for
/// the cleanup callback and for nothing else.
pub proof fn lemma_deleting_is_cleaned_up(meta: MetadataView, finalizer: Seq<char>)
    requires
        phase_of(meta, finalizer) == Phase::Deleting,
        meta.name is Some,
    ensures
        opening(meta, finalizer) == (OpeningView::Invoke { event: Event::Cleanup }),
{
}

/// The finalizer is removed only after a successful cleanup. Whatever the callback and its
/// result, a removal patch comes out only where the callback was the cleanup and it succeeded;
/// it then takes away this finalizer's first entry and no other.
pub proof fn lemma_removal_needs_clean_cleanup(
    meta: MetadataView,
    finalizer: Seq<char>,
    event: Event,
    result: Result<Action, CallbackErrorView>,
)
    requires
        after_callback(meta, finalizer, event, result) matches StepView::Patch { .. },
    ensures
        event == Event::Cleanup,
        result is Ok,
        after_callback(meta, finalizer, event, result) matches StepView::Patch { request, pending }
            && pending == (Pending::RemovingFinalizer { then: result->Ok_0 }) && (
        request.patch matches FinalizerPatchView::RemoveAt { index, name } && name == finalizer
            && first_at(meta.finalizers, finalizer, index)),
{
    lemma_first_index(meta.finalizers, finalizer);
}

/// A failed cleanup keeps the finalizer: the attempt ends with the failure and sends no patch.
pub proof fn lemma_failed_cleanup_keeps_finalizer(
    meta: MetadataView,
    finalizer: Seq<char>,
    error: CallbackErrorView,
)
    ensures
        after_callback(meta, finalizer, Event::Cleanup, Err(error)) == failed(
            ReconcileErrorView::CleanupFailed(error),
        ),
{
}

/// The opening never removes a finalizer: the only patch it sends appends this finalizer to the
/// list as it was seen, and only for a live object that lacks it.
pub proof fn lemma_opening_only_adds(meta: MetadataView, finalizer: Seq<char>)
    requires
        opening(meta, finalizer) matches OpeningView::Proceed { step: StepView::Patch { .. } },
    ensures
        phase_of(meta, finalizer) == Phase::Unmanaged,
        opening(meta, finalizer) matches OpeningView::Proceed {
            step: StepView::Patch { request, pending },
        } && pending == Pending::AddingFinalizer && request.patch == (FinalizerPatchView::Append {
            expected: meta.finalizers,
            name: finalizer,
        }),
{
}

/// A patch that fails ends the attempt with an error, whichever patch it was; the object is
/// then retried, never dropped.
pub proof fn lemma_refused_patch_fails_attempt(pending: Pending, error: ApiErrorView)
    ensures
        after_patch(pending, Err(error)) is Err,
{
}

} // verus!
