use vstd::prelude::*;

verus! {

/// What the cluster answered when it refused a request.
#[derive(Clone, Debug, PartialEq, Eq)]
pub struct ApiError {
    /// The HTTP status of the answer; 0 where the request failed before any answer came.
    pub code: u16,
    pub message: String,
}

/// Why a reconciler callback gave up.
#[derive(Clone, Debug, PartialEq, Eq)]
pub enum CallbackError {
    /// A request the callback sent to the cluster was refused.
    Api(ApiError),
    /// The object carries no name, so no request can address it.
    UnnamedObject,
}

/// Why one reconciliation attempt failed. The cause is kept whole, so that a log line can show it;
/// the retry decision does not depend on it.
#[derive(Clone, Debug, PartialEq, Eq)]
pub enum ReconcileError {
    /// The apply callback failed.
    ApplyFailed(CallbackError),
    /// The cleanup callback failed; the finalizer stays.
    CleanupFailed(CallbackError),
    /// The patch that adds the finalizer was refused.
    AddFinalizer(ApiError),
    /// The patch that removes the finalizer was refused.
    RemoveFinalizer(ApiError),
    /// The object carries no name, so its finalizers cannot be patched.
    UnnamedObject,
}

/// A refusal of the cluster as a mathematical value.
pub struct ApiErrorView {
    pub code: u16,
    pub message: Seq<char>,
}

/// A failure of a callback as a mathematical value.
pub enum CallbackErrorView {
    Api(ApiErrorView),
    UnnamedObject,
}

/// A failure of an attempt as a mathematical value.
pub enum ReconcileErrorView {
    ApplyFailed(CallbackErrorView),
    CleanupFailed(CallbackErrorView),
    AddFinalizer(ApiErrorView),
    RemoveFinalizer(ApiErrorView),
    UnnamedObject,
}

impl View for ApiError {
    type V = ApiErrorView;

    open spec fn view(&self) -> ApiErrorView {
        ApiErrorView { code: self.code, message: self.message@ }
    }
}

impl View for CallbackError {
    type V = CallbackErrorView;

    open spec fn view(&self) -> CallbackErrorView {
        match self {
            CallbackError::Api(e) => CallbackErrorView::Api(e@),
            CallbackError::UnnamedObject => CallbackErrorView::UnnamedObject,
        }
    }
}

impl View for ReconcileError {
    type V = ReconcileErrorView;

    open spec fn view(&self) -> ReconcileErrorView {
        match self {
            ReconcileError::ApplyFailed(e) => ReconcileErrorView::ApplyFailed(e@),
            ReconcileError::CleanupFailed(e) => ReconcileErrorView::CleanupFailed(e@),
            ReconcileError::AddFinalizer(e) => ReconcileErrorView::AddFinalizer(e@),
            ReconcileError::RemoveFinalizer(e) => ReconcileErrorView::RemoveFinalizer(e@),
            ReconcileError::UnnamedObject => ReconcileErrorView::UnnamedObject,
        }
    }
}

/// The status with which the cluster reports that the object changed under the request.
pub const CONFLICT: u16 = 409;

impl ApiError {
    /// Whether the request lost a race against another writer. Such a failure is retried like any
    /// other; the engine never retries inside one attempt.
    pub fn is_conflict(&self) -> (out: bool)
        ensures
            out == (self.code == CONFLICT),
    {
        self.code == CONFLICT
    }
}

} // verus!
