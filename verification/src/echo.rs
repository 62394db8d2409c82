use vstd::prelude::*;
use crate::action::{Action, SETTLED_REQUEUE_SECS};
use crate::document::{merged, Document, Fields, Value, ValueView};
use crate::error::{ApiError, CallbackError};
use crate::resource::{copy_text, Echo, EchoStatus, EchoStatusView, EchoView};

verus! {

/// The status field that says whether a message was echoed.
pub open spec fn echoed_field() -> Seq<char> {
    "echoed"@
}

/// The status field that holds the message that was echoed.
pub open spec fn message_field() -> Seq<char> {
    "echoed_message"@
}

/// The two status fields are different fields.
pub proof fn lemma_status_fields_differ()
    ensures
        echoed_field() != message_field(),
{
    reveal_strlit("echoed");
    reveal_strlit("echoed_message");
    assert(echoed_field().len() != message_field().len());
}

/// The fields that a status is written as: `echoed` always, `echoed_message` where it is set.
pub open spec fn status_fields(status: EchoStatusView) -> Fields {
    let base = Fields::empty().insert(echoed_field(), ValueView::Bool(status.echoed));
    match status.echoed_message {
        Some(m) => base.insert(message_field(), ValueView::Text(m)),
        None => base,
    }
}

/// The status that a document is read as. A field that is missing or of another type reads as
/// not echoed, or as no message.
pub open spec fn status_of(fields: Fields) -> EchoStatusView {
    EchoStatusView {
        echoed: fields.contains_key(echoed_field()) && fields[echoed_field()] == ValueView::Bool(
            true,
        ),
        echoed_message: if fields.contains_key(message_field()) {
            match fields[message_field()] {
                ValueView::Text(m) => Some(m),
                _ => None,
            }
        } else {
            None
        },
    }
}

/// What an apply does next.
#[derive(Clone, Debug, PartialEq, Eq)]
pub enum ApplyStep {
    /// Nothing is left to do: the status already reflects the spec.
    Settled { action: Action },
    /// Merge `status` into the status of the object `name`; `namespace` is `None` where the
    /// object names none and the client's default is to be used.
    PatchStatus { namespace: Option<String>, name: String, status: Document },
}

/// The next step of an apply as a mathematical value.
pub enum ApplyStepView {
    Settled { action: Action },
    PatchStatus { namespace: Option<Seq<char>>, name: Seq<char>, status: Fields },
}

impl View for ApplyStep {
    type V = ApplyStepView;

    open spec fn view(&self) -> ApplyStepView {
        match self {
            ApplyStep::Settled { action } => ApplyStepView::Settled { action: *action },
            ApplyStep::PatchStatus { namespace, name, status } => ApplyStepView::PatchStatus {
                namespace: namespace.deep_view(),
                name: name@,
                status: status@,
            },
        }
    }
}

impl EchoView {
    /// The status says that exactly the spec's message was echoed.
    pub open spec fn already_echoed(self) -> bool {
        self.status matches Some(s) && s.echoed && s.echoed_message == Some(self.spec.message)
    }

    /// The status that an apply records for this spec.
    pub open spec fn echoed_status(self) -> EchoStatusView {
        EchoStatusView { echoed: true, echoed_message: Some(self.spec.message) }
    }

    /// The fields of the status as the cluster holds them; none where the object has no status.
    pub open spec fn status_document(self) -> Fields {
        match self.status {
            Some(s) => status_fields(s),
            None => Fields::empty(),
        }
    }

    /// The object after the cluster merged `delta` into its status: metadata and spec are as
    /// before.
    pub open spec fn with_status_patch(self, delta: Fields) -> EchoView {
        EchoView {
            metadata: self.metadata,
            spec: self.spec,
            status: Some(status_of(merged(self.status_document(), delta))),
        }
    }

    /// What an apply of this object decides.
    pub open spec fn apply_step(self) -> Result<ApplyStepView, CallbackError> {
        if self.already_echoed() {
            Ok(ApplyStepView::Settled { action: Action::RequeueAfter { secs: SETTLED_REQUEUE_SECS } })
        } else {
            match self.metadata.name {
                Some(name) => Ok(
                    ApplyStepView::PatchStatus {
                        namespace: self.metadata.namespace,
                        name,
                        status: status_fields(self.echoed_status()),
                    },
                ),
                None => Err(CallbackError::UnnamedObject),
            }
        }
    }
}

impl EchoStatus {
    /// The document that carries this status.
    pub fn to_document(&self) -> (out: Document)
        ensures
            out.wf(),
            out@ == status_fields(self@),
    {
        let mut out = Document::new();
        out.set("echoed", Value::Bool(self.echoed));
        match &self.echoed_message {
            Some(m) => {
                out.set("echoed_message", Value::Text(m.clone()));
            },
            None => {},
        }
        out
    }

    /// The status that `document` carries.
    pub fn from_document(document: &Document) -> (out: EchoStatus)
        requires
            document.wf(),
        ensures
            out@ == status_of(document@),
    {
        let echoed = match document.get("echoed") {
            Some(Value::Bool(b)) => b,
            _ => false,
        };
        let echoed_message = match document.get("echoed_message") {
            Some(Value::Text(m)) => Some(m),
            _ => None,
        };
        EchoStatus { echoed_message, echoed }
    }
}

impl Echo {
    /// Whether the status already says that the spec's message was echoed.
    pub fn already_echoed(&self) -> (out: bool)
        ensures
            out == self@.already_echoed(),
    {
        match &self.status {
            Some(status) => {
                if status.echoed {
                    match &status.echoed_message {
                        Some(previous) => *previous == self.spec.message,
                        None => false,
                    }
                } else {
                    false
                }
            },
            None => false,
        }
    }

    /// The apply callback. Where the status already reflects the spec it does nothing and asks to
    /// be run again after `SETTLED_REQUEUE_SECS`; otherwise it asks for the status patch that
    /// records the echo. An object without a name cannot be patched: that attempt fails.
    pub fn reconcile(&self) -> (out: Result<ApplyStep, CallbackError>)
        ensures
            match out {
                Ok(step) => self@.apply_step() == Ok::<ApplyStepView, CallbackError>(step@),
                Err(e) => self@.apply_step() == Err::<ApplyStepView, CallbackError>(e),
            },
            out matches Ok(ApplyStep::PatchStatus { status, .. }) ==> status.wf(),
    {
        if self.already_echoed() {
            return Ok(
                ApplyStep::Settled { action: Action::RequeueAfter { secs: SETTLED_REQUEUE_SECS } },
            );
        }
        match &self.metadata.name {
            Some(name) => {
                let status = EchoStatus {
                    echoed_message: Some(self.spec.message.clone()),
                    echoed: true,
                };
                Ok(
                    ApplyStep::PatchStatus {
                        namespace: copy_text(&self.metadata.namespace),
                        name: name.clone(),
                        status: status.to_document(),
                    },
                )
            },
            None => Err(CallbackError::UnnamedObject),
        }
    }

    /// How an apply ends once the cluster has answered the status patch: with the settled requeue
    /// where it took the patch, with the cluster's refusal where it did not.
    pub fn status_patched(reply: Result<(), ApiError>) -> (out: Result<Action, CallbackError>)
        ensures
            match reply {
                Ok(_) => out == Ok::<Action, CallbackError>(
                    Action::RequeueAfter { secs: SETTLED_REQUEUE_SECS },
                ),
                Err(e) => out == Err::<Action, CallbackError>(CallbackError::Api(e)),
            },
    {
        match reply {
            Ok(_) => Ok(Action::RequeueAfter { secs: SETTLED_REQUEUE_SECS }),
            Err(e) => Err(CallbackError::Api(e)),
        }
    }

    /// The cleanup callback: an `Echo` owns nothing outside itself, so there is nothing to undo
    /// and nothing to wait for but the object's removal.
    pub fn cleanup(&self) -> (out: Result<Action, CallbackError>)
        ensures
            out == Ok::<Action, CallbackError>(Action::AwaitExternalChange),
    {
        Ok(Action::AwaitExternalChange)
    }

    /// The object as the cluster shows it after merging `delta` into its status.
    pub fn with_status_patch(&self, delta: &Document) -> (out: Echo)
        requires
            delta.wf(),
        ensures
            out@ == self@.with_status_patch(delta@),
    {
        let mut fields = match &self.status {
            Some(s) => s.to_document(),
            None => Document::new(),
        };
        fields.merge(delta);
        Echo {
            metadata: self.metadata.duplicate(),
            spec: self.spec.duplicate(),
            status: Some(EchoStatus::from_document(&fields)),
        }
    }
}

/// Writing a status as fields and reading it back gives the same status.
pub proof fn lemma_status_round_trip(status: EchoStatusView)
    ensures
        status_of(status_fields(status)) == status,
{
    lemma_status_fields_differ();
}

/// A status patch touches the status only: metadata and spec of the object stay what they were.
pub proof fn lemma_status_patch_keeps_spec(echo: EchoView, delta: Fields)
    ensures
        echo.with_status_patch(delta).spec == echo.spec,
        echo.with_status_patch(delta).metadata == echo.metadata,
{
}

/// An apply is idempotent. Once the patch that it asks for is merged, whatever the status held
/// before, the object counts as echoed, and the next apply of the unchanged spec sends nothing
/// and asks for the settled requeue.
pub proof fn lemma_apply_converges(echo: EchoView)
    requires
        echo.apply_step() matches Ok(ApplyStepView::PatchStatus { .. }),
    ensures
        echo.apply_step() matches Ok(ApplyStepView::PatchStatus { status, .. }) && {
            let after = echo.with_status_patch(status);
            &&& after.already_echoed()
            &&& after.status == Some(echo.echoed_status())
            &&& after.apply_step() == Ok::<ApplyStepView, CallbackError>(
                ApplyStepView::Settled {
                    action: Action::RequeueAfter { secs: SETTLED_REQUEUE_SECS },
                },
            )
        },
{
    lemma_status_fields_differ();
}

/// An apply of an object whose status already reflects its spec sends no patch, and the delay it
/// asks for is the settled one, not an immediate retry.
pub proof fn lemma_settled_apply_is_quiet(echo: EchoView)
    requires
        echo.already_echoed(),
    ensures
        echo.apply_step() matches Ok(ApplyStepView::Settled { action }) && action.delay() == Some(
            SETTLED_REQUEUE_SECS,
        ) && SETTLED_REQUEUE_SECS > 0,
{
}

} // verus!
