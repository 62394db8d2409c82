use echo_operator::action::Action;
use echo_operator::document::{Document, Value};
use echo_operator::echo::ApplyStep;
use echo_operator::error::{ApiError, CallbackError};
use echo_operator::resource::{Echo, EchoSpec, EchoStatus, Metadata, ResourceKey};

fn echo(name: Option<&str>, message: &str, status: Option<EchoStatus>) -> Echo {
    Echo {
        metadata: Metadata {
            name: name.map(|n| n.to_string()),
            namespace: Some("prod".to_string()),
            generation: 1,
            deletion_timestamp: None,
            finalizers: vec!["echo.pontifex.dev/finalizer".to_string()],
        },
        spec: EchoSpec { message: message.to_string() },
        status,
    }
}

fn echoed(message: &str) -> EchoStatus {
    EchoStatus { echoed_message: Some(message.to_string()), echoed: true }
}

#[test]
fn apply_without_status_asks_for_the_status_patch() {
    let step = echo(Some("demo"), "hi", None).reconcile().unwrap();
    match step {
        ApplyStep::PatchStatus { namespace, name, status } => {
            assert_eq!(namespace, Some("prod".to_string()));
            assert_eq!(name, "demo");
            assert_eq!(status.get("echoed"), Some(Value::Bool(true)));
            assert_eq!(status.get("echoed_message"), Some(Value::Text("hi".to_string())));
            assert_eq!(status.entries().len(), 2);
        }
        other => panic!("expected a status patch, got {:?}", other),
    }
}

#[test]
fn apply_with_matching_status_is_settled_without_a_patch() {
    let step = echo(Some("demo"), "hi", Some(echoed("hi"))).reconcile();
    assert_eq!(step, Ok(ApplyStep::Settled { action: Action::RequeueAfter { secs: 300 } }));
}

#[test]
fn apply_twice_repeats_nothing() {
    let first = echo(Some("demo"), "hi", None);
    let delta = match first.reconcile().unwrap() {
        ApplyStep::PatchStatus { status, .. } => status,
        other => panic!("expected a status patch, got {:?}", other),
    };
    let second = first.with_status_patch(&delta);
    assert_eq!(second.status, Some(echoed("hi")));
    assert!(second.already_echoed());
    assert_eq!(
        second.reconcile(),
        Ok(ApplyStep::Settled { action: Action::RequeueAfter { secs: 300 } })
    );
    assert_eq!(
        second.reconcile(),
        Ok(ApplyStep::Settled { action: Action::RequeueAfter { secs: 300 } })
    );
}

#[test]
fn apply_after_spec_change_patches_the_new_message() {
    let changed = echo(Some("demo"), "bye", Some(echoed("hi")));
    assert!(!changed.already_echoed());
    match changed.reconcile().unwrap() {
        ApplyStep::PatchStatus { status, .. } => {
            assert_eq!(status.get("echoed"), Some(Value::Bool(true)));
            assert_eq!(status.get("echoed_message"), Some(Value::Text("bye".to_string())));
        }
        other => panic!("expected a status patch, got {:?}", other),
    }
}

#[test]
fn status_that_is_not_flagged_echoed_does_not_count() {
    let status = EchoStatus { echoed_message: Some("hi".to_string()), echoed: false };
    let e = echo(Some("demo"), "hi", Some(status));
    assert!(!e.already_echoed());
    assert!(matches!(e.reconcile(), Ok(ApplyStep::PatchStatus { .. })));
}

#[test]
fn status_without_message_does_not_count() {
    let status = EchoStatus { echoed_message: None, echoed: true };
    let e = echo(Some("demo"), "hi", Some(status));
    assert!(!e.already_echoed());
    assert!(matches!(e.reconcile(), Ok(ApplyStep::PatchStatus { .. })));
}

#[test]
fn apply_of_unnamed_object_fails() {
    assert_eq!(echo(None, "hi", None).reconcile(), Err(CallbackError::UnnamedObject));
}

#[test]
fn settled_unnamed_object_needs_no_name() {
    let step = echo(None, "hi", Some(echoed("hi"))).reconcile();
    assert_eq!(step, Ok(ApplyStep::Settled { action: Action::RequeueAfter { secs: 300 } }));
}

#[test]
fn apply_keeps_a_missing_namespace_missing() {
    let mut e = echo(Some("demo"), "hi", None);
    e.metadata.namespace = None;
    match e.reconcile().unwrap() {
        ApplyStep::PatchStatus { namespace, .. } => assert_eq!(namespace, None),
        other => panic!("expected a status patch, got {:?}", other),
    }
}

#[test]
fn status_patch_answer_decides_the_apply() {
    assert_eq!(Echo::status_patched(Ok(())), Ok(Action::RequeueAfter { secs: 300 }));
    let conflict = ApiError { code: 409, message: "the object has been modified".to_string() };
    assert!(conflict.is_conflict());
    assert_eq!(
        Echo::status_patched(Err(conflict.clone())),
        Err(CallbackError::Api(conflict))
    );
    let gone = ApiError { code: 404, message: "not found".to_string() };
    assert!(!gone.is_conflict());
}

#[test]
fn cleanup_awaits_the_removal() {
    assert_eq!(echo(Some("demo"), "hi", None).cleanup(), Ok(Action::AwaitExternalChange));
    assert_eq!(echo(None, "hi", Some(echoed("hi"))).cleanup(), Ok(Action::AwaitExternalChange));
}

#[test]
fn status_patch_leaves_spec_and_metadata_alone() {
    let before = echo(Some("demo"), "hi", Some(echoed("old")));
    let mut delta = Document::new();
    delta.set("echoed_message", Value::Text("new".to_string()));
    let after = before.with_status_patch(&delta);
    assert_eq!(after.spec, before.spec);
    assert_eq!(after.metadata, before.metadata);
    assert_eq!(after.status, Some(echoed("new")));
}

#[test]
fn status_patch_of_one_field_keeps_the_other() {
    let before = echo(Some("demo"), "hi", Some(echoed("hi")));
    let mut delta = Document::new();
    delta.set("echoed", Value::Bool(false));
    let after = before.with_status_patch(&delta);
    assert_eq!(
        after.status,
        Some(EchoStatus { echoed_message: Some("hi".to_string()), echoed: false })
    );
}

#[test]
fn status_round_trips_through_a_document() {
    let with = echoed("hi");
    assert_eq!(EchoStatus::from_document(&with.to_document()), with);
    let without = EchoStatus { echoed_message: None, echoed: false };
    let doc = without.to_document();
    assert_eq!(doc.get("echoed"), Some(Value::Bool(false)));
    assert_eq!(doc.get("echoed_message"), None);
    assert_eq!(EchoStatus::from_document(&doc), without);
}

#[test]
fn status_reads_fields_of_another_type_as_unset() {
    let mut doc = Document::new();
    doc.set("echoed", Value::Number(1));
    doc.set("echoed_message", Value::Bool(true));
    assert_eq!(
        EchoStatus::from_document(&doc),
        EchoStatus { echoed_message: None, echoed: false }
    );
    assert_eq!(
        EchoStatus::from_document(&Document::new()),
        EchoStatus { echoed_message: None, echoed: false }
    );
}

#[test]
fn key_defaults_the_namespace() {
    let mut e = echo(Some("demo"), "hi", None);
    assert_eq!(
        e.key(),
        Some(ResourceKey { namespace: "prod".to_string(), name: "demo".to_string() })
    );
    e.metadata.namespace = None;
    assert_eq!(e.metadata.namespace_or_default(), "default");
    assert_eq!(
        e.key(),
        Some(ResourceKey { namespace: "default".to_string(), name: "demo".to_string() })
    );
    assert_eq!(echo(None, "hi", None).key(), None);
}

#[test]
fn duplicates_are_equal() {
    let e = echo(Some("demo"), "hi", Some(echoed("hi")));
    assert_eq!(e.duplicate(), e);
    let k = e.key().unwrap();
    assert_eq!(k.duplicate(), k);
    assert!(k.same(&k.duplicate()));
    let other = ResourceKey { namespace: "prod".to_string(), name: "other".to_string() };
    assert!(!k.same(&other));
    let elsewhere = ResourceKey { namespace: "test".to_string(), name: "demo".to_string() };
    assert!(!k.same(&elsewhere));
}
