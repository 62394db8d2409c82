use echo_operator::action::Action;
use echo_operator::attempt::{reconcile, resume, Effect, Progress, ECHO_FINALIZER};
use echo_operator::error::{ApiError, ReconcileError};
use echo_operator::resource::{Echo, EchoSpec, EchoStatus, Metadata, ResourceKey};
use echo_operator::runner::{Engine, Work};
use echo_operator::watch::ChangeEvent;

fn key(name: &str) -> ResourceKey {
    ResourceKey { namespace: "default".to_string(), name: name.to_string() }
}

fn echo(name: &str, message: &str) -> Echo {
    Echo {
        metadata: Metadata {
            name: Some(name.to_string()),
            namespace: Some("default".to_string()),
            generation: 1,
            deletion_timestamp: None,
            finalizers: vec![],
        },
        spec: EchoSpec { message: message.to_string() },
        status: None,
    }
}

/// Runs one attempt to its end against a cluster that takes every patch, and returns the
/// object as the cluster holds it afterwards together with the outcome and the patches sent.
fn attempt(object: &Echo) -> (Echo, Result<Action, ReconcileError>, usize) {
    let mut after = object.duplicate();
    match reconcile(object, ECHO_FINALIZER) {
        Progress::Done { outcome } => (after, outcome, 0),
        Progress::Call { effect, resume: waiting } => {
            match effect {
                Effect::PatchFinalizers { request } => {
                    after.metadata.finalizers =
                        request.patch.apply(&object.metadata.finalizers).unwrap();
                }
                Effect::PatchStatus { status, .. } => {
                    after = object.with_status_patch(&status);
                }
            }
            (after, resume(waiting, Ok(())), 1)
        }
    }
}

#[test]
fn end_to_end_echo_lifecycle() {
    let mut engine = Engine::new(2);
    let mut now = 0u64;

    // Created with message "hi": the first attempt puts the finalizer on.
    let created = echo("demo", "hi");
    engine.observe(ChangeEvent::Added(created.duplicate()), now);
    let work = engine.next(now).unwrap();
    assert_eq!(work, Work { key: key("demo"), echo: created.duplicate() });
    let (managed, outcome, patches) = attempt(&work.echo);
    assert_eq!(patches, 1);
    assert_eq!(managed.metadata.finalizers, vec![ECHO_FINALIZER.to_string()]);
    assert_eq!(outcome, Ok(Action::AwaitExternalChange));
    engine.observe(ChangeEvent::Modified(managed.duplicate()), now);
    assert_eq!(engine.finish(&work, &outcome, now), Action::AwaitExternalChange);

    // The patch's own event leads to the apply: the status is patched, requeue at 300 s.
    let work = engine.next(now).unwrap();
    assert_eq!(work.echo, managed);
    let (echoed, outcome, patches) = attempt(&work.echo);
    assert_eq!(patches, 1);
    assert_eq!(
        echoed.status,
        Some(EchoStatus { echoed_message: Some("hi".to_string()), echoed: true })
    );
    assert_eq!(echoed.spec, managed.spec);
    assert_eq!(outcome, Ok(Action::RequeueAfter { secs: 300 }));
    engine.observe(ChangeEvent::Modified(echoed.duplicate()), now);
    assert_eq!(engine.finish(&work, &outcome, now), Action::RequeueAfter { secs: 300 });

    // The status patch's own event: the second apply short-circuits, no patch, five minutes.
    let work = engine.next(now).unwrap();
    assert_eq!(work.echo, echoed);
    let (same, outcome, patches) = attempt(&work.echo);
    assert_eq!(patches, 0);
    assert_eq!(same, echoed);
    assert_eq!(outcome, Ok(Action::RequeueAfter { secs: 300 }));
    assert_eq!(engine.finish(&work, &outcome, now), Action::RequeueAfter { secs: 300 });
    assert_eq!(engine.next(now), None);
    assert_eq!(engine.next_wakeup(), Some(300));
    assert_eq!(engine.next(299), None);

    // The spec changes to "bye": the apply sees the mismatch and patches again.
    now = 20;
    let mut changed = echoed.duplicate();
    changed.spec.message = "bye".to_string();
    changed.metadata.generation = 2;
    engine.observe(ChangeEvent::Modified(changed.duplicate()), now);
    let work = engine.next(now).unwrap();
    assert_eq!(work.echo, changed);
    let (echoed_bye, outcome, patches) = attempt(&work.echo);
    assert_eq!(patches, 1);
    assert_eq!(
        echoed_bye.status,
        Some(EchoStatus { echoed_message: Some("bye".to_string()), echoed: true })
    );
    assert_eq!(outcome, Ok(Action::RequeueAfter { secs: 300 }));
    engine.observe(ChangeEvent::Modified(echoed_bye.duplicate()), now);
    engine.finish(&work, &outcome, now);
    let work = engine.next(now).unwrap();
    let (_, outcome, patches) = attempt(&work.echo);
    assert_eq!(patches, 0);
    engine.finish(&work, &outcome, now);

    // Marked for deletion: cleanup runs and the finalizer is removed.
    now = 40;
    let mut deleting = echoed_bye.duplicate();
    deleting.metadata.deletion_timestamp = Some("2024-05-01T10:00:40Z".to_string());
    engine.observe(ChangeEvent::Modified(deleting.duplicate()), now);
    let work = engine.next(now).unwrap();
    let (released, outcome, patches) = attempt(&work.echo);
    assert_eq!(patches, 1);
    assert!(released.metadata.finalizers.is_empty());
    assert_eq!(released.status, deleting.status);
    assert_eq!(outcome, Ok(Action::AwaitExternalChange));

    // The object disappears: nothing is reconciled any more, at any later time.
    engine.observe(ChangeEvent::Deleted(released), now);
    assert_eq!(engine.finish(&work, &outcome, now), Action::AwaitExternalChange);
    assert_eq!(engine.lookup(&key("demo")), None);
    assert_eq!(engine.next(now), None);
    assert_eq!(engine.next(u64::MAX), None);
    assert_eq!(engine.next_wakeup(), None);
}

#[test]
fn concurrent_events_for_one_key_never_run_twice() {
    let mut engine = Engine::new(16);
    let object = echo("demo", "hi");
    for _ in 0..20 {
        engine.observe(ChangeEvent::Modified(object.duplicate()), 0);
    }
    let first = engine.next(0).unwrap();
    let mut running = 1usize;
    for _ in 0..20 {
        engine.observe(ChangeEvent::Modified(object.duplicate()), 0);
        if engine.next(0).is_some() {
            running += 1;
        }
        assert!(running <= 1);
    }
    // The events that arrived meanwhile are not lost: the key runs again at once afterwards,
    // although the attempt asked for no timer.
    engine.finish(&first, &Ok(Action::AwaitExternalChange), 1);
    let second = engine.next(1).unwrap();
    assert_eq!(second.key, key("demo"));
    assert_eq!(engine.next(1), None);
}

#[test]
fn different_keys_run_side_by_side() {
    let mut engine = Engine::new(2);
    engine.observe(ChangeEvent::Added(echo("a", "hi")), 0);
    engine.observe(ChangeEvent::Added(echo("b", "hi")), 0);
    engine.observe(ChangeEvent::Added(echo("c", "hi")), 0);
    let a = engine.next(0).unwrap();
    let b = engine.next(0).unwrap();
    assert_eq!(a.key, key("a"));
    assert_eq!(b.key, key("b"));
    assert_eq!(engine.next(0), None);
    engine.finish(&b, &Ok(Action::NoRequeue), 0);
    assert_eq!(engine.next(0).unwrap().key, key("c"));
}

#[test]
fn failed_attempt_is_retried_after_five_seconds() {
    let mut engine = Engine::new(1);
    engine.observe(ChangeEvent::Added(echo("demo", "hi")), 100);
    let work = engine.next(100).unwrap();
    let conflict = ApiError { code: 409, message: "conflict".to_string() };
    let action = engine.finish(&work, &Err(ReconcileError::AddFinalizer(conflict)), 101);
    assert_eq!(action, Action::RequeueAfter { secs: 5 });
    assert_eq!(engine.next_wakeup(), Some(106));
    assert_eq!(engine.next(105), None);
    assert_eq!(engine.next(106).unwrap().key, key("demo"));
}

#[test]
fn work_carries_the_latest_state() {
    let mut engine = Engine::new(1);
    engine.observe(ChangeEvent::Added(echo("demo", "one")), 0);
    engine.observe(ChangeEvent::Modified(echo("demo", "two")), 0);
    assert_eq!(engine.next(0).unwrap().echo.spec.message, "two");
    assert_eq!(engine.lookup(&key("demo")), Some(echo("demo", "two")));
}

#[test]
fn object_deleted_in_flight_is_not_requeued() {
    let mut engine = Engine::new(1);
    engine.observe(ChangeEvent::Added(echo("demo", "hi")), 0);
    let work = engine.next(0).unwrap();
    engine.observe(ChangeEvent::Modified(echo("demo", "hi")), 0);
    engine.observe(ChangeEvent::Deleted(echo("demo", "hi")), 0);
    let action = engine.finish(&work, &Ok(Action::RequeueAfter { secs: 300 }), 1);
    assert_eq!(action, Action::RequeueAfter { secs: 300 });
    assert_eq!(engine.next_wakeup(), None);
    assert_eq!(engine.next(u64::MAX), None);
}

#[test]
fn object_without_a_name_is_not_tracked() {
    let mut engine = Engine::new(1);
    let mut unnamed = echo("x", "hi");
    unnamed.metadata.name = None;
    engine.observe(ChangeEvent::Added(unnamed.duplicate()), 0);
    assert_eq!(engine.next(0), None);
    engine.observe(ChangeEvent::Deleted(unnamed), 0);
    assert_eq!(engine.next_wakeup(), None);
}

#[test]
fn shutdown_stops_admission_and_lets_flights_end() {
    let mut engine = Engine::new(2);
    engine.observe(ChangeEvent::Added(echo("a", "hi")), 0);
    engine.observe(ChangeEvent::Added(echo("b", "hi")), 0);
    let a = engine.next(0).unwrap();
    assert!(!engine.is_finished());
    engine.shutdown();
    assert!(!engine.is_finished());
    assert_eq!(engine.next(0), None);
    engine.observe(ChangeEvent::Added(echo("c", "hi")), 0);
    assert_eq!(engine.lookup(&key("c")), None);
    let action = engine.finish(&a, &Ok(Action::RequeueAfter { secs: 300 }), 1);
    assert_eq!(action, Action::RequeueAfter { secs: 300 });
    assert!(engine.is_finished());
    assert_eq!(engine.next(u64::MAX), None);
}

#[test]
fn shutdown_of_an_idle_engine_is_finished_at_once() {
    let mut engine = Engine::new(1);
    assert!(!engine.is_finished());
    engine.shutdown();
    assert!(engine.is_finished());
}

#[test]
fn idle_time_counts_down_to_the_next_timer() {
    let mut engine = Engine::new(1);
    assert_eq!(engine.idle_for(0), None);
    engine.observe(ChangeEvent::Added(echo("demo", "hi")), 10);
    assert_eq!(engine.idle_for(4), Some(6));
    assert_eq!(engine.idle_for(10), Some(0));
    assert_eq!(engine.idle_for(99), Some(0));
    let work = engine.next(10).unwrap();
    assert_eq!(engine.idle_for(10), None);
    engine.finish(&work, &Ok(Action::RequeueAfter { secs: 300 }), 12);
    assert_eq!(engine.idle_for(12), Some(300));
    assert_eq!(engine.idle_for(300), Some(12));
    engine.shutdown();
    assert_eq!(engine.idle_for(12), None);
}

#[test]
fn relist_reconciles_what_is_listed() {
    let mut engine = Engine::new(4);
    engine.relist(vec![echo("a", "hi"), echo("b", "hi")], 5);
    assert_eq!(engine.lookup(&key("a")), Some(echo("a", "hi")));
    assert_eq!(engine.lookup(&key("b")), Some(echo("b", "hi")));
    assert_eq!(engine.next(4), None);
    assert_eq!(engine.next(5).unwrap().key, key("a"));
    assert_eq!(engine.next(5).unwrap().key, key("b"));
    assert_eq!(engine.next(5), None);
}

#[test]
fn relist_forgets_what_is_not_listed() {
    let mut engine = Engine::new(4);
    engine.observe(ChangeEvent::Added(echo("gone", "hi")), 0);
    engine.observe(ChangeEvent::Added(echo("kept", "old")), 0);
    engine.relist(vec![echo("kept", "new")], 1);
    assert_eq!(engine.lookup(&key("gone")), None);
    assert_eq!(engine.lookup(&key("kept")), Some(echo("kept", "new")));
    let work = engine.next(1).unwrap();
    assert_eq!(work.key, key("kept"));
    assert_eq!(work.echo.spec.message, "new");
    assert_eq!(engine.next(u64::MAX), None);
}

#[test]
fn relist_pulls_timers_forward() {
    let mut engine = Engine::new(1);
    engine.observe(ChangeEvent::Added(echo("demo", "hi")), 0);
    let work = engine.next(0).unwrap();
    engine.finish(&work, &Ok(Action::RequeueAfter { secs: 300 }), 0);
    assert_eq!(engine.next(10), None);
    engine.relist(vec![echo("demo", "hi")], 10);
    assert_eq!(engine.next(10).unwrap().key, key("demo"));
}

#[test]
fn relist_without_a_flight_of_a_vanished_object_requeues_nothing() {
    let mut engine = Engine::new(2);
    engine.observe(ChangeEvent::Added(echo("gone", "hi")), 0);
    let work = engine.next(0).unwrap();
    engine.observe(ChangeEvent::Modified(echo("gone", "hi")), 0);
    engine.relist(vec![], 1);
    assert_eq!(engine.lookup(&key("gone")), None);
    engine.finish(&work, &Ok(Action::RequeueAfter { secs: 300 }), 2);
    assert_eq!(engine.next(u64::MAX), None);
    assert_eq!(engine.idle_for(2), None);
}

#[test]
fn relist_of_a_key_in_flight_runs_it_again_afterwards() {
    let mut engine = Engine::new(2);
    engine.observe(ChangeEvent::Added(echo("demo", "one")), 0);
    let work = engine.next(0).unwrap();
    engine.relist(vec![echo("demo", "two")], 1);
    assert_eq!(engine.next(1), None);
    engine.finish(&work, &Ok(Action::AwaitExternalChange), 2);
    let again = engine.next(2).unwrap();
    assert_eq!(again.echo.spec.message, "two");
}

#[test]
fn relist_skips_unnamed_objects_and_is_refused_while_draining() {
    let mut engine = Engine::new(2);
    let mut unnamed = echo("x", "hi");
    unnamed.metadata.name = None;
    engine.relist(vec![unnamed, echo("a", "hi")], 0);
    assert_eq!(engine.next(0).unwrap().key, key("a"));
    assert_eq!(engine.next(0), None);
    engine.shutdown();
    engine.relist(vec![echo("b", "hi")], 0);
    assert_eq!(engine.lookup(&key("b")), None);
    assert_eq!(engine.lookup(&key("a")), Some(echo("a", "hi")));
}
