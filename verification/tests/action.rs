use echo_operator::action::{error_policy, Action, ERROR_REQUEUE_SECS, SETTLED_REQUEUE_SECS};
use echo_operator::error::{ApiError, CallbackError, ReconcileError};
use echo_operator::resource::Echo;

fn each_error() -> Vec<ReconcileError> {
    let api = ApiError { code: 500, message: "boom".to_string() };
    vec![
        ReconcileError::ApplyFailed(CallbackError::Api(api.clone())),
        ReconcileError::ApplyFailed(CallbackError::UnnamedObject),
        ReconcileError::CleanupFailed(CallbackError::Api(api.clone())),
        ReconcileError::AddFinalizer(ApiError { code: 409, message: "conflict".to_string() }),
        ReconcileError::RemoveFinalizer(api),
        ReconcileError::UnnamedObject,
    ]
}

#[test]
fn error_policy_always_retries_after_a_positive_delay() {
    let echo = Echo::default();
    for error in each_error() {
        match error_policy(&echo, &error) {
            Action::RequeueAfter { secs } => {
                assert!(secs > 0);
                assert_eq!(secs, 5);
            }
            other => panic!("expected a retry, got {:?}", other),
        }
    }
}

#[test]
fn delays_are_five_seconds_and_five_minutes() {
    assert_eq!(ERROR_REQUEUE_SECS, 5);
    assert_eq!(SETTLED_REQUEUE_SECS, 300);
    assert_eq!(SETTLED_REQUEUE_SECS, 5 * 60);
}

#[test]
fn only_a_requeue_has_a_delay() {
    assert_eq!(Action::RequeueAfter { secs: 42 }.requeue_delay(), Some(42));
    assert_eq!(Action::RequeueAfter { secs: 0 }.requeue_delay(), Some(0));
    assert_eq!(Action::NoRequeue.requeue_delay(), None);
    assert_eq!(Action::AwaitExternalChange.requeue_delay(), None);
}
