use echo_operator::resource::{Echo, EchoSpec, Metadata};
use echo_operator::watch::{watch_scope, ChangeEvent, Notification, Scope, Signal, Watcher};

fn echo(name: &str) -> Echo {
    Echo {
        metadata: Metadata { name: Some(name.to_string()), ..Metadata::default() },
        spec: EchoSpec { message: "hi".to_string() },
        status: None,
    }
}

#[test]
fn watch_scope_is_one_namespace_by_default() {
    assert_eq!(watch_scope(false, None), Scope::Namespace("default".to_string()));
    assert_eq!(
        watch_scope(false, Some("prod".to_string())),
        Scope::Namespace("prod".to_string())
    );
}

#[test]
fn watch_scope_all_namespaces_wins() {
    assert_eq!(watch_scope(true, None), Scope::AllNamespaces);
    assert_eq!(watch_scope(true, Some("prod".to_string())), Scope::AllNamespaces);
}

#[test]
fn changes_pass_through_as_they_come() {
    let mut w = Watcher::new();
    assert_eq!(
        w.translate(Notification::Applied(echo("a"))),
        Signal::Change(ChangeEvent::Modified(echo("a")))
    );
    assert_eq!(
        w.translate(Notification::Deleted(echo("a"))),
        Signal::Change(ChangeEvent::Deleted(echo("a")))
    );
}

#[test]
fn listing_is_held_back_until_it_is_complete() {
    let mut w = Watcher::new();
    assert_eq!(w.translate(Notification::Restarted), Signal::Nothing);
    assert_eq!(w.translate(Notification::Listed(echo("a"))), Signal::Nothing);
    assert_eq!(w.translate(Notification::Listed(echo("b"))), Signal::Nothing);
    assert_eq!(w.translate(Notification::ListEnd), Signal::Listing(vec![echo("a"), echo("b")]));
    assert_eq!(w.translate(Notification::ListEnd), Signal::Listing(vec![]));
}

#[test]
fn restart_drops_an_unfinished_listing() {
    let mut w = Watcher::new();
    assert_eq!(w.translate(Notification::Restarted), Signal::Nothing);
    assert_eq!(w.translate(Notification::Listed(echo("a"))), Signal::Nothing);
    assert_eq!(w.translate(Notification::Restarted), Signal::Nothing);
    assert_eq!(w.translate(Notification::Listed(echo("b"))), Signal::Nothing);
    assert_eq!(w.translate(Notification::ListEnd), Signal::Listing(vec![echo("b")]));
}

#[test]
fn change_during_a_listing_leaves_the_listing_alone() {
    let mut w = Watcher::new();
    w.translate(Notification::Restarted);
    w.translate(Notification::Listed(echo("a")));
    assert_eq!(
        w.translate(Notification::Applied(echo("c"))),
        Signal::Change(ChangeEvent::Modified(echo("c")))
    );
    assert_eq!(w.translate(Notification::ListEnd), Signal::Listing(vec![echo("a")]));
}

#[test]
fn empty_listing_is_a_listing() {
    let mut w = Watcher::new();
    w.translate(Notification::Restarted);
    assert_eq!(w.translate(Notification::ListEnd), Signal::Listing(vec![]));
}
