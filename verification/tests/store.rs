use echo_operator::resource::{Echo, EchoSpec, Metadata, ResourceKey};
use echo_operator::store::Store;

fn key(name: &str) -> ResourceKey {
    ResourceKey { namespace: "default".to_string(), name: name.to_string() }
}

fn echo(name: &str, message: &str, generation: u64) -> Echo {
    Echo {
        metadata: Metadata {
            name: Some(name.to_string()),
            namespace: None,
            generation,
            deletion_timestamp: None,
            finalizers: vec![],
        },
        spec: EchoSpec { message: message.to_string() },
        status: None,
    }
}

#[test]
fn store_keeps_the_latest_state_of_each_object() {
    let mut s = Store::new();
    assert!(!s.contains(&key("a")));
    assert_eq!(s.get(&key("a")), None);
    s.upsert(key("a"), echo("a", "hi", 1));
    s.upsert(key("b"), echo("b", "yo", 1));
    s.upsert(key("a"), echo("a", "bye", 2));
    assert!(s.contains(&key("a")));
    assert_eq!(s.get(&key("a")), Some(echo("a", "bye", 2)));
    assert_eq!(s.get(&key("b")), Some(echo("b", "yo", 1)));
}

#[test]
fn store_forgets_a_removed_object_only() {
    let mut s = Store::new();
    s.upsert(key("a"), echo("a", "hi", 1));
    s.upsert(key("b"), echo("b", "yo", 1));
    assert!(s.remove(&key("a")));
    assert!(!s.remove(&key("a")));
    assert_eq!(s.get(&key("a")), None);
    assert_eq!(s.get(&key("b")), Some(echo("b", "yo", 1)));
    assert!(!s.remove(&key("nobody")));
}

#[test]
fn store_retains_what_another_tracks() {
    let mut s = Store::new();
    s.upsert(key("a"), echo("a", "hi", 1));
    s.upsert(key("b"), echo("b", "yo", 1));
    s.upsert(key("c"), echo("c", "ok", 1));
    let mut keep = Store::new();
    keep.upsert(key("c"), echo("c", "other", 9));
    keep.upsert(key("a"), echo("a", "other", 9));
    keep.upsert(key("z"), echo("z", "other", 9));
    s.retain(&keep);
    assert_eq!(s.get(&key("a")), Some(echo("a", "hi", 1)));
    assert_eq!(s.get(&key("b")), None);
    assert_eq!(s.get(&key("c")), Some(echo("c", "ok", 1)));
    assert_eq!(s.get(&key("z")), None);
    s.retain(&Store::new());
    assert_eq!(s.get(&key("a")), None);
}
