use cratebot::store::{Store, StoreError};

fn names(v: &[&str]) -> Vec<String> {
    v.iter().map(|s| s.to_string()).collect()
}

#[test]
fn sync_then_mark_scenario() {
    let mut store = Store::new();
    let added = store.sync(&names(&["alpha", "beta", "gamma"]));
    assert_eq!(added, names(&["alpha", "beta", "gamma"]));
    assert_eq!(store.count(), 3);
    assert_eq!(store.unvisited_names(), names(&["alpha", "beta", "gamma"]));
    assert_eq!(store.mark_visited(&"beta".to_string(), 1_700_000_000), Ok(()));
    assert_eq!(store.unvisited_names(), names(&["alpha", "gamma"]));
}

#[test]
fn sync_twice_is_idempotent() {
    let mut store = Store::new();
    let catalog = names(&["a", "b", "c"]);
    store.sync(&catalog);
    let again = store.sync(&catalog);
    assert!(again.is_empty());
    assert_eq!(store.count(), 3);
    assert_eq!(store.unvisited_names(), catalog);
}

#[test]
fn sync_covers_each_name_once() {
    let mut store = Store::new();
    store.sync(&names(&["a", "b"]));
    let added = store.sync(&names(&["b", "c", "c", "a", "d"]));
    assert_eq!(added, names(&["c", "d"]));
    assert_eq!(store.count(), 4);
    for n in ["a", "b", "c", "d"] {
        assert!(store.contains(&n.to_string()));
    }
    assert!(!store.contains(&"e".to_string()));
}

#[test]
fn visited_only_after_mark_and_stays() {
    let mut store = Store::new();
    store.sync(&names(&["a", "b"]));
    assert_eq!(store.unvisited_names(), names(&["a", "b"]));
    assert_eq!(store.mark_visited(&"a".to_string(), 10), Ok(()));
    store.sync(&names(&["a", "b", "c"]));
    assert_eq!(store.unvisited_names(), names(&["b", "c"]));
    assert_eq!(store.mark_visited(&"a".to_string(), 20), Ok(()));
    assert_eq!(store.unvisited_names(), names(&["b", "c"]));
}

#[test]
fn marked_names_never_listed() {
    let mut store = Store::new();
    store.sync(&names(&["x", "y", "z"]));
    for n in ["x", "y", "z"] {
        assert_eq!(store.mark_visited(&n.to_string(), 5), Ok(()));
        assert!(!store.unvisited_names().contains(&n.to_string()));
    }
    assert!(store.unvisited_names().is_empty());
}

#[test]
fn mark_unknown_name_fails() {
    let mut store = Store::new();
    store.sync(&names(&["a"]));
    assert_eq!(store.mark_visited(&"b".to_string(), 1), Err(StoreError::UnknownName));
    assert_eq!(store.unvisited_names(), names(&["a"]));
}

#[test]
fn empty_store() {
    let mut store = Store::new();
    assert_eq!(store.count(), 0);
    assert!(store.unvisited_names().is_empty());
    assert!(store.sync(&Vec::new()).is_empty());
    assert_eq!(store.count(), 0);
}

#[test]
fn count_is_distinct_names_after_repeated_sync() {
    let mut store = Store::new();
    store.sync(&names(&["a", "b"]));
    let catalog = names(&["b", "c", "c", "d"]);
    store.sync(&catalog);
    assert_eq!(store.count(), 4);
    store.sync(&catalog);
    assert_eq!(store.count(), 4);
}

#[test]
fn announced_name_stays_excluded_over_many_changes() {
    let mut store = Store::new();
    store.sync(&names(&["a", "b", "c"]));
    assert_eq!(store.mark_visited(&"b".to_string(), 1), Ok(()));
    store.sync(&names(&["b", "d"]));
    assert_eq!(store.mark_visited(&"a".to_string(), 2), Ok(()));
    assert_eq!(store.mark_visited(&"zz".to_string(), 3), Err(StoreError::UnknownName));
    store.sync(&names(&["b"]));
    assert!(!store.unvisited_names().contains(&"b".to_string()));
    assert_eq!(store.unvisited_names(), names(&["c", "d"]));
}
