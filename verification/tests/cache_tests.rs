use russel::cache::{Cache, DEFAULT_PORT};

fn sorted(mut v: Vec<String>) -> Vec<String> {
    v.sort();
    v
}

fn s(x: &str) -> String {
    x.to_string()
}

#[test]
fn new_cache_is_empty_and_reports_default_port() {
    let cache = Cache::new();
    assert!(cache.get_all_clusters().is_empty());
    assert_eq!(cache.get_default_port(), 5022);
    assert_eq!(DEFAULT_PORT, 5022);
    assert_eq!(cache.get("c", "k"), None);
    assert_eq!(cache.get_keys_of_cluster("c"), None);
}

#[test]
fn get_after_set_returns_the_value() {
    let mut cache = Cache::new();
    cache.set(s("users"), s("alice"), vec![1, 2, 3]);
    assert_eq!(cache.get("users", "alice"), Some(vec![1, 2, 3]));
}

#[test]
fn last_set_wins() {
    let mut cache = Cache::new();
    cache.set(s("users"), s("alice"), vec![1]);
    cache.set(s("users"), s("alice"), vec![9, 9]);
    assert_eq!(cache.get("users", "alice"), Some(vec![9, 9]));
    assert_eq!(cache.get_keys_of_cluster("users"), Some(vec![s("alice")]));
}

#[test]
fn set_keeps_other_entries() {
    let mut cache = Cache::new();
    cache.set(s("a"), s("k"), vec![1]);
    cache.set(s("b"), s("k"), vec![2]);
    cache.set(s("a"), s("j"), vec![3]);
    assert_eq!(cache.get("a", "k"), Some(vec![1]));
    assert_eq!(cache.get("b", "k"), Some(vec![2]));
    assert_eq!(cache.get("a", "j"), Some(vec![3]));
    assert_eq!(cache.get("b", "j"), None);
}

#[test]
fn empty_value_and_empty_names_are_stored() {
    let mut cache = Cache::new();
    cache.set(s(""), s(""), vec![]);
    assert_eq!(cache.get("", ""), Some(vec![]));
    assert_eq!(cache.get_all_clusters(), vec![s("")]);
}

#[test]
fn get_of_missing_key_or_cluster_is_none() {
    let mut cache = Cache::new();
    cache.set(s("a"), s("k"), vec![1]);
    assert_eq!(cache.get("a", "x"), None);
    assert_eq!(cache.get("x", "k"), None);
}

#[test]
fn delete_removes_only_that_key() {
    let mut cache = Cache::new();
    cache.set(s("a"), s("k"), vec![1]);
    cache.set(s("a"), s("j"), vec![2]);
    cache.delete("a", "k");
    assert_eq!(cache.get("a", "k"), None);
    assert_eq!(cache.get("a", "j"), Some(vec![2]));
}

#[test]
fn delete_undoes_a_fresh_set_but_keeps_the_cluster() {
    let mut cache = Cache::new();
    cache.set_cluster(s("a"));
    cache.set(s("a"), s("k"), vec![1]);
    cache.delete("a", "k");
    assert_eq!(cache.get_keys_of_cluster("a"), Some(vec![]));
    assert_eq!(cache.get_all_clusters(), vec![s("a")]);
}

#[test]
fn delete_of_missing_entries_changes_nothing() {
    let mut cache = Cache::new();
    cache.set(s("a"), s("k"), vec![1]);
    cache.delete("a", "zz");
    cache.delete("zz", "k");
    assert_eq!(cache.get("a", "k"), Some(vec![1]));
    assert_eq!(cache.get_all_clusters(), vec![s("a")]);
}

#[test]
fn clear_cluster_forgets_its_keys_only() {
    let mut cache = Cache::new();
    cache.set(s("a"), s("k"), vec![1]);
    cache.set(s("b"), s("k"), vec![2]);
    cache.clear_cluster("a");
    assert_eq!(cache.get("a", "k"), None);
    assert_eq!(cache.get_keys_of_cluster("a"), None);
    assert_eq!(cache.get("b", "k"), Some(vec![2]));
    assert_eq!(cache.get_all_clusters(), vec![s("b")]);
    cache.clear_cluster("missing");
    assert_eq!(cache.get_all_clusters(), vec![s("b")]);
}

#[test]
fn set_cluster_creates_an_empty_cluster() {
    let mut cache = Cache::new();
    cache.set_cluster(s("a"));
    assert_eq!(cache.get_keys_of_cluster("a"), Some(vec![]));
    assert_eq!(cache.get_all_clusters(), vec![s("a")]);
}

#[test]
fn set_cluster_keeps_existing_entries() {
    let mut cache = Cache::new();
    cache.set(s("a"), s("k"), vec![7]);
    cache.set_cluster(s("a"));
    assert_eq!(cache.get("a", "k"), Some(vec![7]));
    assert_eq!(cache.get_all_clusters(), vec![s("a")]);
}

#[test]
fn clear_all_removes_every_cluster() {
    let mut cache = Cache::new();
    cache.set(s("a"), s("k"), vec![1]);
    cache.set(s("b"), s("k"), vec![2]);
    cache.clear_all();
    assert!(cache.get_all_clusters().is_empty());
    assert_eq!(cache.get("a", "k"), None);
    assert_eq!(cache.get_default_port(), 5022);
}

#[test]
fn keys_and_clusters_are_listed_once_each() {
    let mut cache = Cache::new();
    cache.set(s("b"), s("y"), vec![1]);
    cache.set(s("a"), s("x"), vec![2]);
    cache.set(s("b"), s("x"), vec![3]);
    cache.set(s("b"), s("y"), vec![4]);
    assert_eq!(sorted(cache.get_all_clusters()), vec![s("a"), s("b")]);
    assert_eq!(
        sorted(cache.get_keys_of_cluster("b").unwrap()),
        vec![s("x"), s("y")]
    );
}

#[test]
fn configure_default_port_changes_only_the_port() {
    let mut cache = Cache::new();
    cache.set(s("a"), s("k"), vec![1]);
    cache.configure_default_port(8080);
    assert_eq!(cache.get_default_port(), 8080);
    assert_eq!(cache.get("a", "k"), Some(vec![1]));
}

#[test]
fn non_ascii_names_are_distinct_keys() {
    let mut cache = Cache::new();
    cache.set(s("é"), s("ключ"), vec![1]);
    cache.set(s("e"), s("ключ"), vec![2]);
    assert_eq!(cache.get("é", "ключ"), Some(vec![1]));
    assert_eq!(cache.get("e", "ключ"), Some(vec![2]));
}

#[test]
fn clone_is_an_independent_copy_with_the_same_contents() {
    let mut cache = Cache::new();
    cache.set(s("a"), s("k"), vec![1, 2]);
    cache.configure_default_port(7000);
    let mut copy = cache.clone();
    assert_eq!(copy.get("a", "k"), Some(vec![1, 2]));
    assert_eq!(copy.get_default_port(), 7000);
    copy.set(s("a"), s("k"), vec![3]);
    assert_eq!(cache.get("a", "k"), Some(vec![1, 2]));
    assert_eq!(copy.get("a", "k"), Some(vec![3]));
}
