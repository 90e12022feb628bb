use russel::env_var::{has_path_entry, path_with_entry};

#[test]
fn entry_is_appended_with_a_separator() {
    assert_eq!(path_with_entry("C:\\a", "C:\\b"), Some("C:\\a;C:\\b".to_string()));
}

#[test]
fn no_separator_is_doubled() {
    assert_eq!(path_with_entry("C:\\a;", "C:\\b"), Some("C:\\a;C:\\b".to_string()));
}

#[test]
fn empty_value_gets_just_the_entry() {
    assert_eq!(path_with_entry("", "C:\\b"), Some("C:\\b".to_string()));
}

#[test]
fn present_entry_is_not_added_again() {
    assert_eq!(path_with_entry("C:\\a;C:\\b;C:\\c", "C:\\b"), None);
    assert_eq!(path_with_entry("C:\\b", "C:\\b"), None);
    assert_eq!(path_with_entry("C:\\a;C:\\b", "C:\\b"), None);
}

#[test]
fn a_prefix_of_an_entry_is_not_that_entry() {
    assert_eq!(path_with_entry("C:\\bin", "C:\\b"), Some("C:\\bin;C:\\b".to_string()));
}

#[test]
fn empty_entry_counts_as_present_in_empty_or_gapped_values() {
    assert_eq!(path_with_entry("", ""), None);
    assert_eq!(path_with_entry("a;;b", ""), None);
    assert_eq!(path_with_entry("a", ""), Some("a;".to_string()));
}

#[test]
fn adding_twice_changes_nothing_the_second_time() {
    let once = path_with_entry("x;y", "z").unwrap();
    assert_eq!(once, "x;y;z");
    assert_eq!(path_with_entry(&once, "z"), None);
    assert!(has_path_entry(&once, "x"));
    assert!(has_path_entry(&once, "y"));
}

#[test]
fn has_path_entry_matches_whole_entries() {
    assert!(has_path_entry("a;b;c", "c"));
    assert!(has_path_entry("a;b;c", "a"));
    assert!(!has_path_entry("a;b;c", "b;c"));
    assert!(!has_path_entry("abc", "b"));
    assert!(has_path_entry("é;ü", "ü"));
}
