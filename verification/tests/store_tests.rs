use nlsh::store::ConfigStore;

#[test]
fn load_parses_simple_lines() {
    let mut store = ConfigStore::new();
    store.load("A=1\nB=two\n");
    assert_eq!(store.get_str("A"), Some("1".to_string()));
    assert_eq!(store.get_str("B"), Some("two".to_string()));
    assert_eq!(store.get_str("C"), None);
}

#[test]
fn load_skips_blank_comment_and_malformed_lines() {
    let mut store = ConfigStore::new();
    store.load("\n# comment=not a pair\n   \nnot a pair\nGOOD=yes\n");
    assert_eq!(store.get_str("GOOD"), Some("yes".to_string()));
    assert_eq!(store.get_str("# comment"), None);
    assert_eq!(store.get_str("not a pair"), None);
}

#[test]
fn load_trims_keys_and_values_and_splits_at_first_equals() {
    let mut store = ConfigStore::new();
    store.load("  K  =  v1=v2  \n");
    assert_eq!(store.get_str("K"), Some("v1=v2".to_string()));
}

#[test]
fn later_lines_override_earlier_ones() {
    let mut store = ConfigStore::new();
    store.load("K=first\nK=second\n");
    assert_eq!(store.get_str("K"), Some("second".to_string()));
}

#[test]
fn set_overwrites_and_render_sorts() {
    let mut store = ConfigStore::new();
    store.set_str("B", "2");
    store.set_str("A", "1");
    store.set_str("B", "3");
    assert_eq!(store.render(), "A=1\nB=3\n");
}

#[test]
fn set_set_load_round_trip_keeps_last_value_and_other_keys() {
    let mut store = ConfigStore::new();
    store.load("OTHER=kept\n");
    store.set_str("K", "V1");
    store.set_str("K", "V2");
    let rendered = store.render();
    let mut reloaded = ConfigStore::new();
    reloaded.load(&rendered);
    assert_eq!(reloaded.get_str("K"), Some("V2".to_string()));
    assert_eq!(reloaded.get_str("OTHER"), Some("kept".to_string()));
    // exactly one line for K
    let k_lines: Vec<&str> = rendered.lines().filter(|l| l.starts_with("K=")).collect();
    assert_eq!(k_lines, vec!["K=V2"]);
}

#[test]
fn render_of_empty_store_is_empty() {
    let store = ConfigStore::new();
    assert_eq!(store.render(), "");
}

#[test]
fn load_merges_over_existing_entries() {
    let mut store = ConfigStore::new();
    store.set_str("A", "env");
    store.set_str("B", "env");
    store.load("A=file\n");
    assert_eq!(store.get_str("A"), Some("file".to_string()));
    assert_eq!(store.get_str("B"), Some("env".to_string()));
}
