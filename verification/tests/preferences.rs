use ollama_model_viewer::{ConfigStore, DeletionResult, NameSet, default_config, record_delete_outcome, replace_starred, starred_name_list, toggle_star};

#[test]
fn first_load_returns_defaults_and_persists_them() {
    let mut store = ConfigStore::new();
    let cfg = store.load();
    assert!(cfg.privacy_mode);
    assert!(cfg.encrypt_database);
    assert!(cfg.openwebui_integration);
    assert!(cfg.last_updated.is_none());
    let stored = store.current().expect("defaults should be persisted");
    assert!(stored.privacy_mode);
    assert!(stored.last_updated.is_some());
}

#[test]
fn save_then_load_round_trips_flags_and_starred_set() {
    let mut store = ConfigStore::new();
    let mut cfg = default_config();
    cfg.privacy_mode = false;
    cfg.encrypt_database = true;
    cfg.openwebui_integration = false;
    let mut starred = NameSet::new();
    starred.insert("llama3:latest".to_string());
    starred.insert("phi3:mini".to_string());
    store.save(&cfg, &starred);
    let loaded = store.load();
    assert!(!loaded.privacy_mode);
    assert!(loaded.encrypt_database);
    assert!(!loaded.openwebui_integration);
    assert!(loaded.starred_models.contains_name("llama3:latest"));
    assert!(loaded.starred_models.contains_name("phi3:mini"));
    assert!(!loaded.starred_models.contains_name("other"));
    assert!(loaded.last_updated.is_some());
}

#[test]
fn update_privacy_mode_twice_is_idempotent() {
    let mut store = ConfigStore::new();
    assert!(store.update_setting("privacy_mode", false).is_ok());
    assert!(store.update_setting("privacy_mode", false).is_ok());
    let cfg = store.load();
    assert!(!cfg.privacy_mode);
    assert!(cfg.encrypt_database);
    assert!(cfg.openwebui_integration);
}

#[test]
fn unknown_setting_key_errors_and_leaves_config_unchanged() {
    let mut store = ConfigStore::new();
    assert!(store.update_setting("encrypt_database", false).is_ok());
    let before = store.load();
    let r = store.update_setting("bogus", true);
    assert!(r.is_err());
    let msg = r.unwrap_err().message();
    assert_eq!(msg, "Unknown configuration key: bogus");
    let after = store.load();
    assert_eq!(before.privacy_mode, after.privacy_mode);
    assert_eq!(before.encrypt_database, after.encrypt_database);
    assert_eq!(before.openwebui_integration, after.openwebui_integration);
    assert_eq!(before.last_updated, after.last_updated);
}

#[test]
fn each_known_key_changes_only_its_own_flag() {
    let mut store = ConfigStore::new();
    assert!(store.update_setting("openwebui_integration", false).is_ok());
    let cfg = store.load();
    assert!(cfg.privacy_mode);
    assert!(cfg.encrypt_database);
    assert!(!cfg.openwebui_integration);
}

#[test]
fn name_set_collapses_repeats() {
    let mut set = NameSet::new();
    set.insert("a".to_string());
    set.insert("a".to_string());
    set.insert("b".to_string());
    assert_eq!(starred_name_list(&set).len(), 2);
    set.remove("a");
    assert!(!set.contains_name("a"));
    assert!(set.contains_name("b"));
    set.remove("missing");
    assert!(set.contains_name("b"));
}

#[test]
fn toggle_star_adds_and_removes_and_saves() {
    let mut store = ConfigStore::new();
    let cfg = store.load();
    let mut starred = NameSet::new();
    toggle_star(&mut store, &mut starred, &cfg, "m1", true);
    assert!(starred.contains_name("m1"));
    let stored = store.current().expect("save should persist");
    assert!(stored.starred_models.contains_name("m1"));
    toggle_star(&mut store, &mut starred, &cfg, "m1", false);
    assert!(!starred.contains_name("m1"));
    let stored = store.current().expect("save should persist");
    assert!(!stored.starred_models.contains_name("m1"));
}

#[test]
fn replace_starred_collapses_and_replaces() {
    let mut starred = NameSet::new();
    starred.insert("old".to_string());
    let names = vec!["x".to_string(), "y".to_string(), "x".to_string()];
    replace_starred(&mut starred, &names);
    assert!(!starred.contains_name("old"));
    assert!(starred.contains_name("x"));
    assert!(starred.contains_name("y"));
    assert_eq!(starred_name_list(&starred).len(), 2);
}

#[test]
fn batch_deletion_reports_partial_failure_per_item() {
    let mut starred = NameSet::new();
    let mut queue = NameSet::new();
    for n in ["a", "b", "c"] {
        starred.insert(n.to_string());
        queue.insert(n.to_string());
    }
    let mut result = DeletionResult { deleted: Vec::new(), failed: Vec::new() };
    record_delete_outcome(&mut starred, &mut queue, &mut result, "a", true);
    record_delete_outcome(&mut starred, &mut queue, &mut result, "b", false);
    record_delete_outcome(&mut starred, &mut queue, &mut result, "c", true);
    assert_eq!(result.deleted, vec!["a".to_string(), "c".to_string()]);
    assert_eq!(result.failed, vec!["b".to_string()]);
    assert!(starred.contains_name("b"));
    assert!(queue.contains_name("b"));
    assert!(!starred.contains_name("a"));
    assert!(!queue.contains_name("a"));
    assert!(!starred.contains_name("c"));
    assert!(!queue.contains_name("c"));
}
