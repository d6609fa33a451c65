use open_proxy_ai::model_pool::{ModelPool, ModelPoolEntry};
const TEST_MODELS: &[&str] = &[
    "deepseek-v4-flash-free",
    "big-pickle",
    "minimax-m2.5-free",
];

fn make_custom_entry(id: &str, name: &str, priority: u32) -> ModelPoolEntry {
    ModelPoolEntry {
        id: id.to_string(),
        name: name.to_string(),
        base_url: "https://api.example.com/v1".into(),
        api_key: "sk-test".into(),
        model_name: name.to_string(),
        priority,
        enabled: true,
        builtin: false,
        provider_type: "custom".into(),
        api_format: "openai".into(),
    }
}

#[test]
fn test_new_pool_is_empty() {
    let pool = ModelPool::new();
    assert!(pool.entries.is_empty());
    assert!(pool.pool_mode);
    assert!(pool.deleted_builtins.is_empty());
}

#[test]
fn test_add_and_remove_custom_entry() {
    let mut pool = ModelPool::new();
    let entry = make_custom_entry("test-1", "my-model", 1);
    pool.upsert(entry);

    assert_eq!(pool.entries.len(), 1);
    assert_eq!(pool.entries[0].name, "my-model");

    let removed = pool.remove("test-1");
    assert!(removed.is_some());
    assert_eq!(removed.unwrap().name, "my-model");
    assert!(pool.entries.is_empty());
}

#[test]
fn test_remove_nonexistent_entry_returns_none() {
    let mut pool = ModelPool::new();
    let result = pool.remove("does-not-exist");
    assert!(result.is_none());
}

#[test]
fn test_upsert_updates_existing_entry() {
    let mut pool = ModelPool::new();
    let entry = make_custom_entry("test-1", "original", 1);
    pool.upsert(entry);

    let updated = ModelPoolEntry {
        priority: 5,
        name: "updated".into(),
        ..make_custom_entry("test-1", "updated", 5)
    };
    pool.upsert(updated);

    assert_eq!(pool.entries.len(), 1);
    assert_eq!(pool.entries[0].name, "updated");
    assert_eq!(pool.entries[0].priority, 5);
}

#[test]
fn test_toggle_enabled() {
    let mut pool = ModelPool::new();
    let entry = make_custom_entry("test-1", "my-model", 1);
    pool.upsert(entry);

    assert!(pool.entries[0].enabled);

    let new_state = pool.toggle_enabled("test-1");
    assert!(!new_state);
    assert!(!pool.entries[0].enabled);

    let new_state2 = pool.toggle_enabled("test-1");
    assert!(new_state2);
    assert!(pool.entries[0].enabled);
}

#[test]
fn test_toggle_nonexistent_returns_false() {
    let mut pool = ModelPool::new();
    assert!(!pool.toggle_enabled("nope"));
}

#[test]
fn test_get_enabled_returns_sorted() {
    let mut pool = ModelPool::new();
    pool.upsert(make_custom_entry("c", "c", 10));
    pool.upsert(make_custom_entry("a", "a", 1));
    pool.upsert(make_custom_entry("b", "b", 5));

    // Disable one
    pool.toggle_enabled("c");

    let enabled = pool.get_enabled();
    assert_eq!(enabled.len(), 2);
    assert_eq!(enabled[0].name, "a");
    assert_eq!(enabled[1].name, "b");
}

#[test]
fn test_get_by_name_matches_name_or_model_name() {
    let mut pool = ModelPool::new();
    pool.upsert(ModelPoolEntry {
        id: "test-id".into(),
        name: "display-name".into(),
        model_name: "actual-model".into(),
        ..make_custom_entry("test-id", "display-name", 1)
    });

    assert!(pool.get_by_name("display-name").is_some());
    assert!(pool.get_by_name("actual-model").is_some());
    assert!(pool.get_by_name("nonexistent").is_none());
}

#[test]
fn test_set_priority() {
    let mut pool = ModelPool::new();
    pool.upsert(make_custom_entry("test-1", "a", 5));
    pool.set_priority("test-1", 100);
    assert_eq!(pool.entries[0].priority, 100);
}

#[test]
fn test_init_builtins_adds_all_models() {
    let mut pool = ModelPool::new();
    pool.init_builtins(TEST_MODELS);

    assert_eq!(pool.entries.len(), TEST_MODELS.len());
    for (i, name) in TEST_MODELS.iter().enumerate() {
        let entry = pool.get_by_name(name).unwrap();
        assert!(entry.builtin);
        assert_eq!(entry.provider_type, "opencode");
        assert_eq!(entry.priority, (i + 1) as u32);
        assert!(entry.enabled);
    }
}

#[test]
fn test_init_builtins_removes_old_opencode_entries() {
    let mut pool = ModelPool::new();
    pool.init_builtins(TEST_MODELS);
    // Second call should replace, not duplicate
    pool.init_builtins(TEST_MODELS);
    assert_eq!(pool.entries.len(), TEST_MODELS.len());
}

#[test]
fn test_init_builtins_skips_deleted_builtins() {
    let mut pool = ModelPool::new();
    pool.deleted_builtins.push("opencode-big-pickle".into());
    pool.init_builtins(TEST_MODELS);

    // big-pickle should not be present
    assert_eq!(pool.entries.len(), TEST_MODELS.len() - 1);
    assert!(pool.get_by_name("big-pickle").is_none());
    assert!(pool.get_by_name("deepseek-v4-flash-free").is_some());
}

#[test]
fn test_remove_builtin_records_deleted_id() {
    let mut pool = ModelPool::new();
    pool.init_builtins(TEST_MODELS);

    let removed = pool.remove("opencode-big-pickle");
    assert!(removed.is_some());
    assert!(removed.unwrap().builtin);

    assert!(pool.deleted_builtins.contains(&"opencode-big-pickle".into()));
    // Running init_builtins again should not bring it back
    pool.init_builtins(TEST_MODELS);
    assert!(pool.get_by_name("big-pickle").is_none());
    assert_eq!(pool.entries.len(), 2); // only the other two
}

#[test]
fn test_remove_custom_entry_does_not_affect_deleted_builtins() {
    let mut pool = ModelPool::new();
    pool.init_builtins(TEST_MODELS);
    pool.upsert(make_custom_entry("custom-1", "my-model", 99));

    pool.remove("custom-1");
    assert!(pool.deleted_builtins.is_empty());
}

#[test]
fn test_remove_duplicate_id_does_not_duplicate_deleted() {
    let mut pool = ModelPool::new();
    pool.init_builtins(TEST_MODELS);
    pool.remove("opencode-big-pickle");
    // Remove same id again (already gone)
    pool.remove("opencode-big-pickle");
    // Should only appear once in deleted_builtins
    let count = pool.deleted_builtins.iter().filter(|&id| id == "opencode-big-pickle").count();
    assert_eq!(count, 1);
}

#[test]
fn test_init_builtins_preserves_custom_entries() {
    let mut pool = ModelPool::new();
    pool.upsert(make_custom_entry("custom-1", "keep-me", 99));
    pool.init_builtins(TEST_MODELS);

    assert!(pool.get_by_name("keep-me").is_some());
    assert_eq!(pool.entries.len(), TEST_MODELS.len() + 1);
}

// ── Migration tests ────────────────────────────────────────────────

#[test]
fn test_migrate_renamed_builtins_updates_entry_id() {
    let mut pool = ModelPool::new();
    // Manually add an entry with the OLD nemotron name
    pool.upsert(ModelPoolEntry {
        id: "opencode-nemotron-3-super-free".into(),
        name: "nemotron-3-super-free".into(),
        model_name: "nemotron-3-super-free".into(),
        priority: 1,
        enabled: true,
        builtin: true,
        provider_type: "opencode".into(),
        api_format: "openai".into(),
        base_url: String::new(),
        api_key: String::new(),
    });

    pool.migrate_renamed_builtins();

    let entry = pool.get_by_id("opencode-nemotron-3-ultra-free");
    assert!(entry.is_some(), "Entry should be migrated to new ID");
    assert_eq!(entry.unwrap().name, "nemotron-3-ultra-free");
    assert_eq!(entry.unwrap().model_name, "nemotron-3-ultra-free");
    // Old ID should no longer exist
    assert!(pool.get_by_id("opencode-nemotron-3-super-free").is_none());
}

#[test]
fn test_migrate_renamed_builtins_updates_deleted_builtins() {
    let mut pool = ModelPool::new();
    pool.deleted_builtins.push("opencode-nemotron-3-super-free".into());

    pool.migrate_renamed_builtins();

    assert!(!pool.deleted_builtins.contains(&"opencode-nemotron-3-super-free".into()),
        "Old deleted_builtins ID should be removed");
    assert!(pool.deleted_builtins.contains(&"opencode-nemotron-3-ultra-free".into()),
        "New deleted_builtins ID should be present");
    // Should still be exactly one entry
    assert_eq!(pool.deleted_builtins.len(), 1);
}

#[test]
fn test_migrate_renamed_builtins_skips_unrelated_entries() {
    let mut pool = ModelPool::new();
    pool.init_builtins(TEST_MODELS);
    pool.upsert(make_custom_entry("custom-1", "my-custom", 99));
    let count_before = pool.entries.len();

    pool.migrate_renamed_builtins();

    // No rename applies to TEST_MODELS, so entries should be unchanged
    assert_eq!(pool.entries.len(), count_before);
    assert!(pool.get_by_name("my-custom").is_some());
    assert!(pool.get_by_name("deepseek-v4-flash-free").is_some());
}

#[test]
fn test_init_builtins_after_migration_creates_correct_entries() {
    let mut pool = ModelPool::new();
    // Simulate an existing pool with the old nemotron name
    pool.upsert(ModelPoolEntry {
        id: "opencode-nemotron-3-super-free".into(),
        name: "nemotron-3-super-free".into(),
        model_name: "nemotron-3-super-free".into(),
        priority: 999,
        enabled: false,
        builtin: true,
        provider_type: "opencode".into(),
        api_format: "openai".into(),
        base_url: String::new(),
        api_key: String::new(),
    });

    // Migration should update the entry, then init_builtins replaces it
    pool.migrate_renamed_builtins();
    let new_models = &[
        "deepseek-v4-flash-free",
        "big-pickle",
        "nemotron-3-ultra-free",
    ];
    pool.init_builtins(new_models);

    let entry = pool.get_by_name("nemotron-3-ultra-free");
    assert!(entry.is_some(), "nemotron-3-ultra-free should be created by init_builtins");
    let entry = entry.unwrap();
    assert!(entry.enabled, "init_builtins creates entries as enabled");
    assert_eq!(entry.priority, 3, "Priority should be based on position in MODELS list");
    assert_eq!(entry.id, "opencode-nemotron-3-ultra-free");
}

#[test]
fn test_init_builtins_idempotent() {
    let mut pool = ModelPool::new();
    let new_models = &[
        "deepseek-v4-flash-free",
        "big-pickle",
        "nemotron-3-ultra-free",
    ];

    pool.init_builtins(new_models);
    assert_eq!(pool.entries.len(), 3);

    // Second call should not duplicate entries
    pool.init_builtins(new_models);
    assert_eq!(pool.entries.len(), 3, "init_builtins should be idempotent");
}

// ── Further cases ────────────────────────────────────────────────

#[test]
fn get_enabled_keeps_pool_order_among_equal_priorities() {
    let mut pool = ModelPool::new();
    pool.upsert(make_custom_entry("x", "x", 2));
    pool.upsert(make_custom_entry("y", "y", 1));
    pool.upsert(make_custom_entry("z", "z", 2));
    pool.upsert(make_custom_entry("w", "w", 1));
    let names: Vec<&str> = pool.get_enabled().iter().map(|e| e.name.as_str()).collect();
    assert_eq!(names, vec!["y", "w", "x", "z"]);
}

#[test]
fn toggling_twice_restores_the_entry() {
    let mut pool = ModelPool::new();
    pool.upsert(make_custom_entry("t", "t", 1));
    pool.toggle_enabled("t");
    pool.toggle_enabled("t");
    assert!(pool.get_by_id("t").unwrap().enabled);
}

#[test]
fn upsert_then_get_returns_the_entry() {
    let mut pool = ModelPool::new();
    pool.upsert(make_custom_entry("u", "first", 1));
    pool.upsert(make_custom_entry("u", "second", 7));
    let e = pool.get_by_id("u").unwrap();
    assert_eq!(e.name, "second");
    assert_eq!(e.priority, 7);
    assert_eq!(pool.entries.len(), 1);
}

#[test]
fn get_by_id_mut_edits_in_place() {
    let mut pool = ModelPool::new();
    pool.upsert(make_custom_entry("m", "m", 1));
    pool.get_by_id_mut("m").unwrap().api_key = "new-key".into();
    assert_eq!(pool.entries[0].api_key, "new-key");
    assert!(pool.get_by_id_mut("missing").is_none());
}

#[test]
fn set_priority_on_missing_id_changes_nothing() {
    let mut pool = ModelPool::new();
    pool.upsert(make_custom_entry("p", "p", 4));
    pool.set_priority("q", 9);
    assert_eq!(pool.entries[0].priority, 4);
}

#[test]
fn migration_does_not_duplicate_an_already_deleted_new_id() {
    let mut pool = ModelPool::new();
    pool.deleted_builtins.push("opencode-nemotron-3-super-free".into());
    pool.deleted_builtins.push("opencode-nemotron-3-ultra-free".into());
    pool.migrate_renamed_builtins();
    assert_eq!(pool.deleted_builtins, vec!["opencode-nemotron-3-ultra-free".to_string()]);
}

#[test]
fn builtin_entries_carry_fixed_fields() {
    let mut pool = ModelPool::new();
    pool.init_builtins(&["solo"]);
    let e = &pool.entries[0];
    assert_eq!(e.id, "opencode-solo");
    assert_eq!(e.model_name, "solo");
    assert_eq!(e.base_url, "");
    assert_eq!(e.api_format, "openai");
    assert_eq!(open_proxy_ai::model_pool::default_api_format(), "openai");
    assert_eq!(open_proxy_ai::model_pool::default_provider_type(), "opencode");
    assert_eq!(open_proxy_ai::model_pool::strip_prefix_of("opencode-abc"), "abc");
    assert_eq!(open_proxy_ai::model_pool::strip_prefix_of("custom"), "custom");
}

#[test]
fn migrating_twice_changes_nothing_more() {
    let mut pool = ModelPool::new();
    pool.upsert(ModelPoolEntry {
        id: "opencode-nemotron-3-super-free".into(),
        name: "nemotron-3-super-free".into(),
        model_name: "nemotron-3-super-free".into(),
        priority: 1,
        enabled: true,
        builtin: true,
        provider_type: "opencode".into(),
        api_format: "openai".into(),
        base_url: String::new(),
        api_key: String::new(),
    });
    pool.deleted_builtins.push("opencode-nemotron-3-super-free".into());
    pool.deleted_builtins.push("opencode-big-pickle".into());
    pool.migrate_renamed_builtins();
    let ids_once: Vec<String> = pool.entries.iter().map(|e| e.id.clone()).collect();
    let deleted_once = pool.deleted_builtins.clone();
    pool.migrate_renamed_builtins();
    let ids_twice: Vec<String> = pool.entries.iter().map(|e| e.id.clone()).collect();
    assert_eq!(ids_twice, ids_once);
    assert_eq!(ids_once, vec!["opencode-nemotron-3-ultra-free".to_string()]);
    assert_eq!(pool.deleted_builtins, deleted_once);
    assert_eq!(
        deleted_once,
        vec!["opencode-big-pickle".to_string(), "opencode-nemotron-3-ultra-free".to_string()]
    );
}
