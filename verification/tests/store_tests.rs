use rulecraft::import::import_rules;
use rulecraft::rule::Rule;
use rulecraft::store::{RuleStore, StoreError};

fn rule(id: &str, title: &str, content: &str) -> Rule {
    Rule {
        id: id.to_string(),
        title: title.to_string(),
        category: "Combat".to_string(),
        subcategory: Some("Actions".to_string()),
        content: content.to_string(),
        source: "Handbook".to_string(),
        page: Some(189),
        created_at: String::new(),
        updated_at: String::new(),
    }
}

#[test]
fn test_create_round_trip() {
    let mut store = RuleStore::new();
    let now = "1000".to_string();
    let r = rule("adv", "Advantage", "Roll twice, keep the higher die.");
    store.create_rule(&r, &now).expect("create failed");

    let got = store.get_rule_by_id("adv").expect("record missing");
    assert_eq!(got.id, "adv");
    assert_eq!(got.title, "Advantage");
    assert_eq!(got.category, "Combat");
    assert_eq!(got.subcategory.as_deref(), Some("Actions"));
    assert_eq!(got.content, "Roll twice, keep the higher die.");
    assert_eq!(got.source, "Handbook");
    assert_eq!(got.page, Some(189));
    // the timestamps are server-assigned
    assert_eq!(got.created_at, "1000");
    assert_eq!(got.updated_at, "1000");
}

#[test]
fn test_get_by_id_missing() {
    let store = RuleStore::new();
    assert!(store.get_rule_by_id("nothing").is_none());
}

#[test]
fn test_create_duplicate_rejected() {
    let mut store = RuleStore::new();
    let now = "1000".to_string();
    let r = rule("adv", "Advantage", "Roll twice.");
    store.create_rule(&r, &now).expect("create failed");
    let again = store.create_rule(&r, &now);
    assert_eq!(again, Err(StoreError::DuplicateId));
    assert_eq!(store.len(), 1);
}

#[test]
fn test_create_missing_field_rejected() {
    let mut store = RuleStore::new();
    let now = "1000".to_string();
    let r = rule("adv", "", "Roll twice.");
    assert_eq!(store.create_rule(&r, &now), Err(StoreError::MissingField));
    assert_eq!(store.len(), 0);
}

#[test]
fn test_upsert_idempotent() {
    let mut store = RuleStore::new();
    let r = rule("adv", "Advantage", "Roll twice.");

    let first = store.upsert_rule(&r, &"100".to_string()).expect("upsert failed");
    assert!(first, "first upsert must insert");

    let second = store.upsert_rule(&r, &"200".to_string()).expect("upsert failed");
    assert!(!second, "second upsert must update");

    let got = store.get_rule_by_id("adv").expect("record missing");
    assert_eq!(got.created_at, "100", "created_at must survive the second upsert");
    assert_eq!(got.content, "Roll twice.");
    assert_eq!(store.len(), 1);
}

#[test]
fn test_upsert_creates_then_updates() {
    let mut store = RuleStore::new();
    let r = rule("adv", "Advantage", "Roll twice.");
    let first = store.upsert_rule(&r, &"100".to_string()).expect("upsert failed");
    assert!(first);

    let mut changed = rule("adv", "Advantage", "Roll two dice and keep the higher.");
    changed.page = Some(25);
    let second = store.upsert_rule(&changed, &"200".to_string()).expect("upsert failed");
    assert!(!second);

    let got = store.get_rule_by_id("adv").expect("record missing");
    assert_eq!(got.content, "Roll two dice and keep the higher.");
    assert_eq!(got.page, Some(25));
    assert_eq!(got.created_at, "100");
    assert_eq!(got.updated_at, "200");
}

#[test]
fn test_upsert_missing_field_rejected() {
    let mut store = RuleStore::new();
    let r = rule("", "Advantage", "Roll twice.");
    assert_eq!(
        store.upsert_rule(&r, &"100".to_string()),
        Err(StoreError::MissingField)
    );
}

#[test]
fn test_import_counts() {
    let mut store = RuleStore::new();
    let now = "100".to_string();
    store.create_rule(&rule("adv", "Advantage", "Old text."), &now).expect("create failed");

    let batch = vec![
        rule("adv", "Advantage", "New text."),       // update
        rule("sneak", "Sneak Attack", "Extra die."), // insert
        rule("", "Broken", "No identifier."),        // rejected
    ];
    let report = import_rules(&mut store, &batch, &"200".to_string());
    assert_eq!(report.inserted, 1);
    assert_eq!(report.updated, 1);
    assert_eq!(report.failed, 1);

    let adv = store.get_rule_by_id("adv").expect("record missing");
    assert_eq!(adv.content, "New text.");
    assert_eq!(adv.created_at, "100");
    assert_eq!(adv.updated_at, "200");
    assert!(store.get_rule_by_id("sneak").is_some());
    assert_eq!(store.len(), 2);
}

#[test]
fn test_rule_new_identity() {
    let a = Rule::new(
        "T".to_string(),
        "C".to_string(),
        "X".to_string(),
        "S".to_string(),
    );
    let b = Rule::new(
        "T".to_string(),
        "C".to_string(),
        "X".to_string(),
        "S".to_string(),
    );
    assert_eq!(a.id.len(), 36);
    assert_eq!(b.id.len(), 36);
    assert_ne!(a.id, b.id, "fresh identifiers must differ");
    assert_eq!(a.created_at, a.updated_at);
}

#[test]
fn test_chrono_now_digits() {
    let now = rulecraft::rule::chrono_now();
    assert!(!now.is_empty());
    assert!(now.chars().all(|c| c.is_ascii_digit()));
}
