use rulecraft::rule::Rule;
use rulecraft::sanitize::sanitize_fts_query;
use rulecraft::search::{fuzzy_search, search, search_rules_fts};
use rulecraft::store::RuleStore;
use rulecraft::vector::VectorSearchError;

fn rule(id: &str, title: &str, category: &str, content: &str) -> Rule {
    Rule {
        id: id.to_string(),
        title: title.to_string(),
        category: category.to_string(),
        subcategory: None,
        content: content.to_string(),
        source: "Handbook".to_string(),
        page: None,
        created_at: String::new(),
        updated_at: String::new(),
    }
}

fn store_with(rules: &[Rule]) -> RuleStore {
    let mut store = RuleStore::new();
    let now = "100".to_string();
    for r in rules {
        store.create_rule(r, &now).expect("create failed");
    }
    store
}

#[test]
fn test_sanitize_fts_query() {
    assert_eq!(sanitize_fts_query("attack action"), "attack OR action");
    assert_eq!(sanitize_fts_query("AC (armor class)"), "AC OR armor OR class");
}

#[test]
fn test_search_sanitization() {
    // Test that special characters are handled
    let query = "attack (melee)";
    let sanitized = query
        .chars()
        .filter(|c| c.is_alphanumeric() || c.is_whitespace())
        .collect::<String>();

    assert_eq!(sanitized, "attack melee");
}

#[test]
fn test_rule_creation() {
    let rule = Rule::new(
        "Test Rule".to_string(),
        "Combat".to_string(),
        "This is a test rule content.".to_string(),
        "Test Source".to_string(),
    );

    assert!(!rule.id.is_empty());
    assert_eq!(rule.title, "Test Rule");
    assert_eq!(rule.category, "Combat");
    assert!(rule.subcategory.is_none());
}

#[test]
fn test_sanitize_drops_operators() {
    assert_eq!(sanitize_fts_query("(((" ), "");
    assert_eq!(sanitize_fts_query("   "), "");
    assert_eq!(sanitize_fts_query(""), "");
    // dropped characters do not split a token
    assert_eq!(sanitize_fts_query("ab(cd"), "abcd");
}

#[test]
fn test_fulltext_no_tokens_yields_empty() {
    let store = store_with(&[rule("r1", "Attack Action", "Combat", "You make one attack.")]);
    let results = search(&store, "!!! ((( )))");
    assert!(results.is_empty());
}

#[test]
fn test_fulltext_matches_any_token() {
    let store = store_with(&[
        rule("r1", "Attack Action", "Combat", "You make one melee attack."),
        rule("r2", "Cover", "Combat", "Half cover grants a bonus to armor class."),
        rule("r3", "Rest", "Adventuring", "A long rest restores hit points."),
    ]);
    let results = search_rules_fts(&store, "attack armor");
    let titles: Vec<&str> = results.iter().map(|r| r.title.as_str()).collect();
    // store order, both token matches, the unrelated record left out
    assert_eq!(titles, vec!["Attack Action", "Cover"]);
}

#[test]
fn test_fulltext_best_match_first() {
    let store = store_with(&[
        rule("r1", "Attack Action", "Combat", "You make one melee strike."),
        rule("r2", "Armor Class", "Combat", "An attack roll must meet the armor class."),
    ]);
    // the record in which both tokens occur outranks the one with one hit
    let results = search_rules_fts(&store, "attack armor");
    let titles: Vec<&str> = results.iter().map(|r| r.title.as_str()).collect();
    assert_eq!(titles, vec!["Armor Class", "Attack Action"]);
}

#[test]
fn test_fulltext_cap_at_twenty() {
    let mut rules = Vec::new();
    for i in 0..25 {
        rules.push(rule(
            &format!("r{}", i),
            &format!("Attack Variant {:02}", i),
            "Combat",
            "An attack option.",
        ));
    }
    let store = store_with(&rules);
    let results = search_rules_fts(&store, "attack");
    assert_eq!(results.len(), 20);
    // insertion order kept
    assert_eq!(results[0].title, "Attack Variant 00");
    assert_eq!(results[19].title, "Attack Variant 19");
}

#[test]
fn test_fuzzy_tier_order() {
    let store = store_with(&[
        rule("r1", "Sneak Attack", "Combat", "Extra damage once per turn."),
        rule("r2", "Counterattack", "Combat", "Strike back at a foe."),
        rule("r3", "Attack Action", "Combat", "You make one melee strike."),
    ]);
    let results = fuzzy_search(&store, "attack", 10);
    let titles: Vec<&str> = results.iter().map(|r| r.title.as_str()).collect();
    // tier 1 (title prefix) strictly precedes tier 2 (title contains),
    // alphabetical within a tier
    assert_eq!(titles, vec!["Attack Action", "Counterattack", "Sneak Attack"]);
}

#[test]
fn test_fuzzy_category_and_content_tiers() {
    let store = store_with(&[
        rule("r1", "Prone", "Conditions", "The creature can only crawl."),
        rule("r2", "Hiding", "Stealth", "A condition of being unseen."),
        rule("r3", "Conditions Overview", "Reference", "Lists every state."),
    ]);
    let results = fuzzy_search(&store, "condition", 10);
    let titles: Vec<&str> = results.iter().map(|r| r.title.as_str()).collect();
    // tier 2 (title contains) before tier 3 (category) before tier 4 (content only)
    assert_eq!(titles, vec!["Conditions Overview", "Prone", "Hiding"]);
}

#[test]
fn test_fuzzy_case_insensitive() {
    let store = store_with(&[rule("r1", "Attack Action", "Combat", "One strike.")]);
    let upper = fuzzy_search(&store, "ATTACK", 10);
    assert_eq!(upper.len(), 1);
    assert_eq!(upper[0].title, "Attack Action");
}

#[test]
fn test_fuzzy_empty_query_yields_empty() {
    let store = store_with(&[rule("r1", "Attack Action", "Combat", "One strike.")]);
    let results = fuzzy_search(&store, "", 10);
    assert!(results.is_empty());
}

#[test]
fn test_fuzzy_limit() {
    let store = store_with(&[
        rule("r1", "Attack Action", "Combat", "One strike."),
        rule("r2", "Attack Roll", "Combat", "Roll the die."),
        rule("r3", "Attack of Opportunity", "Combat", "A reaction strike."),
    ]);
    let results = fuzzy_search(&store, "attack", 2);
    assert_eq!(results.len(), 2);
    assert_eq!(results[0].title, "Attack Action");
    assert_eq!(results[1].title, "Attack Roll");
}

#[test]
fn test_get_all_sorted_by_category_then_title() {
    let store = store_with(&[
        rule("r1", "Prone", "Conditions", "Crawling only."),
        rule("r2", "Cover", "Combat", "Protection."),
        rule("r3", "Attack Action", "Combat", "One strike."),
    ]);
    let all = rulecraft::search::get_all_rules(&store);
    let titles: Vec<&str> = all.iter().map(|r| r.title.as_str()).collect();
    assert_eq!(titles, vec!["Attack Action", "Cover", "Prone"]);
}

#[test]
fn test_api_search_suggestions() {
    let long_content = "x".repeat(150);
    let store = store_with(&[
        rule("r1", "Attack Action", "Combat", &long_content),
        rule("r2", "Cover", "Combat", "Short text."),
    ]);
    // too short a query
    assert!(rulecraft::api::api_search(&store, "a").is_empty());
    let suggestions = rulecraft::api::api_search(&store, "attack");
    assert_eq!(suggestions.len(), 1);
    assert_eq!(suggestions[0].id, "r1");
    assert_eq!(suggestions[0].title, "Attack Action");
    assert_eq!(suggestions[0].category, "Combat");
    let expected = format!("{}...", "x".repeat(100));
    assert_eq!(suggestions[0].excerpt, expected);
    // a short content is kept whole
    let short = rulecraft::api::api_search(&store, "cover");
    assert_eq!(short[0].excerpt, "Short text.");
}

#[test]
fn test_semantic_search_placeholder() {
    let results = rulecraft::vector::semantic_search("anything").expect("placeholder errs");
    assert!(results.is_empty());
}

#[test]
fn test_vector_error_messages() {
    assert_eq!(
        VectorSearchError::NotConfigured.message(),
        "Vector database not configured"
    );
    assert_eq!(
        VectorSearchError::EmbeddingError("boom".to_string()).message(),
        "Embedding generation failed: boom"
    );
    assert_eq!(
        VectorSearchError::SearchError("boom".to_string()).message(),
        "Search failed: boom"
    );
}
