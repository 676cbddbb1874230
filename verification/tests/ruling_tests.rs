use rulecraft::rule::Rule;
use rulecraft::ruling::{
    build_ruling_request, build_rules_context, degraded_answer, extract_ruling,
    interpret_response, missing_key_message, status_is_success, ApiOutcome, RulingError,
};

fn rule_with_page(page: Option<i32>) -> Rule {
    Rule {
        id: "adv".to_string(),
        title: "Advantage".to_string(),
        category: "Combat".to_string(),
        subcategory: None,
        content: "Roll twice, keep the higher die.".to_string(),
        source: "Handbook".to_string(),
        page,
        created_at: "100".to_string(),
        updated_at: "100".to_string(),
    }
}

#[test]
fn test_context_placeholder_when_empty() {
    let context = build_rules_context(&Vec::new());
    assert_eq!(context, "No specific rules found for context.");

    let request = build_ruling_request("some-model", "Can I hide?", &Vec::new());
    assert!(request.system.contains("No specific rules found for context."));
    assert_eq!(request.user_message, "Can I hide?");
    assert_eq!(request.max_tokens, 1024);
    assert_eq!(request.model, "some-model");
}

#[test]
fn test_context_block_format() {
    let context = build_rules_context(&vec![rule_with_page(Some(189))]);
    assert_eq!(
        context,
        "## Advantage\nRoll twice, keep the higher die.\n(Source: Handbook, Page 189)\n"
    );
}

#[test]
fn test_context_missing_page_shows_na() {
    let context = build_rules_context(&vec![rule_with_page(None)]);
    assert!(context.contains("(Source: Handbook, Page N/A)"));
}

#[test]
fn test_context_joins_blocks_in_order() {
    let mut second = rule_with_page(Some(25));
    second.id = "dis".to_string();
    second.title = "Disadvantage".to_string();
    let context = build_rules_context(&vec![rule_with_page(Some(189)), second]);
    let advantage = context.find("## Advantage").expect("first block missing");
    let disadvantage = context.find("## Disadvantage").expect("second block missing");
    assert!(advantage < disadvantage, "input order must be preserved");
    assert!(context.contains(")\n\n## Disadvantage"));
}

#[test]
fn test_system_prompt_wraps_context() {
    let request = build_ruling_request("m", "q", &vec![rule_with_page(None)]);
    assert!(request.system.starts_with("You are a D&D 2024 rules expert."));
    assert!(request.system.contains("RELEVANT RULES FOR CONTEXT:\n## Advantage"));
    assert!(request
        .system
        .ends_with("Provide clear, concise rulings that a DM can use at the table."));
}

#[test]
fn test_status_is_success() {
    assert!(status_is_success(200));
    assert!(status_is_success(299));
    assert!(!status_is_success(199));
    assert!(!status_is_success(300));
    assert!(!status_is_success(403));
}

#[test]
fn test_interpret_transport_failure() {
    let r = interpret_response(ApiOutcome::TransportError("connection refused".to_string()));
    match r {
        Err(RulingError::RequestError(m)) => assert_eq!(m, "connection refused"),
        other => panic!("wrong variant: {:?}", other.err()),
    }
}

#[test]
fn test_interpret_http_failure() {
    let r = interpret_response(ApiOutcome::HttpError(
        "403 Forbidden".to_string(),
        "quota exhausted".to_string(),
    ));
    match r {
        Err(RulingError::ApiError(m)) => assert_eq!(m, "403 Forbidden: quota exhausted"),
        other => panic!("wrong variant: {:?}", other.err()),
    }
}

#[test]
fn test_interpret_parse_failure() {
    let r = interpret_response(ApiOutcome::InvalidBody("unexpected end of input".to_string()));
    match r {
        Err(RulingError::ParseError(m)) => assert_eq!(m, "unexpected end of input"),
        other => panic!("wrong variant: {:?}", other.err()),
    }
}

#[test]
fn test_interpret_empty_content() {
    let r = interpret_response(ApiOutcome::Content(Vec::new()));
    assert!(matches!(r, Err(RulingError::EmptyResponse)));
}

#[test]
fn test_interpret_takes_first_segment() {
    let r = interpret_response(ApiOutcome::Content(vec![
        "The ruling.".to_string(),
        "Ignored.".to_string(),
    ]));
    assert_eq!(r.expect("expected a ruling"), "The ruling.");
}

#[test]
fn test_extract_ruling_empty_is_distinct() {
    assert!(matches!(
        extract_ruling(&Vec::new()),
        Err(RulingError::EmptyResponse)
    ));
    let segments = vec!["First.".to_string()];
    assert_eq!(extract_ruling(&segments).expect("expected a ruling"), "First.");
}

#[test]
fn test_degraded_answer_names_the_failure() {
    let text = degraded_answer(Err(RulingError::ApiError(
        "403 Forbidden: quota exhausted".to_string(),
    )));
    assert_eq!(
        text,
        "Error getting ruling: API error: 403 Forbidden: quota exhausted"
    );
    assert_eq!(
        degraded_answer(Ok("Use the higher roll.".to_string())),
        "Use the higher roll."
    );
}

#[test]
fn test_error_messages() {
    assert_eq!(
        RulingError::RequestError("x".to_string()).message(),
        "Request failed: x"
    );
    assert_eq!(RulingError::ApiError("x".to_string()).message(), "API error: x");
    assert_eq!(
        RulingError::ParseError("x".to_string()).message(),
        "Failed to parse response: x"
    );
    assert_eq!(RulingError::EmptyResponse.message(), "Empty response from ruling service");
}

#[test]
fn test_missing_key_message() {
    assert_eq!(
        missing_key_message(),
        "Ruling API key not configured. Please set RULING_API_KEY environment variable."
    );
}

#[test]
fn test_rule_from_request() {
    let req = rulecraft::api::CreateRuleRequest {
        title: "Grapple".to_string(),
        category: "Combat".to_string(),
        subcategory: Some("Actions".to_string()),
        content: "Grab a creature.".to_string(),
        source: "Handbook".to_string(),
        page: Some(195),
    };
    let rule = rulecraft::api::rule_from_request(req);
    assert_eq!(rule.id.len(), 36);
    assert_eq!(rule.title, "Grapple");
    assert_eq!(rule.category, "Combat");
    assert_eq!(rule.subcategory.as_deref(), Some("Actions"));
    assert_eq!(rule.content, "Grab a creature.");
    assert_eq!(rule.source, "Handbook");
    assert_eq!(rule.page, Some(195));
    assert_eq!(rule.created_at, rule.updated_at);
}
