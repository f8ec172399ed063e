use webtools::error::AppError;
use webtools::search::{
    api_key, clean_highlights, plan_search, clean_optional, clean_result, compact_error_body, decode_error,
    normalize_space, status_error, summarize, transport_error, RawResult, SearchOptions,
};

fn runtime(e: AppError) -> String {
    match e {
        AppError::Runtime(m) => m,
        other => panic!("expected a run-time error, got {:?}", other),
    }
}

#[test]
fn api_key_is_trimmed_and_required() {
    assert_eq!(api_key(Some("  sk-123 \n".to_string())).expect("key"), "sk-123");
    assert_eq!(runtime(api_key(None).unwrap_err()), "missing EXA_API_KEY");
    assert_eq!(runtime(api_key(Some(" \t ".to_string())).unwrap_err()), "missing EXA_API_KEY");
}

#[test]
fn error_bodies_are_compacted() {
    assert_eq!(compact_error_body("  \n "), "(empty body)");
    assert_eq!(compact_error_body("  rate limited \n"), "rate limited");
    let long = "é".repeat(600);
    assert_eq!(compact_error_body(&long), "é".repeat(500));
    let exact = "x".repeat(500);
    assert_eq!(compact_error_body(&exact), exact);
}

#[test]
fn service_errors_have_messages() {
    assert_eq!(
        runtime(status_error(429, " slow down ")),
        "exa returned HTTP 429: slow down"
    );
    assert_eq!(runtime(status_error(500, "")), "exa returned HTTP 500: (empty body)");
    assert_eq!(
        runtime(transport_error("connection refused")),
        "exa request failed: connection refused"
    );
    assert_eq!(
        runtime(decode_error("expected value at line 1")),
        "failed to decode exa response: expected value at line 1"
    );
}

#[test]
fn text_fields_are_cleaned() {
    assert_eq!(normalize_space("  a \n\t b  "), "a b");
    assert_eq!(clean_optional(Some("  Rust \n Book ".to_string())), Some("Rust Book".to_string()));
    assert_eq!(clean_optional(Some(" \n ".to_string())), None);
    assert_eq!(clean_optional(None), None);
    assert_eq!(
        clean_highlights(&Some(vec!["  ".to_string(), "x   y".to_string(), "z".to_string()])),
        vec!["x y".to_string(), "z".to_string()]
    );
    assert!(clean_highlights(&None).is_empty());
}

#[test]
fn results_are_cleaned_in_order() {
    let raw = vec![
        RawResult {
            title: Some(" First ".to_string()),
            url: "https://a.example/".to_string(),
            published_date: None,
            highlights: Some(vec!["one  two".to_string()]),
        },
        RawResult {
            title: Some("   ".to_string()),
            url: "https://b.example/".to_string(),
            published_date: Some("2024-01-01 ".to_string()),
            highlights: None,
        },
    ];
    let options = SearchOptions {
        query: "rust async".to_string(),
        count: 2,
        search_type: "auto".to_string(),
    };
    let s = summarize(&options, Some("neural".to_string()), raw);
    assert_eq!(s.query, "rust async");
    assert_eq!(s.search_type, "neural");
    assert_eq!(s.results.len(), 2);
    assert_eq!(s.results[0].title.as_deref(), Some("First"));
    assert_eq!(s.results[0].url, "https://a.example/");
    assert_eq!(s.results[0].highlights, vec!["one two".to_string()]);
    assert_eq!(s.results[1].title, None);
    assert_eq!(s.results[1].published_date.as_deref(), Some("2024-01-01"));
    assert!(s.results[1].highlights.is_empty());
    let s = summarize(&options, None, Vec::new());
    assert_eq!(s.search_type, "auto");
    assert!(s.results.is_empty());
}

#[test]
fn single_result_keeps_its_url() {
    let r = clean_result(&RawResult {
        title: None,
        url: " https://c.example/ ".to_string(),
        published_date: None,
        highlights: Some(Vec::new()),
    });
    assert_eq!(r.url, " https://c.example/ ");
    assert!(r.highlights.is_empty());
}

#[test]
fn search_request_is_planned() {
    let options = SearchOptions {
        query: "rust async".to_string(),
        count: 3,
        search_type: "neural".to_string(),
    };
    let r = plan_search(&options, "sk-1".to_string());
    assert_eq!(r.url, "https://api.exa.ai/search");
    assert_eq!(r.api_key, "sk-1");
    assert_eq!(r.accept, "application/json");
    assert_eq!(r.content_type, "application/json");
    assert_eq!(r.timeout_secs, 12);
    assert_eq!(r.query, "rust async");
    assert_eq!(r.search_type, "neural");
    assert_eq!(r.num_results, 3);
}
