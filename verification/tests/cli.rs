use webtools::cli::{parse, usage, Command, FetchOptions};
use webtools::error::AppError;
use webtools::search::SearchOptions;

fn args(list: &[&str]) -> Vec<String> {
    list.iter().map(|s| s.to_string()).collect()
}

fn usage_message(list: &[&str]) -> String {
    match parse(args(list)) {
        Err(AppError::Usage(m)) => m,
        other => panic!("expected a usage error, got {:?}", other),
    }
}

#[test]
fn fetch_defaults_to_json() {
    let parsed = parse(args(&["fetch", "https://example.com"])).expect("parse");
    assert_eq!(
        parsed,
        Command::Fetch(FetchOptions {
            url: "https://example.com".to_string(),
            md: false
        })
    );
}

#[test]
fn fetch_accepts_md() {
    let parsed = parse(args(&["fetch", "--md", "https://example.com"])).expect("parse");
    assert_eq!(
        parsed,
        Command::Fetch(FetchOptions {
            url: "https://example.com".to_string(),
            md: true
        })
    );
}

#[test]
fn search_joins_query_terms() {
    let parsed = parse(args(&["search", "--count", "3", "rust", "async"])).expect("parse");
    assert_eq!(
        parsed,
        Command::Search(SearchOptions {
            query: "rust async".to_string(),
            count: 3,
            search_type: "auto".to_string()
        })
    );
}

#[test]
fn no_arguments_means_help() {
    assert_eq!(parse(Vec::new()).expect("parse"), Command::Help);
    assert_eq!(parse(args(&["help"])).expect("parse"), Command::Help);
    assert_eq!(parse(args(&["-h"])).expect("parse"), Command::Help);
    assert_eq!(parse(args(&["--help", "fetch"])).expect("parse"), Command::Help);
}

#[test]
fn version_flag_is_a_command() {
    assert_eq!(parse(args(&["--version"])).expect("parse"), Command::Version);
}

#[test]
fn usage_names_both_commands() {
    assert!(usage().contains("webtools fetch [--json|--md] <url>"));
    assert!(usage().contains("EXA_API_KEY is required for search."));
}

#[test]
fn unknown_command_shows_usage() {
    let m = usage_message(&["crawl"]);
    assert_eq!(m, format!("unknown command `crawl`\n\n{}", usage()));
}

#[test]
fn search_defaults_and_flags() {
    let parsed = parse(args(&["search", "--json", "-n", "20", "--type", "neural", "a", "b", "c"]))
        .expect("parse");
    assert_eq!(
        parsed,
        Command::Search(SearchOptions {
            query: "a b c".to_string(),
            count: 20,
            search_type: "neural".to_string()
        })
    );
    let parsed = parse(args(&["search", "rust"])).expect("parse");
    assert_eq!(
        parsed,
        Command::Search(SearchOptions {
            query: "rust".to_string(),
            count: 5,
            search_type: "auto".to_string()
        })
    );
}

#[test]
fn search_usage_errors() {
    assert_eq!(usage_message(&["search", "--count"]), "missing value for --count");
    assert_eq!(
        usage_message(&["search", "--count", "x", "q"]),
        "--count must be an integer between 1 and 20"
    );
    assert_eq!(
        usage_message(&["search", "--count", "0", "q"]),
        "--count must be between 1 and 20"
    );
    assert_eq!(
        usage_message(&["search", "-n", "21", "q"]),
        "--count must be between 1 and 20"
    );
    assert_eq!(usage_message(&["search", "--type"]), "missing value for --type");
    assert_eq!(
        usage_message(&["search", "--type", "fuzzy", "q"]),
        "--type must be one of auto, neural, keyword"
    );
    assert_eq!(usage_message(&["search", "--deep", "q"]), "unknown search flag `--deep`");
    assert_eq!(usage_message(&["search"]), "missing search query");
    assert_eq!(usage_message(&["search", " ", "\t"]), "missing search query");
}

#[test]
fn fetch_usage_errors() {
    assert_eq!(
        usage_message(&["fetch", "--json", "--md", "https://example.com"]),
        "choose only one output mode: --md or --json"
    );
    assert_eq!(usage_message(&["fetch"]), "missing fetch URL");
    assert_eq!(
        usage_message(&["fetch", "https://a.example", "https://b.example"]),
        "fetch accepts exactly one URL"
    );
    assert_eq!(usage_message(&["fetch", "--raw", "https://a.example"]), "unknown fetch flag `--raw`");
}

#[test]
fn fetch_json_flag_keeps_json_output() {
    let parsed = parse(args(&["fetch", "https://example.com", "--json"])).expect("parse");
    assert_eq!(
        parsed,
        Command::Fetch(FetchOptions {
            url: "https://example.com".to_string(),
            md: false
        })
    );
}

#[test]
fn version_matches_package() {
    assert_eq!(webtools::cli::VERSION, "0.1.0");
}

#[test]
fn count_accepts_plus_sign() {
    let parsed = parse(args(&["search", "--count", "+7", "q"])).expect("parse");
    assert_eq!(
        parsed,
        Command::Search(SearchOptions {
            query: "q".to_string(),
            count: 7,
            search_type: "auto".to_string()
        })
    );
}
