use webtools::weburl::UrlHost;
use webtools::fetch::{
    begin_fetch, check_url_parts, on_text, classify, clean_content_type, failure, looks_like_html, looks_like_json,
    normalize_text, on_body, on_response, pretty_json_or_raw, transport_error_code,
    truncation_warning, validate_url, AfterResponse, BodyPlan, FetchConfig, FetchKind,
    FetchStart, ResponseEvent, MAX_BYTES,
};

fn err_of(raw: &str, config: FetchConfig) -> &'static str {
    match validate_url(raw, config) {
        Err(e) => e,
        Ok(u) => panic!("expected an error for {raw}, got {}", u.serialized()),
    }
}

#[test]
fn rejects_localhost() {
    assert!(validate_url("http://localhost:3000", FetchConfig::default()).is_err());
    assert!(validate_url("http://127.0.0.1", FetchConfig::default()).is_err());
}

#[test]
fn accepts_public_https() {
    assert!(validate_url("https://example.com", FetchConfig::default()).is_ok());
}

#[test]
fn config_can_allow_localhost() {
    assert!(validate_url("http://127.0.0.1", FetchConfig { allow_local: true }).is_ok());
}

#[test]
fn validate_reports_each_error_code() {
    let d = FetchConfig::default();
    assert_eq!(err_of("not-a-url", d), "invalid_url");
    assert_eq!(err_of("http://", d), "invalid_url");
    assert_eq!(err_of("ftp://example.com/file", d), "unsupported_scheme");
    assert_eq!(err_of("file:///etc/passwd", d), "unsupported_scheme");
    assert_eq!(err_of("mailto:someone@example.com", d), "unsupported_scheme");
    assert_eq!(err_of("http://localhost./", d), "blocked_host");
    assert_eq!(err_of("http://api.LOCALHOST/x", d), "blocked_host");
    assert_eq!(err_of("http://metadata.google.internal/computeMetadata", d), "blocked_host");
    assert_eq!(err_of("http://10.1.2.3", d), "blocked_host");
    assert_eq!(err_of("http://192.168.0.1", d), "blocked_host");
    assert_eq!(err_of("http://172.16.0.1", d), "blocked_host");
    assert_eq!(err_of("http://169.254.169.254/latest", d), "blocked_host");
    assert_eq!(err_of("http://224.0.0.1", d), "blocked_host");
    assert_eq!(err_of("http://0.0.0.0", d), "blocked_host");
    assert_eq!(err_of("http://[::1]/", d), "blocked_host");
    assert_eq!(err_of("http://[::]/", d), "blocked_host");
    assert_eq!(err_of("http://[fd00::1]/", d), "blocked_host");
    assert_eq!(err_of("http://[fe80::1]/", d), "blocked_host");
    assert_eq!(err_of("http://[ff02::1]/", d), "blocked_host");
}

#[test]
fn validate_accepts_public_hosts_and_serializes() {
    let d = FetchConfig::default();
    let u = validate_url("https://example.com", d).expect("ok");
    assert_eq!(u.serialized(), "https://example.com/");
    assert_eq!(u.scheme(), "https");
    assert!(validate_url("http://8.8.8.8/dns", d).is_ok());
    assert!(validate_url("http://172.32.0.1", d).is_ok());
    assert!(validate_url("http://[2001:db8::1]/", d).is_ok());
    assert!(validate_url("http://notlocalhost.com", d).is_ok());
}

#[test]
fn allow_local_lifts_only_host_blocks() {
    let allow = FetchConfig { allow_local: true };
    assert!(validate_url("http://localhost:3000", allow).is_ok());
    assert!(validate_url("http://[::1]/", allow).is_ok());
    assert_eq!(err_of("ftp://localhost/", allow), "unsupported_scheme");
    assert_eq!(err_of("not-a-url", allow), "invalid_url");
}

#[test]
fn content_type_is_cleaned() {
    assert_eq!(
        clean_content_type(Some("Text/HTML; charset=UTF-8")),
        Some("text/html".to_string())
    );
    assert_eq!(clean_content_type(Some("  application/json  ")), Some("application/json".to_string()));
    assert_eq!(clean_content_type(Some(" ; charset=utf-8")), None);
    assert_eq!(clean_content_type(Some("")), None);
    assert_eq!(clean_content_type(None), None);
}

#[test]
fn classify_prefers_html_then_json_then_text() {
    assert_eq!(classify(&Some("application/json".to_string()), "<html><body></body></html>"), FetchKind::Html);
    assert_eq!(classify(&Some("application/xhtml+xml".to_string()), "x"), FetchKind::Html);
    assert_eq!(classify(&None, "  <!DOCTYPE html><p>x</p>"), FetchKind::Html);
    assert_eq!(classify(&Some("application/json".to_string()), "x"), FetchKind::Json);
    assert_eq!(classify(&Some("text/plain".to_string()), " [1, 2]"), FetchKind::Json);
    assert_eq!(classify(&Some("text/plain".to_string()), "hello"), FetchKind::Text);
    assert_eq!(classify(&None, "hello"), FetchKind::Text);
    assert_eq!(classify(&Some("image/png".to_string()), "\u{89}PNG"), FetchKind::Binary);
}

#[test]
fn html_and_json_sniffing() {
    assert!(looks_like_html("\n  <HTML lang=\"en\">"));
    assert!(looks_like_html("<!doctype html>"));
    assert!(looks_like_html("<div><BODY>"));
    let late = format!("{}<body>", "x".repeat(200));
    assert!(!looks_like_html(&late));
    assert!(looks_like_json("  {\"a\": 1}"));
    assert!(looks_like_json("[]"));
    assert!(!looks_like_json("a{"));
}

#[test]
fn text_is_normalized() {
    assert_eq!(normalize_text("\r\n a\rb \n"), "a\nb");
    assert_eq!(normalize_text("   "), "");
}

#[test]
fn json_is_pretty_printed_or_left_as_text() {
    assert_eq!(
        pretty_json_or_raw("{\"name\":\"webtools\",\"ok\":true}"),
        "{\n  \"name\": \"webtools\",\n  \"ok\": true\n}"
    );
    assert_eq!(pretty_json_or_raw(" {bad\r\n"), "{bad");
}

#[test]
fn transport_errors_get_codes() {
    assert_eq!(transport_error_code("too many Redirects (3)"), "too_many_redirects");
    assert_eq!(transport_error_code("dns failed"), "transport: dns failed");
}

#[test]
fn truncation_warning_only_when_truncated() {
    assert_eq!(truncation_warning(true), vec!["content_truncated".to_string()]);
    assert!(truncation_warning(false).is_empty());
}

#[test]
fn failure_has_no_content() {
    let o = failure("u", Some("f".to_string()), Some(500), None, "http_status", 0, 7);
    assert!(!o.ok);
    assert_eq!(o.kind, FetchKind::Error);
    assert_eq!(o.content, "");
    assert_eq!(o.error.as_deref(), Some("http_status"));
    assert_eq!(o.final_url.as_deref(), Some("f"));
    assert_eq!(o.status, Some(500));
    assert_eq!(o.elapsed_ms, 7);
    assert!(o.warnings.is_empty());
}

#[test]
fn begin_fetch_refuses_blocked_urls() {
    match begin_fetch("http://localhost:3000", FetchConfig::default(), 5) {
        FetchStart::Done(o) => {
            assert!(!o.ok);
            assert_eq!(o.kind, FetchKind::Error);
            assert_eq!(o.error.as_deref(), Some("blocked_host"));
            assert_eq!(o.content, "");
            assert_eq!(o.url, "http://localhost:3000");
            assert_eq!(o.elapsed_ms, 5);
        }
        other => panic!("unexpected {:?}", other),
    }
    match begin_fetch("not-a-url", FetchConfig::default(), 0) {
        FetchStart::Done(o) => assert_eq!(o.error.as_deref(), Some("invalid_url")),
        other => panic!("unexpected {:?}", other),
    }
}

#[test]
fn begin_fetch_plans_the_request() {
    match begin_fetch("https://example.com", FetchConfig::default(), 0) {
        FetchStart::Request(p) => {
            assert_eq!(p.url, "https://example.com/");
            assert_eq!(p.timeout_secs, 8);
            assert_eq!(p.max_redirects, 3);
            assert!(p.user_agent.ends_with("webtools/0.1"));
            assert_eq!(
                p.accept,
                "text/html,application/xhtml+xml,text/plain,application/json,*/*;q=0.8"
            );
        }
        other => panic!("unexpected {:?}", other),
    }
}

fn received(final_url: &str, ct: Option<&str>, len: Option<&str>) -> ResponseEvent {
    ResponseEvent::Received {
        final_url: final_url.to_string(),
        status: 200,
        content_type: ct.map(|s| s.to_string()),
        content_length: len.map(|s| s.to_string()),
    }
}

#[test]
fn response_failures_are_results() {
    let d = FetchConfig::default();
    let status = ResponseEvent::Status {
        code: 404,
        final_url: "https://example.com/missing".to_string(),
        content_type: "text/plain".to_string(),
    };
    match on_response("https://example.com/missing", d, status, 3) {
        AfterResponse::Done(o) => {
            assert!(!o.ok);
            assert_eq!(o.status, Some(404));
            assert_eq!(o.error.as_deref(), Some("http_status"));
            assert_eq!(o.content_type.as_deref(), Some("text/plain"));
            assert_eq!(o.bytes_read, 0);
            assert_eq!(o.elapsed_ms, 3);
        }
        other => panic!("unexpected {:?}", other),
    }
    let t = ResponseEvent::Transport { message: "too many redirects".to_string() };
    match on_response("https://example.com", d, t, 0) {
        AfterResponse::Done(o) => assert_eq!(o.error.as_deref(), Some("too_many_redirects")),
        other => panic!("unexpected {:?}", other),
    }
    match on_response("https://example.com", d, received("http://127.0.0.1/admin", None, None), 0) {
        AfterResponse::Done(o) => {
            assert_eq!(o.error.as_deref(), Some("blocked_host"));
            assert_eq!(o.final_url.as_deref(), Some("http://127.0.0.1/admin"));
            assert_eq!(o.status, None);
        }
        other => panic!("unexpected {:?}", other),
    }
    match on_response("https://example.com", d, received("https://example.com/", Some("text/html"), Some("4194305")), 0) {
        AfterResponse::Done(o) => {
            assert_eq!(o.error.as_deref(), Some("content_too_large"));
            assert_eq!(o.status, Some(200));
            assert_eq!(o.content_type.as_deref(), Some("text/html"));
        }
        other => panic!("unexpected {:?}", other),
    }
}

#[test]
fn response_leads_to_body_read() {
    let d = FetchConfig::default();
    match on_response("https://example.com", d, received("https://example.com/", Some("Text/Plain; charset=utf-8"), Some("4194304")), 0) {
        AfterResponse::ReadBody(p) => {
            assert_eq!(p.final_url, "https://example.com/");
            assert_eq!(p.status, 200);
            assert_eq!(p.content_type.as_deref(), Some("text/plain"));
            assert_eq!(p.read_limit, MAX_BYTES as u64 + 1);
        }
        other => panic!("unexpected {:?}", other),
    }
    match on_response("https://example.com", d, received("https://example.com/", None, Some("lots")), 0) {
        AfterResponse::ReadBody(p) => assert_eq!(p.content_type, None),
        other => panic!("unexpected {:?}", other),
    }
}

fn plan(ct: Option<&str>) -> BodyPlan {
    BodyPlan {
        final_url: "https://example.com/page".to_string(),
        status: 200,
        content_type: ct.map(|s| s.to_string()),
        read_limit: MAX_BYTES as u64 + 1,
    }
}

#[test]
fn text_body_becomes_text() {
    let o = on_body("https://example.com/page", plan(Some("text/plain")), Ok(b"hello from text\n".to_vec()), 9);
    assert!(o.ok);
    assert_eq!(o.kind, FetchKind::Text);
    assert_eq!(o.content, "hello from text");
    assert_eq!(o.bytes_read, 16);
    assert_eq!(o.elapsed_ms, 9);
    assert!(!o.truncated);
    assert!(o.warnings.is_empty());
    assert_eq!(o.error, None);
}

#[test]
fn json_body_is_pretty() {
    let o = on_body("u", plan(Some("application/json")), Ok(b"{\"name\":\"webtools\",\"ok\":true}".to_vec()), 0);
    assert_eq!(o.kind, FetchKind::Json);
    assert!(o.content.contains("\"name\": \"webtools\""));
}

#[test]
fn html_body_becomes_markdown() {
    let html = b"<html><head><title>Local Article</title></head><body><article><h1>Local Article</h1><p>Go <a href=\"/there\">there</a>.</p></article></body></html>";
    let o = on_body("http://site.example/a", plan(Some("text/html")), Ok(html.to_vec()), 0);
    assert!(o.ok);
    assert_eq!(o.kind, FetchKind::Html);
    assert_eq!(o.title.as_deref(), Some("Local Article"));
    assert!(o.content.starts_with("# Local Article"));
    assert!(o.content.contains("[there](<https://example.com/there>)"));
    assert_eq!(o.warnings, vec!["low_content_yield".to_string()]);
}

#[test]
fn binary_body_is_refused() {
    let o = on_body("u", plan(Some("image/png")), Ok(vec![0x89, b'P', b'N', b'G']), 0);
    assert!(!o.ok);
    assert_eq!(o.kind, FetchKind::Binary);
    assert_eq!(o.content, "");
    assert_eq!(o.error.as_deref(), Some("binary_content"));
    assert_eq!(o.bytes_read, 4);
}

#[test]
fn read_error_is_a_failure() {
    let o = on_body("u", plan(Some("text/plain")), Err("connection reset".to_string()), 0);
    assert!(!o.ok);
    assert_eq!(o.kind, FetchKind::Error);
    assert_eq!(o.error.as_deref(), Some("read: connection reset"));
    assert_eq!(o.status, Some(200));
    assert_eq!(o.content_type, None);
}

#[test]
fn invalid_utf8_is_replaced() {
    let o = on_body("u", plan(Some("text/plain")), Ok(vec![b'a', 0xff, b'b']), 0);
    assert_eq!(o.content, "a\u{FFFD}b");
}

#[test]
fn oversized_body_is_truncated_and_flagged() {
    let body = vec![b'a'; MAX_BYTES + 1];
    let o = on_body("u", plan(Some("text/plain")), Ok(body), 0);
    assert!(o.ok);
    assert!(o.truncated);
    assert_eq!(o.bytes_read, MAX_BYTES as u64 + 1);
    assert_eq!(o.content.len(), MAX_BYTES);
    assert_eq!(o.warnings, vec!["content_truncated".to_string()]);
}

#[test]
fn body_at_the_limit_is_kept_whole() {
    let body = vec![b'a'; MAX_BYTES];
    let o = on_body("u", plan(Some("text/plain")), Ok(body), 0);
    assert!(!o.truncated);
    assert_eq!(o.content.len(), MAX_BYTES);
    assert!(o.warnings.is_empty());
}

#[test]
fn host_checks_on_parts() {
    let local = Some(UrlHost::Ipv4([127, 0, 0, 1]));
    assert_eq!(check_url_parts("http", &local, false), Err("blocked_host"));
    assert_eq!(check_url_parts("http", &local, true), Ok(()));
    assert_eq!(check_url_parts("gopher", &local, true), Err("unsupported_scheme"));
    assert_eq!(check_url_parts("https", &None, false), Err("missing_host"));
    let v6 = Some(UrlHost::Ipv6([0xfe80, 0, 0, 0, 0, 0, 0, 1]));
    assert_eq!(check_url_parts("https", &v6, false), Err("blocked_host"));
    let public_v6 = Some(UrlHost::Ipv6([0x2606, 0x4700, 0, 0, 0, 0, 0, 0x1111]));
    assert_eq!(check_url_parts("https", &public_v6, false), Ok(()));
    let domain = Some(UrlHost::Domain("Metadata.Google.Internal..".to_string()));
    assert_eq!(check_url_parts("http", &domain, false), Err("blocked_host"));
    let domain = Some(UrlHost::Domain("example.com".to_string()));
    assert_eq!(check_url_parts("http", &domain, false), Ok(()));
}

#[test]
fn text_results_by_kind() {
    let o = on_text("u", "https://example.com/".to_string(), 200, None, " [1,2] ", 7, false, 1);
    assert_eq!(o.kind, FetchKind::Json);
    assert_eq!(o.content, "[\n  1,\n  2\n]");
    assert_eq!(o.bytes_read, 7);
    let o = on_text("u", "https://example.com/".to_string(), 200, Some("text/csv".to_string()), "a,b\r\n1,2\r\n", 10, true, 1);
    assert_eq!(o.kind, FetchKind::Text);
    assert_eq!(o.content, "a,b\n1,2");
    assert!(o.truncated);
    assert_eq!(o.warnings, vec!["content_truncated".to_string()]);
    let o = on_text("u", "https://example.com/".to_string(), 200, Some("application/pdf".to_string()), "%PDF", 4, true, 1);
    assert!(!o.ok);
    assert_eq!(o.kind, FetchKind::Binary);
    assert_eq!(o.warnings, vec!["content_truncated".to_string()]);
    let o = on_text("u", "https://example.com/".to_string(), 200, None, "<html><title>T</title><p>x</p></html>", 30, true, 1);
    assert_eq!(o.kind, FetchKind::Html);
    assert_eq!(o.title.as_deref(), Some("T"));
    assert_eq!(o.content, "# T\n\nx");
    assert_eq!(o.warnings, vec!["low_content_yield".to_string(), "content_truncated".to_string()]);
}
