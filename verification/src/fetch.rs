use vstd::prelude::*;

use crate::markdown::{extract, extract_spec, opt_view, strings_view};
use crate::text::{
    ascii_lower, chars_of, contains, contains_exec, copy_range, ends_with, ends_with_exec,
    eq_str, is_whitespace, lower_chars, normalize_newlines, normalize_newlines_exec, parse_usize,
    parse_usize_exec, push_all, push_str, starts_with, starts_with_exec, string_from, trim,
    trim_chars, trim_start,
};
use crate::weburl::{parse_url, url_parse, HostView, ParsedUrl, UrlHost, UrlParts};

verus! {

/// How long a fetch may take, in seconds.
pub const FETCH_TIMEOUT_SECS: u64 = 8;

/// How many redirects a fetch follows.
pub const MAX_REDIRECTS: u32 = 3;

/// The most body bytes that a fetch keeps.
pub const MAX_BYTES: usize = 4194304;

/// The kind of content that a fetch found.
#[derive(Debug, Clone, Copy, PartialEq, Eq, Structural)]
pub enum FetchKind {
    Html,
    Text,
    Json,
    Binary,
    Error,
}

/// Whether hosts on the local machine and private networks may be fetched.
#[derive(Debug, Clone, Copy)]
pub struct FetchConfig {
    pub allow_local: bool,
}

impl Default for FetchConfig {
    fn default() -> (c: Self)
        ensures
            !c.allow_local,
    {
        FetchConfig { allow_local: false }
    }
}

/// The result of a fetch, successful or not.
#[derive(Debug)]
pub struct FetchOutput {
    pub ok: bool,
    pub url: String,
    pub final_url: Option<String>,
    pub status: Option<u16>,
    pub content_type: Option<String>,
    pub title: Option<String>,
    pub kind: FetchKind,
    pub content: String,
    pub warnings: Vec<String>,
    pub truncated: bool,
    pub bytes_read: u64,
    pub elapsed_ms: u64,
    pub error: Option<String>,
}

pub struct FetchOutputView {
    pub ok: bool,
    pub url: Seq<char>,
    pub final_url: Option<Seq<char>>,
    pub status: Option<u16>,
    pub content_type: Option<Seq<char>>,
    pub title: Option<Seq<char>>,
    pub kind: FetchKind,
    pub content: Seq<char>,
    pub warnings: Seq<Seq<char>>,
    pub truncated: bool,
    pub bytes_read: u64,
    pub elapsed_ms: u64,
    pub error: Option<Seq<char>>,
}

impl View for FetchOutput {
    type V = FetchOutputView;

    open spec fn view(&self) -> FetchOutputView {
        FetchOutputView {
            ok: self.ok,
            url: self.url@,
            final_url: opt_view(self.final_url),
            status: self.status,
            content_type: opt_view(self.content_type),
            title: opt_view(self.title),
            kind: self.kind,
            content: self.content@,
            warnings: strings_view(self.warnings@),
            truncated: self.truncated,
            bytes_read: self.bytes_read,
            elapsed_ms: self.elapsed_ms,
            error: opt_view(self.error),
        }
    }
}

/// What every fetch result keeps: it is ok exactly when it carries no error; a failed one has
/// no content and no title and is of kind `Error` or `Binary`; an ok one is HTML, JSON or text.
pub open spec fn consistent(o: FetchOutputView) -> bool {
    &&& o.ok == (o.error is None)
    &&& !o.ok ==> o.content.len() == 0 && o.title is None && (o.kind == FetchKind::Error
        || o.kind == FetchKind::Binary)
    &&& o.ok ==> (o.kind == FetchKind::Html || o.kind == FetchKind::Json || o.kind
        == FetchKind::Text)
}

// ---------------------------------------------------------------- URL checks

pub open spec fn blocked_v4(a: Seq<u8>) -> bool {
    let (o0, o1) = (a[0], a[1]);
    ||| o0 == 127
    ||| o0 == 10
    ||| (o0 == 172 && 16 <= o1 && o1 <= 31)
    ||| (o0 == 192 && o1 == 168)
    ||| (o0 == 169 && o1 == 254)
    ||| (224 <= o0 && o0 <= 239)
    ||| (o0 == 0 && a[1] == 0 && a[2] == 0 && a[3] == 0)
}

pub open spec fn blocked_v6(s: Seq<u16>) -> bool {
    let zero_prefix = s[0] == 0 && s[1] == 0 && s[2] == 0 && s[3] == 0 && s[4] == 0 && s[5] == 0
        && s[6] == 0;
    ||| (zero_prefix && s[7] == 1)
    ||| (zero_prefix && s[7] == 0)
    ||| (s[0] & 0xff00u16) == 0xff00u16
    ||| (s[0] & 0xfe00u16) == 0xfc00u16
    ||| (s[0] & 0xffc0u16) == 0xfe80u16
}

/// An IPv4 address that is loopback, private, link-local, multicast or unspecified
/// (as `Ipv4Addr::is_loopback`, `is_private`, `is_link_local`, `is_multicast` and
/// `is_unspecified` define them).
pub fn is_blocked_v4(a: [u8; 4]) -> (b: bool)
    ensures
        b == blocked_v4(a@),
{
    let o0 = a[0];
    let o1 = a[1];
    o0 == 127 || o0 == 10 || (o0 == 172 && 16 <= o1 && o1 <= 31) || (o0 == 192 && o1 == 168) || (
    o0 == 169 && o1 == 254) || (224 <= o0 && o0 <= 239) || (o0 == 0 && a[1] == 0 && a[2] == 0
        && a[3] == 0)
}

/// An IPv6 address that is loopback, unspecified, multicast, unique local (`fc00::/7`) or
/// link-local unicast (`fe80::/10`).
pub fn is_blocked_v6(s: [u16; 8]) -> (b: bool)
    ensures
        b == blocked_v6(s@),
{
    let zero_prefix = s[0] == 0 && s[1] == 0 && s[2] == 0 && s[3] == 0 && s[4] == 0 && s[5] == 0
        && s[6] == 0;
    (zero_prefix && s[7] == 1) || (zero_prefix && s[7] == 0) || (s[0] & 0xff00u16) == 0xff00u16
        || (s[0] & 0xfe00u16) == 0xfc00u16 || (s[0] & 0xffc0u16) == 0xfe80u16
}

/// `s` without its trailing `c` characters.
pub open spec fn trim_end_char(s: Seq<char>, c: char) -> Seq<char>
    decreases s.len(),
{
    if s.len() > 0 && s.last() == c {
        trim_end_char(s.drop_last(), c)
    } else {
        s
    }
}

/// A domain name (trailing dots dropped, ASCII lowercased) that names the local machine or
/// the cloud metadata service.
pub open spec fn blocked_domain(domain: Seq<char>) -> bool {
    let d = ascii_lower(trim_end_char(domain, '.'));
    d == "localhost"@ || ends_with(d, ".localhost"@) || d == "metadata.google.internal"@
}

pub open spec fn blocked_host(h: HostView) -> bool {
    match h {
        HostView::Domain(d) => blocked_domain(d),
        HostView::Ipv4(a) => blocked_v4(a),
        HostView::Ipv6(s) => blocked_v6(s),
    }
}

/// The outcome of checking the scheme and host of a parsed URL that a fetch may go to: nothing,
/// or the error code.
pub open spec fn check_parts(scheme: Seq<char>, host: Option<HostView>, allow_local: bool) -> Result<
    (),
    Seq<char>,
> {
    if !(scheme == "http"@ || scheme == "https"@) {
        Err("unsupported_scheme"@)
    } else {
        match host {
            None => Err("missing_host"@),
            Some(h) => if !allow_local && blocked_host(h) {
                Err("blocked_host"@)
            } else {
                Ok(())
            },
        }
    }
}

/// The outcome of checking a URL that a fetch may go to: the parsed URL, or the error code.
pub open spec fn check_url(parsed: Option<UrlParts>, allow_local: bool) -> Result<
    UrlParts,
    Seq<char>,
> {
    match parsed {
        None => Err("invalid_url"@),
        Some(u) => match check_parts(u.scheme, u.host, allow_local) {
            Ok(_) => Ok(u),
            Err(e) => Err(e),
        },
    }
}

pub open spec fn host_view(host: Option<UrlHost>) -> Option<HostView> {
    match host {
        Some(h) => Some(h@),
        None => None,
    }
}

pub open spec fn validate_spec(raw_url: Seq<char>, allow_local: bool) -> Result<
    UrlParts,
    Seq<char>,
> {
    check_url(url_parse(raw_url), allow_local)
}

fn is_blocked_domain(domain: &String) -> (b: bool)
    ensures
        b == blocked_domain(domain@),
{
    let d = chars_of(domain.as_str());
    let mut end: usize = d.len();
    assert(d@.subrange(0, d@.len() as int) =~= d@);
    while end > 0 && d[end - 1] == '.'
        invariant
            end <= d@.len(),
            trim_end_char(d@, '.') == trim_end_char(d@.subrange(0, end as int), '.'),
        decreases end,
    {
        assert(d@.subrange(0, end as int).drop_last() =~= d@.subrange(0, end - 1));
        end -= 1;
    }
    let trimmed = copy_range(d.as_slice(), 0, end);
    let lower = lower_chars(trimmed.as_slice());
    eq_str(lower.as_slice(), "localhost") || ends_with_exec(
        lower.as_slice(),
        chars_of(".localhost").as_slice(),
    ) || eq_str(lower.as_slice(), "metadata.google.internal")
}

fn is_blocked_host(h: &UrlHost) -> (b: bool)
    ensures
        b == blocked_host(h@),
{
    match h {
        UrlHost::Domain(d) => is_blocked_domain(d),
        UrlHost::Ipv4(a) => is_blocked_v4(*a),
        UrlHost::Ipv6(s) => is_blocked_v6(*s),
    }
}

/// Checks the scheme and host of a parsed URL: http or https, with a host, and, unless
/// `allow_local`, not a local, private or metadata host.
pub fn check_url_parts(scheme: &str, host: &Option<UrlHost>, allow_local: bool) -> (r: Result<
    (),
    &'static str,
>)
    ensures
        r is Ok == check_parts(scheme@, host_view(*host), allow_local) is Ok,
        r matches Err(e) ==> check_parts(scheme@, host_view(*host), allow_local) == Err::<
            (),
            Seq<char>,
        >(e@),
{
    let sc = chars_of(scheme);
    if !(eq_str(sc.as_slice(), "http") || eq_str(sc.as_slice(), "https")) {
        return Err("unsupported_scheme");
    }
    match host {
        None => Err("missing_host"),
        Some(h) => if !allow_local && is_blocked_host(h) {
            Err("blocked_host")
        } else {
            Ok(())
        },
    }
}

/// Parses a URL and checks that a fetch may go to it: http or https, with a host, and, unless
/// `config.allow_local`, not a local, private or metadata host.
pub fn validate_url(raw_url: &str, config: FetchConfig) -> (res: Result<ParsedUrl, &'static str>)
    ensures
        res matches Ok(u) ==> validate_spec(raw_url@, config.allow_local) == Ok::<UrlParts, Seq<char>>(u@),
        res matches Err(e) ==> validate_spec(raw_url@, config.allow_local) == Err::<UrlParts, Seq<char>>(e@),
{
    let url = match parse_url(raw_url) {
        Some(u) => u,
        None => return Err("invalid_url"),
    };
    match check_url_parts(url.scheme().as_str(), url.host(), config.allow_local) {
        Ok(()) => Ok(url),
        Err(e) => Err(e),
    }
}

/// With local hosts allowed, every URL that passes the check without that permission passes
/// it too, as the same URL; the permission only ever lifts a `blocked_host` refusal.
pub proof fn lemma_allow_local_only_lifts_blocks(raw_url: Seq<char>)
    ensures
        validate_spec(raw_url, false) is Ok ==> validate_spec(raw_url, true) == validate_spec(
            raw_url,
            false,
        ),
        validate_spec(raw_url, true) != validate_spec(raw_url, false) ==> validate_spec(
            raw_url,
            false,
        ) == Err::<UrlParts, Seq<char>>("blocked_host"@),
        validate_spec(raw_url, true) != Err::<UrlParts, Seq<char>>("blocked_host"@),
{
    reveal_strlit("blocked_host");
    reveal_strlit("invalid_url");
    reveal_strlit("unsupported_scheme");
    reveal_strlit("missing_host");
    assert("missing_host"@[0] != "blocked_host"@[0]);
    assert("invalid_url"@.len() != "blocked_host"@.len());
    assert("unsupported_scheme"@.len() != "blocked_host"@.len());
}


// ---------------------------------------------------------------- outside computations

/// `serde_json::Value`, carried through unopened.
#[verifier::external_type_specification]
#[verifier::external_body]
pub struct ExJsonValue(serde_json::Value);

/// A JSON document as `serde_json::from_str` parsed it, next to the text it came from.
pub struct JsonDocument {
    value: serde_json::Value,
    source: String,
}

impl JsonDocument {
    pub closed spec fn source(&self) -> Seq<char> {
        self.source@
    }
}

/// Whether `serde_json::from_str::<serde_json::Value>` accepts a text.
pub uninterp spec fn json_accepts(text: Seq<char>) -> bool;

/// What `serde_json::to_string_pretty` writes for the value parsed from a text
/// (`None` where it fails).
pub uninterp spec fn json_pretty(text: Seq<char>) -> Option<Seq<char>>;

/// What `String::from_utf8_lossy` makes of bytes.
pub uninterp spec fn utf8_lossy(bytes: Seq<u8>) -> Seq<char>;

/// Calls `serde_json::from_str::<serde_json::Value>`. Trusted: it succeeds exactly on the texts
/// that `json_accepts` names, and the document remembers its text.
#[verifier::external_body]
fn parse_json(text: &str) -> (r: Option<JsonDocument>)
    ensures
        r is Some == json_accepts(text@),
        r matches Some(d) ==> d.source() == text@,
{
    serde_json::from_str::<serde_json::Value>(text).ok().map(
        |value| JsonDocument { value, source: text.to_string() },
    )
}

/// Calls `serde_json::to_string_pretty` on a parsed document. Trusted: the result is what
/// `json_pretty` names for the document's text.
#[verifier::external_body]
fn pretty_print_json(doc: &JsonDocument) -> (r: Option<String>)
    ensures
        r matches Some(s) ==> json_pretty(doc.source()) == Some(s@),
        r is None ==> json_pretty(doc.source()) is None,
{
    serde_json::to_string_pretty(&doc.value).ok()
}

/// Calls `String::from_utf8_lossy`. Trusted: the result is what `utf8_lossy` names; on valid
/// UTF-8 it is the decoded text, as the std documentation states.
#[verifier::external_body]
fn decode_utf8_lossy(bytes: &[u8]) -> (s: String)
    ensures
        s@ == utf8_lossy(bytes@),
        vstd::utf8::valid_utf8(bytes@) ==> s@ == vstd::utf8::decode_utf8(bytes@),
{
    String::from_utf8_lossy(bytes).to_string()
}

// ---------------------------------------------------------------- content handling

/// The part of `s` before its first `c` (all of `s` when there is none).
pub open spec fn before_char(s: Seq<char>, c: char) -> Seq<char>
    decreases s.len(),
{
    if s.len() == 0 {
        s
    } else if s[0] == c {
        seq![]
    } else {
        seq![s[0]] + before_char(s.drop_first(), c)
    }
}

/// The media type of a `content-type` header: the part before any `;`, trimmed and
/// ASCII-lowercased; `None` when that is empty or there is no header.
pub open spec fn clean_content_type_spec(value: Option<Seq<char>>) -> Option<Seq<char>> {
    match value {
        None => None,
        Some(raw) => {
            let cleaned = ascii_lower(trim(before_char(raw, ';')));
            if cleaned.len() == 0 {
                None
            } else {
                Some(cleaned)
            }
        },
    }
}

fn before_char_exec(s: &[char], c: char) -> (out: Vec<char>)
    ensures
        out@ == before_char(s@, c),
{
    let mut i: usize = 0;
    assert(s@.skip(0) =~= s@);
    while i < s.len() && s[i] != c
        invariant
            i <= s@.len(),
            before_char(s@, c) == s@.take(i as int) + before_char(s@.skip(i as int), c),
        decreases s@.len() - i,
    {
        assert(s@.skip(i as int).drop_first() =~= s@.skip(i + 1));
        assert(s@.take(i + 1) =~= s@.take(i as int) + seq![s@[i as int]]);
        i += 1;
    }
    if i == s.len() {
        assert(s@.skip(i as int) =~= Seq::<char>::empty());
        assert(s@.take(i as int) =~= s@.take(i as int) + Seq::<char>::empty());
    }
    copy_range(s, 0, i)
}

/// The media type of a `content-type` header value.
pub fn clean_content_type(value: Option<&str>) -> (r: Option<String>)
    ensures
        opt_view_str(r) == clean_content_type_spec(match value {
            Some(v) => Some(v@),
            None => None,
        }),
{
    match value {
        None => None,
        Some(raw) => {
            let chars = chars_of(raw);
            let head = before_char_exec(chars.as_slice(), ';');
            let trimmed = trim_chars(head.as_slice());
            let cleaned = lower_chars(trimmed.as_slice());
            if cleaned.len() == 0 {
                None
            } else {
                Some(string_from(cleaned.as_slice()))
            }
        },
    }
}

pub open spec fn opt_view_str(o: Option<String>) -> Option<Seq<char>> {
    opt_view(o)
}

/// Whether a body looks like HTML: its first 200 characters after leading whitespace,
/// ASCII-lowercased, start with `<!doctype html` or `<html`, or hold `<body`.
pub open spec fn looks_like_html_spec(body: Seq<char>) -> bool {
    let t = trim_start(body);
    let head = if t.len() > 200 {
        t.take(200)
    } else {
        t
    };
    let lower = ascii_lower(head);
    starts_with(lower, "<!doctype html"@) || starts_with(lower, "<html"@) || contains(
        lower,
        "<body"@,
    )
}

/// Whether a body looks like JSON: after leading whitespace it starts with `{` or `[`.
pub open spec fn looks_like_json_spec(body: Seq<char>) -> bool {
    let t = trim_start(body);
    t.len() > 0 && (t[0] == '{' || t[0] == '[')
}

/// The kind of a body: HTML if the media type mentions `html` or the body looks like HTML;
/// else JSON if the media type mentions `json` or the body looks like JSON; else text if the
/// media type is `text/...` or absent; else binary.
pub open spec fn classify_spec(content_type: Option<Seq<char>>, body: Seq<char>) -> FetchKind {
    let lower = match content_type {
        Some(c) => c,
        None => seq![],
    };
    if contains(lower, "html"@) || looks_like_html_spec(body) {
        FetchKind::Html
    } else if contains(lower, "json"@) || looks_like_json_spec(body) {
        FetchKind::Json
    } else if starts_with(lower, "text/"@) || lower.len() == 0 {
        FetchKind::Text
    } else {
        FetchKind::Binary
    }
}

fn trim_start_index(s: &[char]) -> (a: usize)
    ensures
        a <= s@.len(),
        trim_start(s@) == s@.skip(a as int),
{
    let mut a: usize = 0;
    assert(s@.skip(0) =~= s@);
    while a < s.len() && is_whitespace(s[a])
        invariant
            a <= s@.len(),
            trim_start(s@) == trim_start(s@.skip(a as int)),
        decreases s@.len() - a,
    {
        assert(s@.skip(a as int).drop_first() =~= s@.skip(a + 1));
        a += 1;
    }
    a
}

fn looks_like_html_chars(body: &[char]) -> (r: bool)
    ensures
        r == looks_like_html_spec(body@),
{
    let a = trim_start_index(body);
    let end = if body.len() - a > 200 {
        a + 200
    } else {
        body.len()
    };
    let head = copy_range(body, a, end);
    assert(head@ =~= (if trim_start(body@).len() > 200 {
        trim_start(body@).take(200)
    } else {
        trim_start(body@)
    }));
    let lower = lower_chars(head.as_slice());
    starts_with_exec(lower.as_slice(), chars_of("<!doctype html").as_slice()) || starts_with_exec(
        lower.as_slice(),
        chars_of("<html").as_slice(),
    ) || contains_exec(lower.as_slice(), chars_of("<body").as_slice())
}

fn looks_like_json_chars(body: &[char]) -> (r: bool)
    ensures
        r == looks_like_json_spec(body@),
{
    let a = trim_start_index(body);
    a < body.len() && (body[a] == '{' || body[a] == '[')
}

/// Whether a body looks like HTML.
pub fn looks_like_html(body: &str) -> (r: bool)
    ensures
        r == looks_like_html_spec(body@),
{
    looks_like_html_chars(chars_of(body).as_slice())
}

/// Whether a body looks like JSON.
pub fn looks_like_json(body: &str) -> (r: bool)
    ensures
        r == looks_like_json_spec(body@),
{
    looks_like_json_chars(chars_of(body).as_slice())
}

fn classify_chars(content_type: &Option<String>, body: &[char]) -> (k: FetchKind)
    ensures
        k == classify_spec(opt_view(*content_type), body@),
{
    let lower: Vec<char> = match content_type {
        Some(c) => chars_of(c.as_str()),
        None => Vec::new(),
    };
    if contains_exec(lower.as_slice(), chars_of("html").as_slice()) || looks_like_html_chars(body) {
        FetchKind::Html
    } else if contains_exec(lower.as_slice(), chars_of("json").as_slice()) || looks_like_json_chars(
        body,
    ) {
        FetchKind::Json
    } else if starts_with_exec(lower.as_slice(), chars_of("text/").as_slice()) || lower.len() == 0 {
        FetchKind::Text
    } else {
        FetchKind::Binary
    }
}

/// The kind of a body, by its media type and its first characters.
pub fn classify(content_type: &Option<String>, body: &str) -> (k: FetchKind)
    ensures
        k == classify_spec(opt_view(*content_type), body@),
{
    classify_chars(content_type, chars_of(body).as_slice())
}

/// A text body with newlines normalized and surrounding whitespace removed.
pub open spec fn normalize_text_spec(body: Seq<char>) -> Seq<char> {
    trim(normalize_newlines(body))
}

fn normalize_text_chars(body: &[char]) -> (out: Vec<char>)
    ensures
        out@ == normalize_text_spec(body@),
{
    let n = normalize_newlines_exec(body);
    trim_chars(n.as_slice())
}

/// A text body with newlines normalized and surrounding whitespace removed.
pub fn normalize_text(body: &str) -> (out: String)
    ensures
        out@ == normalize_text_spec(body@),
{
    string_from(normalize_text_chars(chars_of(body).as_slice()).as_slice())
}

/// A JSON body pretty-printed, or, where it does not parse or print, its normalized text.
pub open spec fn pretty_json_or_raw_spec(body: Seq<char>) -> Seq<char> {
    if json_accepts(body) && json_pretty(body) is Some {
        json_pretty(body)->0
    } else {
        normalize_text_spec(body)
    }
}

/// A JSON body pretty-printed, or, where it does not parse or print, its normalized text.
pub fn pretty_json_or_raw(body: &str) -> (out: String)
    ensures
        out@ == pretty_json_or_raw_spec(body@),
{
    match parse_json(body) {
        Some(doc) => match pretty_print_json(&doc) {
            Some(s) => s,
            None => normalize_text(body),
        },
        None => normalize_text(body),
    }
}

pub open spec fn truncated_warning() -> Seq<char> {
    "content_truncated"@
}

/// `["content_truncated"]` when the body was cut, else nothing.
pub fn truncation_warning(truncated: bool) -> (w: Vec<String>)
    ensures
        strings_view(w@) == (if truncated {
            seq![truncated_warning()]
        } else {
            seq![]
        }),
{
    let mut w: Vec<String> = Vec::new();
    if truncated {
        w.push(string_from(chars_of("content_truncated").as_slice()));
        assert(strings_view(w@) =~= seq![truncated_warning()]);
    } else {
        assert(strings_view(w@) =~= Seq::<Seq<char>>::empty());
    }
    w
}

/// The error code of a transport failure: `too_many_redirects` when its message mentions a
/// redirect (in any ASCII case), else `transport: ` and the message.
pub open spec fn transport_error_code_spec(message: Seq<char>) -> Seq<char> {
    if contains(ascii_lower(message), "redirect"@) {
        "too_many_redirects"@
    } else {
        "transport: "@ + message
    }
}

/// The error code of a transport failure.
pub fn transport_error_code(error: &str) -> (code: String)
    ensures
        code@ == transport_error_code_spec(error@),
{
    let e = chars_of(error);
    let lower = lower_chars(e.as_slice());
    if contains_exec(lower.as_slice(), chars_of("redirect").as_slice()) {
        string_from(chars_of("too_many_redirects").as_slice())
    } else {
        let mut out = chars_of("transport: ");
        push_all(&mut out, e.as_slice());
        string_from(out.as_slice())
    }
}

// ---------------------------------------------------------------- results

pub open spec fn failure_spec(
    raw_url: Seq<char>,
    final_url: Option<Seq<char>>,
    status: Option<u16>,
    content_type: Option<Seq<char>>,
    error: Seq<char>,
    bytes_read: u64,
    elapsed_ms: u64,
) -> FetchOutputView {
    FetchOutputView {
        ok: false,
        url: raw_url,
        final_url,
        status,
        content_type,
        title: None,
        kind: FetchKind::Error,
        content: seq![],
        warnings: seq![],
        truncated: false,
        bytes_read,
        elapsed_ms,
        error: Some(error),
    }
}

/// The result of a failed fetch.
pub fn failure(
    raw_url: &str,
    final_url: Option<String>,
    status: Option<u16>,
    content_type: Option<String>,
    error: &str,
    bytes_read: u64,
    elapsed_ms: u64,
) -> (out: FetchOutput)
    ensures
        out@ == failure_spec(
            raw_url@,
            opt_view(final_url),
            status,
            opt_view(content_type),
            error@,
            bytes_read,
            elapsed_ms,
        ),
        consistent(out@),
{
    let out = FetchOutput {
        ok: false,
        url: string_from(chars_of(raw_url).as_slice()),
        final_url,
        status,
        content_type,
        title: None,
        kind: FetchKind::Error,
        content: String::new(),
        warnings: Vec::new(),
        truncated: false,
        bytes_read,
        elapsed_ms,
        error: Some(string_from(chars_of(error).as_slice())),
    };
    assert(strings_view(out.warnings@) =~= Seq::<Seq<char>>::empty());
    out
}


// ---------------------------------------------------------------- the fetch, step by step

/// The user agent that a fetch sends.
pub open spec fn user_agent_text() -> Seq<char> {
    "Mozilla/5.0 (Macintosh; Intel Mac OS X 10_15_7) AppleWebKit/537.36 (KHTML, like Gecko) Chrome/135.0.0.0 Safari/537.36 webtools/0.1"@
}

/// The `accept` header that a fetch sends.
pub open spec fn accept_text() -> Seq<char> {
    "text/html,application/xhtml+xml,text/plain,application/json,*/*;q=0.8"@
}

/// The GET request that a fetch makes: URL, headers, time limit and redirect limit.
#[derive(Debug)]
pub struct RequestPlan {
    pub url: String,
    pub user_agent: String,
    pub accept: String,
    pub timeout_secs: u64,
    pub max_redirects: u32,
}

/// The first step of a fetch: a request to make, or a result already.
#[derive(Debug)]
pub enum FetchStart {
    Request(RequestPlan),
    Done(FetchOutput),
}

/// What the HTTP client reported for the request.
#[derive(Debug)]
pub enum ResponseEvent {
    /// A response with a success status: its URL after redirects, its status, and its
    /// `content-type` and `content-length` headers as sent.
    Received {
        final_url: String,
        status: u16,
        content_type: Option<String>,
        content_length: Option<String>,
    },
    /// A response with an error status, its URL, and its media type as the client reads it.
    Status { code: u16, final_url: String, content_type: String },
    /// No response: the client's message.
    Transport { message: String },
}

/// A body to read: at most `read_limit` bytes.
#[derive(Debug)]
pub struct BodyPlan {
    pub final_url: String,
    pub status: u16,
    pub content_type: Option<String>,
    pub read_limit: u64,
}

/// The step after the response: a body to read, or a result already.
#[derive(Debug)]
pub enum AfterResponse {
    ReadBody(BodyPlan),
    Done(FetchOutput),
}

/// Checks the URL and plans the request; a URL that may not be fetched ends the fetch.
pub fn begin_fetch(raw_url: &str, config: FetchConfig, elapsed_ms: u64) -> (r: FetchStart)
    ensures
        match validate_spec(raw_url@, config.allow_local) {
            Ok(u) => r matches FetchStart::Request(p) && p.url@ == u.serialized && p.user_agent@
                == user_agent_text() && p.accept@ == accept_text() && p.timeout_secs
                == FETCH_TIMEOUT_SECS && p.max_redirects == MAX_REDIRECTS,
            Err(e) => r matches FetchStart::Done(o) && o@ == failure_spec(
                raw_url@,
                None,
                None,
                None,
                e,
                0,
                elapsed_ms,
            ),
        },
        r matches FetchStart::Done(o) ==> consistent(o@),
{
    match validate_url(raw_url, config) {
        Err(e) => FetchStart::Done(failure(raw_url, None, None, None, e, 0, elapsed_ms)),
        Ok(url) => FetchStart::Request(
            RequestPlan {
                url: url.serialized().clone(),
                user_agent: string_from(
                    chars_of(
                        "Mozilla/5.0 (Macintosh; Intel Mac OS X 10_15_7) AppleWebKit/537.36 (KHTML, like Gecko) Chrome/135.0.0.0 Safari/537.36 webtools/0.1",
                    ).as_slice(),
                ),
                accept: string_from(
                    chars_of(
                        "text/html,application/xhtml+xml,text/plain,application/json,*/*;q=0.8",
                    ).as_slice(),
                ),
                timeout_secs: FETCH_TIMEOUT_SECS,
                max_redirects: MAX_REDIRECTS,
            },
        ),
    }
}

/// The declared length of a body, where the header is a decimal `usize`.
pub open spec fn declared_length(content_length: Option<Seq<char>>) -> Option<usize> {
    match content_length {
        Some(v) => parse_usize(v),
        None => None,
    }
}

/// The step after the response, as a function of what the client reported.
pub open spec fn on_response_spec(
    raw_url: Seq<char>,
    allow_local: bool,
    event: ResponseEvent,
    elapsed_ms: u64,
) -> Result<(Seq<char>, u16, Option<Seq<char>>), FetchOutputView> {
    match event {
        ResponseEvent::Status { code, final_url, content_type } => Err(
            failure_spec(
                raw_url,
                Some(final_url@),
                Some(code),
                Some(content_type@),
                "http_status"@,
                0,
                elapsed_ms,
            ),
        ),
        ResponseEvent::Transport { message } => Err(
            failure_spec(
                raw_url,
                None,
                None,
                None,
                transport_error_code_spec(message@),
                0,
                elapsed_ms,
            ),
        ),
        ResponseEvent::Received { final_url, status, content_type, content_length } => {
            match validate_spec(final_url@, allow_local) {
                Err(e) => Err(failure_spec(raw_url, Some(final_url@), None, None, e, 0, elapsed_ms)),
                Ok(_) => {
                    let ct = clean_content_type_spec(opt_view(content_type));
                    match declared_length(opt_view(content_length)) {
                        Some(len) if len > MAX_BYTES => Err(
                            failure_spec(
                                raw_url,
                                Some(final_url@),
                                Some(status),
                                ct,
                                "content_too_large"@,
                                0,
                                elapsed_ms,
                            ),
                        ),
                        _ => Ok((final_url@, status, ct)),
                    }
                },
            }
        },
    }
}

/// Decides on the response: an error status, a transport failure, a final URL that may not
/// be fetched, or a declared length over the limit end the fetch; else the body is to be read.
pub fn on_response(raw_url: &str, config: FetchConfig, event: ResponseEvent, elapsed_ms: u64) -> (r:
    AfterResponse)
    ensures
        match on_response_spec(raw_url@, config.allow_local, event, elapsed_ms) {
            Ok((final_url, status, ct)) => r matches AfterResponse::ReadBody(p) && p.final_url@
                == final_url && p.status == status && opt_view(p.content_type) == ct && p.read_limit
                == MAX_BYTES + 1,
            Err(o) => r matches AfterResponse::Done(out) && out@ == o,
        },
        r matches AfterResponse::Done(o) ==> consistent(o@),
{
    match event {
        ResponseEvent::Status { code, final_url, content_type } => AfterResponse::Done(
            failure(raw_url, Some(final_url), Some(code), Some(content_type), "http_status", 0, elapsed_ms),
        ),
        ResponseEvent::Transport { message } => {
            let code = transport_error_code(message.as_str());
            AfterResponse::Done(failure(raw_url, None, None, None, code.as_str(), 0, elapsed_ms))
        },
        ResponseEvent::Received { final_url, status, content_type, content_length } => {
            if let Err(e) = validate_url(final_url.as_str(), config) {
                return AfterResponse::Done(
                    failure(raw_url, Some(final_url), None, None, e, 0, elapsed_ms),
                );
            }
            let ct = match &content_type {
                Some(v) => clean_content_type(Some(v.as_str())),
                None => clean_content_type(None),
            };
            let declared: Option<usize> = match &content_length {
                Some(v) => parse_usize_exec(chars_of(v.as_str()).as_slice()),
                None => None,
            };
            match declared {
                Some(len) if len > MAX_BYTES => AfterResponse::Done(
                    failure(
                        raw_url,
                        Some(final_url),
                        Some(status),
                        ct,
                        "content_too_large",
                        0,
                        elapsed_ms,
                    ),
                ),
                _ => AfterResponse::ReadBody(
                    BodyPlan {
                        final_url,
                        status,
                        content_type: ct,
                        read_limit: (MAX_BYTES as u64) + 1,
                    },
                ),
            }
        },
    }
}

/// The bytes kept of a body: at most `MAX_BYTES`.
pub open spec fn kept_bytes(bytes: Seq<u8>) -> Seq<u8> {
    if bytes.len() > MAX_BYTES {
        bytes.take(MAX_BYTES as int)
    } else {
        bytes
    }
}

/// The result of a fetch from the text of its body: HTML becomes Markdown, JSON is
/// pretty-printed, text is normalized, anything else is refused as binary.
pub open spec fn text_result_spec(
    raw_url: Seq<char>,
    final_url: Seq<char>,
    status: u16,
    content_type: Option<Seq<char>>,
    text: Seq<char>,
    bytes_read: u64,
    truncated: bool,
    elapsed_ms: u64,
) -> FetchOutputView {
    let kind = classify_spec(content_type, text);
    let tw: Seq<Seq<char>> = if truncated {
        seq![truncated_warning()]
    } else {
        seq![]
    };
    let base = FetchOutputView {
        ok: true,
        url: raw_url,
        final_url: Some(final_url),
        status: Some(status),
        content_type,
        title: None,
        kind,
        content: seq![],
        warnings: tw,
        truncated,
        bytes_read,
        elapsed_ms,
        error: None,
    };
    match kind {
        FetchKind::Html => {
            let ex = extract_spec(text, final_url);
            FetchOutputView { title: ex.title, content: ex.content, warnings: ex.warnings + tw, ..base }
        },
        FetchKind::Json => FetchOutputView { content: pretty_json_or_raw_spec(text), ..base },
        FetchKind::Text => FetchOutputView { content: normalize_text_spec(text), ..base },
        _ => FetchOutputView {
            ok: false,
            kind: FetchKind::Binary,
            error: Some("binary_content"@),
            ..base
        },
    }
}

/// The result of a fetch whose body was read, as a function of the body.
pub open spec fn on_body_spec(
    raw_url: Seq<char>,
    final_url: Seq<char>,
    status: u16,
    content_type: Option<Seq<char>>,
    body: Result<Seq<u8>, Seq<char>>,
    elapsed_ms: u64,
) -> FetchOutputView {
    match body {
        Err(message) => failure_spec(
            raw_url,
            Some(final_url),
            Some(status),
            None,
            "read: "@ + message,
            0,
            elapsed_ms,
        ),
        Ok(bytes) => text_result_spec(
            raw_url,
            final_url,
            status,
            content_type,
            utf8_lossy(kept_bytes(bytes)),
            bytes.len() as u64,
            bytes.len() > MAX_BYTES,
            elapsed_ms,
        ),
    }
}

/// Turns the decoded body of a fetch into its result: HTML becomes Markdown, JSON is
/// pretty-printed, text is normalized, anything else is refused as binary.
pub fn on_text(
    raw_url: &str,
    final_url: String,
    status: u16,
    content_type: Option<String>,
    text: &str,
    bytes_read: u64,
    truncated: bool,
    elapsed_ms: u64,
) -> (out: FetchOutput)
    ensures
        out@ == text_result_spec(
            raw_url@,
            final_url@,
            status,
            opt_view(content_type),
            text@,
            bytes_read,
            truncated,
            elapsed_ms,
        ),
        consistent(out@),
{
    let text_chars = chars_of(text);
    let kind = classify_chars(&content_type, text_chars.as_slice());
    let url = string_from(chars_of(raw_url).as_slice());
    match kind {
        FetchKind::Html => {
            let extracted = extract(text, final_url.as_str());
            let mut warnings = extracted.warnings;
            let ghost w0 = warnings@;
            if truncated {
                warnings.push(string_from(chars_of("content_truncated").as_slice()));
                assert(strings_view(warnings@) =~= strings_view(w0) + seq![truncated_warning()]);
            } else {
                assert(strings_view(warnings@) =~= strings_view(w0) + Seq::<Seq<char>>::empty());
            }
            FetchOutput {
                ok: true,
                url,
                final_url: Some(final_url),
                status: Some(status),
                content_type,
                title: extracted.title,
                kind,
                content: extracted.content,
                warnings,
                truncated,
                bytes_read,
                elapsed_ms,
                error: None,
            }
        },
        FetchKind::Json => FetchOutput {
            ok: true,
            url,
            final_url: Some(final_url),
            status: Some(status),
            content_type,
            title: None,
            kind,
            content: pretty_json_or_raw(text),
            warnings: truncation_warning(truncated),
            truncated,
            bytes_read,
            elapsed_ms,
            error: None,
        },
        FetchKind::Text => FetchOutput {
            ok: true,
            url,
            final_url: Some(final_url),
            status: Some(status),
            content_type,
            title: None,
            kind,
            content: string_from(normalize_text_chars(text_chars.as_slice()).as_slice()),
            warnings: truncation_warning(truncated),
            truncated,
            bytes_read,
            elapsed_ms,
            error: None,
        },
        _ => FetchOutput {
            ok: false,
            url,
            final_url: Some(final_url),
            status: Some(status),
            content_type,
            title: None,
            kind: FetchKind::Binary,
            content: String::new(),
            warnings: truncation_warning(truncated),
            truncated,
            bytes_read,
            elapsed_ms,
            error: Some(string_from(chars_of("binary_content").as_slice())),
        },
    }
}

/// Turns the body (or the failure to read it) into the result of the fetch: at most
/// `MAX_BYTES` of it are kept and decoded as UTF-8 (invalid sequences replaced), and the text
/// is handled as `on_text` says.
pub fn on_body(raw_url: &str, plan: BodyPlan, body: Result<Vec<u8>, String>, elapsed_ms: u64) -> (out:
    FetchOutput)
    ensures
        out@ == on_body_spec(
            raw_url@,
            plan.final_url@,
            plan.status,
            opt_view(plan.content_type),
            match body {
                Ok(b) => Ok(b@),
                Err(m) => Err(m@),
            },
            elapsed_ms,
        ),
        consistent(out@),
{
    let BodyPlan { final_url, status, content_type, read_limit: _ } = plan;
    let mut bytes = match body {
        Err(message) => {
            let mut e = chars_of("read: ");
            push_str(&mut e, message.as_str());
            let code = string_from(e.as_slice());
            return failure(raw_url, Some(final_url), Some(status), None, code.as_str(), 0, elapsed_ms);
        },
        Ok(b) => b,
    };
    let ghost all = bytes@;
    let bytes_read = bytes.len() as u64;
    let truncated = bytes.len() > MAX_BYTES;
    if truncated {
        bytes.truncate(MAX_BYTES);
    }
    assert(bytes@ == kept_bytes(all));
    let text = decode_utf8_lossy(bytes.as_slice());
    on_text(raw_url, final_url, status, content_type, text.as_str(), bytes_read, truncated, elapsed_ms)
}

/// A fetch reads a body only from a final URL (after redirects) that passes the same check as
/// the URL asked for; without `allow_local`, that URL's host is never a local, private or
/// metadata host.
pub proof fn lemma_body_only_from_checked_urls(
    raw_url: Seq<char>,
    allow_local: bool,
    event: ResponseEvent,
    elapsed_ms: u64,
)
    ensures
        on_response_spec(raw_url, allow_local, event, elapsed_ms) matches Ok((final_url, _, _))
            ==> (validate_spec(final_url, allow_local) matches Ok(u) && (!allow_local ==> (
        u.host matches Some(h) && !blocked_host(h)))),
{
}

/// A fetch whose body was read is marked truncated exactly when it read more than
/// `MAX_BYTES`, and then, and only then, warns `content_truncated`.
pub proof fn lemma_truncation_reported(
    raw_url: Seq<char>,
    final_url: Seq<char>,
    status: u16,
    content_type: Option<Seq<char>>,
    bytes: Seq<u8>,
    elapsed_ms: u64,
)
    ensures
        ({
            let o = on_body_spec(raw_url, final_url, status, content_type, Ok(bytes), elapsed_ms);
            &&& o.truncated == (bytes.len() > MAX_BYTES)
            &&& o.warnings.contains(truncated_warning()) == o.truncated
        }),
{
    let o = on_body_spec(raw_url, final_url, status, content_type, Ok(bytes), elapsed_ms);
    let text = utf8_lossy(kept_bytes(bytes));
    let kind = classify_spec(content_type, text);
    reveal_strlit("content_truncated");
    reveal_strlit("low_content_yield");
    assert("low_content_yield"@[0] != "content_truncated"@[0]);
    if o.truncated {
        assert(o.warnings[o.warnings.len() - 1] == truncated_warning());
    } else if kind == FetchKind::Html {
        let ex = extract_spec(text, final_url);
        assert(o.warnings =~= ex.warnings);
        if ex.warnings.len() > 0 {
            assert(ex.warnings =~= seq!["low_content_yield"@]);
            assert(!o.warnings.contains(truncated_warning())) by {
                if o.warnings.contains(truncated_warning()) {
                    let i = choose|i: int| 0 <= i < o.warnings.len() && o.warnings[i]
                        == truncated_warning();
                    assert(o.warnings[i] == "low_content_yield"@);
                }
            }
        }
    }
}

/// A received response is judged by the same permission as the request: it ends the fetch
/// with a URL error exactly when its final URL fails the check under the `allow_local` that the
/// fetch was given (so with `allow_local` never with `blocked_host`), and otherwise leads to
/// reading the body unless its declared length is over `MAX_BYTES`.
pub proof fn lemma_response_checked_with_same_permission(
    raw_url: Seq<char>,
    allow_local: bool,
    final_url: String,
    status: u16,
    content_type: Option<String>,
    content_length: Option<String>,
    elapsed_ms: u64,
)
    ensures
        ({
            let r = on_response_spec(
                raw_url,
                allow_local,
                ResponseEvent::Received { final_url, status, content_type, content_length },
                elapsed_ms,
            );
            &&& validate_spec(final_url@, allow_local) matches Err(e) ==> (r matches Err(o)
                && o.error == Some(e) && !o.ok)
            &&& validate_spec(final_url@, allow_local) is Ok ==> (r is Ok <==> !(
            declared_length(opt_view(content_length)) matches Some(n) && n > MAX_BYTES))
            &&& validate_spec(final_url@, allow_local) is Ok ==> (r matches Err(o) ==> o.error
                == Some("content_too_large"@))
            &&& r matches Ok((f, st, _)) ==> f == final_url@ && st == status
            &&& allow_local ==> !(r matches Err(o) && o.error == Some("blocked_host"@))
        }),
{
    lemma_allow_local_only_lifts_blocks(final_url@);
    reveal_strlit("blocked_host");
    reveal_strlit("content_too_large");
    assert("content_too_large"@[0] != "blocked_host"@[0]);
}

/// The body step reports the URL asked for, the final URL and the status that it is given,
/// whatever the body holds.
pub proof fn lemma_body_step_keeps_urls(
    raw_url: Seq<char>,
    final_url: Seq<char>,
    status: u16,
    content_type: Option<Seq<char>>,
    body: Result<Seq<u8>, Seq<char>>,
    elapsed_ms: u64,
)
    ensures
        on_body_spec(raw_url, final_url, status, content_type, body, elapsed_ms).url == raw_url,
        on_body_spec(raw_url, final_url, status, content_type, body, elapsed_ms).final_url == Some(
            final_url,
        ),
        on_body_spec(raw_url, final_url, status, content_type, body, elapsed_ms).status == Some(
            status,
        ),
        forall|text: Seq<char>, n: u64, truncated: bool|
            #![trigger text_result_spec(raw_url, final_url, status, content_type, text, n, truncated, elapsed_ms)]
            {
                let o = text_result_spec(
                    raw_url,
                    final_url,
                    status,
                    content_type,
                    text,
                    n,
                    truncated,
                    elapsed_ms,
                );
                &&& o.url == raw_url
                &&& o.final_url == Some(final_url)
                &&& o.status == Some(status)
                &&& o.content_type == content_type
                &&& o.bytes_read == n
                &&& o.truncated == truncated
            },
{
}

} // verus!
