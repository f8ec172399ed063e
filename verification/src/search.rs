use vstd::prelude::*;

use crate::error::AppError;
use crate::markdown::{decimal, opt_view, push_decimal, strings_view};
use crate::text::{
    chars_of, collapse_ws, collapse_ws_chars, lemma_collapse_ws_single_spaced, push_all, push_str,
    single_spaced, string_from, trim, trim_chars,
};

verus! {

/// What a search asks for: the query, how many results, and the Exa search type.
#[derive(Debug, Clone, PartialEq, Eq)]
pub struct SearchOptions {
    pub query: String,
    pub count: usize,
    pub search_type: String,
}

/// Most characters of an error body that an error message quotes.
pub const ERROR_BODY_LIMIT: usize = 500;

/// One result as the search service sent it, but for its score.
#[derive(Debug)]
pub struct RawResult {
    pub title: Option<String>,
    pub url: String,
    pub published_date: Option<String>,
    pub highlights: Option<Vec<String>>,
}

/// One result as the tool reports it, but for its score.
#[derive(Debug)]
pub struct SearchResult {
    pub title: Option<String>,
    pub url: String,
    pub published_date: Option<String>,
    pub highlights: Vec<String>,
}

/// What a search reports, but for the results' scores: the query, the search type that ran,
/// and the results in the order the service sent them.
#[derive(Debug)]
pub struct SearchSummary {
    pub query: String,
    pub search_type: String,
    pub results: Vec<SearchResult>,
}

pub struct RawResultView {
    pub title: Option<Seq<char>>,
    pub url: Seq<char>,
    pub published_date: Option<Seq<char>>,
    pub highlights: Option<Seq<Seq<char>>>,
}

pub struct SearchResultView {
    pub title: Option<Seq<char>>,
    pub url: Seq<char>,
    pub published_date: Option<Seq<char>>,
    pub highlights: Seq<Seq<char>>,
}

impl View for RawResult {
    type V = RawResultView;

    open spec fn view(&self) -> RawResultView {
        RawResultView {
            title: opt_view(self.title),
            url: self.url@,
            published_date: opt_view(self.published_date),
            highlights: match self.highlights {
                Some(h) => Some(strings_view(h@)),
                None => None,
            },
        }
    }
}

impl View for SearchResult {
    type V = SearchResultView;

    open spec fn view(&self) -> SearchResultView {
        SearchResultView {
            title: opt_view(self.title),
            url: self.url@,
            published_date: opt_view(self.published_date),
            highlights: strings_view(self.highlights@),
        }
    }
}

/// A text with its whitespace runs collapsed to single spaces and its ends trimmed; nothing
/// where that leaves it empty.
pub open spec fn clean_optional_spec(value: Option<Seq<char>>) -> Option<Seq<char>> {
    match value {
        Some(v) => {
            let c = collapse_ws(v);
            if c.len() == 0 {
                None
            } else {
                Some(c)
            }
        },
        None => None,
    }
}

/// The highlights cleaned one by one, the empty ones dropped, in order.
pub open spec fn clean_highlights_spec(hs: Seq<Seq<char>>) -> Seq<Seq<char>>
    decreases hs.len(),
{
    if hs.len() == 0 {
        seq![]
    } else {
        let r = clean_highlights_spec(hs.drop_last());
        let c = collapse_ws(hs.last());
        if c.len() == 0 {
            r
        } else {
            r.push(c)
        }
    }
}

pub open spec fn clean_result_spec(r: RawResultView) -> SearchResultView {
    SearchResultView {
        title: clean_optional_spec(r.title),
        url: r.url,
        published_date: clean_optional_spec(r.published_date),
        highlights: match r.highlights {
            Some(h) => clean_highlights_spec(h),
            None => seq![],
        },
    }
}

/// The words of `input` joined by single spaces.
pub fn normalize_space(input: &str) -> (out: String)
    ensures
        out@ == collapse_ws(input@),
{
    let v = chars_of(input);
    string_from(collapse_ws_chars(v.as_slice()).as_slice())
}

/// A text with its whitespace collapsed, or nothing where no word is left.
pub fn clean_optional(value: Option<String>) -> (r: Option<String>)
    ensures
        opt_view(r) == clean_optional_spec(opt_view(value)),
{
    match value {
        Some(entry) => clean_text(entry.as_str()),
        None => None,
    }
}

fn clean_text(entry: &str) -> (r: Option<String>)
    ensures
        opt_view(r) == clean_optional_spec(Some(entry@)),
{
    let v = chars_of(entry);
    let cleaned = collapse_ws_chars(v.as_slice());
    if cleaned.len() == 0 {
        None
    } else {
        Some(string_from(cleaned.as_slice()))
    }
}

fn clean_text_of(value: &Option<String>) -> (r: Option<String>)
    ensures
        opt_view(r) == clean_optional_spec(opt_view(*value)),
{
    match value {
        Some(entry) => clean_text(entry.as_str()),
        None => None,
    }
}

/// The highlights of a result, cleaned, without the empty ones.
pub fn clean_highlights(highlights: &Option<Vec<String>>) -> (out: Vec<String>)
    ensures
        strings_view(out@) == match *highlights {
            Some(h) => clean_highlights_spec(strings_view(h@)),
            None => seq![],
        },
{
    let mut out: Vec<String> = Vec::new();
    match highlights {
        Some(h) => {
            let ghost hv = strings_view(h@);
            let mut i: usize = 0;
            while i < h.len()
                invariant
                    i <= h@.len(),
                    hv == strings_view(h@),
                    strings_view(out@) == clean_highlights_spec(hv.take(i as int)),
                decreases h@.len() - i,
            {
                assert(hv.take(i + 1).drop_last() =~= hv.take(i as int));
                let v = chars_of(h[i].as_str());
                let c = collapse_ws_chars(v.as_slice());
                if c.len() > 0 {
                    let ghost before = strings_view(out@);
                    out.push(string_from(c.as_slice()));
                    assert(strings_view(out@) =~= before.push(c@));
                }
                i += 1;
            }
            assert(hv.take(h@.len() as int) =~= hv);
            out
        },
        None => {
            assert(strings_view(out@) =~= Seq::<Seq<char>>::empty());
            out
        },
    }
}

/// A result as the tool reports it: title, date and highlights cleaned, the URL as sent.
pub fn clean_result(raw: &RawResult) -> (r: SearchResult)
    ensures
        r@ == clean_result_spec(raw@),
{
    SearchResult {
        title: clean_text_of(&raw.title),
        url: raw.url.clone(),
        published_date: clean_text_of(&raw.published_date),
        highlights: clean_highlights(&raw.highlights),
    }
}

/// What a search reports from the service's answer: the query asked, the search type the
/// service names (else the one asked for), and each result cleaned, in order.
pub fn summarize(options: &SearchOptions, response_type: Option<String>, results: Vec<RawResult>) -> (s: SearchSummary)
    ensures
        s.query@ == options.query@,
        s.search_type@ == match response_type {
            Some(t) => t@,
            None => options.search_type@,
        },
        s.results@.len() == results@.len(),
        forall|i: int|
            0 <= i < results@.len() ==> (#[trigger] s.results@[i])@ == clean_result_spec(
                results@[i]@,
            ),
{
    let mut out: Vec<SearchResult> = Vec::new();
    let mut i: usize = 0;
    while i < results.len()
        invariant
            i <= results@.len(),
            out@.len() == i,
            forall|k: int|
                0 <= k < i ==> (#[trigger] out@[k])@ == clean_result_spec(results@[k]@),
        decreases results@.len() - i,
    {
        out.push(clean_result(&results[i]));
        i += 1;
    }
    let search_type = match response_type {
        Some(t) => t,
        None => options.search_type.clone(),
    };
    SearchSummary { query: options.query.clone(), search_type, results: out }
}

/// The address of the search service.
pub open spec fn search_url() -> Seq<char> {
    "https://api.exa.ai/search"@
}

/// How long a search may take, in seconds.
pub const SEARCH_TIMEOUT_SECS: u64 = 12;

/// The POST request that a search makes: address, key and media-type headers, time limit, and
/// the fields of its JSON body (query, search type, number of results; highlights asked for).
#[derive(Debug)]
pub struct SearchRequest {
    pub url: String,
    pub api_key: String,
    pub accept: String,
    pub content_type: String,
    pub timeout_secs: u64,
    pub query: String,
    pub search_type: String,
    pub num_results: usize,
}

/// Plans the request of a search with the given key.
pub fn plan_search(options: &SearchOptions, api_key: String) -> (r: SearchRequest)
    ensures
        r.url@ == search_url(),
        r.api_key@ == api_key@,
        r.accept@ == "application/json"@,
        r.content_type@ == "application/json"@,
        r.timeout_secs == SEARCH_TIMEOUT_SECS,
        r.query@ == options.query@,
        r.search_type@ == options.search_type@,
        r.num_results == options.count,
{
    SearchRequest {
        url: string_from(chars_of("https://api.exa.ai/search").as_slice()),
        api_key,
        accept: string_from(chars_of("application/json").as_slice()),
        content_type: string_from(chars_of("application/json").as_slice()),
        timeout_secs: SEARCH_TIMEOUT_SECS,
        query: options.query.clone(),
        search_type: options.search_type.clone(),
        num_results: options.count,
    }
}

/// The API key that a configured value gives: the value trimmed, where anything is left.
pub open spec fn api_key_spec(value: Option<Seq<char>>) -> Option<Seq<char>> {
    match value {
        Some(v) => if trim(v).len() > 0 {
            Some(trim(v))
        } else {
            None
        },
        None => None,
    }
}

/// The key for the search service from the configured value (the `EXA_API_KEY` variable),
/// trimmed; a run-time error where it is missing or blank.
pub fn api_key(value: Option<String>) -> (r: Result<String, AppError>)
    ensures
        api_key_spec(opt_view(value)) matches Some(k) ==> (r matches Ok(s) && s@ == k),
        api_key_spec(opt_view(value)) is None ==> (r matches Err(AppError::Runtime(m)) && m@
            == "missing EXA_API_KEY"@),
{
    match value {
        Some(v) => {
            let t = trim_chars(chars_of(v.as_str()).as_slice());
            if t.len() > 0 {
                return Ok(string_from(t.as_slice()));
            }
        },
        None => {},
    }
    Err(AppError::Runtime(string_from(chars_of("missing EXA_API_KEY").as_slice())))
}

/// An error body as an error message quotes it: trimmed, at most `ERROR_BODY_LIMIT`
/// characters, and `(empty body)` where nothing is left.
pub open spec fn compact_error_body_spec(body: Seq<char>) -> Seq<char> {
    let t = trim(body);
    if t.len() == 0 {
        "(empty body)"@
    } else if t.len() <= ERROR_BODY_LIMIT {
        t
    } else {
        t.take(ERROR_BODY_LIMIT as int)
    }
}

fn compact_error_body_chars(body: &str) -> (out: Vec<char>)
    ensures
        out@ == compact_error_body_spec(body@),
{
    let t = trim_chars(chars_of(body).as_slice());
    if t.len() == 0 {
        return chars_of("(empty body)");
    }
    let mut out: Vec<char> = Vec::new();
    let mut i: usize = 0;
    while i < t.len() && i < ERROR_BODY_LIMIT
        invariant
            i <= t@.len(),
            i <= ERROR_BODY_LIMIT,
            out@ == t@.take(i as int),
        decreases t@.len() - i,
    {
        out.push(t[i]);
        assert(t@.take(i + 1) =~= t@.take(i as int).push(t@[i as int]));
        i += 1;
    }
    assert(t@.len() <= ERROR_BODY_LIMIT ==> t@.take(t@.len() as int) =~= t@);
    out
}

/// An error body as an error message quotes it.
pub fn compact_error_body(body: &str) -> (out: String)
    ensures
        out@ == compact_error_body_spec(body@),
{
    string_from(compact_error_body_chars(body).as_slice())
}

/// The message for an HTTP error status from the search service.
pub open spec fn status_error_message(code: u16, body: Seq<char>) -> Seq<char> {
    "exa returned HTTP "@ + decimal(code as nat) + ": "@ + compact_error_body_spec(body)
}

/// The error for an HTTP error status from the search service, quoting its body.
pub fn status_error(code: u16, body: &str) -> (e: AppError)
    ensures
        e matches AppError::Runtime(m) && m@ == status_error_message(code, body@),
{
    let mut m = chars_of("exa returned HTTP ");
    push_decimal(&mut m, code as u128);
    push_str(&mut m, ": ");
    push_all(&mut m, compact_error_body_chars(body).as_slice());
    AppError::Runtime(string_from(m.as_slice()))
}

/// The error for a search request that failed below HTTP.
pub fn transport_error(message: &str) -> (e: AppError)
    ensures
        e matches AppError::Runtime(m) && m@ == "exa request failed: "@ + message@,
{
    let mut m = chars_of("exa request failed: ");
    push_str(&mut m, message);
    AppError::Runtime(string_from(m.as_slice()))
}

/// The error for an answer of the search service that does not decode.
pub fn decode_error(message: &str) -> (e: AppError)
    ensures
        e matches AppError::Runtime(m) && m@ == "failed to decode exa response: "@ + message@,
{
    let mut m = chars_of("failed to decode exa response: ");
    push_str(&mut m, message);
    AppError::Runtime(string_from(m.as_slice()))
}

proof fn lemma_clean_highlights(hs: Seq<Seq<char>>)
    ensures
        forall|i: int|
            0 <= i < clean_highlights_spec(hs).len() ==> (#[trigger] clean_highlights_spec(hs)[i]).len()
                > 0 && single_spaced(clean_highlights_spec(hs)[i]),
    decreases hs.len(),
{
    if hs.len() > 0 {
        lemma_clean_highlights(hs.drop_last());
        lemma_collapse_ws_single_spaced(hs.last());
        let r = clean_highlights_spec(hs.drop_last());
        let out = clean_highlights_spec(hs);
        assert forall|i: int| 0 <= i < out.len() implies (#[trigger] out[i]).len() > 0
            && single_spaced(out[i]) by {
            if i < r.len() {
                assert(out[i] == r[i]);
            }
        }
    }
}

/// Every title, date and highlight that a search reports is a non-empty text whose only
/// whitespace is single spaces between words.
pub proof fn lemma_reported_text_is_clean(r: RawResultView)
    ensures
        clean_result_spec(r).title matches Some(t) ==> t.len() > 0 && single_spaced(t),
        clean_result_spec(r).published_date matches Some(d) ==> d.len() > 0 && single_spaced(d),
        forall|i: int|
            0 <= i < clean_result_spec(r).highlights.len() ==> (
            #[trigger] clean_result_spec(r).highlights[i]).len() > 0 && single_spaced(
                clean_result_spec(r).highlights[i],
            ),
{
    if let Some(t) = r.title {
        lemma_collapse_ws_single_spaced(t);
    }
    if let Some(d) = r.published_date {
        lemma_collapse_ws_single_spaced(d);
    }
    if let Some(h) = r.highlights {
        lemma_clean_highlights(h);
    }
}

} // verus!
