use vstd::prelude::*;

verus! {

/// `url::Url`, carried through unopened next to the parts of it that the library reads.
#[verifier::external_type_specification]
#[verifier::external_body]
pub struct ExUrl(url::Url);

/// The host of a parsed URL.
pub enum UrlHost {
    Domain(String),
    Ipv4([u8; 4]),
    Ipv6([u16; 8]),
}

pub enum HostView {
    Domain(Seq<char>),
    Ipv4(Seq<u8>),
    Ipv6(Seq<u16>),
}

/// What the library reads of a parsed URL: its serialization, scheme and host.
pub struct UrlParts {
    pub serialized: Seq<char>,
    pub scheme: Seq<char>,
    pub host: Option<HostView>,
}

/// A URL as `url::Url::parse` gave it, with the parts that the library reads.
pub struct ParsedUrl {
    url: url::Url,
    serialized: String,
    scheme: String,
    host: Option<UrlHost>,
}

impl View for UrlHost {
    type V = HostView;

    open spec fn view(&self) -> HostView {
        match self {
            UrlHost::Domain(d) => HostView::Domain(d@),
            UrlHost::Ipv4(a) => HostView::Ipv4(a@),
            UrlHost::Ipv6(s) => HostView::Ipv6(s@),
        }
    }
}

impl View for ParsedUrl {
    type V = UrlParts;

    closed spec fn view(&self) -> UrlParts {
        UrlParts {
            serialized: self.serialized@,
            scheme: self.scheme@,
            host: match self.host {
                Some(h) => Some(h@),
                None => None,
            },
        }
    }
}

/// What `url::Url::parse` makes of a string: `None` where it fails.
pub uninterp spec fn url_parse(raw: Seq<char>) -> Option<UrlParts>;

/// What `url::Url::join` gives, as a serialization, for a base URL (by its serialization)
/// and a reference: `None` where it fails.
pub uninterp spec fn url_join(base: Seq<char>, reference: Seq<char>) -> Option<Seq<char>>;

/// Calls `url::Url::parse`. Trusted: the result, read as serialization (`as_str`), scheme and
/// host, is what `url_parse` names for the input string; a failure is `None`.
#[verifier::external_body]
pub fn parse_url(raw: &str) -> (res: Option<ParsedUrl>)
    ensures
        res matches Some(u) ==> url_parse(raw@) == Some(u@),
        res is None ==> url_parse(raw@) is None,
{
    url::Url::parse(raw).ok().map(|url| ParsedUrl {
        serialized: url.as_str().to_string(),
        scheme: url.scheme().to_string(),
        host: match url.host() {
            None => None,
            Some(url::Host::Domain(d)) => Some(UrlHost::Domain(d.to_string())),
            Some(url::Host::Ipv4(a)) => Some(UrlHost::Ipv4(a.octets())),
            Some(url::Host::Ipv6(a)) => Some(UrlHost::Ipv6(a.segments())),
        },
        url,
    })
}

/// Calls `url::Url::join` on the URL that `parse_url` gave and serializes the result.
/// Trusted: the result is what `url_join` names for the base's serialization and the reference.
#[verifier::external_body]
pub fn join_url(base: &ParsedUrl, reference: &str) -> (res: Option<String>)
    ensures
        res matches Some(s) ==> url_join(base@.serialized, reference@) == Some(s@),
        res is None ==> url_join(base@.serialized, reference@) is None,
{
    base.url.join(reference).ok().map(|u| u.as_str().to_string())
}

impl ParsedUrl {
    pub fn serialized(&self) -> (s: &String)
        ensures
            s@ == self@.serialized,
    {
        &self.serialized
    }

    pub fn scheme(&self) -> (s: &String)
        ensures
            s@ == self@.scheme,
    {
        &self.scheme
    }

    pub fn host(&self) -> (h: &Option<UrlHost>)
        ensures
            h matches Some(x) ==> self@.host == Some(x@),
            h is None ==> self@.host is None,
    {
        &self.host
    }
}

} // verus!
