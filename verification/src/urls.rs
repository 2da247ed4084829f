//! URLs parsed with the `url` crate.
//!
//! A parsed URL is carried together with its serialization; what the logic reads of it
//! (scheme, host, port, path, query, origin) is named as a function of that serialization,
//! which determines the URL.
use vstd::prelude::*;

verus! {

/// `url::Url`, carried opaquely.
#[verifier::external_type_specification]
#[verifier::external_body]
pub struct ExUrl(url::Url);

/// Whether `url::Url::parse` accepts `s`.
pub uninterp spec fn url_parses(s: Seq<char>) -> bool;

/// `Url::as_str` of the URL that `url::Url::parse` makes of `s`.
pub uninterp spec fn url_serialization(s: Seq<char>) -> Seq<char>;

/// `Url::scheme` of the URL whose serialization is `href`.
pub uninterp spec fn url_scheme(href: Seq<char>) -> Seq<char>;

/// `Url::host_str` of the URL whose serialization is `href`.
pub uninterp spec fn url_host(href: Seq<char>) -> Option<Seq<char>>;

/// `Url::port` of the URL whose serialization is `href`.
pub uninterp spec fn url_port(href: Seq<char>) -> Option<u16>;

/// `Url::path` of the URL whose serialization is `href`.
pub uninterp spec fn url_path(href: Seq<char>) -> Seq<char>;

/// `Url::query` of the URL whose serialization is `href`.
pub uninterp spec fn url_query(href: Seq<char>) -> Option<Seq<char>>;

/// `Url::origin().ascii_serialization()` of the URL whose serialization is `href`.
pub uninterp spec fn url_origin_ascii(href: Seq<char>) -> Seq<char>;

/// The serialization of the URL whose serialization is `href` after
/// `Url::path_segments_mut().push(segment)`; `None` when the URL cannot be a base.
pub uninterp spec fn url_with_segment(href: Seq<char>, segment: Seq<char>) -> Option<Seq<char>>;

/// The serialization of the URL whose serialization is `href` after `Url::set_query(query)`.
pub uninterp spec fn url_with_query(href: Seq<char>, query: Option<Seq<char>>) -> Seq<char>;

/// An optional string slice as an optional sequence of characters.
pub open spec fn opt_view(o: Option<&str>) -> Option<Seq<char>> {
    match o {
        Some(s) => Some(s@),
        None => None,
    }
}

/// A URL as `url::Url::parse` made it, with its serialization. Only the functions of this
/// module make one, so the two always agree.
pub struct ParsedUrl {
    url: url::Url,
    href: String,
}

impl View for ParsedUrl {
    type V = Seq<char>;

    /// The serialization of the URL.
    closed spec fn view(&self) -> Seq<char> {
        self.href@
    }
}

/// The message (`Display`) of the `url::ParseError` that `url::Url::parse` reports for `s`.
pub uninterp spec fn url_parse_error(s: Seq<char>) -> Seq<char>;

/// `url::Url::parse`: `Ok` exactly when the crate accepts `s`, with the serialization of the
/// parsed URL; otherwise the message of the parse error.
#[verifier::external_body]
pub(crate) fn parse_url(s: &str) -> (r: Result<ParsedUrl, String>)
    ensures
        r is Ok == url_parses(s@),
        r matches Ok(u) ==> u@ == url_serialization(s@),
        r matches Err(e) ==> e@ == url_parse_error(s@),
{
    match url::Url::parse(s) {
        Ok(url) => {
            let href = url.as_str().to_string();
            Ok(ParsedUrl { url, href })
        },
        Err(e) => Err(e.to_string()),
    }
}

impl ParsedUrl {
    /// The serialization of the URL (`Url::as_str`).
    pub fn as_str(&self) -> (r: &str)
        ensures
            r@ == self@,
    {
        self.href.as_str()
    }

    /// The `url::Url` value this parsed URL holds, the one whose serialization is `self@`.
    pub closed spec fn held_url(&self) -> url::Url {
        self.url
    }

    /// The URL itself: the value this parsed URL holds.
    pub fn url(&self) -> (r: &url::Url)
        ensures
            *r == self.held_url(),
    {
        &self.url
    }

    /// `Url::scheme`.
    #[verifier::external_body]
    pub(crate) fn scheme(&self) -> (r: String)
        ensures
            r@ == url_scheme(self@),
    {
        self.url.scheme().to_string()
    }

    /// `Url::host_str`.
    #[verifier::external_body]
    pub(crate) fn host_str(&self) -> (r: Option<String>)
        ensures
            r matches Some(h) ==> url_host(self@) == Some(h@),
            r is None ==> url_host(self@) is None,
    {
        self.url.host_str().map(|h| h.to_string())
    }

    /// `Url::port`.
    #[verifier::external_body]
    pub(crate) fn port(&self) -> (r: Option<u16>)
        ensures
            r == url_port(self@),
    {
        self.url.port()
    }

    /// `Url::path`.
    #[verifier::external_body]
    pub(crate) fn path(&self) -> (r: String)
        ensures
            r@ == url_path(self@),
    {
        self.url.path().to_string()
    }

    /// `Url::query`.
    #[verifier::external_body]
    pub(crate) fn query(&self) -> (r: Option<String>)
        ensures
            r matches Some(q) ==> url_query(self@) == Some(q@),
            r is None ==> url_query(self@) is None,
    {
        self.url.query().map(|q| q.to_string())
    }

    /// A copy of this URL with `segment` pushed onto its path (`Url::path_segments_mut` and
    /// `PathSegmentsMut::push`, which percent-encodes it); `None` when the URL cannot be a
    /// base.
    #[verifier::external_body]
    pub(crate) fn with_path_segment(&self, segment: &str) -> (r: Option<ParsedUrl>)
        ensures
            r is Some <==> url_with_segment(self@, segment@) is Some,
            r matches Some(u) ==> url_with_segment(self@, segment@) == Some(u@),
    {
        let mut url = self.url.clone();
        match url.path_segments_mut() {
            Ok(mut segments) => {
                segments.push(segment);
            },
            Err(_) => return None,
        }
        let href = url.as_str().to_string();
        Some(ParsedUrl { url, href })
    }

    /// A copy of this URL with its query replaced (`Url::set_query`): `None` removes it.
    #[verifier::external_body]
    pub(crate) fn with_query(&self, query: Option<&str>) -> (r: ParsedUrl)
        ensures
            r@ == url_with_query(self@, opt_view(query)),
    {
        let mut url = self.url.clone();
        url.set_query(query);
        let href = url.as_str().to_string();
        ParsedUrl { url, href }
    }

    /// `Url::origin` in its ASCII serialization.
    #[verifier::external_body]
    pub(crate) fn origin_ascii(&self) -> (r: String)
        ensures
            r@ == url_origin_ascii(self@),
    {
        self.url.origin().ascii_serialization()
    }
}

/// The decimal digits of `n`, most significant first, without leading zeros (`0` is `"0"`).
pub open spec fn decimal(n: nat) -> Seq<char>
    decreases n,
{
    if n < 10 {
        seq![digit_char(n)]
    } else {
        decimal(n / 10).push(digit_char(n % 10))
    }
}

/// The character of the decimal digit `d`.
pub open spec fn digit_char(d: nat) -> char {
    if d == 0 {
        '0'
    } else if d == 1 {
        '1'
    } else if d == 2 {
        '2'
    } else if d == 3 {
        '3'
    } else if d == 4 {
        '4'
    } else if d == 5 {
        '5'
    } else if d == 6 {
        '6'
    } else if d == 7 {
        '7'
    } else if d == 8 {
        '8'
    } else {
        '9'
    }
}

fn digit(d: u32) -> (c: char)
    requires
        d < 10,
    ensures
        c == digit_char(d as nat),
{
    if d == 0 {
        '0'
    } else if d == 1 {
        '1'
    } else if d == 2 {
        '2'
    } else if d == 3 {
        '3'
    } else if d == 4 {
        '4'
    } else if d == 5 {
        '5'
    } else if d == 6 {
        '6'
    } else if d == 7 {
        '7'
    } else if d == 8 {
        '8'
    } else {
        '9'
    }
}

/// The decimal form of `n`, as `format!("{}", n)` writes it.
pub fn decimal_chars(n: u32) -> (r: Vec<char>)
    ensures
        r@ == decimal(n as nat),
    decreases n,
{
    if n < 10 {
        let mut v: Vec<char> = Vec::new();
        v.push(digit(n));
        v
    } else {
        let mut v = decimal_chars(n / 10);
        v.push(digit(n % 10));
        v
    }
}

} // verus!
