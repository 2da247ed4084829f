//! What the proxy decides about a request and its upstream response: which headers are
//! forwarded, when the upstream HTML gets a `<base>` tag, and the tag's text.
use std::borrow::Cow;

use lol_html::html_content::ContentType;
use lol_html::html_content::Element;
use lol_html::rewrite_str;
use lol_html::ElementContentHandlers;
use lol_html::RewriteStrSettings;
use lol_html::Selector;
use vstd::prelude::*;

use crate::routes::Route;
use crate::router::matcher::root;
use crate::text::chars_ends_with_char;
use crate::text::chars_eq;
use crate::text::chars_find_from;
use crate::text::chars_of;
use crate::text::extend_chars;
use crate::text::find;
use crate::text::string_of;
use crate::urls::opt_view;
use crate::urls::url_with_query;
use crate::urls::ParsedUrl;

verus! {

/// The address a proxied request is sent to: the matched upstream URL with the incoming
/// request's query (or none) put on it.
pub fn upstream_request_url(upstream: &ParsedUrl, query: Option<&str>) -> (r: String)
    ensures
        r@ == url_with_query(upstream@, opt_view(query)),
{
    let u = upstream.with_query(query);
    String::from_str(u.as_str())
}

/// What `c` becomes inside a double-quoted HTML attribute value.
pub open spec fn escape_attr_char(c: char) -> Seq<char> {
    if c == '&' {
        "&amp;"@
    } else if c == '"' {
        "&quot;"@
    } else if c == '\'' {
        "&#39;"@
    } else if c == '<' {
        "&lt;"@
    } else {
        seq![c]
    }
}

/// `s` with each character escaped for a double-quoted HTML attribute value.
pub open spec fn escape_attr(s: Seq<char>) -> Seq<char>
    decreases s.len(),
{
    if s.len() == 0 {
        Seq::empty()
    } else {
        escape_attr(s.drop_last()) + escape_attr_char(s.last())
    }
}

/// An escaped value cannot end the attribute or open a tag: it holds no `"`, `'` or `<`.
pub proof fn lemma_escaped_value_is_inert(s: Seq<char>)
    ensures
        forall|i: int|
            0 <= i < escape_attr(s).len() ==> #[trigger] escape_attr(s)[i] != '"' && escape_attr(
                s,
            )[i] != '\'' && escape_attr(s)[i] != '<',
    decreases s.len(),
{
    reveal_strlit("&amp;");
    reveal_strlit("&quot;");
    reveal_strlit("&#39;");
    reveal_strlit("&lt;");
    if s.len() > 0 {
        lemma_escaped_value_is_inert(s.drop_last());
        let a = escape_attr(s.drop_last());
        let b = escape_attr_char(s.last());
        assert forall|i: int| 0 <= i < b.len() implies #[trigger] b[i] != '"' && b[i] != '\''
            && b[i] != '<' by {}
        assert forall|i: int| 0 <= i < escape_attr(s).len() implies #[trigger] escape_attr(s)[i]
            != '"' && escape_attr(s)[i] != '\'' && escape_attr(s)[i] != '<' by {
            if i < a.len() {
                assert(escape_attr(s)[i] == a[i]);
            } else {
                assert(escape_attr(s)[i] == b[i - a.len()]);
            }
        }
    }
}

/// Escapes `&`, `"`, `'` and `<` so that the value can stand in a double-quoted attribute.
pub fn escape_html_attr_value(value: &str) -> (r: String)
    ensures
        r@ == escape_attr(value@),
{
    let v = chars_of(value);
    let amp = chars_of("&amp;");
    let quot = chars_of("&quot;");
    let apos = chars_of("&#39;");
    let lt = chars_of("&lt;");
    let mut out: Vec<char> = Vec::new();
    let mut i: usize = 0;
    while i < v.len()
        invariant
            i <= v@.len(),
            v@ == value@,
            amp@ == "&amp;"@,
            quot@ == "&quot;"@,
            apos@ == "&#39;"@,
            lt@ == "&lt;"@,
            out@ == escape_attr(v@.subrange(0, i as int)),
        decreases v.len() - i,
    {
        let c = v[i];
        if c == '&' {
            extend_chars(&mut out, amp.as_slice());
        } else if c == '"' {
            extend_chars(&mut out, quot.as_slice());
        } else if c == '\'' {
            extend_chars(&mut out, apos.as_slice());
        } else if c == '<' {
            extend_chars(&mut out, lt.as_slice());
        } else {
            out.push(c);
        }
        proof {
            let next = v@.subrange(0, i + 1);
            assert(next.drop_last() =~= v@.subrange(0, i as int));
            assert(next.last() == c);
            assert(out@ =~= escape_attr(next));
        }
        i = i + 1;
    }
    assert(v@.subrange(0, v@.len() as int) =~= v@);
    string_of(out.as_slice())
}

/// The HTML `lol_html::rewrite_str` makes of `html` when a handler for the `head` element
/// prepends `snippet` (as HTML) to its content; `None` when the rewriter reports an error.
pub uninterp spec fn prepended_in_head(html: Seq<char>, snippet: Seq<char>) -> Option<Seq<char>>;

/// `lol_html::rewrite_str` over `html`, with one element handler for the `head` selector that
/// prepends `snippet` as HTML. The result is a function of the two strings.
#[verifier::external_body]
fn prepend_in_head(html: &str, snippet: &str) -> (r: Option<String>)
    ensures
        r matches Some(s) ==> prepended_in_head(html@, snippet@) == Some(s@),
        r is None ==> prepended_in_head(html@, snippet@) is None,
{
    let snippet = snippet.to_string();
    let head: Selector = "head".parse().unwrap();
    let handler = ElementContentHandlers::default().element(move |el: &mut Element<'_, '_>| {
        el.prepend(&snippet, ContentType::Html);
        Ok(())
    });
    let settings = RewriteStrSettings {
        element_content_handlers: vec![(Cow::Owned(head), handler)],
        ..RewriteStrSettings::new()
    };
    rewrite_str(html, settings).ok()
}

/// The `<base>` tag for `base_href`, with the value escaped.
pub open spec fn base_tag(base_href: Seq<char>) -> Seq<char> {
    "<base href=\""@ + escape_attr(base_href) + "\">"@
}

/// Puts `<base href="...">` first inside `<head>`, as the HTML rewriter finds it; when the
/// rewriter fails, the HTML is returned unchanged.
pub fn inject_base_into_head(html: &str, base_href: &str) -> (r: String)
    ensures
        r@ == match prepended_in_head(html@, base_tag(base_href@)) {
            Some(out) => out,
            None => html@,
        },
{
    let safe = escape_html_attr_value(base_href);
    let mut snippet = String::from_str("<base href=\"");
    snippet.append(safe.as_str());
    snippet.append("\">");
    match prepend_in_head(html, snippet.as_str()) {
        Some(out) => out,
        None => String::from_str(html),
    }
}

/// The base URL a prefix is served under: the prefix with a trailing `/`.
pub open spec fn spec_base_href(prefix: Seq<char>) -> Seq<char> {
    if prefix.len() > 0 && prefix.last() == '/' {
        prefix
    } else {
        prefix.push('/')
    }
}

/// The prefix with a trailing `/`, added when it lacks one.
pub fn base_href(prefix: &str) -> (r: String)
    ensures
        r@ == spec_base_href(prefix@),
{
    let p = chars_of(prefix);
    if chars_ends_with_char(p.as_slice(), '/') {
        String::from_str(prefix)
    } else {
        let mut out: Vec<char> = Vec::new();
        extend_chars(&mut out, p.as_slice());
        out.push('/');
        string_of(out.as_slice())
    }
}

/// The ASCII lower-case form of `c` (`char::to_ascii_lowercase`).
pub open spec fn ascii_lower(c: char) -> char {
    if 'A' <= c && c <= 'Z' {
        ((c as u32) + 32) as char
    } else {
        c
    }
}

/// `a` and `b` are equal up to ASCII case (`str::eq_ignore_ascii_case`).
pub open spec fn eq_ignore_ascii_case(a: Seq<char>, b: Seq<char>) -> bool {
    a.len() == b.len() && forall|i: int| 0 <= i < a.len() ==> ascii_lower(a[i]) == ascii_lower(b[i])
}

/// The ASCII lower-case form of `c` (`char::to_ascii_lowercase`).
fn lower_ascii(c: char) -> (r: char)
    ensures
        r == ascii_lower(c),
{
    if 'A' <= c && c <= 'Z' {
        let b = (c as u8) + 32;
        assert(b == (c as u32) + 32);
        b as char
    } else {
        c
    }
}

/// Whether a request header is passed upstream: every header is, except `Host` (in any
/// ASCII case), so that the upstream URL decides the host and requests do not loop.
pub fn is_forwarded_header(name: &str) -> (r: bool)
    ensures
        r == !eq_ignore_ascii_case(name@, "host"@),
{
    let n = chars_of(name);
    let host = chars_of("host");
    if n.len() != host.len() {
        return true;
    }
    let mut i: usize = 0;
    while i < n.len()
        invariant
            i <= n@.len(),
            n@ == name@,
            host@ == "host"@,
            n@.len() == host@.len(),
            forall|j: int| 0 <= j < i ==> ascii_lower(n@[j]) == ascii_lower(host@[j]),
        decreases n.len() - i,
    {
        if lower_ascii(n[i]) != lower_ascii(host[i]) {
            return true;
        }
        i = i + 1;
    }
    false
}

/// A route whose prefix is rewritten to the root serves HTML that needs a `<base>` tag: its
/// rewrite target is `/` and its own prefix is not.
pub open spec fn spec_rewrites_html(route: Route) -> bool {
    route.rewrite_to@ == root() && route.prefix@ != root()
}

/// Whether HTML from this route's upstream gets a `<base>` tag for the route's prefix.
pub fn rewrites_html(route: &Route) -> (r: bool)
    ensures
        r == spec_rewrites_html(*route),
{
    let mut slash: Vec<char> = Vec::new();
    slash.push('/');
    assert(slash@ =~= root());
    let target = chars_of(route.rewrite_to.as_str());
    let prefix = chars_of(route.prefix.as_str());
    chars_eq(target.as_slice(), slash.as_slice()) && !chars_eq(prefix.as_slice(), slash.as_slice())
}

/// Whether a `content-type` value names HTML: it contains `text/html`.
pub fn is_html_content_type(content_type: &str) -> (r: bool)
    ensures
        r == (find(content_type@, "text/html"@) is Some),
{
    let ct = chars_of(content_type);
    let pat = chars_of("text/html");
    chars_find_from(ct.as_slice(), pat.as_slice(), 0).is_some()
}

} // verus!
