//! The domain-level sitemap: the index of per-route child sitemaps, the routes that serve
//! one, and the rewriting of a child sitemap's `<loc>` URLs onto the domain.
use vstd::prelude::*;

use crate::constants::CONTENT_TYPE_XML;
use crate::constants::DEFAULT_CACHE_CONTROL;
use crate::constants::MISSING_BINDING_PREFIX;
use crate::constants::SITEMAP_INDEX_PATH;
use crate::constants::SITEMAP_PREFIX;
use crate::errors::headers_view;
use crate::errors::PlainResponse;
use crate::routes::Route;
use crate::text::all_key_chars;
use crate::text::chars_all_key;
use crate::text::chars_ends_with;
use crate::text::chars_ends_with_char;
use crate::text::chars_eq;
use crate::text::chars_of;
use crate::text::chars_starts_with;
use crate::text::chars_starts_with_char;
use crate::text::chars_sub;
use crate::text::ends_with;
use crate::text::occurs_at;
use crate::text::extend_chars;
use crate::text::starts_with;
use crate::text::string_of;
use crate::text::trim_end_char;
use crate::text::trim_end_char_len;
use crate::text::trim_start_char;
use crate::text::trim_start_char_len;
use crate::text::trim_ws;
use crate::text::trim_ws_bounds;
use crate::urls::parse_url;
use crate::urls::url_parses;
use crate::urls::url_path;
use crate::urls::url_query;
use crate::urls::url_serialization;
use crate::xml::written_form;
use crate::xml::pending_events;
use crate::xml::read_item;
use crate::xml::text_reader;
use crate::xml::write_decl;
use crate::xml::write_end;
use crate::xml::write_item;
use crate::xml::write_start;
use crate::xml::write_start_with_attribute;
use crate::xml::write_text;
use crate::xml::is_escaped_text;
use crate::xml::lemma_xml_escape_is_escaped_text;
use crate::xml::xml_escape;
use crate::xml::xml_tokens;
use crate::xml::XmlKind;
use crate::xml::XmlItem;
use crate::xml::XmlToken;

verus! {

/// An origin without its trailing slashes.
pub fn normalize_origin(origin: &str) -> (r: String)
    ensures
        r@ == trim_end_char(origin@, '/'),
{
    let o = chars_of(origin);
    let n = trim_end_char_len(o.as_slice(), '/');
    let kept = chars_sub(o.as_slice(), 0, n);
    string_of(kept.as_slice())
}

/// Trimming trailing slashes leaves none to trim.
proof fn lemma_trim_end_char_done(s: Seq<char>, c: char)
    ensures
        !(trim_end_char(s, c).len() > 0 && trim_end_char(s, c).last() == c),
    decreases s.len(),
{
    if s.len() > 0 && s.last() == c {
        lemma_trim_end_char_done(s.drop_last(), c);
    }
}

/// Normalizing an origin twice gives what normalizing it once does.
pub proof fn lemma_normalize_origin_idempotent(origin: Seq<char>)
    ensures
        trim_end_char(trim_end_char(origin, '/'), '/') == trim_end_char(origin, '/'),
{
    lemma_trim_end_char_done(origin, '/');
}

/// A route has a child sitemap the router serves: it declares a sitemap and its origin
/// binding is not missing.
pub open spec fn has_served_sitemap(r: Route) -> bool {
    r.sitemap is Some && !starts_with(r.origin@, "missing-binding:"@)
}

/// The index of the first route, from `i` on, with route key `key` and a served sitemap.
pub open spec fn first_sitemap_route_from(routes: Seq<Route>, key: Seq<char>, i: int) -> Option<
    int,
>
    decreases routes.len() - i,
{
    if i < 0 || i >= routes.len() {
        None
    } else if routes[i].route_key@ == key && has_served_sitemap(routes[i]) {
        Some(i)
    } else {
        first_sitemap_route_from(routes, key, i + 1)
    }
}

/// A route found by [`first_sitemap_route_from`] has the key and a served sitemap.
pub proof fn lemma_first_sitemap_route(routes: Seq<Route>, key: Seq<char>, i: int)
    requires
        0 <= i,
    ensures
        first_sitemap_route_from(routes, key, i) matches Some(j) ==> i <= j < routes.len()
            && routes[j].route_key@ == key && has_served_sitemap(routes[j]),
    decreases routes.len() - i,
{
    if i < routes.len() && !(routes[i].route_key@ == key && has_served_sitemap(routes[i])) {
        lemma_first_sitemap_route(routes, key, i + 1);
    }
}

/// Whether a route has a child sitemap the router serves.
fn serves_sitemap(route: &Route) -> (r: bool)
    ensures
        r == has_served_sitemap(*route),
{
    let origin = chars_of(route.origin.as_str());
    let missing = chars_of(MISSING_BINDING_PREFIX);
    route.sitemap.is_some() && !chars_starts_with(origin.as_slice(), missing.as_slice())
}

/// The first route with the given key whose child sitemap is served.
pub fn route_for_key<'a>(routes: &'a [Route], route_key: &str) -> (r: Option<&'a Route>)
    ensures
        match first_sitemap_route_from(routes@, route_key@, 0) {
            None => r is None,
            Some(i) => r matches Some(x) && *x == routes@[i],
        },
{
    let key = chars_of(route_key);
    let mut i: usize = 0;
    while i < routes.len()
        invariant
            i <= routes@.len(),
            key@ == route_key@,
            first_sitemap_route_from(routes@, route_key@, i as int) == first_sitemap_route_from(
                routes@,
                route_key@,
                0,
            ),
        decreases routes.len() - i,
    {
        let rk = chars_of(routes[i].route_key.as_str());
        if chars_eq(rk.as_slice(), key.as_slice()) && serves_sitemap(&routes[i]) {
            return Some(&routes[i]);
        }
        i = i + 1;
    }
    None
}

/// Some route from `i` on has the key and a served sitemap, so the search finds one.
proof fn lemma_first_sitemap_route_found(routes: Seq<Route>, key: Seq<char>, i: int, k: int)
    requires
        0 <= i <= k < routes.len(),
        routes[k].route_key@ == key,
        has_served_sitemap(routes[k]),
    ensures
        first_sitemap_route_from(routes, key, i) is Some,
    decreases k - i,
{
    if i < k {
        lemma_first_sitemap_route_found(routes, key, i + 1, k);
    }
}

/// The route key a child-sitemap path names: `/sitemaps/{key}.xml` with a non-empty key of
/// `[a-z0-9_-]` characters; nothing for the index path or any other path.
pub open spec fn spec_extract_route_key(path: Seq<char>) -> Option<Seq<char>> {
    if path == "/sitemap.xml"@ {
        None
    } else if !starts_with(path, "/sitemaps/"@) || !ends_with(path, ".xml"@) {
        None
    } else {
        let key = path.subrange("/sitemaps/"@.len() as int, path.len() - ".xml"@.len());
        if key.len() == 0 || !all_key_chars(key) {
            None
        } else {
            Some(key)
        }
    }
}

/// The route key of a child-sitemap path `/sitemaps/{key}.xml`.
pub fn extract_route_key(pathname: &str) -> (r: Option<String>)
    ensures
        match spec_extract_route_key(pathname@) {
            None => r is None,
            Some(k) => r matches Some(s) && s@ == k,
        },
{
    proof {
        reveal_strlit("/sitemaps/");
        reveal_strlit(".xml");
        reveal_strlit("/sitemap.xml");
    }
    let p = chars_of(pathname);
    let index = chars_of(SITEMAP_INDEX_PATH);
    if chars_eq(p.as_slice(), index.as_slice()) {
        return None;
    }
    let prefix = chars_of(SITEMAP_PREFIX);
    let suffix = chars_of(".xml");
    if !chars_starts_with(p.as_slice(), prefix.as_slice()) || !chars_ends_with(
        p.as_slice(),
        suffix.as_slice(),
    ) {
        return None;
    }
    proof {
        if p@.len() < 14 {
            let j = p@.len() - 4;
            assert(p@.subrange(p@.len() - 4, p@.len() as int)[0] == '.');
            assert(p@.subrange(0, 10)[j] == p@[j]);
        }
    }
    let end = p.len() - 4;
    let key = chars_sub(p.as_slice(), 10, end);
    if key.len() == 0 {
        return None;
    }
    if chars_all_key(key.as_slice()) {
        Some(string_of(key.as_slice()))
    } else {
        None
    }
}

/// A route key none of whose routes has a served sitemap gets no child sitemap: the search
/// for it finds nothing (and the request is answered 404).
pub proof fn lemma_unserved_key_has_no_sitemap(routes: Seq<Route>, key: Seq<char>, i: int)
    requires
        0 <= i,
        forall|k: int|
            0 <= k < routes.len() && (#[trigger] routes[k]).route_key@ == key ==> !has_served_sitemap(
                routes[k],
            ),
    ensures
        first_sitemap_route_from(routes, key, i) is None,
    decreases routes.len() - i,
{
    if i < routes.len() {
        lemma_unserved_key_has_no_sitemap(routes, key, i + 1);
    }
}

/// Every link of the sitemap index is served: for a route listed in the index (it has a
/// served sitemap) whose key is a valid route key, the path `/sitemaps/{key}.xml` names that
/// key, and a route with that key and a served sitemap is found for it.
pub proof fn lemma_index_links_are_served(routes: Seq<Route>, k: int)
    requires
        0 <= k < routes.len(),
        has_served_sitemap(routes[k]),
        routes[k].route_key@.len() > 0,
        all_key_chars(routes[k].route_key@),
    ensures
        spec_extract_route_key("/sitemaps/"@ + routes[k].route_key@ + ".xml"@) == Some(
            routes[k].route_key@,
        ),
        first_sitemap_route_from(routes, routes[k].route_key@, 0) is Some,
{
    reveal_strlit("/sitemaps/");
    reveal_strlit(".xml");
    reveal_strlit("/sitemap.xml");
    let key = routes[k].route_key@;
    let p = "/sitemaps/"@ + key + ".xml"@;
    assert(("/sitemaps/"@ + key)[8] == 's');
    assert(p[8] == 's');
    assert("/sitemap.xml"@[8] == '.');
    assert(p != "/sitemap.xml"@);
    assert(p.subrange(0, 10) =~= "/sitemaps/"@);
    assert(p.subrange(p.len() - 4, p.len() as int) =~= ".xml"@);
    assert(p.subrange(10, p.len() - 4) =~= key);
    lemma_first_sitemap_route_found(routes, key, 0, k);
}

/// The index entry of a route, written out: `<sitemap><loc>`, the escaped link to the
/// route's child sitemap under its route key, `</loc></sitemap>`.
pub open spec fn index_entry_text(origin: Seq<char>, key: Seq<char>) -> Seq<char> {
    "<sitemap><loc>"@ + xml_escape(origin + "/sitemaps/"@ + key + ".xml"@) + "</loc></sitemap>"@
}

/// `e` occurs somewhere in `s`.
pub open spec fn occurs_in(s: Seq<char>, e: Seq<char>) -> bool {
    exists|n: int| occurs_at(s, e, n)
}

proof fn lemma_occurs_in_concat(a: Seq<char>, b: Seq<char>, c: Seq<char>, e: Seq<char>)
    requires
        occurs_in(b, e),
    ensures
        occurs_in(a + b + c, e),
{
    let n = choose|n: int| occurs_at(b, e, n);
    let s = a + b + c;
    assert(s.subrange(a.len() + n, a.len() + n + e.len()) =~= b.subrange(n, n + e.len()));
    assert(occurs_at(s, e, a.len() + n));
}

proof fn lemma_entries_list_route(origin: Seq<char>, routes: Seq<Route>, k: int)
    requires
        0 <= k < routes.len(),
        has_served_sitemap(routes[k]),
    ensures
        occurs_in(spec_index_entries(origin, routes), index_entry_text(origin, routes[k].route_key@)),
    decreases routes.len(),
{
    reveal_strlit("<");
    reveal_strlit(">");
    reveal_strlit("</");
    reveal_strlit("sitemap");
    reveal_strlit("loc");
    reveal_strlit("<sitemap><loc>");
    reveal_strlit("</loc></sitemap>");
    let e = index_entry_text(origin, routes[k].route_key@);
    let prev = routes.drop_last();
    if k == routes.len() - 1 {
        assert(spec_index_entry(origin, routes[k].route_key@) =~= e);
        assert(e.subrange(0, e.len() as int) =~= e);
        assert(occurs_at(e, e, 0));
        lemma_occurs_in_concat(spec_index_entries(origin, prev), e, Seq::<char>::empty(), e);
        assert(spec_index_entries(origin, prev) + e + Seq::<char>::empty() =~= spec_index_entries(
            origin,
            routes,
        ));
    } else {
        assert(prev[k] == routes[k]);
        lemma_entries_list_route(origin, prev, k);
        let tail = if has_served_sitemap(routes.last()) {
            spec_index_entry(origin, routes.last().route_key@)
        } else {
            Seq::<char>::empty()
        };
        lemma_occurs_in_concat(Seq::<char>::empty(), spec_index_entries(origin, prev), tail, e);
        assert(Seq::<char>::empty() + spec_index_entries(origin, prev) + tail =~= spec_index_entries(
            origin,
            routes,
        ));
    }
}

/// The sitemap index begins with the XML declaration and the `sitemapindex` root in the
/// sitemap namespace, ends with the root's end tag, and lists every route with a served
/// child sitemap by its route key: `<sitemap><loc>{origin}/sitemaps/{routeKey}.xml</loc>`
/// `</sitemap>`, the link escaped.
pub proof fn lemma_index_lists_route_keys(origin: Seq<char>, routes: Seq<Route>, k: int)
    requires
        0 <= k < routes.len(),
        has_served_sitemap(routes[k]),
    ensures
        starts_with(
            spec_index_xml(origin, routes),
            "<?xml version=\"1.0\" encoding=\"UTF-8\"?><sitemapindex xmlns=\"http://www.sitemaps.org/schemas/sitemap/0.9\">"@,
        ),
        ends_with(spec_index_xml(origin, routes), "</sitemapindex>"@),
        occurs_in(spec_index_xml(origin, routes), index_entry_text(origin, routes[k].route_key@)),
{
    lemma_entries_list_route(origin, routes, k);
    lemma_index_frame(origin, routes);
    let a = written_form(XmlKind::Decl, "xml version=\""@ + "1.0"@ + "\" encoding=\""@ + "UTF-8"@ + "\""@)
        + written_form(
        XmlKind::Start,
        "sitemapindex"@ + " "@ + "xmlns"@ + "=\""@ + xml_escape(sitemap_namespace()) + "\""@,
    );
    lemma_occurs_in_concat(
        a,
        spec_index_entries(origin, routes),
        written_form(XmlKind::End, "sitemapindex"@),
        index_entry_text(origin, routes[k].route_key@),
    );
}

/// The frame of the index document: declaration and root start tag, then the root end tag.
proof fn lemma_index_frame(origin: Seq<char>, routes: Seq<Route>)
    ensures
        starts_with(
            spec_index_xml(origin, routes),
            "<?xml version=\"1.0\" encoding=\"UTF-8\"?><sitemapindex xmlns=\"http://www.sitemaps.org/schemas/sitemap/0.9\">"@,
        ),
        ends_with(spec_index_xml(origin, routes), "</sitemapindex>"@),
{
    reveal_strlit("<?");
    reveal_strlit("?>");
    reveal_strlit("<");
    reveal_strlit(">");
    reveal_strlit("</");
    reveal_strlit("xml version=\"");
    reveal_strlit("1.0");
    reveal_strlit("\" encoding=\"");
    reveal_strlit("UTF-8");
    reveal_strlit("\"");
    reveal_strlit("sitemapindex");
    reveal_strlit(" ");
    reveal_strlit("xmlns");
    reveal_strlit("=\"");
    reveal_strlit("http://www.sitemaps.org/schemas/sitemap/0.9");
    reveal_strlit("<?xml version=\"1.0\" encoding=\"UTF-8\"?><sitemapindex xmlns=\"http://www.sitemaps.org/schemas/sitemap/0.9\">");
    reveal_strlit("</sitemapindex>");
    let ns = sitemap_namespace();
    lemma_xml_escape_plain(ns);
    let head = "<?xml version=\"1.0\" encoding=\"UTF-8\"?><sitemapindex xmlns=\"http://www.sitemaps.org/schemas/sitemap/0.9\">"@;
    let a = written_form(XmlKind::Decl, "xml version=\""@ + "1.0"@ + "\" encoding=\""@ + "UTF-8"@ + "\""@)
        + written_form(
        XmlKind::Start,
        "sitemapindex"@ + " "@ + "xmlns"@ + "=\""@ + xml_escape(ns) + "\""@,
    );
    assert(a =~= head);
    let x = spec_index_xml(origin, routes);
    let d = written_form(XmlKind::End, "sitemapindex"@);
    assert(d =~= "</sitemapindex>"@);
    assert(x =~= a + spec_index_entries(origin, routes) + d);
    assert(x.subrange(0, head.len() as int) =~= head);
    assert(x.subrange(x.len() - d.len(), x.len() as int) =~= d);
}

/// Text without markup characters is its own escape.
proof fn lemma_xml_escape_plain(s: Seq<char>)
    requires
        forall|i: int|
            0 <= i < s.len() ==> #[trigger] s[i] != '<' && s[i] != '>' && s[i] != '&' && s[i]
                != '\'' && s[i] != '"',
    ensures
        xml_escape(s) == s,
    decreases s.len(),
{
    if s.len() > 0 {
        lemma_xml_escape_plain(s.drop_last());
        assert(crate::xml::xml_escape_char(s.last()) =~= seq![s.last()]);
        assert(s.drop_last().push(s.last()) =~= s);
    }
}

/// The index entry of one route: `<sitemap><loc>{origin}/sitemaps/{key}.xml</loc></sitemap>`,
/// as the writer writes it, the `loc` text escaped.
pub open spec fn spec_index_entry(origin: Seq<char>, key: Seq<char>) -> Seq<char> {
    let loc = origin + "/sitemaps/"@ + key + ".xml"@;
    written_form(XmlKind::Start, "sitemap"@) + written_form(XmlKind::Start, "loc"@)
        + written_form(XmlKind::Text, xml_escape(loc)) + written_form(XmlKind::End, "loc"@)
        + written_form(XmlKind::End, "sitemap"@)
}

/// The index entries of the routes with a served child sitemap, in route order.
pub open spec fn spec_index_entries(origin: Seq<char>, routes: Seq<Route>) -> Seq<char>
    decreases routes.len(),
{
    if routes.len() == 0 {
        Seq::empty()
    } else if has_served_sitemap(routes.last()) {
        spec_index_entries(origin, routes.drop_last()) + spec_index_entry(
            origin,
            routes.last().route_key@,
        )
    } else {
        spec_index_entries(origin, routes.drop_last())
    }
}

/// The namespace of sitemap documents.
pub open spec fn sitemap_namespace() -> Seq<char> {
    "http://www.sitemaps.org/schemas/sitemap/0.9"@
}

/// The sitemap index document: the XML declaration, a `sitemapindex` root in the sitemap
/// namespace, and one entry per route with a served child sitemap.
pub open spec fn spec_index_xml(origin: Seq<char>, routes: Seq<Route>) -> Seq<char> {
    written_form(XmlKind::Decl, "xml version=\""@ + "1.0"@ + "\" encoding=\""@ + "UTF-8"@ + "\""@)
        + written_form(
        XmlKind::Start,
        "sitemapindex"@ + " "@ + "xmlns"@ + "=\""@ + xml_escape(sitemap_namespace()) + "\""@,
    ) + spec_index_entries(origin, routes) + written_form(XmlKind::End, "sitemapindex"@)
}

/// The index entry of one route.
fn index_entry(request_origin: &str, route_key: &str) -> (r: String)
    ensures
        r@ == spec_index_entry(request_origin@, route_key@),
{
    let a = write_start("sitemap");
    let b = write_start("loc");
    let mut loc = String::from_str(request_origin);
    loc.append("/sitemaps/");
    loc.append(route_key);
    loc.append(".xml");
    let c = write_text(loc.as_str());
    let d = write_end("loc");
    let e = write_end("sitemap");
    let mut out = a;
    out.append(b.as_str());
    out.append(c.as_str());
    out.append(d.as_str());
    out.append(e.as_str());
    out
}

/// The sitemap index: the XML declaration, a `sitemapindex` root, and one
/// `<sitemap><loc>` entry per route that declares a child sitemap and whose origin binding
/// is set, in route order, pointing at `{origin}/sitemaps/{routeKey}.xml` with the `loc`
/// text escaped.
pub fn build_sitemap_index_xml(request_origin: &str, routes: &[Route]) -> (r: String)
    ensures
        r@ == spec_index_xml(request_origin@, routes@),
{
    let decl = write_decl("1.0", "UTF-8");
    let root = write_start_with_attribute(
        "sitemapindex",
        "xmlns",
        "http://www.sitemaps.org/schemas/sitemap/0.9",
    );
    let mut entries = String::new();
    let mut i: usize = 0;
    while i < routes.len()
        invariant
            i <= routes@.len(),
            spec_index_entries(request_origin@, routes@.subrange(0, i as int)) == entries@,
        decreases routes.len() - i,
    {
        proof {
            let next = routes@.subrange(0, i + 1);
            assert(next.drop_last() =~= routes@.subrange(0, i as int));
            assert(next.last() == routes@[i as int]);
        }
        if serves_sitemap(&routes[i]) {
            let e = index_entry(request_origin, routes[i].route_key.as_str());
            entries.append(e.as_str());
        }
        i = i + 1;
    }
    assert(routes@.subrange(0, routes@.len() as int) =~= routes@);
    let close = write_end("sitemapindex");
    let mut out = decl;
    out.append(root.as_str());
    out.append(entries.as_str());
    out.append(close.as_str());
    out
}

/// The response for the sitemap index: status 200, the XML content type and the cache
/// policy, and the index as the body.
pub fn index_response(request_origin: &str, routes: &[Route]) -> (r: PlainResponse)
    ensures
        r.status == 200,
        headers_view(r.headers@) == seq![
            ("content-type"@, "application/xml; charset=utf-8"@),
            ("cache-control"@, "public, max-age=3600"@),
        ],
        r.body@ == spec_index_xml(request_origin@, routes@),
{
    let body = build_sitemap_index_xml(request_origin, routes);
    let mut headers: Vec<(String, String)> = Vec::new();
    headers.push((String::from_str("content-type"), String::from_str(CONTENT_TYPE_XML)));
    headers.push((String::from_str("cache-control"), String::from_str(DEFAULT_CACHE_CONTROL)));
    assert(headers_view(headers@) =~= seq![
        ("content-type"@, CONTENT_TYPE_XML@),
        ("cache-control"@, DEFAULT_CACHE_CONTROL@),
    ]);
    PlainResponse { status: 200, headers, body }
}

/// A `<loc>` URL moved onto the domain: the domain origin, the path prefix, `/`, the URL's
/// path without its leading slashes, and `?query` when the URL has a query; a value that does
/// not parse as a URL is kept as it is.
pub open spec fn spec_rewrite_loc_url(loc: Seq<char>, domain: Seq<char>, prefix: Seq<char>) -> Seq<
    char,
> {
    if !url_parses(loc) {
        loc
    } else {
        let href = url_serialization(loc);
        domain + prefix + seq!['/'] + trim_start_char(url_path(href), '/') + match url_query(href) {
            Some(q) => seq!['?'] + q,
            None => Seq::empty(),
        }
    }
}

/// Moves one `<loc>` URL onto the domain origin and path prefix.
pub fn rewrite_loc_url(loc: &str, domain_origin: &str, path_prefix: &str) -> (r: String)
    ensures
        r@ == spec_rewrite_loc_url(loc@, domain_origin@, path_prefix@),
{
    let url = match parse_url(loc) {
        Ok(u) => u,
        Err(_) => {
            return String::from_str(loc);
        },
    };
    let mut out: Vec<char> = chars_of(domain_origin);
    extend_chars(&mut out, chars_of(path_prefix).as_slice());
    let path = chars_of(url.path().as_str());
    let start = trim_start_char_len(path.as_slice(), '/');
    let suffix = chars_sub(path.as_slice(), start, path.len());
    out.push('/');
    extend_chars(&mut out, suffix.as_slice());
    match url.query() {
        Some(q) => {
            out.push('?');
            extend_chars(&mut out, chars_of(q.as_str()).as_slice());
        },
        None => {},
    }
    let r = string_of(out.as_slice());
    proof {
        let href = url@;
        assert(r@ =~= spec_rewrite_loc_url(loc@, domain_origin@, path_prefix@));
    }
    r
}

/// What a `<loc>` element's collected text becomes: trimmed of white space, then moved onto
/// the domain; empty text stays empty.
pub open spec fn loc_replacement(buf: Seq<char>, domain: Seq<char>, prefix: Seq<char>) -> Seq<char> {
    if trim_ws(buf).len() == 0 {
        Seq::empty()
    } else {
        spec_rewrite_loc_url(trim_ws(buf), domain, prefix)
    }
}

/// The text an event adds to a `<loc>` element's collected text: the unescaped text of a
/// text node (its raw text where unescaping fails), the content of a CDATA section (nothing
/// where it is not UTF-8).
pub open spec fn collected_text(t: XmlToken) -> Seq<char> {
    match t.text {
        Some(x) => x,
        None => if t.kind == XmlKind::Text {
            t.raw
        } else {
            Seq::empty()
        },
    }
}

/// The rewritten document from event `i` on, given whether a `<loc>` element is open, the
/// text collected in it, and what has been written so far; it ends at the end of the
/// document.
///
/// Every event is written back as it was read, except that inside a `<loc>` element text
/// and CDATA are collected instead, and the closing `</loc>` is preceded by the collected
/// text moved onto the domain (see [`loc_replacement`]), escaped.
pub open spec fn rewrite_tokens(
    toks: Seq<XmlToken>,
    i: int,
    inside: bool,
    buf: Seq<char>,
    out: Seq<char>,
    domain: Seq<char>,
    prefix: Seq<char>,
) -> Seq<char>
    decreases toks.len() - i,
{
    if i < 0 || i >= toks.len() {
        out
    } else {
        let t = toks[i];
        if t.kind == XmlKind::Eof {
            out
        } else if t.kind == XmlKind::Start {
            let is_loc = t.name == "loc"@;
            rewrite_tokens(
                toks,
                i + 1,
                inside || is_loc,
                if is_loc {
                    Seq::empty()
                } else {
                    buf
                },
                out + written_form(XmlKind::Start, t.raw),
                domain,
                prefix,
            )
        } else if t.kind == XmlKind::End && inside && t.name == "loc"@ {
            rewrite_tokens(
                toks,
                i + 1,
                false,
                Seq::empty(),
                out + written_form(XmlKind::Text, xml_escape(loc_replacement(buf, domain, prefix)))
                    + written_form(XmlKind::End, t.raw),
                domain,
                prefix,
            )
        } else if inside && (t.kind == XmlKind::Text || t.kind == XmlKind::CData) {
            rewrite_tokens(toks, i + 1, inside, buf + collected_text(t), out, domain, prefix)
        } else {
            rewrite_tokens(toks, i + 1, inside, buf, out + written_form(t.kind, t.raw), domain, prefix)
        }
    }
}

/// Closing a `<loc>` element writes the collected text moved onto the domain, escaped as
/// XML character data (no `<`, `>` or quote, and every `&` an entity reference), then the
/// end tag as it was read.
pub proof fn lemma_loc_close_writes_escaped_text(
    toks: Seq<XmlToken>,
    i: int,
    buf: Seq<char>,
    out: Seq<char>,
    domain: Seq<char>,
    prefix: Seq<char>,
)
    requires
        0 <= i < toks.len(),
        toks[i].kind == XmlKind::End,
        toks[i].name == "loc"@,
    ensures
        rewrite_tokens(toks, i, true, buf, out, domain, prefix) == rewrite_tokens(
            toks,
            i + 1,
            false,
            Seq::empty(),
            out + xml_escape(loc_replacement(buf, domain, prefix)) + "</"@ + toks[i].raw + ">"@,
            domain,
            prefix,
        ),
        is_escaped_text(xml_escape(loc_replacement(buf, domain, prefix))),
{
    let e = xml_escape(loc_replacement(buf, domain, prefix));
    assert(written_form(XmlKind::Text, e) =~= e);
    assert(out + written_form(XmlKind::Text, e) + written_form(XmlKind::End, toks[i].raw) =~= out
        + e + "</"@ + toks[i].raw + ">"@);
    lemma_xml_escape_is_escaped_text(loc_replacement(buf, domain, prefix));
}

/// The events were all read without error.
pub open spec fn read_without_error(toks: Seq<Option<XmlToken>>) -> bool {
    forall|k: int| 0 <= k < toks.len() ==> (#[trigger] toks[k]) is Some
}

/// The tokens of read items.
pub open spec fn item_tokens(items: Seq<XmlItem>) -> Seq<XmlToken> {
    items.map_values(|it: XmlItem| it.token())
}

/// The path prefix without its trailing slashes.
pub open spec fn spec_clean_prefix(p: Seq<char>) -> Seq<char> {
    if p.len() > 0 && p.last() == '/' {
        trim_end_char(p, '/')
    } else {
        p
    }
}

/// The child sitemap with its `<loc>` URLs moved onto the domain, or the document unchanged
/// when it cannot be read.
pub open spec fn spec_rewrite_sitemap(xml: Seq<char>, domain_origin: Seq<char>, path_prefix: Seq<
    char,
>) -> Seq<char> {
    let toks = xml_tokens(xml);
    if read_without_error(toks) {
        rewrite_tokens(
            toks.map_values(|t: Option<XmlToken>| t->0),
            0,
            false,
            Seq::empty(),
            Seq::empty(),
            trim_end_char(domain_origin, '/'),
            spec_clean_prefix(path_prefix),
        )
    } else {
        xml
    }
}

/// Reads the events of a document, up to and including the end of the document; `None` on
/// a read error.
pub fn read_items(xml: &str) -> (r: Option<Vec<XmlItem>>)
    ensures
        match r {
            None => !read_without_error(xml_tokens(xml@)),
            Some(items) => read_without_error(xml_tokens(xml@)) && item_tokens(items@)
                == xml_tokens(xml@).map_values(|t: Option<XmlToken>| t->0),
        },
{
    let ghost toks = xml_tokens(xml@);
    let mut reader = text_reader(xml);
    let mut buf: Vec<u8> = Vec::new();
    let mut items: Vec<XmlItem> = Vec::new();
    loop
        invariant
            toks == xml_tokens(xml@),
            crate::xml::ends_once(toks),
            items@.len() < toks.len(),
            pending_events(reader) == toks.subrange(items@.len() as int, toks.len() as int),
            forall|k: int| 0 <= k < items@.len() ==> toks[k] == Some(#[trigger] items@[k].token()),
        decreases toks.len() - items@.len(),
    {
        let ghost n: int = items@.len() as int;
        match read_item(&mut reader, &mut buf) {
            Err(()) => {
                assert(toks[n] is None);
                return None;
            },
            Ok(item) => {
                assert(toks.subrange(n as int, toks.len() as int).drop_first() =~= toks.subrange(
                    n + 1,
                    toks.len() as int,
                ));
                let eof = item.kind() == XmlKind::Eof;
                items.push(item);
                if eof {
                    assert(n == toks.len() - 1);
                    proof {
                        assert forall|k: int| 0 <= k < toks.len() implies (#[trigger] toks[k]) is Some by {
                            assert(toks[k] == Some(items@[k].token()));
                        }
                        assert(item_tokens(items@) =~= toks.map_values(|t: Option<XmlToken>| t->0));
                    }
                    return Some(items);
                }
            },
        }
    }
}

/// Rewrites read events: every event is written back as it was read, except that the text
/// of each `<loc>` element is collected and replaced by that text moved onto `domain` and
/// `prefix` (see [`rewrite_tokens`]).
pub fn rewrite_items(items: &[XmlItem], domain: &str, prefix: &str) -> (r: String)
    ensures
        r@ == rewrite_tokens(item_tokens(items@), 0, false, Seq::empty(), Seq::empty(), domain@, prefix@),
{
    let ghost toks = item_tokens(items@);
    let mut inside_loc = false;
    let mut loc_buf = String::new();
    let mut out = String::new();
    let mut i: usize = 0;
    while i < items.len()
        invariant
            i <= items@.len(),
            toks == item_tokens(items@),
            rewrite_tokens(toks, i as int, inside_loc, loc_buf@, out@, domain@, prefix@)
                == rewrite_tokens(toks, 0, false, Seq::empty(), Seq::empty(), domain@, prefix@),
        decreases items.len() - i,
    {
        let item = &items[i];
        assert(toks[i as int] == item.token());
        proof {
            item.lemma_token_parts();
        }
        let name = chars_of(item.local_name().as_str());
        let loc_name = chars_of("loc");
        let is_loc = chars_eq(name.as_slice(), loc_name.as_slice());
        match item.kind() {
            XmlKind::Eof => {
                return out;
            },
            XmlKind::Start => {
                out.append(write_item(item).as_str());
                if is_loc {
                    inside_loc = true;
                    loc_buf = String::new();
                }
            },
            XmlKind::End => {
                if inside_loc && is_loc {
                    let replacement = loc_text_replacement(
                        loc_buf.as_str(),
                        domain,
                        prefix,
                    );
                    out.append(write_text(replacement.as_str()).as_str());
                    out.append(write_item(item).as_str());
                    inside_loc = false;
                    loc_buf = String::new();
                } else {
                    out.append(write_item(item).as_str());
                }
            },
            XmlKind::Text => {
                if inside_loc {
                    match item.decoded_text() {
                        Some(t) => loc_buf.append(t.as_str()),
                        None => loc_buf.append(item.raw()),
                    }
                } else {
                    out.append(write_item(item).as_str());
                }
            },
            XmlKind::CData => {
                if inside_loc {
                    match item.decoded_text() {
                        Some(t) => loc_buf.append(t.as_str()),
                        None => {},
                    }
                } else {
                    out.append(write_item(item).as_str());
                }
            },
            _ => {
                out.append(write_item(item).as_str());
            },
        }
        i = i + 1;
    }
    out
}

/// Rewrites the `<loc>` URLs of a child sitemap onto the domain origin and path prefix,
/// reading the document as a stream of XML events (text trimmed, `loc` matched by local
/// name, text split over several nodes or held in CDATA collected) and writing each back. On
/// a read error the document is returned unchanged.
pub fn rewrite_sitemap_to_domain_path(xml: &str, domain_origin: &str, path_prefix: &str) -> (r:
    String)
    ensures
        r@ == spec_rewrite_sitemap(xml@, domain_origin@, path_prefix@),
{
    let domain = normalize_origin(domain_origin);
    let pp = chars_of(path_prefix);
    let prefix = if chars_ends_with_char(pp.as_slice(), '/') {
        let n = trim_end_char_len(pp.as_slice(), '/');
        string_of(chars_sub(pp.as_slice(), 0, n).as_slice())
    } else {
        String::from_str(path_prefix)
    };
    match read_items(xml) {
        None => String::from_str(xml),
        Some(items) => rewrite_items(items.as_slice(), domain.as_str(), prefix.as_str()),
    }
}

/// The collected text of a `<loc>` element, trimmed and moved onto the domain.
fn loc_text_replacement(collected: &str, domain: &str, prefix: &str) -> (r: String)
    ensures
        r@ == loc_replacement(collected@, domain@, prefix@),
{
    let c = chars_of(collected);
    let (s, e) = trim_ws_bounds(c.as_slice());
    if s == e {
        return String::new();
    }
    let trimmed = string_of(chars_sub(c.as_slice(), s, e).as_slice());
    rewrite_loc_url(trimmed.as_str(), domain, prefix)
}

/// The URL of a route's child sitemap upstream: the origin without trailing slashes, then the
/// sitemap path with a leading `/` added when it lacks one.
pub open spec fn spec_sitemap_upstream_url(origin: Seq<char>, path: Seq<char>) -> Seq<char> {
    trim_end_char(origin, '/') + if path.len() > 0 && path[0] == '/' {
        path
    } else {
        seq!['/'] + path
    }
}

/// The URL a route's child sitemap is fetched from.
pub fn sitemap_upstream_url(upstream_origin: &str, upstream_path: &str) -> (r: String)
    ensures
        r@ == spec_sitemap_upstream_url(upstream_origin@, upstream_path@),
{
    let mut out = chars_of(normalize_origin(upstream_origin).as_str());
    let p = chars_of(upstream_path);
    if !chars_starts_with_char(p.as_slice(), '/') {
        out.push('/');
    }
    extend_chars(&mut out, p.as_slice());
    let r = string_of(out.as_slice());
    assert(r@ =~= spec_sitemap_upstream_url(upstream_origin@, upstream_path@));
    r
}

/// The body served for a child sitemap: rewritten onto the domain when both the domain
/// origin and the route's path prefix are given, else the upstream body as it is.
pub fn sitemap_body(body: &str, domain_origin: Option<&str>, prefix: Option<&str>) -> (r: String)
    ensures
        r@ == match (domain_origin, prefix) {
            (Some(d), Some(p)) => spec_rewrite_sitemap(body@, d@, p@),
            _ => body@,
        },
{
    match (domain_origin, prefix) {
        (Some(d), Some(p)) => rewrite_sitemap_to_domain_path(body, d, p),
        _ => String::from_str(body),
    }
}

} // verus!
