//! How the router answers a request: the decision the request handler acts on.
use vstd::prelude::*;

use crate::constants::HEALTH_PATH;
use crate::constants::MISSING_BINDING_PREFIX;
use crate::constants::SITEMAP_INDEX_PATH;
use crate::router::matcher::first_serving;
use crate::router::matcher::match_route;
use crate::router::matcher::root;
use crate::router::matcher::spec_upstream_path;
use crate::router::matcher::spec_upstream_url;
use crate::router::matcher::RouteMatch;
use crate::routes::Route;
use crate::sitemap::extract_route_key;
use crate::sitemap::first_sitemap_route_from;
use crate::sitemap::normalize_origin;
use crate::sitemap::route_for_key;
use crate::sitemap::spec_extract_route_key;
use crate::text::chars_eq;
use crate::text::chars_of;
use crate::text::chars_starts_with;
use crate::text::chars_sub;
use crate::text::starts_with;
use crate::text::string_of;
use crate::text::trim_end_char;
use crate::urls::url_origin_ascii;

verus! {

/// What the router does with a request that is not a health check.
pub enum Dispatch {
    /// The route definitions could not be loaded: 503 `route_definitions_error`.
    RoutesUnavailable,
    /// Serve the sitemap index.
    SitemapIndex,
    /// Fetch a route's child sitemap from `origin` at `path`; rewrite its URLs onto the
    /// request origin under `prefix` when the route has a prefix other than `/`.
    SitemapProxy { origin: String, path: String, prefix: Option<String> },
    /// The child sitemap asked for is not served: 404.
    SitemapNotConfigured,
    /// No route serves the path: 502 `no_match`.
    NoMatch,
    /// The matched route's origin binding is missing: 503 `missing_binding`, naming it.
    MissingBinding { route: Route, binding: String },
    /// The matched route points back at the router's own origin: 503 `proxy_loop_detected`.
    ProxyLoop { route: Route, upstream_origin: String },
    /// Proxy the request upstream.
    Proxy(RouteMatch),
}

/// Whether the request is the health check, answered before anything else.
pub fn is_health_check(pathname: &str) -> (r: bool)
    ensures
        r == (pathname@ == "/_health"@),
{
    let p = chars_of(pathname);
    let h = chars_of(HEALTH_PATH);
    chars_eq(p.as_slice(), h.as_slice())
}

/// The binding name of a missing-binding origin: what follows `missing-binding:`.
pub open spec fn missing_binding_name(origin: Seq<char>) -> Seq<char> {
    origin.subrange("missing-binding:"@.len() as int, origin.len() as int)
}

/// `d` fetches the child sitemap of `route`.
pub open spec fn is_sitemap_proxy_for(d: Dispatch, route: Route) -> bool {
    match d {
        Dispatch::SitemapProxy { origin, path, prefix } => {
            &&& origin@ == route.origin@
            &&& route.sitemap matches Some(sp) && path@ == sp@
            &&& if route.prefix@ == root() {
                prefix is None
            } else {
                prefix matches Some(p) && p@ == route.prefix@
            }
        },
        _ => false,
    }
}

/// `d` is the decision for a request from `request_origin` that `route` serves with the
/// upstream URL `href`.
pub open spec fn is_proxy_decision(d: Dispatch, route: Route, href: Seq<char>, request_origin: Seq<
    char,
>) -> bool {
    if starts_with(route.origin@, "missing-binding:"@) {
        d matches Dispatch::MissingBinding { route: rt, binding } && rt == route && binding@
            == missing_binding_name(route.origin@)
    } else if trim_end_char(request_origin, '/') == trim_end_char(url_origin_ascii(href), '/') {
        d matches Dispatch::ProxyLoop { route: rt, upstream_origin } && rt == route
            && upstream_origin@ == url_origin_ascii(href)
    } else {
        d matches Dispatch::Proxy(m) && m.route == route && m.upstream@ == href
    }
}

/// The decision for a request to `pathname` from `request_origin` (its origin's ASCII
/// serialization), given the route list or `None` when it could not be loaded:
///
/// - no routes: [`Dispatch::RoutesUnavailable`];
/// - `/sitemap.xml`: the index;
/// - `/sitemaps/{key}.xml`: the first route with that key and a served sitemap, else 404;
/// - otherwise the first route serving the path ([`match_route`]): none, or no upstream URL,
///   is `NoMatch`; a missing origin binding is `MissingBinding`; an upstream with the
///   request's own origin (trailing slashes ignored) is `ProxyLoop`; else `Proxy`.
pub fn dispatch(pathname: &str, request_origin: &str, routes: Option<&Vec<Route>>) -> (r: Dispatch)
    ensures
        match routes {
            None => r is RoutesUnavailable,
            Some(rs) => if pathname@ == "/sitemap.xml"@ {
                r is SitemapIndex
            } else {
                match spec_extract_route_key(pathname@) {
                    Some(key) => match first_sitemap_route_from(rs@, key, 0) {
                        None => r is SitemapNotConfigured,
                        Some(i) => is_sitemap_proxy_for(r, rs@[i]),
                    },
                    None => match first_serving(rs@, pathname@) {
                        None => r is NoMatch,
                        Some(i) => match spec_upstream_url(
                            rs@[i].origin@,
                            spec_upstream_path(rs@[i], pathname@),
                        ) {
                            None => r is NoMatch,
                            Some(h) => is_proxy_decision(r, rs@[i], h, request_origin@),
                        },
                    },
                }
            },
        },
        r matches Dispatch::Proxy(m) ==> !starts_with(m.route.origin@, "missing-binding:"@)
            && trim_end_char(request_origin@, '/') != trim_end_char(
            url_origin_ascii(m.upstream@),
            '/',
        ),
{
    let routes = match routes {
        None => {
            return Dispatch::RoutesUnavailable;
        },
        Some(rs) => rs,
    };
    let origin = normalize_origin(request_origin);
    let p = chars_of(pathname);
    let index = chars_of(SITEMAP_INDEX_PATH);
    if chars_eq(p.as_slice(), index.as_slice()) {
        return Dispatch::SitemapIndex;
    }
    match extract_route_key(pathname) {
        Some(key) => {
            proof {
                crate::sitemap::lemma_first_sitemap_route(routes@, key@, 0);
            }
            return match route_for_key(routes.as_slice(), key.as_str()) {
                None => Dispatch::SitemapNotConfigured,
                Some(route) => {
                    let path = match &route.sitemap {
                        Some(sp) => sp.clone(),
                        None => String::new(),
                    };
                    let rp = chars_of(route.prefix.as_str());
                    let mut slash: Vec<char> = Vec::new();
                    slash.push('/');
                    assert(slash@ =~= root());
                    let prefix = if chars_eq(rp.as_slice(), slash.as_slice()) {
                        None
                    } else {
                        Some(route.prefix.clone())
                    };
                    Dispatch::SitemapProxy { origin: route.origin.clone(), path, prefix }
                },
            };
        },
        None => {},
    }
    match match_route(pathname, routes.as_slice()) {
        None => Dispatch::NoMatch,
        Some(m) => {
            let o = chars_of(m.route.origin.as_str());
            let missing = chars_of(MISSING_BINDING_PREFIX);
            if chars_starts_with(o.as_slice(), missing.as_slice()) {
                proof {
                    reveal_strlit("missing-binding:");
                }
                let binding = string_of(chars_sub(o.as_slice(), 16, o.len()).as_slice());
                let route = m.route;
                return Dispatch::MissingBinding { route, binding };
            }
            let upstream_origin = m.upstream.origin_ascii();
            let upstream_norm = normalize_origin(upstream_origin.as_str());
            let a = chars_of(origin.as_str());
            let b = chars_of(upstream_norm.as_str());
            if chars_eq(a.as_slice(), b.as_slice()) {
                let route = m.route;
                Dispatch::ProxyLoop { route, upstream_origin }
            } else {
                Dispatch::Proxy(m)
            }
        },
    }
}

} // verus!
