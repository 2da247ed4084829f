//! Matching a request path against the route list, and the upstream URL it is sent to.
use vstd::prelude::*;
use vstd::utf8::encode_utf8;
use vstd::utf8::is_char_boundary;

use crate::routes::byte_len;
use crate::routes::is_route_table;
use crate::routes::Route;
use crate::routes::RouteDefinition;
use crate::text::byte_suffix;
use crate::text::chars_eq;
use crate::text::chars_of;
use crate::text::chars_starts_with;
use crate::text::chars_ends_with_char;
use crate::text::chars_starts_with_char;
use crate::text::extend_chars;
use crate::text::lemma_byte_suffix_of_prefix;
use crate::text::starts_with;
use crate::text::str_tail;
use crate::text::string_of;
use crate::text::trim_end_char;
use crate::text::trim_end_char_len;
use crate::urls::decimal;
use crate::urls::decimal_chars;
use crate::urls::parse_url;
use crate::urls::url_host;
use crate::urls::url_parses;
use crate::urls::url_port;
use crate::urls::url_scheme;
use crate::urls::url_serialization;
use crate::urls::ParsedUrl;

verus! {

/// The route a request path matched, and the upstream URL it is proxied to.
pub struct RouteMatch {
    pub route: Route,
    pub upstream: ParsedUrl,
}

/// The root prefix `/`.
pub open spec fn root() -> Seq<char> {
    seq!['/']
}

/// A route with prefix `prefix` serves `path`: the root prefix serves every path; any other
/// prefix serves itself and the paths below it (`prefix/...`), not mere string extensions.
pub open spec fn serves(prefix: Seq<char>, path: Seq<char>) -> bool {
    prefix == root() || path == prefix || starts_with(path, prefix.push('/'))
}

/// The index of the first route, from `i` on, that serves `path`.
pub open spec fn first_serving_from(routes: Seq<Route>, path: Seq<char>, i: int) -> Option<int>
    decreases routes.len() - i,
{
    if i < 0 || i >= routes.len() {
        None
    } else if serves(routes[i].prefix@, path) {
        Some(i)
    } else {
        first_serving_from(routes, path, i + 1)
    }
}

/// A route found by [`first_serving_from`] serves the path, and none before it does.
pub proof fn lemma_first_serving(routes: Seq<Route>, path: Seq<char>, i: int)
    requires
        0 <= i,
    ensures
        first_serving_from(routes, path, i) matches Some(k) ==> i <= k < routes.len() && serves(
            routes[k].prefix@,
            path,
        ) && forall|j: int| i <= j < k ==> !serves(#[trigger] routes[j].prefix@, path),
        first_serving_from(routes, path, i) is None ==> forall|j: int|
            i <= j < routes.len() ==> !serves(#[trigger] routes[j].prefix@, path),
    decreases routes.len() - i,
{
    if i < routes.len() && !serves(routes[i].prefix@, path) {
        lemma_first_serving(routes, path, i + 1);
    }
}

/// The index of the first route that serves `path`.
pub open spec fn first_serving(routes: Seq<Route>, path: Seq<char>) -> Option<int> {
    first_serving_from(routes, path, 0)
}

/// How the rest of a path (`suffix`) is joined to a rewrite target: an empty rest gives the
/// target, the target `/` gives the rest, and otherwise exactly one `/` separates them.
pub open spec fn spec_join_rewrite(suffix: Seq<char>, rewrite_to: Seq<char>) -> Seq<char> {
    let target_slash = rewrite_to.len() > 0 && rewrite_to.last() == '/';
    let suffix_slash = suffix.len() > 0 && suffix[0] == '/';
    if suffix.len() == 0 {
        rewrite_to
    } else if rewrite_to == root() {
        suffix
    } else if target_slash && suffix_slash {
        trim_end_char(rewrite_to, '/') + suffix
    } else if !target_slash && !suffix_slash {
        rewrite_to + root() + suffix
    } else {
        rewrite_to + suffix
    }
}

/// The path with its first `matched_prefix`'s worth of bytes replaced by `rewrite_to`.
pub open spec fn spec_rewrite_prefix(path: Seq<char>, matched_prefix: Seq<char>, rewrite_to: Seq<
    char,
>) -> Seq<char> {
    spec_join_rewrite(byte_suffix(path, encode_utf8(matched_prefix).len() as int), rewrite_to)
}

/// The path a route sends upstream: the root route passes the path through; any other route
/// rewrites its prefix to its rewrite target.
pub open spec fn spec_upstream_path(route: Route, path: Seq<char>) -> Seq<char> {
    if route.prefix@ == root() {
        path
    } else {
        spec_rewrite_prefix(path, route.prefix@, route.rewrite_to@)
    }
}

/// `:port` when the URL has an explicit port, else nothing.
pub open spec fn port_part(port: Option<u16>) -> Seq<char> {
    match port {
        Some(p) => seq![':'] + decimal(p as nat),
        None => Seq::empty(),
    }
}

/// The text of the upstream URL: the origin's scheme, host and port, then the path, with a
/// `/` put in front of it when it has none.
pub open spec fn spec_upstream_text(href: Seq<char>, host: Seq<char>, path: Seq<char>) -> Seq<char> {
    url_scheme(href) + "://"@ + host + port_part(url_port(href)) + (if path.len() > 0 && path[0]
        == '/' {
        Seq::empty()
    } else {
        root()
    }) + path
}

/// The serialization of the upstream URL for `origin` and `path`, if there is one: the origin
/// must parse and have a host, and the URL built from them must parse.
pub open spec fn spec_upstream_url(origin: Seq<char>, path: Seq<char>) -> Option<Seq<char>> {
    if !url_parses(origin) {
        None
    } else {
        let href = url_serialization(origin);
        match url_host(href) {
            None => None,
            Some(host) => {
                let text = spec_upstream_text(href, host, path);
                if url_parses(text) {
                    Some(url_serialization(text))
                } else {
                    None
                }
            },
        }
    }
}

/// The path with the matched prefix replaced by the rewrite target.
///
/// The prefix is dropped by its length in bytes (the caller has checked that the path starts
/// with it); the rest is then joined to the rewrite target with exactly one `/` between them,
/// except that an empty rest gives the target alone and the target `/` gives the rest alone.
pub fn rewrite_prefix(pathname: &str, matched_prefix: &str, rewrite_to: &str) -> (r: String)
    requires
        is_char_boundary(encode_utf8(pathname@), encode_utf8(matched_prefix@).len() as int),
    ensures
        r@ == spec_rewrite_prefix(pathname@, matched_prefix@, rewrite_to@),
{
    let n = crate::text::byte_count(matched_prefix);
    let suffix = chars_of(str_tail(pathname, n));
    let target = chars_of(rewrite_to);
    if suffix.len() == 0 {
        return String::from_str(rewrite_to);
    }
    let mut slash: Vec<char> = Vec::new();
    slash.push('/');
    proof {
        assert(slash@ =~= root());
    }
    if chars_eq(target.as_slice(), slash.as_slice()) {
        return string_of(suffix.as_slice());
    }
    let target_slash = chars_ends_with_char(target.as_slice(), '/');
    let suffix_slash = chars_starts_with_char(suffix.as_slice(), '/');
    let mut out: Vec<char> = Vec::new();
    if target_slash && suffix_slash {
        let keep = trim_end_char_len(target.as_slice(), '/');
        let head = crate::text::chars_sub(target.as_slice(), 0, keep);
        extend_chars(&mut out, head.as_slice());
    } else if !target_slash && !suffix_slash {
        extend_chars(&mut out, target.as_slice());
        out.push('/');
    } else {
        extend_chars(&mut out, target.as_slice());
    }
    extend_chars(&mut out, suffix.as_slice());
    string_of(out.as_slice())
}

/// The upstream URL for a route origin and a path: the origin's scheme, host and port with
/// the path after them, the path given a leading `/` if it lacks one.
///
/// `None` when the origin does not parse, has no host, or the result does not parse.
pub fn build_upstream_url(origin: &str, path: &str) -> (r: Option<ParsedUrl>)
    ensures
        match spec_upstream_url(origin@, path@) {
            None => r is None,
            Some(h) => r matches Some(u) && u@ == h,
        },
{
    let origin_url = match parse_url(origin) {
        Ok(u) => u,
        Err(_) => {
            return None;
        },
    };
    let host = match origin_url.host_str() {
        Some(h) => h,
        None => {
            return None;
        },
    };
    let mut s: Vec<char> = chars_of(origin_url.scheme().as_str());
    extend_chars(&mut s, chars_of("://").as_slice());
    extend_chars(&mut s, chars_of(host.as_str()).as_slice());
    match origin_url.port() {
        Some(port) => {
            s.push(':');
            extend_chars(&mut s, decimal_chars(port as u32).as_slice());
        },
        None => {},
    }
    let p = chars_of(path);
    if !chars_starts_with_char(p.as_slice(), '/') {
        s.push('/');
    }
    extend_chars(&mut s, p.as_slice());
    let text = string_of(s.as_slice());
    proof {
        let href = origin_url@;
        let expected = spec_upstream_text(href, host@, path@);
        assert(text@ =~= expected);
    }
    match parse_url(text.as_str()) {
        Ok(u) => Some(u),
        Err(_) => None,
    }
}

/// The first route that serves `pathname`, with the upstream URL the request goes to.
///
/// Routes are tried in order; the first whose prefix serves the path is taken (see
/// [`serves`]), even when its upstream URL cannot be built, in which case there is no match.
pub fn match_route(pathname: &str, routes: &[Route]) -> (r: Option<RouteMatch>)
    ensures
        match first_serving(routes@, pathname@) {
            None => r is None,
            Some(i) => match spec_upstream_url(
                routes@[i].origin@,
                spec_upstream_path(routes@[i], pathname@),
            ) {
                None => r is None,
                Some(h) => r matches Some(m) && m.route == routes@[i] && m.upstream@ == h,
            },
        },
{
    let path = chars_of(pathname);
    let mut i: usize = 0;
    while i < routes.len()
        invariant
            i <= routes@.len(),
            path@ == pathname@,
            first_serving_from(routes@, pathname@, i as int) == first_serving(routes@, pathname@),
        decreases routes.len() - i,
    {
        let route = &routes[i];
        let prefix = chars_of(route.prefix.as_str());
        let mut slash: Vec<char> = Vec::new();
        slash.push('/');
        proof {
            assert(slash@ =~= root());
        }
        if chars_eq(prefix.as_slice(), slash.as_slice()) {
            let upstream = build_upstream_url(route.origin.as_str(), pathname);
            return match upstream {
                Some(u) => Some(RouteMatch { route: route.duplicate(), upstream: u }),
                None => None,
            };
        }
        let mut with_slash: Vec<char> = Vec::new();
        extend_chars(&mut with_slash, prefix.as_slice());
        with_slash.push('/');
        if chars_eq(path.as_slice(), prefix.as_slice()) || chars_starts_with(
            path.as_slice(),
            with_slash.as_slice(),
        ) {
            proof {
                if path@ == prefix@ {
                    assert(pathname@.subrange(0, pathname@.len() as int) =~= pathname@);
                    assert(starts_with(pathname@, route.prefix@));
                } else {
                    assert(starts_with(pathname@, route.prefix@)) by {
                        assert(with_slash@ == prefix@.push('/'));
                        assert(with_slash@.subrange(0, prefix@.len() as int) =~= prefix@);
                        assert(pathname@.subrange(0, with_slash@.len() as int) == with_slash@);
                        assert(pathname@.subrange(0, prefix@.len() as int) =~= pathname@.subrange(
                            0,
                            with_slash@.len() as int,
                        ).subrange(0, prefix@.len() as int));
                    }
                }
                lemma_byte_suffix_of_prefix(pathname@, route.prefix@);
            }
            let new_path = rewrite_prefix(pathname, route.prefix.as_str(), route.rewrite_to.as_str());
            let upstream = build_upstream_url(route.origin.as_str(), new_path.as_str());
            return match upstream {
                Some(u) => Some(RouteMatch { route: route.duplicate(), upstream: u }),
                None => None,
            };
        }
        i = i + 1;
    }
    None
}

/// A path under a prefix is rewritten to the rest of the path after the prefix, placed under
/// the rewrite target: for the target `/` the rest itself (`/` for the prefix alone), and
/// for another target the target and the rest with exactly one `/` between them.
pub proof fn lemma_rewrite_keeps_rest_of_path(prefix: Seq<char>, rest: Seq<char>, rewrite_to: Seq<
    char,
>)
    requires
        rest.len() == 0 || rest[0] == '/',
    ensures
        spec_rewrite_prefix(prefix + rest, prefix, rewrite_to) == spec_join_rewrite(
            rest,
            rewrite_to,
        ),
        rewrite_to == root() ==> spec_rewrite_prefix(prefix + rest, prefix, rewrite_to) == (if rest.len()
            == 0 {
            root()
        } else {
            rest
        }),
{
    let p = prefix + rest;
    assert(p.subrange(0, prefix.len() as int) =~= prefix);
    lemma_byte_suffix_of_prefix(p, prefix);
    assert(p.subrange(prefix.len() as int, p.len() as int) =~= rest);
}

/// In a route table built from definitions, the route a path is matched to has the longest
/// prefix (in bytes) among all routes that serve the path.
pub proof fn lemma_longest_prefix_wins(
    defs: Seq<RouteDefinition>,
    origins: Seq<Option<String>>,
    routes: Seq<Route>,
    perm: Seq<int>,
    path: Seq<char>,
)
    requires
        is_route_table(defs, origins, routes, perm),
    ensures
        first_serving(routes, path) matches Some(k) ==> forall|j: int|
            0 <= j < routes.len() && serves(#[trigger] routes[j].prefix@, path) ==> byte_len(
                routes[j].prefix@,
            ) <= byte_len(routes[k].prefix@),
{
    lemma_first_serving(routes, path, 0);
    if let Some(k) = first_serving(routes, path) {
        assert forall|j: int|
            0 <= j < routes.len() && serves(#[trigger] routes[j].prefix@, path) implies byte_len(
            routes[j].prefix@,
        ) <= byte_len(routes[k].prefix@) by {
            if j < k {
                assert(!serves(routes[j].prefix@, path));
            } else if j > k {
                assert(byte_len(routes[k].prefix@) >= byte_len(routes[j].prefix@));
            }
        }
    }
}

} // verus!
