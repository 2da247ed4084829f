//! The decisions of the origin resolver: which route definitions it accepts, the Pages API
//! address it asks for a project, and the deploy arguments that bind the origins it found.
use vstd::prelude::*;

use crate::routes::binding_route_key;
use crate::routes::spec_binding_route_key;
use crate::routes::spec_origin_var_name;
use crate::routes::RouteDefinition;
use crate::text::all_key_chars;
use crate::text::chars_all_key;
use crate::text::chars_blank;
use crate::text::chars_of;
use crate::text::chars_starts_with_char;
use crate::text::str_eq;
use crate::tools::blank;
use crate::tools::deploy_var_arg;
use crate::urls::parse_url;
use crate::urls::url_parse_error;
use crate::urls::url_parses;
use crate::urls::url_serialization;
use crate::urls::url_with_segment;
use crate::urls::ParsedUrl;
use crate::validation::rooted;

verus! {

/// The error of an empty list of route definitions.
pub open spec fn spec_route_list_error(n: nat) -> Option<Seq<char>> {
    if n == 0 {
        Some("route definitions must not be empty"@)
    } else {
        None
    }
}

/// The resolver refuses an empty list of route definitions.
pub fn route_list_error(routes: &[RouteDefinition]) -> (r: Option<String>)
    ensures
        match spec_route_list_error(routes@.len()) {
            Some(e) => r matches Some(m) && m@ == e,
            None => r is None,
        },
{
    if routes.len() == 0 {
        Some(String::from_str("route definitions must not be empty"))
    } else {
        None
    }
}

/// The error the resolver refuses the route at position `i` with before asking for its
/// origin, given the routes before it; `None` when it passes.
pub open spec fn spec_precheck_route(routes: Seq<RouteDefinition>, i: int) -> Option<Seq<char>> {
    let d = routes[i];
    if blank(d.route_key@) {
        Some("each route must include a non-empty routeKey"@)
    } else if !all_key_chars(d.route_key@) {
        Some("each route routeKey must match [a-z0-9_-]+"@)
    } else if exists|j: int| 0 <= j < i && #[trigger] routes[j].route_key@ == d.route_key@ {
        Some("duplicate routeKey: "@ + d.route_key@)
    } else if !rooted(d.prefix@) {
        Some("each route must include a prefix starting with '/'"@)
    } else if !rooted(d.rewrite_to@) {
        Some("each route must include rewritePrefixTo starting with '/'"@)
    } else if blank(d.project_name@) {
        Some("each route must include a non-empty projectName"@)
    } else {
        None
    }
}

/// Checks the route at position `i` before its origin is looked up.
pub fn precheck_route(routes: &[RouteDefinition], i: usize) -> (r: Result<(), String>)
    requires
        i < routes@.len(),
    ensures
        match spec_precheck_route(routes@, i as int) {
            Some(e) => r matches Err(m) && m@ == e,
            None => r is Ok,
        },
{
    let d = &routes[i];
    let key = chars_of(d.route_key.as_str());
    if chars_blank(key.as_slice()) {
        return Err(String::from_str("each route must include a non-empty routeKey"));
    }
    if !chars_all_key(key.as_slice()) {
        return Err(String::from_str("each route routeKey must match [a-z0-9_-]+"));
    }
    let mut j: usize = 0;
    while j < i
        invariant
            j <= i < routes@.len(),
            *d == routes@[i as int],
            !blank(d.route_key@),
            all_key_chars(d.route_key@),
            forall|k: int| 0 <= k < j ==> #[trigger] routes@[k].route_key@ != d.route_key@,
        decreases i - j,
    {
        if str_eq(routes[j].route_key.as_str(), d.route_key.as_str()) {
            assert(routes@[j as int].route_key@ == routes@[i as int].route_key@);
            let mut m = String::from_str("duplicate routeKey: ");
            m.append(d.route_key.as_str());
            return Err(m);
        }
        j = j + 1;
    }
    let prefix = chars_of(d.prefix.as_str());
    if !chars_starts_with_char(prefix.as_slice(), '/') {
        return Err(String::from_str("each route must include a prefix starting with '/'"));
    }
    let rewrite = chars_of(d.rewrite_to.as_str());
    if !chars_starts_with_char(rewrite.as_slice(), '/') {
        return Err(String::from_str("each route must include rewritePrefixTo starting with '/'"));
    }
    let project = chars_of(d.project_name.as_str());
    if chars_blank(project.as_slice()) {
        return Err(String::from_str("each route must include a non-empty projectName"));
    }
    Ok(())
}

/// What binding the origin of the route at position `i` gives: the deploy argument, or the
/// conflict with an earlier route whose key maps to the same binding key.
pub open spec fn spec_bind_route(routes: Seq<RouteDefinition>, i: int, origin_url: Seq<char>) -> Result<
    Seq<char>,
    Seq<char>,
> {
    let key = routes[i].route_key@;
    let b = spec_binding_route_key(key);
    if exists|j: int| 0 <= j < i && spec_binding_route_key(#[trigger] routes[j].route_key@) == b {
        Err(
            "routeKey '"@ + key
                + "' conflicts with another routeKey when normalized for origin binding ('"@ + b
                + "')"@,
        )
    } else {
        Ok(" --var "@ + spec_origin_var_name(key) + ":"@ + origin_url)
    }
}

/// Binds the origin found for the route at position `i`, given the routes before it.
pub fn bind_route(routes: &[RouteDefinition], i: usize, origin_url: &str) -> (r: Result<
    String,
    String,
>)
    requires
        i < routes@.len(),
    ensures
        match spec_bind_route(routes@, i as int, origin_url@) {
            Ok(a) => r matches Ok(s) && s@ == a,
            Err(e) => r matches Err(m) && m@ == e,
        },
{
    let key = routes[i].route_key.as_str();
    let b = binding_route_key(key);
    let mut j: usize = 0;
    while j < i
        invariant
            j <= i < routes@.len(),
            key@ == routes@[i as int].route_key@,
            b@ == spec_binding_route_key(key@),
            forall|k: int|
                0 <= k < j ==> spec_binding_route_key(#[trigger] routes@[k].route_key@) != b@,
        decreases i - j,
    {
        let other = binding_route_key(routes[j].route_key.as_str());
        if str_eq(other.as_str(), b.as_str()) {
            let mut m = String::from_str("routeKey '");
            m.append(key);
            m.append("' conflicts with another routeKey when normalized for origin binding ('");
            m.append(b.as_str());
            m.append("')");
            return Err(m);
        }
        j = j + 1;
    }
    Ok(deploy_var_arg(key, origin_url))
}

/// The address of the Pages project list of an account.
pub open spec fn spec_projects_base(account_id: Seq<char>) -> Seq<char> {
    "https://api.cloudflare.com/client/v4/accounts/"@ + account_id + "/pages/projects"@
}

/// The Pages API address of a project: the account's project list with the project name
/// pushed as one more (percent-encoded) path segment; the URL parser's message when the
/// list's address does not parse, `invalid URL path` when it cannot take a segment.
pub open spec fn spec_project_api_url(account_id: Seq<char>, project_name: Seq<char>) -> Result<
    Seq<char>,
    Seq<char>,
> {
    let base = spec_projects_base(account_id);
    if !url_parses(base) {
        Err(url_parse_error(base))
    } else {
        match url_with_segment(url_serialization(base), project_name) {
            Some(href) => Ok(href),
            None => Err("invalid URL path"@),
        }
    }
}

/// The Pages API address the resolver asks for a project's subdomain.
pub fn project_api_url(account_id: &str, project_name: &str) -> (r: Result<ParsedUrl, String>)
    ensures
        match spec_project_api_url(account_id@, project_name@) {
            Ok(href) => r matches Ok(u) && u@ == href,
            Err(e) => r matches Err(m) && m@ == e,
        },
{
    let mut base = String::from_str("https://api.cloudflare.com/client/v4/accounts/");
    base.append(account_id);
    base.append("/pages/projects");
    match parse_url(base.as_str()) {
        Err(e) => Err(e),
        Ok(u) => match u.with_path_segment(project_name) {
            Some(v) => Ok(v),
            None => Err(String::from_str("invalid URL path")),
        },
    }
}

} // verus!
