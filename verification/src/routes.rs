//! Route definitions: their validation, origin binding names, and the ordered route list
//! the router matches against.
use vstd::prelude::*;
use vstd::utf8::encode_utf8;

use crate::text::all_key_chars;
use crate::text::chars_all_key;
use crate::text::chars_blank;
use crate::text::chars_of;
use crate::text::chars_starts_with_char;
use crate::text::extend_chars;
use crate::text::string_of;
use crate::text::trim_ws;

verus! {

/// One entry of the route definitions the router is deployed with.
#[derive(Debug, Clone)]
pub struct RouteDefinition {
    pub route_key: String,
    pub prefix: String,
    pub rewrite_to: String,
    pub project_name: String,
    pub sitemap: Option<String>,
}

/// A route the router can serve: a path prefix, the origin it is proxied to, and the
/// prefix the matched part of the path is rewritten to.
#[derive(Debug, Clone)]
pub struct Route {
    pub route_key: String,
    pub prefix: String,
    pub origin: String,
    pub rewrite_to: String,
    pub sitemap: Option<String>,
}

/// Why a set of route definitions was refused.
#[derive(Debug, Clone)]
pub enum RouteDefinitionError {
    /// The prefix does not start with `/`.
    PrefixWithoutSlash,
    /// The rewrite target does not start with `/`.
    RewriteWithoutSlash,
    /// The route key is empty or white space.
    EmptyRouteKey,
    /// The route key has a character outside `[a-z0-9_-]`.
    InvalidRouteKey,
    /// The project name is empty or white space.
    EmptyProjectName,
    /// Two definitions share this route key.
    DuplicateRouteKey(String),
    /// This route key maps to the same origin binding key as an earlier one.
    BindingKeyConflict { route_key: String, binding_key: String },
}

/// The mathematical form of a [`RouteDefinitionError`].
pub enum RouteErrorModel {
    PrefixWithoutSlash,
    RewriteWithoutSlash,
    EmptyRouteKey,
    InvalidRouteKey,
    EmptyProjectName,
    DuplicateRouteKey(Seq<char>),
    BindingKeyConflict(Seq<char>, Seq<char>),
}

impl View for RouteDefinitionError {
    type V = RouteErrorModel;

    open spec fn view(&self) -> RouteErrorModel {
        match self {
            RouteDefinitionError::PrefixWithoutSlash => RouteErrorModel::PrefixWithoutSlash,
            RouteDefinitionError::RewriteWithoutSlash => RouteErrorModel::RewriteWithoutSlash,
            RouteDefinitionError::EmptyRouteKey => RouteErrorModel::EmptyRouteKey,
            RouteDefinitionError::InvalidRouteKey => RouteErrorModel::InvalidRouteKey,
            RouteDefinitionError::EmptyProjectName => RouteErrorModel::EmptyProjectName,
            RouteDefinitionError::DuplicateRouteKey(k) => RouteErrorModel::DuplicateRouteKey(k@),
            RouteDefinitionError::BindingKeyConflict { route_key, binding_key } =>
                RouteErrorModel::BindingKeyConflict(route_key@, binding_key@),
        }
    }
}

/// The prefix origins of routes whose binding is missing start with.
pub open spec fn spec_missing_binding_prefix() -> Seq<char> {
    "missing-binding:"@
}

/// The number of bytes of the UTF-8 encoding of `s` (`str::len`).
pub open spec fn byte_len(s: Seq<char>) -> usize {
    encode_utf8(s).len() as usize
}

/// The first check that a definition fails, if any.
pub open spec fn spec_check_definition(d: RouteDefinition) -> Option<RouteErrorModel> {
    if !(d.prefix@.len() > 0 && d.prefix@[0] == '/') {
        Some(RouteErrorModel::PrefixWithoutSlash)
    } else if !(d.rewrite_to@.len() > 0 && d.rewrite_to@[0] == '/') {
        Some(RouteErrorModel::RewriteWithoutSlash)
    } else if trim_ws(d.route_key@).len() == 0 {
        Some(RouteErrorModel::EmptyRouteKey)
    } else if !all_key_chars(d.route_key@) {
        Some(RouteErrorModel::InvalidRouteKey)
    } else if trim_ws(d.project_name@).len() == 0 {
        Some(RouteErrorModel::EmptyProjectName)
    } else {
        None
    }
}

/// `key` with every `-` replaced by `_`.
pub open spec fn spec_binding_route_key(key: Seq<char>) -> Seq<char> {
    key.map_values(|c: char| if c == '-' { '_' } else { c })
}

/// The ASCII upper-case form of `c` (`char::to_ascii_uppercase`).
pub open spec fn spec_ascii_upper(c: char) -> char {
    if 'a' <= c && c <= 'z' {
        ((c as u32) - 32) as char
    } else {
        c
    }
}

/// The name of the environment binding that holds the origin of the route `key`.
pub open spec fn spec_origin_var_name(key: Seq<char>) -> Seq<char> {
    spec_binding_route_key(key).map_values(|c: char| spec_ascii_upper(c)) + "_ORIGIN"@
}

/// The error a definition list yields at position `j`, given that all earlier ones passed:
/// a failed check, a route key seen before, or a binding key seen before.
pub open spec fn spec_definition_error_at(defs: Seq<RouteDefinition>, j: int) -> Option<
    RouteErrorModel,
> {
    match spec_check_definition(defs[j]) {
        Some(e) => Some(e),
        None => if exists|i: int| 0 <= i < j && defs[i].route_key@ == defs[j].route_key@ {
            Some(RouteErrorModel::DuplicateRouteKey(defs[j].route_key@))
        } else if exists|i: int|
            0 <= i < j && spec_binding_route_key(defs[i].route_key@) == spec_binding_route_key(
                defs[j].route_key@,
            ) {
            Some(
                RouteErrorModel::BindingKeyConflict(
                    defs[j].route_key@,
                    spec_binding_route_key(defs[j].route_key@),
                ),
            )
        } else {
            None
        },
    }
}

/// Whether the definitions before position `n` all pass.
pub open spec fn spec_definitions_ok_upto(defs: Seq<RouteDefinition>, n: int) -> bool {
    forall|j: int| 0 <= j < n ==> #[trigger] spec_definition_error_at(defs, j) is None
}

/// The route served for a definition whose origin binding holds `origin`, if it is set;
/// without it the origin records the missing binding.
pub open spec fn spec_route_origin(d: RouteDefinition, origin: Option<String>) -> Seq<char> {
    match origin {
        Some(o) => o@,
        None => spec_missing_binding_prefix() + spec_origin_var_name(d.route_key@),
    }
}

/// `r` is the route served for definition `d` with origin binding value `origin`.
pub open spec fn is_route_of(r: Route, d: RouteDefinition, origin: Option<String>) -> bool {
    &&& r.route_key == d.route_key
    &&& r.prefix == d.prefix
    &&& r.origin@ == spec_route_origin(d, origin)
    &&& r.rewrite_to == d.rewrite_to
    &&& r.sitemap == d.sitemap
}

/// `out` lists the elements of `input` ordered by decreasing byte length of their prefix,
/// keeping the input order among prefixes of equal length (a stable sort).
pub open spec fn is_stable_sort_by_prefix_len(input: Seq<Route>, out: Seq<Route>, perm: Seq<
    int,
>) -> bool {
    &&& out.len() == input.len()
    &&& perm.len() == input.len()
    &&& forall|k: int| 0 <= k < perm.len() ==> 0 <= #[trigger] perm[k] < input.len()
    &&& forall|k1: int, k2: int|
        0 <= k1 < k2 < perm.len() ==> #[trigger] perm[k1] != #[trigger] perm[k2]
    &&& forall|k: int| 0 <= k < out.len() ==> #[trigger] out[k] == input[perm[k]]
    &&& forall|k1: int, k2: int|
        0 <= k1 < k2 < out.len() ==> byte_len(#[trigger] out[k1].prefix@) >= byte_len(
            #[trigger] out[k2].prefix@,
        )
    &&& forall|k1: int, k2: int|
        0 <= k1 < k2 < out.len() && byte_len(#[trigger] out[k1].prefix@) == byte_len(
            #[trigger] out[k2].prefix@,
        ) ==> perm[k1] < perm[k2]
}

/// A copy of an optional string.
pub fn copy_opt_string(o: &Option<String>) -> (r: Option<String>)
    ensures
        r == *o,
{
    match o {
        Some(s) => Some(s.clone()),
        None => None,
    }
}

impl Route {
    /// A copy of this route.
    pub fn duplicate(&self) -> (r: Route)
        ensures
            r == *self,
    {
        Route {
            route_key: self.route_key.clone(),
            prefix: self.prefix.clone(),
            origin: self.origin.clone(),
            rewrite_to: self.rewrite_to.clone(),
            sitemap: copy_opt_string(&self.sitemap),
        }
    }
}

/// The ASCII upper-case form of `c` (`char::to_ascii_uppercase`).
fn ascii_upper(c: char) -> (r: char)
    ensures
        r == spec_ascii_upper(c),
{
    if 'a' <= c && c <= 'z' {
        let b = (c as u8) - 32;
        assert(b == (c as u32) - 32);
        b as char
    } else {
        c
    }
}

/// The route key with `-` replaced by `_`, the form origin bindings are named by.
pub fn binding_route_key(route_key: &str) -> (r: String)
    ensures
        r@ == spec_binding_route_key(route_key@),
{
    let k = chars_of(route_key);
    let mut out: Vec<char> = Vec::new();
    let mut i: usize = 0;
    while i < k.len()
        invariant
            i <= k@.len(),
            k@ == route_key@,
            out@ == spec_binding_route_key(k@.subrange(0, i as int)),
        decreases k.len() - i,
    {
        let c = k[i];
        out.push(if c == '-' { '_' } else { c });
        i = i + 1;
        assert(out@ =~= spec_binding_route_key(k@.subrange(0, i as int)));
    }
    assert(k@.subrange(0, k@.len() as int) =~= k@);
    string_of(out.as_slice())
}

/// The environment binding that holds a route's origin: the binding key in upper case,
/// followed by `_ORIGIN`.
pub fn origin_var_name(route_key: &str) -> (r: String)
    ensures
        r@ == spec_origin_var_name(route_key@),
{
    let b = chars_of(binding_route_key(route_key).as_str());
    let mut out: Vec<char> = Vec::new();
    let mut i: usize = 0;
    while i < b.len()
        invariant
            i <= b@.len(),
            out@ == b@.subrange(0, i as int).map_values(|c: char| spec_ascii_upper(c)),
        decreases b.len() - i,
    {
        out.push(ascii_upper(b[i]));
        i = i + 1;
        assert(out@ =~= b@.subrange(0, i as int).map_values(|c: char| spec_ascii_upper(c)));
    }
    assert(b@.subrange(0, b@.len() as int) =~= b@);
    let suffix = chars_of("_ORIGIN");
    extend_chars(&mut out, suffix.as_slice());
    string_of(out.as_slice())
}

/// The first check a definition fails: its prefix and rewrite target must start with `/`,
/// its route key must be non-blank and within `[a-z0-9_-]`, its project name non-blank.
pub fn validate_route_definition(def: &RouteDefinition) -> (r: Result<(), RouteDefinitionError>)
    ensures
        match r {
            Ok(()) => spec_check_definition(*def) is None,
            Err(e) => spec_check_definition(*def) == Some(e@),
        },
{
    let prefix = chars_of(def.prefix.as_str());
    if !chars_starts_with_char(prefix.as_slice(), '/') {
        return Err(RouteDefinitionError::PrefixWithoutSlash);
    }
    let rewrite = chars_of(def.rewrite_to.as_str());
    if !chars_starts_with_char(rewrite.as_slice(), '/') {
        return Err(RouteDefinitionError::RewriteWithoutSlash);
    }
    let key = chars_of(def.route_key.as_str());
    if chars_blank(key.as_slice()) {
        return Err(RouteDefinitionError::EmptyRouteKey);
    }
    if !chars_all_key(key.as_slice()) {
        return Err(RouteDefinitionError::InvalidRouteKey);
    }
    let project = chars_of(def.project_name.as_str());
    if chars_blank(project.as_slice()) {
        return Err(RouteDefinitionError::EmptyProjectName);
    }
    Ok(())
}

impl RouteDefinitionError {
    /// The human-readable message of this error.
    pub fn message(&self) -> (r: String)
        ensures
            r@ == match self {
                RouteDefinitionError::PrefixWithoutSlash => "prefix must start with '/'"@,
                RouteDefinitionError::RewriteWithoutSlash => "rewritePrefixTo must start with '/'"@,
                RouteDefinitionError::EmptyRouteKey => "routeKey must be non-empty"@,
                RouteDefinitionError::InvalidRouteKey => "routeKey must match [a-z0-9_-]+"@,
                RouteDefinitionError::EmptyProjectName => "projectName must be non-empty"@,
                RouteDefinitionError::DuplicateRouteKey(k) => "duplicate routeKey '"@ + k@ + "'"@,
                RouteDefinitionError::BindingKeyConflict { route_key, binding_key } => "routeKey '"@
                    + route_key@
                    + "' conflicts with another routeKey when normalized for origin binding ('"@
                    + binding_key@ + "')"@,
            },
    {
        match self {
            RouteDefinitionError::PrefixWithoutSlash => String::from_str(
                "prefix must start with '/'",
            ),
            RouteDefinitionError::RewriteWithoutSlash => String::from_str(
                "rewritePrefixTo must start with '/'",
            ),
            RouteDefinitionError::EmptyRouteKey => String::from_str("routeKey must be non-empty"),
            RouteDefinitionError::InvalidRouteKey => String::from_str(
                "routeKey must match [a-z0-9_-]+",
            ),
            RouteDefinitionError::EmptyProjectName => String::from_str(
                "projectName must be non-empty",
            ),
            RouteDefinitionError::DuplicateRouteKey(k) => {
                let mut s = String::from_str("duplicate routeKey '");
                s.append(k.as_str());
                s.append("'");
                s
            },
            RouteDefinitionError::BindingKeyConflict { route_key, binding_key } => {
                let mut s = String::from_str("routeKey '");
                s.append(route_key.as_str());
                s.append("' conflicts with another routeKey when normalized for origin binding ('");
                s.append(binding_key.as_str());
                s.append("')");
                s
            },
        }
    }
}

/// The byte length of a route's prefix.
fn prefix_byte_len(r: &Route) -> (n: usize)
    ensures
        n == byte_len(r.prefix@),
{
    r.prefix.as_str().len()
}

/// Inserting the next route after every route whose prefix is at least as long keeps the
/// list a stable sort of the routes seen so far.
proof fn lemma_insert_sorted(
    routes: Seq<Route>,
    j: int,
    old_out: Seq<Route>,
    old_perm: Seq<int>,
    pos: int,
    x: Route,
)
    requires
        0 <= j < routes.len(),
        x == routes[j],
        is_stable_sort_by_prefix_len(routes.subrange(0, j), old_out, old_perm),
        0 <= pos <= old_out.len(),
        forall|k: int| 0 <= k < pos ==> byte_len(#[trigger] old_out[k].prefix@) >= byte_len(
            x.prefix@,
        ),
        pos < old_out.len() ==> byte_len(old_out[pos].prefix@) < byte_len(x.prefix@),
    ensures
        is_stable_sort_by_prefix_len(
            routes.subrange(0, j + 1),
            old_out.insert(pos, x),
            old_perm.insert(pos, j),
        ),
{
    let xl = byte_len(x.prefix@);
    let out = old_out.insert(pos, x);
    let perm = old_perm.insert(pos, j);
    let prev = routes.subrange(0, j);
    let cur = routes.subrange(0, j + 1);
    old_out.insert_ensures(pos, x);
    old_perm.insert_ensures(pos, j);
    assert(forall|k: int| pos <= k < old_out.len() ==> byte_len(#[trigger] old_out[k].prefix@) < xl)
        by {
        assert forall|k: int| pos <= k < old_out.len() implies byte_len(
            #[trigger] old_out[k].prefix@,
        ) < xl by {
            if k > pos {
                assert(byte_len(old_out[pos].prefix@) >= byte_len(old_out[k].prefix@));
            }
        }
    }
    assert(forall|k: int| 0 <= k < prev.len() ==> #[trigger] cur[k] == prev[k]);
    assert forall|k: int| 0 <= k < out.len() implies #[trigger] out[k] == cur[perm[k]] by {
        if k > pos {
            assert(out[k] == old_out[k - 1]);
            assert(perm[k] == old_perm[k - 1]);
        }
    }
    assert forall|k: int| 0 <= k < perm.len() implies 0 <= #[trigger] perm[k] < cur.len() by {
        if k > pos {
            assert(perm[k] == old_perm[k - 1]);
        }
    }
    assert forall|k1: int, k2: int| 0 <= k1 < k2 < perm.len() implies #[trigger] perm[k1]
        != #[trigger] perm[k2] by {
        if k2 > pos {
            assert(perm[k2] == old_perm[k2 - 1]);
        }
        if k1 > pos {
            assert(perm[k1] == old_perm[k1 - 1]);
        }
    }
    assert forall|k1: int, k2: int| 0 <= k1 < k2 < out.len() implies byte_len(
        #[trigger] out[k1].prefix@,
    ) >= byte_len(#[trigger] out[k2].prefix@) by {
        if k2 > pos {
            assert(out[k2] == old_out[k2 - 1]);
        }
        if k1 > pos {
            assert(out[k1] == old_out[k1 - 1]);
        }
    }
    assert forall|k1: int, k2: int|
        0 <= k1 < k2 < out.len() && byte_len(#[trigger] out[k1].prefix@) == byte_len(
            #[trigger] out[k2].prefix@,
        ) implies perm[k1] < perm[k2] by {
        if k2 > pos {
            assert(out[k2] == old_out[k2 - 1]);
            assert(perm[k2] == old_perm[k2 - 1]);
        }
        if k1 > pos {
            assert(out[k1] == old_out[k1 - 1]);
            assert(perm[k1] == old_perm[k1 - 1]);
        }
    }
}

/// Orders routes by decreasing byte length of their prefix, keeping the given order among
/// prefixes of equal length.
pub fn sort_by_prefix_len(routes: Vec<Route>) -> (out: Vec<Route>)
    ensures
        exists|perm: Seq<int>| is_stable_sort_by_prefix_len(routes@, out@, perm),
{
    let mut out: Vec<Route> = Vec::new();
    let ghost mut perm: Seq<int> = Seq::empty();
    let mut j: usize = 0;
    while j < routes.len()
        invariant
            j <= routes@.len(),
            is_stable_sort_by_prefix_len(routes@.subrange(0, j as int), out@, perm),
        decreases routes.len() - j,
    {
        let x = routes[j].duplicate();
        let xl = prefix_byte_len(&x);
        let mut pos: usize = 0;
        while pos < out.len() && prefix_byte_len(&out[pos]) >= xl
            invariant
                pos <= out@.len(),
                forall|k: int| 0 <= k < pos ==> byte_len(#[trigger] out@[k].prefix@) >= xl,
            decreases out.len() - pos,
        {
            pos = pos + 1;
        }
        let ghost old_out = out@;
        let ghost old_perm = perm;
        out.insert(pos, x);
        proof {
            perm = old_perm.insert(pos as int, j as int);
            lemma_insert_sorted(routes@, j as int, old_out, old_perm, pos as int, x);
        }
        j = j + 1;
    }
    assert(routes@.subrange(0, routes@.len() as int) =~= routes@);
    out
}

/// Whether `x` is one of `list`.
fn chars_listed(list: &Vec<Vec<char>>, x: &[char]) -> (r: bool)
    ensures
        r == exists|i: int| 0 <= i < list@.len() && #[trigger] list@[i]@ == x@,
{
    let mut i: usize = 0;
    while i < list.len()
        invariant
            i <= list@.len(),
            forall|k: int| 0 <= k < i ==> #[trigger] list@[k]@ != x@,
        decreases list.len() - i,
    {
        if crate::text::chars_eq(list[i].as_slice(), x) {
            return true;
        }
        i = i + 1;
    }
    false
}

/// Checks route definitions in order: each must pass [`validate_route_definition`], and no
/// two may share a route key or a binding key. Returns the first error.
pub fn check_definitions(definitions: &Vec<RouteDefinition>) -> (r: Result<(), RouteDefinitionError>)
    ensures
        match r {
            Ok(()) => spec_definitions_ok_upto(definitions@, definitions@.len() as int),
            Err(e) => exists|j: int|
                0 <= j < definitions@.len() && spec_definitions_ok_upto(definitions@, j)
                    && spec_definition_error_at(definitions@, j) == Some(e@),
        },
{
    let ghost defs = definitions@;
    let mut keys: Vec<Vec<char>> = Vec::new();
    let mut bkeys: Vec<Vec<char>> = Vec::new();
    let mut j: usize = 0;
    while j < definitions.len()
        invariant
            defs == definitions@,
            j <= defs.len(),
            keys@.len() == j,
            bkeys@.len() == j,
            forall|i: int| 0 <= i < j ==> #[trigger] keys@[i]@ == defs[i].route_key@,
            forall|i: int|
                0 <= i < j ==> #[trigger] bkeys@[i]@ == spec_binding_route_key(defs[i].route_key@),
            spec_definitions_ok_upto(defs, j as int),
        decreases defs.len() - j,
    {
        let def = &definitions[j];
        match validate_route_definition(def) {
            Err(e) => {
                return Err(e);
            },
            Ok(()) => {},
        }
        let key = chars_of(def.route_key.as_str());
        if chars_listed(&keys, key.as_slice()) {
            proof {
                let i = choose|i: int| 0 <= i < keys@.len() && #[trigger] keys@[i]@ == key@;
                assert(defs[i].route_key@ == defs[j as int].route_key@);
            }
            return Err(RouteDefinitionError::DuplicateRouteKey(def.route_key.clone()));
        }
        let bstr = binding_route_key(def.route_key.as_str());
        let bkey = chars_of(bstr.as_str());
        if chars_listed(&bkeys, bkey.as_slice()) {
            proof {
                let i = choose|i: int| 0 <= i < bkeys@.len() && #[trigger] bkeys@[i]@ == bkey@;
                assert(spec_binding_route_key(defs[i].route_key@) == spec_binding_route_key(
                    defs[j as int].route_key@,
                ));
                assert(!exists|i: int| 0 <= i < j && defs[i].route_key@ == defs[j as int].route_key@)
                    by {
                    assert forall|i: int| 0 <= i < j implies defs[i].route_key@ != defs[j as int].route_key@ by {
                        assert(keys@[i]@ == defs[i].route_key@);
                    }
                }
            }
            return Err(
                RouteDefinitionError::BindingKeyConflict {
                    route_key: def.route_key.clone(),
                    binding_key: bstr,
                },
            );
        }
        proof {
            assert(!exists|i: int| 0 <= i < j && defs[i].route_key@ == defs[j as int].route_key@)
                by {
                assert forall|i: int| 0 <= i < j implies defs[i].route_key@ != defs[j as int].route_key@ by {
                    assert(keys@[i]@ == defs[i].route_key@);
                }
            }
            assert(!exists|i: int|
                0 <= i < j && spec_binding_route_key(defs[i].route_key@) == spec_binding_route_key(
                    defs[j as int].route_key@,
                )) by {
                assert forall|i: int| 0 <= i < j implies spec_binding_route_key(defs[i].route_key@)
                    != spec_binding_route_key(defs[j as int].route_key@) by {
                    assert(bkeys@[i]@ == spec_binding_route_key(defs[i].route_key@));
                }
            }
            assert(spec_definition_error_at(defs, j as int) is None);
        }
        keys.push(key);
        bkeys.push(bkey);
        j = j + 1;
    }
    Ok(())
}

/// The routes are the definitions paired with their origin bindings, ordered by decreasing
/// byte length of their prefix, stably; `perm[k]` is the definition route `k` comes from.
pub open spec fn is_route_table(
    defs: Seq<RouteDefinition>,
    origins: Seq<Option<String>>,
    routes: Seq<Route>,
    perm: Seq<int>,
) -> bool {
    &&& routes.len() == defs.len()
    &&& perm.len() == defs.len()
    &&& forall|k: int| 0 <= k < perm.len() ==> 0 <= #[trigger] perm[k] < defs.len()
    &&& forall|k1: int, k2: int|
        0 <= k1 < k2 < perm.len() ==> #[trigger] perm[k1] != #[trigger] perm[k2]
    &&& forall|k: int|
        0 <= k < routes.len() ==> is_route_of(#[trigger] routes[k], defs[perm[k]], origins[perm[k]])
    &&& forall|k1: int, k2: int|
        0 <= k1 < k2 < routes.len() ==> byte_len(#[trigger] routes[k1].prefix@) >= byte_len(
            #[trigger] routes[k2].prefix@,
        )
    &&& forall|k1: int, k2: int|
        0 <= k1 < k2 < routes.len() && byte_len(#[trigger] routes[k1].prefix@) == byte_len(
            #[trigger] routes[k2].prefix@,
        ) ==> perm[k1] < perm[k2]
}

/// The route list for the given definitions, where `origins[i]` is the value of the origin
/// binding of definition `i` (see [`origin_var_name`]), if it is set.
///
/// The definitions are checked as [`check_definitions`] does; the routes are then ordered by
/// decreasing byte length of their prefix (stably), so that the longest prefix is tried first.
/// A route whose origin binding is missing gets the origin `missing-binding:<NAME>`.
pub fn build_routes(definitions: Vec<RouteDefinition>, origins: Vec<Option<String>>) -> (r: Result<
    Vec<Route>,
    RouteDefinitionError,
>)
    requires
        origins@.len() == definitions@.len(),
    ensures
        match r {
            Ok(routes) => spec_definitions_ok_upto(definitions@, definitions@.len() as int)
                && exists|perm: Seq<int>| is_route_table(definitions@, origins@, routes@, perm),
            Err(e) => exists|j: int|
                0 <= j < definitions@.len() && spec_definitions_ok_upto(definitions@, j)
                    && spec_definition_error_at(definitions@, j) == Some(e@),
        },
{
    match check_definitions(&definitions) {
        Err(e) => {
            return Err(e);
        },
        Ok(()) => {},
    }
    let mut unsorted: Vec<Route> = Vec::new();
    let mut i: usize = 0;
    while i < definitions.len()
        invariant
            i <= definitions@.len(),
            origins@.len() == definitions@.len(),
            spec_definitions_ok_upto(definitions@, definitions@.len() as int),
            unsorted@.len() == i,
            forall|k: int|
                0 <= k < i ==> is_route_of(#[trigger] unsorted@[k], definitions@[k], origins@[k]),
        decreases definitions.len() - i,
    {
        let def = &definitions[i];
        let origin = match &origins[i] {
            Some(o) => o.clone(),
            None => {
                let mut s = String::from_str("missing-binding:");
                s.append(origin_var_name(def.route_key.as_str()).as_str());
                s
            },
        };
        unsorted.push(
            Route {
                route_key: def.route_key.clone(),
                prefix: def.prefix.clone(),
                origin,
                rewrite_to: def.rewrite_to.clone(),
                sitemap: copy_opt_string(&def.sitemap),
            },
        );
        i = i + 1;
    }
    let routes = sort_by_prefix_len(unsorted);
    proof {
        let perm = choose|perm: Seq<int>| is_stable_sort_by_prefix_len(unsorted@, routes@, perm);
        assert(is_route_table(definitions@, origins@, routes@, perm));
        assert(exists|perm: Seq<int>| is_route_table(definitions@, origins@, routes@, perm));
        assert(spec_definitions_ok_upto(definitions@, definitions@.len() as int));
    }
    let result: Result<Vec<Route>, RouteDefinitionError> = Ok(routes);
    assert(result->Ok_0@ == routes@);
    result
}

/// The routes of a table built from accepted definitions have distinct route keys, and
/// distinct origin binding keys.
pub proof fn lemma_route_table_keys_unique(
    defs: Seq<RouteDefinition>,
    origins: Seq<Option<String>>,
    routes: Seq<Route>,
    perm: Seq<int>,
)
    requires
        spec_definitions_ok_upto(defs, defs.len() as int),
        is_route_table(defs, origins, routes, perm),
    ensures
        forall|k1: int, k2: int|
            0 <= k1 < k2 < routes.len() ==> spec_binding_route_key(
                #[trigger] routes[k1].route_key@,
            ) != spec_binding_route_key(#[trigger] routes[k2].route_key@),
        forall|k1: int, k2: int|
            0 <= k1 < k2 < routes.len() ==> #[trigger] routes[k1].route_key@
                != #[trigger] routes[k2].route_key@,
{
    assert forall|k1: int, k2: int| 0 <= k1 < k2 < routes.len() implies spec_binding_route_key(
        #[trigger] routes[k1].route_key@,
    ) != spec_binding_route_key(#[trigger] routes[k2].route_key@) by {
        let a = perm[k1];
        let b = perm[k2];
        assert(is_route_of(routes[k1], defs[a], origins[a]));
        assert(is_route_of(routes[k2], defs[b], origins[b]));
        assert(a != b);
        if a < b {
            assert(spec_definition_error_at(defs, b) is None);
        } else {
            assert(spec_definition_error_at(defs, a) is None);
        }
    }
    assert forall|k1: int, k2: int| 0 <= k1 < k2 < routes.len() implies #[trigger] routes[k1].route_key@
        != #[trigger] routes[k2].route_key@ by {
        assert(spec_binding_route_key(routes[k1].route_key@) != spec_binding_route_key(
            routes[k2].route_key@,
        ));
    }
}

} // verus!
