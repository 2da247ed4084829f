//! The decisions of the host tools: the uptime monitor's endpoints, the origin resolver's
//! checks and deploy arguments, the catalog checks, and the assembly of route definitions.
use vstd::prelude::*;

use crate::text::chars_blank;
use crate::text::chars_ends_with_char;
use crate::text::chars_of;
use crate::text::chars_starts_with;
use crate::text::chars_starts_with_char;
use crate::text::chars_sub;
use crate::text::extend_chars;
use crate::text::starts_with;
use crate::text::string_of;
use crate::text::trim_end_char;
use crate::text::trim_start_char;
use crate::text::trim_end_char_len;
use crate::text::trim_ws;
use crate::text::trim_ws_bounds;
use crate::catalog::RouteConfig;

verus! {

/// `s` is empty or white space.
pub open spec fn blank(s: Seq<char>) -> bool {
    trim_ws(s).len() == 0
}

/// A field must hold more than white space: `{field} must be non-empty` otherwise.
pub fn ensure_non_empty(value: &str, field_name: &str) -> (r: Result<(), String>)
    ensures
        blank(value@) ==> (r matches Err(m) && m@ == field_name@ + " must be non-empty"@),
        !blank(value@) ==> r is Ok,
{
    let v = chars_of(value);
    if chars_blank(v.as_slice()) {
        let mut m = String::from_str(field_name);
        m.append(" must be non-empty");
        return Err(m);
    }
    Ok(())
}

/// A route prefix as a URL path ending in `/`: trimmed, given a leading and a trailing `/`.
pub open spec fn spec_normalize_prefix(prefix: Seq<char>) -> Seq<char> {
    let t = trim_ws(prefix);
    if t == seq!['/'] {
        seq!['/']
    } else {
        let lead = if t.len() > 0 && t[0] == '/' {
            t
        } else {
            seq!['/'] + t
        };
        if lead.last() == '/' {
            lead
        } else {
            lead.push('/')
        }
    }
}

/// The path the uptime monitor checks for a route prefix.
pub fn normalize_prefix(prefix: &str) -> (r: String)
    ensures
        r@ == spec_normalize_prefix(prefix@),
{
    let p = chars_of(prefix);
    let (s, e) = trim_ws_bounds(p.as_slice());
    let t = chars_sub(p.as_slice(), s, e);
    if t.len() == 1 && t[0] == '/' {
        let mut out: Vec<char> = Vec::new();
        out.push('/');
        assert(t@ =~= seq!['/']);
        assert(out@ =~= seq!['/']);
        return string_of(out.as_slice());
    }
    proof {
        if t@ == seq!['/'] {
            assert(t@.len() == 1);
        }
    }
    let mut lead: Vec<char> = Vec::new();
    if !chars_starts_with_char(t.as_slice(), '/') {
        lead.push('/');
    }
    extend_chars(&mut lead, t.as_slice());
    let ghost l = lead@;
    assert(l =~= if t@.len() > 0 && t@[0] == '/' {
        t@
    } else {
        seq!['/'] + t@
    });
    if !chars_ends_with_char(lead.as_slice(), '/') {
        lead.push('/');
    }
    string_of(lead.as_slice())
}

/// A normalized prefix is a directory path: it starts and ends with `/`.
pub proof fn lemma_normalized_prefix_is_directory(prefix: Seq<char>)
    ensures
        spec_normalize_prefix(prefix).len() > 0,
        spec_normalize_prefix(prefix)[0] == '/',
        spec_normalize_prefix(prefix).last() == '/',
{
    let t = trim_ws(prefix);
    if t != seq!['/'] {
        let lead = if t.len() > 0 && t[0] == '/' {
            t
        } else {
            seq!['/'] + t
        };
        assert(lead[0] == '/');
        if lead.last() != '/' {
            assert(lead.push('/')[0] == '/');
        }
    }
}

/// Normalizing a prefix twice gives what normalizing it once does.
pub proof fn lemma_normalize_prefix_idempotent(prefix: Seq<char>)
    ensures
        spec_normalize_prefix(spec_normalize_prefix(prefix)) == spec_normalize_prefix(prefix),
{
    let r = spec_normalize_prefix(prefix);
    lemma_normalized_prefix_is_directory(prefix);
    assert(!crate::text::is_white_space(r[0]));
    assert(crate::text::trim_ws_start(r) == r);
    assert(!crate::text::is_white_space(r.last()));
    assert(crate::text::trim_ws_end(r) == r);
    assert(trim_ws(r) == r);
}

/// `s` without its leading and trailing slashes (`str::trim_matches('/')`).
pub open spec fn trim_slashes(s: Seq<char>) -> Seq<char> {
    trim_start_char(trim_end_char(s, '/'), '/')
}

/// Trailing slashes of `/` followed by `t`: those of `t`, and the leading `/` as well when
/// `t` is all slashes.
proof fn lemma_trim_end_after_slash(t: Seq<char>)
    ensures
        trim_end_char(seq!['/'] + t, '/') == if trim_end_char(t, '/').len() == 0 {
            Seq::<char>::empty()
        } else {
            seq!['/'] + trim_end_char(t, '/')
        },
    decreases t.len(),
{
    let st = seq!['/'] + t;
    if t.len() == 0 {
        assert(st =~= seq!['/']);
        assert(st.drop_last() =~= Seq::<char>::empty());
        assert(trim_end_char(Seq::<char>::empty(), '/') == Seq::<char>::empty());
        assert(trim_end_char(t, '/') == t);
    } else if t.last() == '/' {
        assert(st.last() == '/');
        assert(st.drop_last() =~= seq!['/'] + t.drop_last());
        lemma_trim_end_after_slash(t.drop_last());
    } else {
        assert(st.last() == t.last());
        assert(trim_end_char(t, '/') == t);
        assert(trim_end_char(st, '/') == st);
    }
}

/// Normalizing a prefix keeps its path: the result, trimmed of slashes, is the trimmed
/// input trimmed of slashes; and it starts and ends with `/`.
pub proof fn lemma_normalize_prefix_keeps_path(prefix: Seq<char>)
    ensures
        trim_slashes(spec_normalize_prefix(prefix)) == trim_slashes(trim_ws(prefix)),
        spec_normalize_prefix(prefix)[0] == '/',
        spec_normalize_prefix(prefix).last() == '/',
{
    lemma_normalized_prefix_is_directory(prefix);
    let t = trim_ws(prefix);
    if t == seq!['/'] {
        assert(seq!['/'].drop_last() =~= Seq::<char>::empty());
        assert(trim_end_char(Seq::<char>::empty(), '/') == Seq::<char>::empty());
        assert(trim_end_char(seq!['/'], '/') == Seq::<char>::empty());
    } else {
        let lead = if t.len() > 0 && t[0] == '/' {
            t
        } else {
            seq!['/'] + t
        };
        if lead.len() > 0 && lead.last() == '/' {
        } else {
            assert(lead.push('/').last() == '/');
            assert(lead.push('/').drop_last() =~= lead);
            assert(trim_end_char(lead.push('/'), '/') == trim_end_char(lead, '/'));
        }
        assert(trim_slashes(spec_normalize_prefix(prefix)) == trim_slashes(lead));
        if !(t.len() > 0 && t[0] == '/') {
            lemma_trim_end_after_slash(t);
            let e = trim_end_char(t, '/');
            if e.len() > 0 {
                assert((seq!['/'] + e)[0] == '/');
                assert((seq!['/'] + e).drop_first() =~= e);
            }
        }
    }
}

/// The origin the uptime monitor checks for a zone: the zone trimmed of white space and
/// trailing slashes, with `https://` put in front unless it has a scheme; an empty zone is
/// refused.
pub open spec fn spec_zone_origin(zone: Seq<char>) -> Result<Seq<char>, Seq<char>> {
    let t = trim_end_char(trim_ws(zone), '/');
    if t.len() == 0 {
        Err("CLOUDFLARE_ZONE_NAME must be non-empty"@)
    } else if starts_with(t, "http://"@) || starts_with(t, "https://"@) {
        Ok(t)
    } else {
        Ok("https://"@ + t)
    }
}

/// The origin of a zone name.
pub fn normalize_zone_to_origin(zone: &str) -> (r: Result<String, String>)
    ensures
        match spec_zone_origin(zone@) {
            Ok(o) => r matches Ok(s) && s@ == o,
            Err(m) => r matches Err(s) && s@ == m,
        },
{
    let z = chars_of(zone);
    let (s, e) = trim_ws_bounds(z.as_slice());
    let t0 = chars_sub(z.as_slice(), s, e);
    let n = trim_end_char_len(t0.as_slice(), '/');
    let t = chars_sub(t0.as_slice(), 0, n);
    if t.len() == 0 {
        return Err(String::from_str("CLOUDFLARE_ZONE_NAME must be non-empty"));
    }
    let http = chars_of("http://");
    let https = chars_of("https://");
    if chars_starts_with(t.as_slice(), http.as_slice()) || chars_starts_with(
        t.as_slice(),
        https.as_slice(),
    ) {
        return Ok(string_of(t.as_slice()));
    }
    let mut out = https;
    extend_chars(&mut out, t.as_slice());
    Ok(string_of(out.as_slice()))
}

/// Whether a health check's HTTP status passes: 2xx and 3xx do (0 stands for no response).
pub fn is_healthy_status(status: u16) -> (r: bool)
    ensures
        r == (200 <= status < 400),
{
    200 <= status && status < 400
}

/// The origin of a Pages project from the subdomain the API reported: `https://{subdomain}`,
/// or an error naming the project when there is none or it is blank.
pub fn origin_from_subdomain(subdomain: Option<String>, project_name: &str) -> (r: Result<
    String,
    String,
>)
    ensures
        match subdomain {
            Some(s) => if blank(s@) {
                r matches Err(m) && m@ == "failed to resolve subdomain for Pages project: "@
                    + project_name@
            } else {
                r matches Ok(o) && o@ == "https://"@ + s@
            },
            None => r matches Err(m) && m@ == "failed to resolve subdomain for Pages project: "@
                + project_name@,
        },
{
    match subdomain {
        Some(s) => {
            let c = chars_of(s.as_str());
            if !chars_blank(c.as_slice()) {
                let mut o = String::from_str("https://");
                o.append(s.as_str());
                return Ok(o);
            }
        },
        None => {},
    }
    let mut m = String::from_str("failed to resolve subdomain for Pages project: ");
    m.append(project_name);
    Err(m)
}

/// The deploy argument that binds a route's origin: ` --var {NAME}_ORIGIN:{origin}`.
pub fn deploy_var_arg(route_key: &str, origin_url: &str) -> (r: String)
    ensures
        r@ == " --var "@ + crate::routes::spec_origin_var_name(route_key@) + ":"@ + origin_url@,
{
    let mut s = String::from_str(" --var ");
    s.append(crate::routes::origin_var_name(route_key).as_str());
    s.append(":");
    s.append(origin_url);
    s
}

/// `a` comes before `b` in lexicographic order, comparing from index `i` (characters by code
/// point, which is the byte order of their UTF-8 encodings).
pub open spec fn lex_lt_from(a: Seq<char>, b: Seq<char>, i: int) -> bool
    decreases a.len() - i,
{
    if i < 0 {
        false
    } else if i >= a.len() {
        i < b.len()
    } else if i >= b.len() {
        false
    } else if a[i] != b[i] {
        a[i] < b[i]
    } else {
        lex_lt_from(a, b, i + 1)
    }
}

/// `a` comes strictly before `b` in the order of `String`s.
pub open spec fn lex_lt(a: Seq<char>, b: Seq<char>) -> bool {
    lex_lt_from(a, b, 0)
}

proof fn lemma_lex_trans_from(a: Seq<char>, b: Seq<char>, c: Seq<char>, i: int)
    requires
        0 <= i,
        i <= a.len(),
        i <= b.len(),
        i <= c.len(),
        lex_lt_from(a, b, i),
        lex_lt_from(b, c, i),
    ensures
        lex_lt_from(a, c, i),
    decreases a.len() - i,
{
    if i < a.len() && i < b.len() && i < c.len() && a[i] == b[i] && b[i] == c[i] {
        lemma_lex_trans_from(a, b, c, i + 1);
    }
}

/// The order is transitive.
pub proof fn lemma_lex_trans(a: Seq<char>, b: Seq<char>, c: Seq<char>)
    requires
        lex_lt(a, b),
        lex_lt(b, c),
    ensures
        lex_lt(a, c),
{
    lemma_lex_trans_from(a, b, c, 0);
}

proof fn lemma_lex_total_from(a: Seq<char>, b: Seq<char>, i: int)
    requires
        0 <= i <= a.len(),
        i <= b.len(),
        a.subrange(0, i) == b.subrange(0, i),
    ensures
        a == b || lex_lt_from(a, b, i) || lex_lt_from(b, a, i),
        !(lex_lt_from(a, b, i) && lex_lt_from(b, a, i)),
        lex_lt_from(a, b, i) ==> a != b,
    decreases a.len() - i,
{
    if i == a.len() && i == b.len() {
        assert(a =~= a.subrange(0, i));
        assert(b =~= b.subrange(0, i));
    } else if i < a.len() && i < b.len() && a[i] == b[i] {
        assert(a.subrange(0, i + 1) =~= a.subrange(0, i).push(a[i]));
        assert(b.subrange(0, i + 1) =~= b.subrange(0, i).push(b[i]));
        lemma_lex_total_from(a, b, i + 1);
    }
}

/// The order is total, asymmetric and irreflexive.
pub proof fn lemma_lex_total(a: Seq<char>, b: Seq<char>)
    ensures
        a == b || lex_lt(a, b) || lex_lt(b, a),
        !(lex_lt(a, b) && lex_lt(b, a)),
        lex_lt(a, b) ==> a != b,
{
    assert(a.subrange(0, 0) =~= b.subrange(0, 0));
    lemma_lex_total_from(a, b, 0);
}

/// Whether `a` comes before `b`.
fn lex_less(a: &[char], b: &[char]) -> (r: bool)
    ensures
        r == lex_lt(a@, b@),
{
    let mut i: usize = 0;
    while i < a.len() && i < b.len()
        invariant
            i <= a@.len(),
            i <= b@.len(),
            lex_lt_from(a@, b@, i as int) == lex_lt(a@, b@),
        decreases a.len() - i,
    {
        if a[i] != b[i] {
            return a[i] < b[i];
        }
        i = i + 1;
    }
    i == a.len() && i < b.len()
}

/// The strings of `v` are in strictly increasing order.
pub open spec fn strictly_sorted(v: Seq<String>) -> bool {
    forall|i: int, j: int| 0 <= i < j < v.len() ==> lex_lt(#[trigger] v[i]@, #[trigger] v[j]@)
}

/// `v` holds a string equal to `s`.
pub open spec fn holds(v: Seq<String>, s: Seq<char>) -> bool {
    exists|i: int| 0 <= i < v.len() && #[trigger] v[i]@ == s
}

/// Adds a string to a strictly sorted list unless it is there already (a `BTreeSet` insert).
fn insert_sorted(v: &mut Vec<String>, x: String)
    requires
        strictly_sorted(old(v)@),
    ensures
        strictly_sorted(final(v)@),
        forall|s: Seq<char>| holds(final(v)@, s) <==> (holds(old(v)@, s) || s == x@),
{
    let xc = chars_of(x.as_str());
    let mut k: usize = 0;
    while k < v.len() && lex_less(chars_of(v[k].as_str()).as_slice(), xc.as_slice())
        invariant
            k <= v@.len(),
            xc@ == x@,
            forall|i: int| 0 <= i < k ==> lex_lt(#[trigger] v@[i]@, x@),
        decreases v.len() - k,
    {
        k = k + 1;
    }
    if k < v.len() {
        let vk = chars_of(v[k].as_str());
        if crate::text::chars_eq(vk.as_slice(), xc.as_slice()) {
            return;
        }
    }
    let ghost old_v = v@;
    proof {
        if k < old_v.len() {
            lemma_lex_total(old_v[k as int]@, x@);
            assert forall|j: int| k <= j < old_v.len() implies lex_lt(x@, #[trigger] old_v[j]@) by {
                if j > k {
                    lemma_lex_trans(x@, old_v[k as int]@, old_v[j]@);
                }
            }
        }
    }
    v.insert(k, x);
    proof {
        old_v.insert_ensures(k as int, x);
        let nv = v@;
        assert forall|i: int, j: int| 0 <= i < j < nv.len() implies lex_lt(
            #[trigger] nv[i]@,
            #[trigger] nv[j]@,
        ) by {
            if j < k {
            } else if j == k {
            } else if i < k {
                assert(nv[j] == old_v[j - 1]);
                lemma_lex_trans(nv[i]@, x@, nv[j]@);
            } else if i == k {
                assert(nv[j] == old_v[j - 1]);
            } else {
                assert(nv[j] == old_v[j - 1]);
                assert(nv[i] == old_v[i - 1]);
            }
        }
        assert forall|s: Seq<char>| holds(nv, s) <==> (holds(old_v, s) || s == x@) by {
            if holds(nv, s) {
                let i = choose|i: int| 0 <= i < nv.len() && #[trigger] nv[i]@ == s;
                if i < k {
                    assert(old_v[i]@ == s);
                } else if i > k {
                    assert(old_v[i - 1]@ == s);
                }
            }
            if holds(old_v, s) {
                let i = choose|i: int| 0 <= i < old_v.len() && #[trigger] old_v[i]@ == s;
                if i < k {
                    assert(nv[i]@ == s);
                } else {
                    assert(nv[i + 1]@ == s);
                }
            }
            if s == x@ {
                assert(nv[k as int]@ == s);
            }
        }
    }
}

/// The routes of one app in the production and development environments.
#[derive(Debug, Clone)]
pub struct EnvRoutes {
    pub prod: RouteConfig,
    pub dev: RouteConfig,
}

/// The route an app uses in `environment`: `dev` selects the development route, anything
/// else the production one.
pub open spec fn env_route(app: EnvRoutes, environment: Seq<char>) -> RouteConfig {
    if environment == "dev"@ {
        app.dev
    } else {
        app.prod
    }
}

/// The URLs the uptime monitor checks: the origin's `/_health`, and the origin followed by
/// each app's route prefix (as [`normalize_prefix`] gives it) in the environment; each once,
/// in string order.
pub fn build_endpoints(base_origin: &str, app_sources: &[EnvRoutes], environment: &str) -> (r: Vec<
    String,
>)
    ensures
        strictly_sorted(r@),
        forall|s: Seq<char>|
            holds(r@, s) <==> (s == base_origin@ + "/_health"@ || exists|k: int|
                0 <= k < app_sources@.len() && s == base_origin@ + spec_normalize_prefix(
                    #[trigger] env_route(app_sources@[k], environment@).spec_normalize().0,
                )),
{
    let dev = crate::text::str_eq(environment, "dev");
    let mut endpoints: Vec<String> = Vec::new();
    let mut health = String::from_str(base_origin);
    health.append("/_health");
    insert_sorted(&mut endpoints, health);
    let mut i: usize = 0;
    while i < app_sources.len()
        invariant
            i <= app_sources@.len(),
            dev == (environment@ == "dev"@),
            strictly_sorted(endpoints@),
            forall|s: Seq<char>|
                holds(endpoints@, s) <==> (s == base_origin@ + "/_health"@ || exists|k: int|
                    0 <= k < i && s == base_origin@ + spec_normalize_prefix(
                        #[trigger] env_route(app_sources@[k], environment@).spec_normalize().0,
                    )),
        decreases app_sources.len() - i,
    {
        let source = &app_sources[i];
        let route = if dev {
            source.dev.normalize()
        } else {
            source.prod.normalize()
        };
        let prefix = normalize_prefix(route.path_match.as_str());
        let mut url = String::from_str(base_origin);
        url.append(prefix.as_str());
        let ghost before = endpoints@;
        proof {
            assert(url@ == base_origin@ + spec_normalize_prefix(
                env_route(app_sources@[i as int], environment@).spec_normalize().0,
            ));
        }
        insert_sorted(&mut endpoints, url);
        proof {
            assert forall|s: Seq<char>|
                holds(endpoints@, s) <==> (s == base_origin@ + "/_health"@ || exists|k: int|
                    0 <= k < i + 1 && s == base_origin@ + spec_normalize_prefix(
                        #[trigger] env_route(app_sources@[k], environment@).spec_normalize().0,
                    )) by {
                if exists|k: int|
                    0 <= k < i + 1 && s == base_origin@ + spec_normalize_prefix(
                        #[trigger] env_route(app_sources@[k], environment@).spec_normalize().0,
                    ) {
                    let k = choose|k: int|
                        0 <= k < i + 1 && s == base_origin@ + spec_normalize_prefix(
                            #[trigger] env_route(app_sources@[k], environment@).spec_normalize().0,
                        );
                    if k < i {
                        assert(holds(before, s));
                    }
                }
                if holds(endpoints@, s) && !holds(before, s) {
                    assert(env_route(app_sources@[i as int], environment@) == env_route(
                        app_sources@[i as int],
                        environment@,
                    ));
                }
                if holds(before, s) && s != base_origin@ + "/_health"@ {
                    let k = choose|k: int|
                        0 <= k < i && s == base_origin@ + spec_normalize_prefix(
                            #[trigger] env_route(app_sources@[k], environment@).spec_normalize().0,
                        );
                    assert(env_route(app_sources@[k], environment@) == env_route(
                        app_sources@[k],
                        environment@,
                    ));
                }
            }
        }
        i = i + 1;
    }
    endpoints
}

/// What the uptime monitor checks for a zone: the endpoints of [`build_endpoints`] on the
/// zone's origin; an empty catalog, or a blank zone, is refused.
pub fn uptime_targets(zone: &str, app_sources: &[EnvRoutes], environment: &str) -> (r: Result<
    Vec<String>,
    String,
>)
    ensures
        app_sources@.len() == 0 ==> (r matches Err(m) && m@ == "apps.yaml must not be empty"@),
        app_sources@.len() > 0 ==> match spec_zone_origin(zone@) {
            Err(e) => r matches Err(m) && m@ == e,
            Ok(base) => r matches Ok(v) && strictly_sorted(v@) && forall|s: Seq<char>|
                holds(v@, s) <==> (s == base + "/_health"@ || exists|k: int|
                    0 <= k < app_sources@.len() && s == base + spec_normalize_prefix(
                        #[trigger] env_route(app_sources@[k], environment@).spec_normalize().0,
                    )),
        },
{
    if app_sources.len() == 0 {
        return Err(String::from_str("apps.yaml must not be empty"));
    }
    let base = normalize_zone_to_origin(zone)?;
    Ok(build_endpoints(base.as_str(), app_sources, environment))
}

} // verus!
