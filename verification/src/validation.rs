//! The checks the app catalog must pass: required fields, unique ids, prefixes and Pages
//! projects, rooted routes, the image registry and the id alphabet.
use vstd::prelude::*;

use crate::catalog::RouteConfig;
use crate::text::all_key_chars;
use crate::text::chars_all_key;
use crate::text::chars_of;
use crate::text::chars_starts_with;
use crate::text::chars_starts_with_char;
use crate::text::starts_with;
use crate::text::str_eq;
use crate::tools::blank;
use crate::tools::ensure_non_empty;

verus! {

/// One environment of an app in the catalog.
#[derive(Debug, Clone)]
pub struct CatalogEnv {
    pub route: RouteConfig,
    pub version: String,
    pub pages: String,
}

/// An app of the catalog, with its production and development environments.
#[derive(Debug, Clone)]
pub struct CatalogApp {
    pub id: String,
    pub image: String,
    pub prod: CatalogEnv,
    pub dev: CatalogEnv,
}

/// `s` between single quotes.
pub open spec fn quoted(s: Seq<char>) -> Seq<char> {
    "'"@ + s + "'"@
}

/// `s` starts with `/`.
pub open spec fn rooted(s: Seq<char>) -> bool {
    s.len() > 0 && s[0] == '/'
}

/// The name of the first required field of `app` that is empty or white space, in the order
/// the fields are checked.
pub open spec fn first_blank_field(app: CatalogApp) -> Option<Seq<char>> {
    let pr = app.prod.route.spec_normalize();
    let dr = app.dev.route.spec_normalize();
    if blank(app.id@) {
        Some("id"@)
    } else if blank(app.image@) {
        Some("image"@)
    } else if blank(pr.0) {
        Some("env.prod.route.match"@)
    } else if blank(pr.1) {
        Some("env.prod.route.rewrite"@)
    } else if blank(dr.0) {
        Some("env.dev.route.match"@)
    } else if blank(dr.1) {
        Some("env.dev.route.rewrite"@)
    } else if blank(app.prod.version@) {
        Some("env.prod.version"@)
    } else if blank(app.prod.pages@) {
        Some("env.prod.pages"@)
    } else if blank(app.dev.version@) {
        Some("env.dev.version"@)
    } else if blank(app.dev.pages@) {
        Some("env.dev.pages"@)
    } else {
        None
    }
}

/// An app before position `i` has the id `s`.
pub open spec fn id_taken(apps: Seq<CatalogApp>, i: int, s: Seq<char>) -> bool {
    exists|j: int| 0 <= j < i && #[trigger] apps[j].id@ == s
}

/// An app before position `i` has the production prefix `s`.
pub open spec fn prod_match_taken(apps: Seq<CatalogApp>, i: int, s: Seq<char>) -> bool {
    exists|j: int| 0 <= j < i && (#[trigger] apps[j].prod.route.spec_normalize()).0 == s
}

/// An app before position `i` has the development prefix `s`.
pub open spec fn dev_match_taken(apps: Seq<CatalogApp>, i: int, s: Seq<char>) -> bool {
    exists|j: int| 0 <= j < i && (#[trigger] apps[j].dev.route.spec_normalize()).0 == s
}

/// An app before position `i` deploys to the Pages project `s`, in either environment.
pub open spec fn pages_taken(apps: Seq<CatalogApp>, i: int, s: Seq<char>) -> bool {
    exists|j: int|
        0 <= j < i && ((#[trigger] apps[j]).prod.pages@ == s || apps[j].dev.pages@ == s)
}

/// The error the app at position `i` is refused with, given the apps before it; `None`
/// when it passes.
pub open spec fn app_error(apps: Seq<CatalogApp>, i: int) -> Option<Seq<char>> {
    let app = apps[i];
    let pr = app.prod.route.spec_normalize();
    let dr = app.dev.route.spec_normalize();
    match first_blank_field(app) {
        Some(f) => Some(f + " must be non-empty"@),
        None => if id_taken(apps, i, app.id@) {
            Some("duplicate id "@ + quoted(app.id@))
        } else if prod_match_taken(apps, i, pr.0) {
            Some("duplicate env.prod.route.match "@ + quoted(pr.0))
        } else if dev_match_taken(apps, i, dr.0) {
            Some("duplicate env.dev.route.match "@ + quoted(dr.0))
        } else if pages_taken(apps, i, app.prod.pages@) {
            Some("duplicate env.prod.pages "@ + quoted(app.prod.pages@))
        } else if pages_taken(apps, i, app.dev.pages@) || app.dev.pages@ == app.prod.pages@ {
            Some("duplicate env.dev.pages "@ + quoted(app.dev.pages@))
        } else if !rooted(pr.0) {
            Some("env.prod.route.match must start with '/': "@ + pr.0)
        } else if !rooted(pr.1) {
            Some("env.prod.route.rewrite must start with '/': "@ + pr.1)
        } else if !rooted(dr.0) {
            Some("env.dev.route.match must start with '/': "@ + dr.0)
        } else if !rooted(dr.1) {
            Some("env.dev.route.rewrite must start with '/': "@ + dr.1)
        } else if !starts_with(app.image@, "ghcr.io/"@) {
            Some("image must start with ghcr.io/: "@ + app.image@)
        } else if !all_key_chars(app.id@) {
            Some("invalid id "@ + quoted(app.id@))
        } else {
            None
        },
    }
}

/// The error of the first app from position `i` on that is refused.
pub open spec fn catalog_error_from(apps: Seq<CatalogApp>, i: int) -> Option<Seq<char>>
    decreases apps.len() - i,
{
    if i < 0 || i >= apps.len() {
        None
    } else {
        match app_error(apps, i) {
            Some(e) => Some(e),
            None => catalog_error_from(apps, i + 1),
        }
    }
}

/// The outcome of validating a catalog: the number of apps, or the first error.
pub open spec fn spec_validate_catalog(apps: Seq<CatalogApp>) -> Result<nat, Seq<char>> {
    if apps.len() == 0 {
        Err("app catalog must include at least one app"@)
    } else {
        match catalog_error_from(apps, 0) {
            Some(e) => Err(e),
            None => Ok(apps.len()),
        }
    }
}

/// `prefix` followed by `s` between single quotes.
fn quoted_message(prefix: &str, s: &str) -> (r: String)
    ensures
        r@ == prefix@ + quoted(s@),
{
    let mut m = String::from_str(prefix);
    m.append("'");
    m.append(s);
    m.append("'");
    m
}

/// `prefix` followed by `s`.
fn message(prefix: &str, s: &str) -> (r: String)
    ensures
        r@ == prefix@ + s@,
{
    let mut m = String::from_str(prefix);
    m.append(s);
    m
}

fn id_taken_before(apps: &[CatalogApp], i: usize, s: &str) -> (r: bool)
    requires
        i <= apps@.len(),
    ensures
        r == id_taken(apps@, i as int, s@),
{
    let mut j: usize = 0;
    while j < i
        invariant
            j <= i <= apps@.len(),
            forall|k: int| 0 <= k < j ==> #[trigger] apps@[k].id@ != s@,
        decreases i - j,
    {
        if str_eq(apps[j].id.as_str(), s) {
            return true;
        }
        j = j + 1;
    }
    false
}

fn prod_match_taken_before(apps: &[CatalogApp], i: usize, s: &str) -> (r: bool)
    requires
        i <= apps@.len(),
    ensures
        r == prod_match_taken(apps@, i as int, s@),
{
    let mut j: usize = 0;
    while j < i
        invariant
            j <= i <= apps@.len(),
            forall|k: int| 0 <= k < j ==> (#[trigger] apps@[k].prod.route.spec_normalize()).0 != s@,
        decreases i - j,
    {
        let route = apps[j].prod.route.normalize();
        if str_eq(route.path_match.as_str(), s) {
            return true;
        }
        j = j + 1;
    }
    false
}

fn dev_match_taken_before(apps: &[CatalogApp], i: usize, s: &str) -> (r: bool)
    requires
        i <= apps@.len(),
    ensures
        r == dev_match_taken(apps@, i as int, s@),
{
    let mut j: usize = 0;
    while j < i
        invariant
            j <= i <= apps@.len(),
            forall|k: int| 0 <= k < j ==> (#[trigger] apps@[k].dev.route.spec_normalize()).0 != s@,
        decreases i - j,
    {
        let route = apps[j].dev.route.normalize();
        if str_eq(route.path_match.as_str(), s) {
            return true;
        }
        j = j + 1;
    }
    false
}

fn pages_taken_before(apps: &[CatalogApp], i: usize, s: &str) -> (r: bool)
    requires
        i <= apps@.len(),
    ensures
        r == pages_taken(apps@, i as int, s@),
{
    let mut j: usize = 0;
    while j < i
        invariant
            j <= i <= apps@.len(),
            forall|k: int|
                0 <= k < j ==> (#[trigger] apps@[k]).prod.pages@ != s@ && apps@[k].dev.pages@ != s@,
        decreases i - j,
    {
        if str_eq(apps[j].prod.pages.as_str(), s) || str_eq(apps[j].dev.pages.as_str(), s) {
            return true;
        }
        j = j + 1;
    }
    false
}

/// Whether `s` starts with `/`.
fn is_rooted(s: &str) -> (r: bool)
    ensures
        r == rooted(s@),
{
    let c = chars_of(s);
    chars_starts_with_char(c.as_slice(), '/')
}

/// The error the app at position `i` is refused with, given the apps before it.
pub fn check_app(apps: &[CatalogApp], i: usize) -> (r: Option<String>)
    requires
        i < apps@.len(),
    ensures
        match app_error(apps@, i as int) {
            Some(e) => r matches Some(m) && m@ == e,
            None => r is None,
        },
{
    let app = &apps[i];
    let pr = app.prod.route.normalize();
    let dr = app.dev.route.normalize();
    if let Err(m) = ensure_non_empty(app.id.as_str(), "id") {
        return Some(m);
    }
    if let Err(m) = ensure_non_empty(app.image.as_str(), "image") {
        return Some(m);
    }
    if let Err(m) = ensure_non_empty(pr.path_match.as_str(), "env.prod.route.match") {
        return Some(m);
    }
    if let Err(m) = ensure_non_empty(pr.rewrite.as_str(), "env.prod.route.rewrite") {
        return Some(m);
    }
    if let Err(m) = ensure_non_empty(dr.path_match.as_str(), "env.dev.route.match") {
        return Some(m);
    }
    if let Err(m) = ensure_non_empty(dr.rewrite.as_str(), "env.dev.route.rewrite") {
        return Some(m);
    }
    if let Err(m) = ensure_non_empty(app.prod.version.as_str(), "env.prod.version") {
        return Some(m);
    }
    if let Err(m) = ensure_non_empty(app.prod.pages.as_str(), "env.prod.pages") {
        return Some(m);
    }
    if let Err(m) = ensure_non_empty(app.dev.version.as_str(), "env.dev.version") {
        return Some(m);
    }
    if let Err(m) = ensure_non_empty(app.dev.pages.as_str(), "env.dev.pages") {
        return Some(m);
    }
    if id_taken_before(apps, i, app.id.as_str()) {
        return Some(quoted_message("duplicate id ", app.id.as_str()));
    }
    if prod_match_taken_before(apps, i, pr.path_match.as_str()) {
        return Some(quoted_message("duplicate env.prod.route.match ", pr.path_match.as_str()));
    }
    if dev_match_taken_before(apps, i, dr.path_match.as_str()) {
        return Some(quoted_message("duplicate env.dev.route.match ", dr.path_match.as_str()));
    }
    if pages_taken_before(apps, i, app.prod.pages.as_str()) {
        return Some(quoted_message("duplicate env.prod.pages ", app.prod.pages.as_str()));
    }
    if pages_taken_before(apps, i, app.dev.pages.as_str()) || str_eq(
        app.dev.pages.as_str(),
        app.prod.pages.as_str(),
    ) {
        return Some(quoted_message("duplicate env.dev.pages ", app.dev.pages.as_str()));
    }
    if !is_rooted(pr.path_match.as_str()) {
        return Some(
            message("env.prod.route.match must start with '/': ", pr.path_match.as_str()),
        );
    }
    if !is_rooted(pr.rewrite.as_str()) {
        return Some(message("env.prod.route.rewrite must start with '/': ", pr.rewrite.as_str()));
    }
    if !is_rooted(dr.path_match.as_str()) {
        return Some(message("env.dev.route.match must start with '/': ", dr.path_match.as_str()));
    }
    if !is_rooted(dr.rewrite.as_str()) {
        return Some(message("env.dev.route.rewrite must start with '/': ", dr.rewrite.as_str()));
    }
    let image = chars_of(app.image.as_str());
    let registry = chars_of("ghcr.io/");
    if !chars_starts_with(image.as_slice(), registry.as_slice()) {
        return Some(message("image must start with ghcr.io/: ", app.image.as_str()));
    }
    let id = chars_of(app.id.as_str());
    if !chars_all_key(id.as_slice()) {
        return Some(quoted_message("invalid id ", app.id.as_str()));
    }
    None
}

/// Validates the app catalog: the number of apps when every app passes, else the error of
/// the first app refused (an empty catalog is refused).
pub fn validate_catalog(apps: &[CatalogApp]) -> (r: Result<usize, String>)
    ensures
        match spec_validate_catalog(apps@) {
            Ok(n) => r matches Ok(k) && k as nat == n,
            Err(e) => r matches Err(m) && m@ == e,
        },
{
    if apps.len() == 0 {
        return Err(String::from_str("app catalog must include at least one app"));
    }
    let mut i: usize = 0;
    while i < apps.len()
        invariant
            i <= apps@.len(),
            catalog_error_from(apps@, 0) == catalog_error_from(apps@, i as int),
        decreases apps.len() - i,
    {
        match check_app(apps, i) {
            Some(m) => {
                return Err(m);
            },
            None => {},
        }
        i = i + 1;
    }
    Ok(apps.len())
}

/// When no app from position `i` on is refused, no app from `i` on has an error.
proof fn lemma_no_error_from(apps: Seq<CatalogApp>, i: int, j: int)
    requires
        0 <= i <= j < apps.len(),
        catalog_error_from(apps, i) is None,
    ensures
        app_error(apps, j) is None,
    decreases j - i,
{
    if i < j {
        lemma_no_error_from(apps, i + 1, j);
    }
}

/// An accepted catalog has distinct app ids, distinct production prefixes, distinct
/// development prefixes, and `2n` pairwise distinct Pages projects (no two environments, of
/// the same app or of two apps, deploy to the same project); every route is rooted, every
/// image is on `ghcr.io/`, and there are `n > 0` apps.
pub proof fn lemma_accepted_catalog_is_consistent(apps: Seq<CatalogApp>)
    requires
        spec_validate_catalog(apps) is Ok,
    ensures
        spec_validate_catalog(apps) == Ok::<nat, Seq<char>>(apps.len()),
        apps.len() > 0,
        forall|i: int, j: int|
            0 <= i < j < apps.len() ==> {
                &&& (#[trigger] apps[i]).id@ != (#[trigger] apps[j]).id@
                &&& apps[i].prod.route.spec_normalize().0 != apps[j].prod.route.spec_normalize().0
                &&& apps[i].dev.route.spec_normalize().0 != apps[j].dev.route.spec_normalize().0
                &&& apps[i].prod.pages@ != apps[j].prod.pages@
                &&& apps[i].prod.pages@ != apps[j].dev.pages@
                &&& apps[i].dev.pages@ != apps[j].prod.pages@
                &&& apps[i].dev.pages@ != apps[j].dev.pages@
            },
        forall|i: int|
            0 <= i < apps.len() ==> {
                &&& (#[trigger] apps[i]).prod.pages@ != apps[i].dev.pages@
                &&& rooted(apps[i].prod.route.spec_normalize().0)
                &&& rooted(apps[i].prod.route.spec_normalize().1)
                &&& rooted(apps[i].dev.route.spec_normalize().0)
                &&& rooted(apps[i].dev.route.spec_normalize().1)
                &&& starts_with(apps[i].image@, "ghcr.io/"@)
                &&& all_key_chars(apps[i].id@)
            },
{
    assert forall|i: int, j: int| 0 <= i < j < apps.len() implies {
        &&& (#[trigger] apps[i]).id@ != (#[trigger] apps[j]).id@
        &&& apps[i].prod.route.spec_normalize().0 != apps[j].prod.route.spec_normalize().0
        &&& apps[i].dev.route.spec_normalize().0 != apps[j].dev.route.spec_normalize().0
        &&& apps[i].prod.pages@ != apps[j].prod.pages@
        &&& apps[i].prod.pages@ != apps[j].dev.pages@
        &&& apps[i].dev.pages@ != apps[j].prod.pages@
        &&& apps[i].dev.pages@ != apps[j].dev.pages@
    } by {
        lemma_no_error_from(apps, 0, j);
        let a = apps[j];
        assert(first_blank_field(a) is None);
        if apps[i].id@ == a.id@ {
            assert(id_taken(apps, j, a.id@));
        }
        if apps[i].prod.route.spec_normalize().0 == a.prod.route.spec_normalize().0 {
            assert(prod_match_taken(apps, j, a.prod.route.spec_normalize().0));
        }
        if apps[i].dev.route.spec_normalize().0 == a.dev.route.spec_normalize().0 {
            assert(dev_match_taken(apps, j, a.dev.route.spec_normalize().0));
        }
        if apps[i].prod.pages@ == a.prod.pages@ || apps[i].dev.pages@ == a.prod.pages@ {
            assert(pages_taken(apps, j, a.prod.pages@));
        }
        if apps[i].prod.pages@ == a.dev.pages@ || apps[i].dev.pages@ == a.dev.pages@ {
            assert(pages_taken(apps, j, a.dev.pages@));
        }
    }
    assert forall|i: int| 0 <= i < apps.len() implies {
        &&& (#[trigger] apps[i]).prod.pages@ != apps[i].dev.pages@
        &&& rooted(apps[i].prod.route.spec_normalize().0)
        &&& rooted(apps[i].prod.route.spec_normalize().1)
        &&& rooted(apps[i].dev.route.spec_normalize().0)
        &&& rooted(apps[i].dev.route.spec_normalize().1)
        &&& starts_with(apps[i].image@, "ghcr.io/"@)
        &&& all_key_chars(apps[i].id@)
    } by {
        lemma_no_error_from(apps, 0, i);
        assert(first_blank_field(apps[i]) is None);
    }
}

} // verus!
