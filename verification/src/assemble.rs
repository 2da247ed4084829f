//! The route definitions of one environment, assembled from the app catalog.
use vstd::prelude::*;

use crate::catalog::resolve_route;
use crate::catalog::RouteConfig;
use crate::routes::copy_opt_string;
use crate::routes::RouteDefinition;
use crate::text::str_eq;

verus! {

/// What an environment of an app adds to the app's route: an override, and its Pages project.
#[derive(Debug, Clone)]
pub struct SourceEnv {
    pub route: Option<RouteConfig>,
    pub pages: String,
}

/// An app of the catalog as the assembly reads it.
#[derive(Debug, Clone)]
pub struct RouteSource {
    pub id: String,
    pub route: RouteConfig,
    pub prod: SourceEnv,
    pub dev: SourceEnv,
    pub sitemap: Option<String>,
}

/// The environment of `source` that `environment` selects: `dev` the development one,
/// anything else the production one.
pub open spec fn selected_env(source: RouteSource, environment: Seq<char>) -> SourceEnv {
    if environment == "dev"@ {
        source.dev
    } else {
        source.prod
    }
}

/// `d` is the definition assembled from `source` for `environment`: the app id as route key,
/// the environment's route (its override, else the app's) and the environment's project.
pub open spec fn is_definition_of(
    d: RouteDefinition,
    source: RouteSource,
    environment: Seq<char>,
) -> bool {
    let e = selected_env(source, environment);
    let r = match e.route {
        Some(o) => o.spec_normalize(),
        None => source.route.spec_normalize(),
    };
    &&& d.route_key@ == source.id@
    &&& d.prefix@ == r.0
    &&& d.rewrite_to@ == r.1
    &&& d.project_name@ == e.pages@
    &&& d.sitemap == source.sitemap
}

/// The route definitions of `environment`, one per app in catalog order; an empty catalog is
/// refused.
pub fn assemble_route_definitions(sources: &[RouteSource], environment: &str) -> (r: Result<
    Vec<RouteDefinition>,
    String,
>)
    ensures
        sources@.len() == 0 ==> (r matches Err(m) && m@ == "apps.yaml must not be empty"@),
        sources@.len() > 0 ==> (r matches Ok(defs) && defs@.len() == sources@.len() && forall|
            k: int,
        | 0 <= k < sources@.len() ==> is_definition_of(
            #[trigger] defs@[k],
            sources@[k],
            environment@,
        )),
{
    if sources.len() == 0 {
        return Err(String::from_str("apps.yaml must not be empty"));
    }
    let dev = str_eq(environment, "dev");
    let mut defs: Vec<RouteDefinition> = Vec::new();
    let mut i: usize = 0;
    while i < sources.len()
        invariant
            i <= sources@.len(),
            dev == (environment@ == "dev"@),
            defs@.len() == i,
            forall|k: int|
                0 <= k < i ==> is_definition_of(#[trigger] defs@[k], sources@[k], environment@),
        decreases sources.len() - i,
    {
        let source = &sources[i];
        let env = if dev {
            &source.dev
        } else {
            &source.prod
        };
        let route = resolve_route(&source.route, env.route.as_ref());
        defs.push(
            RouteDefinition {
                route_key: source.id.clone(),
                prefix: route.path_match,
                rewrite_to: route.rewrite,
                project_name: env.pages.clone(),
                sitemap: copy_opt_string(&source.sitemap),
            },
        );
        i = i + 1;
    }
    Ok(defs)
}

} // verus!
