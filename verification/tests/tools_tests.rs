use domain_router::assemble::{assemble_route_definitions, RouteSource, SourceEnv};
use domain_router::catalog::{ExpandedRoute, RouteConfig};
use domain_router::origins::{bind_route, precheck_route, project_api_url, route_list_error};
use domain_router::routes::RouteDefinition;
use domain_router::tools::{
    build_endpoints, deploy_var_arg, ensure_non_empty, is_healthy_status, normalize_prefix,
    normalize_zone_to_origin, origin_from_subdomain, uptime_targets, EnvRoutes,
};
use domain_router::validation::{validate_catalog, CatalogApp, CatalogEnv};

fn prefix(p: &str) -> RouteConfig {
    RouteConfig::Prefix(p.to_string())
}

#[test]
fn prefixes_become_directory_paths() {
    assert_eq!(normalize_prefix("/"), "/");
    assert_eq!(normalize_prefix(" /tools/ast-viz "), "/tools/ast-viz/");
    assert_eq!(normalize_prefix("tools"), "/tools/");
    assert_eq!(normalize_prefix("/tools/"), "/tools/");
    assert_eq!(normalize_prefix(""), "/");
}

#[test]
fn zone_names_become_origins() {
    assert_eq!(normalize_zone_to_origin(" imloul.com/ "), Ok("https://imloul.com".to_string()));
    assert_eq!(normalize_zone_to_origin("http://a.dev//"), Ok("http://a.dev".to_string()));
    assert_eq!(
        normalize_zone_to_origin("  / "),
        Err("CLOUDFLARE_ZONE_NAME must be non-empty".to_string())
    );
}

#[test]
fn healthy_statuses_are_2xx_and_3xx() {
    assert!(!is_healthy_status(0));
    assert!(!is_healthy_status(199));
    assert!(is_healthy_status(200));
    assert!(is_healthy_status(399));
    assert!(!is_healthy_status(400));
}

#[test]
fn endpoints_are_unique_and_sorted() {
    let apps = vec![
        EnvRoutes { prod: prefix("/tools/b"), dev: prefix("/dev/b") },
        EnvRoutes { prod: prefix("/"), dev: prefix("/") },
        EnvRoutes { prod: prefix("/tools/b/"), dev: prefix("/x") },
        EnvRoutes {
            prod: RouteConfig::Expanded(ExpandedRoute {
                path_match: "/tools/a".to_string(),
                rewrite: "/".to_string(),
            }),
            dev: prefix("/y"),
        },
    ];
    assert_eq!(
        build_endpoints("https://imloul.com", &apps, "prod"),
        vec![
            "https://imloul.com/".to_string(),
            "https://imloul.com/_health".to_string(),
            "https://imloul.com/tools/a/".to_string(),
            "https://imloul.com/tools/b/".to_string(),
        ]
    );
    assert_eq!(
        build_endpoints("https://imloul.com", &apps, "dev"),
        vec![
            "https://imloul.com/".to_string(),
            "https://imloul.com/_health".to_string(),
            "https://imloul.com/dev/b/".to_string(),
            "https://imloul.com/x/".to_string(),
            "https://imloul.com/y/".to_string(),
        ]
    );
}

fn env(route: &str, version: &str, pages: &str) -> CatalogEnv {
    CatalogEnv { route: prefix(route), version: version.to_string(), pages: pages.to_string() }
}

fn app(id: &str, prod_route: &str, dev_route: &str, pages: &str) -> CatalogApp {
    CatalogApp {
        id: id.to_string(),
        image: format!("ghcr.io/imloul-com/{id}"),
        prod: env(prod_route, "prod-latest", pages),
        dev: env(dev_route, "dev-latest", &format!("{pages}-dev")),
    }
}

#[test]
fn a_valid_catalog_counts_its_apps() {
    let apps = vec![app("blog", "/", "/", "portfolio"), app("ast-viz", "/tools/ast-viz", "/tools/ast-viz", "ast")];
    assert_eq!(validate_catalog(&apps), Ok(2));
}

#[test]
fn catalog_errors_in_check_order() {
    assert_eq!(validate_catalog(&[]), Err("app catalog must include at least one app".to_string()));
    let mut a = app("blog", "/", "/", "portfolio");
    a.image = " ".to_string();
    assert_eq!(validate_catalog(&[a]), Err("image must be non-empty".to_string()));
    let mut a = app("blog", "/", "/", "portfolio");
    a.dev.version = String::new();
    assert_eq!(validate_catalog(&[a]), Err("env.dev.version must be non-empty".to_string()));
    let apps = vec![app("blog", "/", "/", "p"), app("blog", "/x", "/x", "q")];
    assert_eq!(validate_catalog(&apps), Err("duplicate id 'blog'".to_string()));
    let apps = vec![app("a", "/", "/", "p"), app("b", "/", "/x", "q")];
    assert_eq!(validate_catalog(&apps), Err("duplicate env.prod.route.match '/'".to_string()));
    let apps = vec![app("a", "/", "/", "p"), app("b", "/x", "/", "q")];
    assert_eq!(validate_catalog(&apps), Err("duplicate env.dev.route.match '/'".to_string()));
    let apps = vec![app("a", "/", "/", "p"), app("b", "/x", "/x", "p-dev")];
    assert_eq!(validate_catalog(&apps), Err("duplicate env.prod.pages 'p-dev'".to_string()));
    let mut a = app("a", "/", "/", "p");
    a.dev.pages = "p".to_string();
    assert_eq!(validate_catalog(&[a]), Err("duplicate env.dev.pages 'p'".to_string()));
    let a = app("a", "x", "/", "p");
    assert_eq!(validate_catalog(&[a]), Err("env.prod.route.match must start with '/': x".to_string()));
    let mut a = app("a", "/", "/", "p");
    a.dev.route = RouteConfig::Expanded(ExpandedRoute { path_match: "/".into(), rewrite: "r".into() });
    assert_eq!(validate_catalog(&[a]), Err("env.dev.route.rewrite must start with '/': r".to_string()));
    let mut a = app("a", "/", "/", "p");
    a.image = "docker.io/a".to_string();
    assert_eq!(validate_catalog(&[a]), Err("image must start with ghcr.io/: docker.io/a".to_string()));
    let a = app("Blog", "/", "/", "p");
    assert_eq!(validate_catalog(&[a]), Err("invalid id 'Blog'".to_string()));
}

#[test]
fn required_fields_name_themselves() {
    assert_eq!(ensure_non_empty(" \t", "id"), Err("id must be non-empty".to_string()));
    assert_eq!(ensure_non_empty("x", "id"), Ok(()));
}

fn source(id: &str, route: &str, prod: Option<&str>, sitemap: Option<&str>) -> RouteSource {
    RouteSource {
        id: id.to_string(),
        route: prefix(route),
        prod: SourceEnv { route: prod.map(prefix), pages: format!("{id}") },
        dev: SourceEnv { route: None, pages: format!("{id}-dev") },
        sitemap: sitemap.map(|s| s.to_string()),
    }
}

#[test]
fn assembly_follows_the_environment() {
    let sources = vec![source("blog", "/", None, Some("/sitemap.xml")), source("ast", "/tools/ast", Some("/ast"), None)];
    let prod = assemble_route_definitions(&sources, "prod").unwrap();
    assert_eq!(prod.len(), 2);
    assert_eq!(prod[0].route_key, "blog");
    assert_eq!(prod[0].sitemap, Some("/sitemap.xml".to_string()));
    assert_eq!(prod[1].prefix, "/ast");
    assert_eq!(prod[1].rewrite_to, "/");
    assert_eq!(prod[1].project_name, "ast");
    let dev = assemble_route_definitions(&sources, "dev").unwrap();
    assert_eq!(dev[1].prefix, "/tools/ast");
    assert_eq!(dev[1].project_name, "ast-dev");
    assert_eq!(
        assemble_route_definitions(&[], "prod").unwrap_err(),
        "apps.yaml must not be empty"
    );
}

fn def(key: &str, prefix: &str, rewrite: &str, project: &str) -> RouteDefinition {
    RouteDefinition {
        route_key: key.to_string(),
        prefix: prefix.to_string(),
        rewrite_to: rewrite.to_string(),
        project_name: project.to_string(),
        sitemap: None,
    }
}

#[test]
fn origin_resolver_checks_routes_in_order() {
    assert_eq!(route_list_error(&[]), Some("route definitions must not be empty".to_string()));
    let routes = vec![
        def("ast-viz", "/a", "/", "p"),
        def(" ", "/a", "/", "p"),
        def("A", "/a", "/", "p"),
        def("ast-viz", "/a", "/", "p"),
        def("b", "a", "/", "p"),
        def("c", "/c", "c", "p"),
        def("d", "/d", "/", ""),
        def("ast_viz", "/e", "/", "p"),
    ];
    assert_eq!(route_list_error(&routes), None);
    assert_eq!(precheck_route(&routes, 0), Ok(()));
    assert_eq!(precheck_route(&routes, 1), Err("each route must include a non-empty routeKey".to_string()));
    assert_eq!(precheck_route(&routes, 2), Err("each route routeKey must match [a-z0-9_-]+".to_string()));
    assert_eq!(precheck_route(&routes, 3), Err("duplicate routeKey: ast-viz".to_string()));
    assert_eq!(precheck_route(&routes, 4), Err("each route must include a prefix starting with '/'".to_string()));
    assert_eq!(precheck_route(&routes, 5), Err("each route must include rewritePrefixTo starting with '/'".to_string()));
    assert_eq!(precheck_route(&routes, 6), Err("each route must include a non-empty projectName".to_string()));
    assert_eq!(precheck_route(&routes, 7), Ok(()));
    assert_eq!(
        bind_route(&routes, 0, "https://a.pages.dev"),
        Ok(" --var AST_VIZ_ORIGIN:https://a.pages.dev".to_string())
    );
    assert_eq!(
        bind_route(&routes, 7, "https://b.pages.dev"),
        Err("routeKey 'ast_viz' conflicts with another routeKey when normalized for origin binding ('ast_viz')".to_string())
    );
}

#[test]
fn deploy_arguments_and_subdomains() {
    assert_eq!(deploy_var_arg("bloom-filter", "https://x.dev"), " --var BLOOM_FILTER_ORIGIN:https://x.dev");
    assert_eq!(origin_from_subdomain(Some("x.pages.dev".into()), "p"), Ok("https://x.pages.dev".to_string()));
    assert_eq!(
        origin_from_subdomain(Some("  ".into()), "p"),
        Err("failed to resolve subdomain for Pages project: p".to_string())
    );
    assert_eq!(
        origin_from_subdomain(None, "p"),
        Err("failed to resolve subdomain for Pages project: p".to_string())
    );
}

#[test]
fn project_api_url_encodes_the_project_name() {
    let u = project_api_url("acc", "my project").unwrap();
    assert_eq!(
        u.as_str(),
        "https://api.cloudflare.com/client/v4/accounts/acc/pages/projects/my%20project"
    );
    let u = project_api_url("acc", "a/b").unwrap();
    assert_eq!(u.as_str(), "https://api.cloudflare.com/client/v4/accounts/acc/pages/projects/a%2Fb");
}

#[test]
fn uptime_targets_check_catalog_then_zone() {
    let apps = vec![EnvRoutes { prod: prefix("/a"), dev: prefix("/b") }];
    assert_eq!(
        uptime_targets("imloul.com", &[], "prod"),
        Err("apps.yaml must not be empty".to_string())
    );
    assert_eq!(
        uptime_targets(" ", &apps, "prod"),
        Err("CLOUDFLARE_ZONE_NAME must be non-empty".to_string())
    );
    assert_eq!(
        uptime_targets("imloul.com", &apps, "dev"),
        Ok(vec!["https://imloul.com/_health".to_string(), "https://imloul.com/b/".to_string()])
    );
}

#[test]
fn normalized_prefix_keeps_the_path_between_slashes() {
    for p in [" tools/ast-viz ", "//a//", "/", "", "x/"] {
        let n = normalize_prefix(p);
        assert!(n.starts_with('/') && n.ends_with('/'));
        assert_eq!(n.trim_matches('/'), p.trim().trim_matches('/'));
        assert_eq!(normalize_prefix(&n), n);
    }
}
