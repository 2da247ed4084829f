use domain_router::catalog::{
    default_route_rewrite, parse_app_sources_path, parse_assemble_args, parse_bump_args,
    parse_route_definitions_path, parse_uptime_args, resolve_route, ExpandedRoute, RouteConfig,
};

fn args(a: &[&str]) -> Vec<String> {
    a.iter().map(|s| s.to_string()).collect()
}

#[test]
fn bare_prefix_rewrites_to_root() {
    let r = RouteConfig::Prefix("/tools/ast-viz".to_string()).normalize();
    assert_eq!(r.path_match, "/tools/ast-viz");
    assert_eq!(r.rewrite, "/");
    assert_eq!(default_route_rewrite(), "/");
}

#[test]
fn expanded_route_keeps_its_rewrite() {
    let r = RouteConfig::Expanded(ExpandedRoute {
        path_match: "/legacy/blog".to_string(),
        rewrite: "/blog".to_string(),
    })
    .normalize();
    assert_eq!(r.path_match, "/legacy/blog");
    assert_eq!(r.rewrite, "/blog");
}

#[test]
fn environment_override_wins_over_app_route() {
    let app = RouteConfig::Prefix("/a".to_string());
    let env = RouteConfig::Prefix("/b".to_string());
    assert_eq!(resolve_route(&app, Some(&env)).path_match, "/b");
    assert_eq!(resolve_route(&app, None).path_match, "/a");
}

#[test]
fn app_sources_path_defaults_and_last_flag_wins() {
    assert_eq!(parse_app_sources_path(args(&["prog"])), "apps.yaml");
    assert_eq!(
        parse_app_sources_path(args(&["prog", "--app-sources-path", "a.yaml", "--app-sources-path", "b.yaml"])),
        "b.yaml"
    );
    assert_eq!(parse_app_sources_path(args(&["prog", "--app-sources-path"])), "apps.yaml");
}

#[test]
fn assemble_args_defaults_and_overrides() {
    assert_eq!(
        parse_assemble_args(args(&["prog"])),
        ("apps.yaml".to_string(), "src/route-definitions.json".to_string(), "prod".to_string())
    );
    assert_eq!(
        parse_assemble_args(args(&["prog", "--environment", "dev", "--output-path", "o.json", "x"])),
        ("apps.yaml".to_string(), "o.json".to_string(), "dev".to_string())
    );
}

#[test]
fn uptime_args_read_path_and_environment() {
    assert_eq!(
        parse_uptime_args(args(&["prog", "--app-sources-path", "c.yaml", "--environment", "dev"])),
        ("c.yaml".to_string(), "dev".to_string())
    );
}

#[test]
fn bump_args_read_all_flags() {
    assert_eq!(
        parse_bump_args(args(&["prog", "--app", "a", "--env", "dev", "--version", "v1"])),
        ("a".to_string(), "dev".to_string(), "v1".to_string(), "worker/apps.yaml".to_string())
    );
    assert_eq!(
        parse_bump_args(args(&["prog", "--apps-yaml", "x.yaml"])),
        (String::new(), String::new(), String::new(), "x.yaml".to_string())
    );
}

#[test]
fn flag_value_may_look_like_a_flag() {
    assert_eq!(
        parse_bump_args(args(&["prog", "--app", "--env", "dev"])),
        ("--env".to_string(), String::new(), String::new(), "worker/apps.yaml".to_string())
    );
}

#[test]
fn route_definitions_path_default() {
    assert_eq!(parse_route_definitions_path(args(&["prog"])), "src/route-definitions.json");
    assert_eq!(
        parse_route_definitions_path(args(&["prog", "--route-definitions-path", "r.json"])),
        "r.json"
    );
}
