use domain_router::routes::{
    binding_route_key, build_routes, origin_var_name, validate_route_definition, Route,
    RouteDefinition, RouteDefinitionError,
};

fn def(key: &str, prefix: &str) -> RouteDefinition {
    RouteDefinition {
        route_key: key.to_string(),
        prefix: prefix.to_string(),
        rewrite_to: "/".to_string(),
        project_name: format!("{key}-pages"),
        sitemap: None,
    }
}

fn message(r: Result<Vec<Route>, RouteDefinitionError>) -> String {
    match r {
        Ok(_) => panic!("expected an error"),
        Err(e) => e.message(),
    }
}

#[test]
fn binding_names_replace_dashes_and_upper_case() {
    assert_eq!(binding_route_key("ast-viz"), "ast_viz");
    assert_eq!(origin_var_name("ast-viz"), "AST_VIZ_ORIGIN");
    assert_eq!(origin_var_name("bloom_filter2"), "BLOOM_FILTER2_ORIGIN");
}

#[test]
fn routes_are_ordered_longest_prefix_first_and_stably() {
    let defs = vec![def("root", "/"), def("b", "/bb"), def("tools", "/tools"), def("c", "/cc")];
    let origins = vec![
        Some("https://root.dev".to_string()),
        Some("https://b.dev".to_string()),
        None,
        Some("https://c.dev".to_string()),
    ];
    let routes = build_routes(defs, origins).unwrap();
    let keys: Vec<&str> = routes.iter().map(|r| r.route_key.as_str()).collect();
    assert_eq!(keys, vec!["tools", "b", "c", "root"]);
    assert_eq!(routes[0].origin, "missing-binding:TOOLS_ORIGIN");
    assert_eq!(routes[1].origin, "https://b.dev");
}

#[test]
fn prefix_length_is_counted_in_bytes() {
    let defs = vec![def("a", "/abcd"), def("e", "/é")];
    let routes = build_routes(defs, vec![None, None]).unwrap();
    assert_eq!(routes[0].route_key, "a");
    let defs = vec![def("a", "/ab"), def("e", "/éé")];
    let routes = build_routes(defs, vec![None, None]).unwrap();
    assert_eq!(routes[0].route_key, "e");
}

#[test]
fn each_definition_error_has_its_message() {
    let mut d = def("a", "tools");
    assert_eq!(validate_route_definition(&d).unwrap_err().message(), "prefix must start with '/'");
    d.prefix = "/t".to_string();
    d.rewrite_to = "x".to_string();
    assert_eq!(
        validate_route_definition(&d).unwrap_err().message(),
        "rewritePrefixTo must start with '/'"
    );
    d.rewrite_to = "/".to_string();
    d.route_key = "  ".to_string();
    assert_eq!(validate_route_definition(&d).unwrap_err().message(), "routeKey must be non-empty");
    d.route_key = "Ast".to_string();
    assert_eq!(
        validate_route_definition(&d).unwrap_err().message(),
        "routeKey must match [a-z0-9_-]+"
    );
    d.route_key = "ast".to_string();
    d.project_name = " ".to_string();
    assert_eq!(validate_route_definition(&d).unwrap_err().message(), "projectName must be non-empty");
    d.project_name = "p".to_string();
    assert!(validate_route_definition(&d).is_ok());
}

#[test]
fn duplicate_keys_are_refused() {
    let defs = vec![def("a", "/a"), def("a", "/b")];
    assert_eq!(message(build_routes(defs, vec![None, None])), "duplicate routeKey 'a'");
}

#[test]
fn binding_key_conflicts_are_refused() {
    let defs = vec![def("ast-viz", "/a"), def("ast_viz", "/b")];
    assert_eq!(
        message(build_routes(defs, vec![None, None])),
        "routeKey 'ast_viz' conflicts with another routeKey when normalized for origin binding ('ast_viz')"
    );
}

#[test]
fn first_error_in_definition_order_is_reported() {
    let defs = vec![def("a", "/a"), def("B", "/b"), def("a", "/c")];
    assert_eq!(message(build_routes(defs, vec![None, None, None])), "routeKey must match [a-z0-9_-]+");
}
