use domain_router::router::matcher::{build_upstream_url, match_route, rewrite_prefix};
use domain_router::routes::Route;

fn route(route_key: &str, prefix: &str, origin: &str) -> Route {
    Route {
        route_key: route_key.to_string(),
        prefix: prefix.to_string(),
        origin: origin.to_string(),
        rewrite_to: "/".to_string(),
        sitemap: None,
    }
}

fn make_routes() -> Vec<Route> {
    vec![
        route("ast_viz", "/tools/ast-viz", "https://worker-ast-viz.pages.dev"),
        route("portfolio", "/", "https://portfolio.pages.dev"),
    ]
}

#[test]
fn matcher_test_match_exact_prefix() {
    let m = match_route("/tools/ast-viz", &make_routes()).unwrap();
    assert_eq!(m.route.prefix, "/tools/ast-viz");
    assert_eq!(m.upstream.url().path(), "/");
}

#[test]
fn matcher_test_match_prefix_with_trailing_slash() {
    let m = match_route("/tools/ast-viz/", &make_routes()).unwrap();
    assert_eq!(m.route.prefix, "/tools/ast-viz");
    assert_eq!(m.upstream.url().path(), "/");
}

#[test]
fn matcher_test_match_nested_path() {
    let m = match_route("/tools/ast-viz/grammar/code", &make_routes()).unwrap();
    assert_eq!(m.route.prefix, "/tools/ast-viz");
    assert_eq!(m.upstream.url().path(), "/grammar/code");
}

#[test]
fn matcher_test_match_strips_assets_path() {
    let m = match_route("/tools/ast-viz/assets/index-abc123.js", &make_routes()).unwrap();
    assert_eq!(m.upstream.url().path(), "/assets/index-abc123.js");
}

#[test]
fn matcher_test_does_not_match_partial_prefix() {
    let m = match_route("/tools/ast-vizzer", &make_routes()).unwrap();
    assert_eq!(m.route.prefix, "/");
    assert_eq!(m.upstream.url().path(), "/tools/ast-vizzer");
}

#[test]
fn matcher_test_root_fallthrough() {
    let m = match_route("/", &make_routes()).unwrap();
    assert_eq!(m.route.prefix, "/");
    assert_eq!(m.upstream.url().path(), "/");
}

#[test]
fn matcher_test_blog_path_fallthrough() {
    let m = match_route("/blog/my-post", &make_routes()).unwrap();
    assert_eq!(m.route.prefix, "/");
    assert_eq!(m.upstream.url().path(), "/blog/my-post");
}

#[test]
fn matcher_test_no_routes() {
    assert!(match_route("/anything", &[]).is_none());
}

#[test]
fn matcher_test_preserves_encoded_path() {
    let m = match_route("/tools/ast-viz/path%20with%20spaces", &make_routes()).unwrap();
    assert_eq!(m.upstream.url().path(), "/path%20with%20spaces");
}

#[test]
fn matcher_test_more_specific_prefix_wins() {
    let routes = vec![
        route("ast_viz", "/tools/ast-viz", "https://ast.pages.dev"),
        route("tools", "/tools", "https://tools.pages.dev"),
        route("root", "/", "https://root.pages.dev"),
    ];
    assert_eq!(
        match_route("/tools/ast-viz/page", &routes).unwrap().route.origin,
        "https://ast.pages.dev"
    );
    assert_eq!(
        match_route("/tools/other", &routes).unwrap().route.origin,
        "https://tools.pages.dev"
    );
}

#[test]
fn matcher_test_rewrite_prefix_nested_to_root() {
    assert_eq!(rewrite_prefix("/tools/ast-viz/page", "/tools/ast-viz", "/"), "/page");
}

#[test]
fn matcher_test_rewrite_prefix_exact_to_root() {
    assert_eq!(rewrite_prefix("/tools/ast-viz", "/tools/ast-viz", "/"), "/");
}

#[test]
fn matcher_test_rewrite_prefix_trailing_slash_to_root() {
    assert_eq!(rewrite_prefix("/tools/ast-viz/", "/tools/ast-viz", "/"), "/");
}

#[test]
fn test_rewrite_to_nested_path() {
    assert_eq!(rewrite_prefix("/legacy/blog/post", "/legacy/blog", "/blog"), "/blog/post");
}

#[test]
fn rewrite_joins_with_exactly_one_slash() {
    assert_eq!(rewrite_prefix("/a/b", "/a", "/x/"), "/x/b");
    assert_eq!(rewrite_prefix("/ab", "/a", "/x"), "/x/b");
    assert_eq!(rewrite_prefix("/ab", "/a", "/x/"), "/x/b");
    assert_eq!(rewrite_prefix("/a", "/a", "/x"), "/x");
}

#[test]
fn upstream_url_keeps_origin_port_and_drops_origin_path() {
    let u = build_upstream_url("http://localhost:8788/ignored", "/p/q").unwrap();
    assert_eq!(u.as_str(), "http://localhost:8788/p/q");
    let u = build_upstream_url("https://x.pages.dev", "rel").unwrap();
    assert_eq!(u.as_str(), "https://x.pages.dev/rel");
}

#[test]
fn upstream_url_requires_a_host() {
    assert!(build_upstream_url("not a url", "/").is_none());
    assert!(build_upstream_url("data:text/plain,hello", "/").is_none());
}

#[test]
fn unusable_origin_gives_no_match_even_when_a_later_route_serves() {
    let routes = vec![
        route("broken", "/tools", "not a url"),
        route("root", "/", "https://root.pages.dev"),
    ];
    assert!(match_route("/tools/x", &routes).is_none());
    assert!(match_route("/other", &routes).is_some());
}

#[test]
fn rewrite_target_other_than_root_is_applied() {
    let routes = vec![Route {
        route_key: "legacy".to_string(),
        prefix: "/legacy/blog".to_string(),
        origin: "https://blog.pages.dev".to_string(),
        rewrite_to: "/blog".to_string(),
        sitemap: None,
    }];
    let m = match_route("/legacy/blog/post", &routes).unwrap();
    assert_eq!(m.upstream.url().path(), "/blog/post");
    assert_eq!(m.upstream.as_str(), "https://blog.pages.dev/blog/post");
}
