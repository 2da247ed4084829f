use domain_router::router::{inject_into_head, match_route, rewrite_prefix, try_inject_into_head};
use domain_router::routes::Route;

fn route(prefix: &str, origin: &str) -> Route {
    Route {
        route_key: "r".to_string(),
        prefix: prefix.to_string(),
        origin: origin.to_string(),
        rewrite_to: "/".to_string(),
        sitemap: None,
    }
}

fn make_routes() -> Vec<Route> {
    vec![
        route("/tools/ast-viz", "https://worker-ast-viz.pages.dev"),
        route("/", "https://portfolio.pages.dev"),
    ]
}

#[test]
fn router_test_match_exact_prefix() {
    let m = match_route("/tools/ast-viz", &make_routes()).unwrap();
    assert_eq!(m.route.prefix, "/tools/ast-viz");
    assert_eq!(m.upstream.url().path(), "/");
}

#[test]
fn router_test_match_prefix_with_trailing_slash() {
    let m = match_route("/tools/ast-viz/", &make_routes()).unwrap();
    assert_eq!(m.route.prefix, "/tools/ast-viz");
    assert_eq!(m.upstream.url().path(), "/");
}

#[test]
fn router_test_match_nested_path() {
    let m = match_route("/tools/ast-viz/grammar/code", &make_routes()).unwrap();
    assert_eq!(m.route.prefix, "/tools/ast-viz");
    assert_eq!(m.upstream.url().path(), "/grammar/code");
}

#[test]
fn router_test_match_strips_assets_path() {
    let m = match_route("/tools/ast-viz/assets/index-abc123.js", &make_routes()).unwrap();
    assert_eq!(m.upstream.url().path(), "/assets/index-abc123.js");
}

#[test]
fn router_test_does_not_match_partial_prefix() {
    let m = match_route("/tools/ast-vizzer", &make_routes()).unwrap();
    assert_eq!(m.route.prefix, "/");
    assert_eq!(m.upstream.url().path(), "/tools/ast-vizzer");
}

#[test]
fn router_test_root_fallthrough() {
    let m = match_route("/", &make_routes()).unwrap();
    assert_eq!(m.route.prefix, "/");
    assert_eq!(m.upstream.url().path(), "/");
}

#[test]
fn router_test_blog_path_fallthrough() {
    let m = match_route("/blog/my-post", &make_routes()).unwrap();
    assert_eq!(m.route.prefix, "/");
    assert_eq!(m.upstream.url().path(), "/blog/my-post");
}

#[test]
fn router_test_no_routes() {
    assert!(match_route("/anything", &[]).is_none());
}

#[test]
fn router_test_preserves_encoded_path() {
    let m = match_route("/tools/ast-viz/path%20with%20spaces", &make_routes()).unwrap();
    assert_eq!(m.upstream.url().path(), "/path%20with%20spaces");
}

#[test]
fn router_test_more_specific_prefix_wins() {
    let routes = vec![
        route("/tools/ast-viz", "https://ast.pages.dev"),
        route("/tools", "https://tools.pages.dev"),
        route("/", "https://root.pages.dev"),
    ];
    assert_eq!(
        match_route("/tools/ast-viz/page", &routes).unwrap().route.origin,
        "https://ast.pages.dev"
    );
    assert_eq!(
        match_route("/tools/other", &routes).unwrap().route.origin,
        "https://tools.pages.dev"
    );
}

#[test]
fn router_test_rewrite_prefix_nested_to_root() {
    assert_eq!(rewrite_prefix("/tools/ast-viz/page", "/tools/ast-viz", "/"), "/page");
}

#[test]
fn router_test_rewrite_prefix_exact_to_root() {
    assert_eq!(rewrite_prefix("/tools/ast-viz", "/tools/ast-viz", "/"), "/");
}

#[test]
fn router_test_rewrite_prefix_trailing_slash_to_root() {
    assert_eq!(rewrite_prefix("/tools/ast-viz/", "/tools/ast-viz", "/"), "/");
}

#[test]
fn test_rewrite_prefix_to_nested_path() {
    assert_eq!(rewrite_prefix("/legacy/blog/post", "/legacy/blog", "/blog"), "/blog/post");
}

#[test]
fn test_inject_into_head_simple() {
    let html = "<!DOCTYPE html><html><head><title>T</title></head><body></body></html>";
    let result = inject_into_head(html, "<base href=\"/tools/ast-viz/\">");
    assert!(result.contains("<head><base href=\"/tools/ast-viz/\"><title>T</title>"));
}

#[test]
fn test_inject_into_head_with_attributes() {
    let html = "<html><head lang=\"en\"><title>T</title></head></html>";
    let result = inject_into_head(html, "<base href=\"/tools/\">");
    assert!(result.contains("<head lang=\"en\"><base href=\"/tools/\">"));
}

#[test]
fn test_inject_into_head_uppercase() {
    let html = "<HTML><HEAD><TITLE>T</TITLE></HEAD></HTML>";
    let result = inject_into_head(html, "<base href=\"/tools/\">");
    assert!(result.contains("<HEAD><base href=\"/tools/\">"));
}

#[test]
fn inject_into_head_without_head_keeps_html() {
    let html = "<html><body>x</body></html>";
    assert_eq!(inject_into_head(html, "<base href=\"/\">"), html);
    assert_eq!(try_inject_into_head(html, "<base href=\"/\">"), Some(html.to_string()));
}

#[test]
fn inject_into_head_places_tag_exactly_after_head() {
    let html = "<head>x";
    assert_eq!(inject_into_head(html, "T"), "<head>Tx");
    assert_eq!(try_inject_into_head(html, "T"), Some("<head>Tx".to_string()));
}

#[test]
fn ascii_html_always_takes_the_tag() {
    let html = "<html><HeAd data-x=\"1\"><title>T</title></HeAd></html>";
    assert_eq!(
        try_inject_into_head(html, "<base href=\"/a/\">"),
        Some("<html><HeAd data-x=\"1\"><base href=\"/a/\"><title>T</title></HeAd></html>".to_string())
    );
}
