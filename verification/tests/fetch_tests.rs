use domain_router::errors::router_error;
use domain_router::fetch::{dispatch, is_health_check, Dispatch};
use domain_router::routes::Route;

fn route(key: &str, prefix: &str, origin: &str, sitemap: Option<&str>) -> Route {
    Route {
        route_key: key.to_string(),
        prefix: prefix.to_string(),
        origin: origin.to_string(),
        rewrite_to: "/".to_string(),
        sitemap: sitemap.map(|s| s.to_string()),
    }
}

fn routes() -> Vec<Route> {
    vec![
        route("ast_viz", "/tools/ast-viz", "https://ast.pages.dev", Some("/sitemap.xml")),
        route("broken", "/broken", "missing-binding:BROKEN_ORIGIN", Some("/sitemap.xml")),
        route("loop", "/loop", "https://imloul.com/", None),
        route("portfolio", "/", "https://portfolio.pages.dev", Some("sitemap.xml")),
    ]
}

#[test]
fn health_path_is_recognized() {
    assert!(is_health_check("/_health"));
    assert!(!is_health_check("/_health/"));
}

#[test]
fn missing_routes_make_the_router_unavailable() {
    assert!(matches!(dispatch("/x", "https://imloul.com", None), Dispatch::RoutesUnavailable));
}

#[test]
fn sitemap_paths_are_dispatched() {
    let rs = routes();
    assert!(matches!(dispatch("/sitemap.xml", "https://imloul.com", Some(&rs)), Dispatch::SitemapIndex));
    match dispatch("/sitemaps/ast_viz.xml", "https://imloul.com", Some(&rs)) {
        Dispatch::SitemapProxy { origin, path, prefix } => {
            assert_eq!(origin, "https://ast.pages.dev");
            assert_eq!(path, "/sitemap.xml");
            assert_eq!(prefix, Some("/tools/ast-viz".to_string()));
        }
        _ => panic!("expected a sitemap proxy"),
    }
    match dispatch("/sitemaps/portfolio.xml", "https://imloul.com", Some(&rs)) {
        Dispatch::SitemapProxy { prefix, .. } => assert_eq!(prefix, None),
        _ => panic!("expected a sitemap proxy"),
    }
    assert!(matches!(
        dispatch("/sitemaps/broken.xml", "https://imloul.com", Some(&rs)),
        Dispatch::SitemapNotConfigured
    ));
    assert!(matches!(
        dispatch("/sitemaps/loop.xml", "https://imloul.com", Some(&rs)),
        Dispatch::SitemapNotConfigured
    ));
}

#[test]
fn proxy_decisions() {
    let rs = routes();
    match dispatch("/tools/ast-viz/a", "https://imloul.com", Some(&rs)) {
        Dispatch::Proxy(m) => assert_eq!(m.upstream.as_str(), "https://ast.pages.dev/a"),
        _ => panic!("expected a proxy"),
    }
    // A missing-binding origin has no host, so no upstream URL is built for it.
    assert!(matches!(dispatch("/broken/x", "https://imloul.com", Some(&rs)), Dispatch::NoMatch));
    match dispatch("/loop/x", "https://imloul.com/", Some(&rs)) {
        Dispatch::ProxyLoop { upstream_origin, .. } => {
            assert_eq!(upstream_origin, "https://imloul.com")
        }
        _ => panic!("expected a proxy loop"),
    }
    let empty: Vec<Route> = Vec::new();
    assert!(matches!(dispatch("/x", "https://imloul.com", Some(&empty)), Dispatch::NoMatch));
}

#[test]
fn router_errors_carry_their_code() {
    let r = router_error("No matching route", 502, "no_match");
    assert_eq!(r.status, 502);
    assert_eq!(r.body, "No matching route");
    assert_eq!(r.headers, vec![("x-router-error".to_string(), "no_match".to_string())]);
}
