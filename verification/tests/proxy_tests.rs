use domain_router::router::proxy::{
    base_href, escape_html_attr_value, inject_base_into_head, is_forwarded_header,
    is_html_content_type, rewrites_html,
};
use domain_router::router::matcher::build_upstream_url;
use domain_router::router::proxy::upstream_request_url;
use domain_router::routes::Route;

#[test]
fn escape_attr_escapes_specials() {
    assert_eq!(escape_html_attr_value(r#"/x&y"z'"#), "/x&amp;y&quot;z&#39;");
}

#[test]
fn inject_base_prepends_inside_head() {
    let html = "<!DOCTYPE html><html><head><title>T</title></head><body></body></html>";
    let out = inject_base_into_head(html, "/tools/ast-viz/");
    assert!(out.contains("href=\"/tools/ast-viz/\"") || out.contains("href='/tools/ast-viz/'"));
    let base_pos = out.find("<base").expect("base tag");
    let title_pos = out.find("<title").expect("title");
    assert!(base_pos < title_pos);
}

#[test]
fn inject_base_with_head_attributes() {
    let html = "<html><head lang=\"en\"><title>T</title></head></html>";
    let out = inject_base_into_head(html, "/tools/");
    assert!(out.contains("/tools/"));
    assert!(out.contains("lang=\"en\"") || out.contains("lang='en'"));
}

#[test]
fn inject_base_whitespace_in_head() {
    let html = "<html><head>\n  <title>T</title>\n</head></html>";
    let out = inject_base_into_head(html, "/p/");
    assert!(out.contains("/p/"));
    assert!(out.contains("<title"));
}

#[test]
fn escaped_value_holds_no_quote_or_tag_opener() {
    let out = escape_html_attr_value("<a href=\"x\" title='y'>&</a>");
    assert_eq!(out, "&lt;a href=&quot;x&quot; title=&#39;y&#39;>&amp;&lt;/a>");
    assert!(!out.contains('"') && !out.contains('\'') && !out.contains('<'));
}

#[test]
fn inject_base_escapes_the_href() {
    let html = "<html><head></head></html>";
    let out = inject_base_into_head(html, "/a\"b/");
    assert!(out.contains("/a&quot;b/"));
}

#[test]
fn base_href_adds_a_missing_trailing_slash() {
    assert_eq!(base_href("/tools/ast-viz"), "/tools/ast-viz/");
    assert_eq!(base_href("/tools/"), "/tools/");
}

#[test]
fn forwarded_headers_exclude_host_and_connection_headers() {
    assert!(is_forwarded_header("accept"));
    assert!(is_forwarded_header("User-Agent"));
    assert!(!is_forwarded_header("host"));
    assert!(!is_forwarded_header("Host"));
}

#[test]
fn html_rewrite_only_for_non_root_routes() {
    let mut r = Route {
        route_key: "a".to_string(),
        prefix: "/tools/a".to_string(),
        origin: "https://a.pages.dev".to_string(),
        rewrite_to: "/".to_string(),
        sitemap: None,
    };
    assert!(rewrites_html(&r));
    r.prefix = "/".to_string();
    assert!(!rewrites_html(&r));
    assert!(is_html_content_type("text/html; charset=utf-8"));
    assert!(!is_html_content_type("application/json"));
}

#[test]
fn upstream_request_url_carries_the_incoming_query() {
    let u = build_upstream_url("https://a.pages.dev", "/p").unwrap();
    assert_eq!(upstream_request_url(&u, Some("x=1&y=2")), "https://a.pages.dev/p?x=1&y=2");
    assert_eq!(upstream_request_url(&u, None), "https://a.pages.dev/p");
}
