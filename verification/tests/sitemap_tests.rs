use domain_router::routes::Route;
use domain_router::sitemap::{
    build_sitemap_index_xml, extract_route_key, index_response, normalize_origin, read_items,
    rewrite_items,
    rewrite_loc_url, rewrite_sitemap_to_domain_path, route_for_key, sitemap_body,
    sitemap_upstream_url,
};

fn make_route(route_key: &str, prefix: &str, origin: &str, sitemap: Option<&str>) -> Route {
    Route {
        route_key: route_key.to_string(),
        prefix: prefix.to_string(),
        origin: origin.to_string(),
        rewrite_to: "/".to_string(),
        sitemap: sitemap.map(|s| s.to_string()),
    }
}

#[test]
fn sitemap_index_points_to_dynamic_child_sitemaps() {
    let routes = vec![
        make_route("portfolio", "/", "https://portfolio.pages.dev", Some("/sitemap.xml")),
        make_route(
            "ast_viz",
            "/tools/ast-viz",
            "https://worker-ast-viz.pages.dev",
            Some("/sitemap.xml"),
        ),
    ];
    let xml = build_sitemap_index_xml("https://imloul.com", &routes);
    assert!(xml.contains("<loc>https://imloul.com/sitemaps/portfolio.xml</loc>"));
    assert!(xml.contains("<loc>https://imloul.com/sitemaps/ast_viz.xml</loc>"));
}

#[test]
fn sitemap_index_skips_missing_bindings() {
    let routes = vec![
        make_route("portfolio", "/", "https://portfolio.pages.dev", Some("/sitemap.xml")),
        make_route("broken", "/broken", "missing-binding:BROKEN_ORIGIN", Some("/sitemap.xml")),
    ];
    let xml = build_sitemap_index_xml("https://imloul.com", &routes);
    assert!(xml.contains("<loc>https://imloul.com/sitemaps/portfolio.xml</loc>"));
    assert!(!xml.contains("/sitemaps/broken.xml"));
}

#[test]
fn sitemap_index_skips_routes_without_sitemap() {
    let routes = vec![
        make_route("portfolio", "/", "https://portfolio.pages.dev", Some("/sitemap.xml")),
        make_route("bloom", "/tools/bloom", "https://bloom.pages.dev", None),
    ];
    let xml = build_sitemap_index_xml("https://imloul.com", &routes);
    assert!(xml.contains("<loc>https://imloul.com/sitemaps/portfolio.xml</loc>"));
    assert!(!xml.contains("/sitemaps/bloom.xml"));
}

#[test]
fn route_for_key_requires_configured_sitemap() {
    let routes = vec![
        make_route("portfolio", "/", "https://portfolio.pages.dev", Some("/sitemap.xml")),
        make_route("bloom", "/tools/bloom", "https://bloom.pages.dev", None),
    ];
    assert!(route_for_key(&routes, "portfolio").is_some());
    assert!(route_for_key(&routes, "bloom").is_none());
}

#[test]
fn ast_sitemap_urls_are_rewritten_to_domain_prefix() {
    let input = r#"<?xml version="1.0"?>
<urlset>
  <url><loc>https://worker-ast-viz.pages.dev/</loc></url>
  <url><loc>https://worker-ast-viz.pages.dev/grammar</loc></url>
</urlset>"#;
    let rewritten = rewrite_sitemap_to_domain_path(input, "https://imloul.com", "/tools/ast-viz");

    assert!(rewritten.contains("<loc>https://imloul.com/tools/ast-viz/</loc>"));
    assert!(rewritten.contains("<loc>https://imloul.com/tools/ast-viz/grammar</loc>"));
}

#[test]
fn rewrite_tolerates_whitespace_in_loc() {
    let input = r#"<?xml version="1.0"?>
<urlset xmlns="http://www.sitemaps.org/schemas/sitemap/0.9">
  <url>
    <loc>
      https://worker-ast-viz.pages.dev/deep/path
    </loc>
  </url>
</urlset>"#;
    let out = rewrite_sitemap_to_domain_path(input, "https://imloul.com", "/tools/ast-viz");
    assert!(out.contains("<loc>https://imloul.com/tools/ast-viz/deep/path</loc>"));
}

#[test]
fn rewrite_tolerates_cdata_in_loc() {
    let input = r#"<?xml version="1.0"?><urlset><url><loc><![CDATA[https://worker-ast-viz.pages.dev/hi]]></loc></url></urlset>"#;
    let out = rewrite_sitemap_to_domain_path(input, "https://imloul.com", "/p");
    assert!(out.contains("<loc>https://imloul.com/p/hi</loc>"));
}

#[test]
fn extract_route_key_from_sitemap_path() {
    assert_eq!(extract_route_key("/sitemaps/ast_viz.xml"), Some("ast_viz".to_string()));
    assert_eq!(extract_route_key("/sitemaps/.xml"), None);
    assert_eq!(extract_route_key("/sitemaps/ast-viz.xml"), Some("ast-viz".to_string()));
    assert_eq!(extract_route_key("/sitemap.xml"), None);
}

#[test]
fn extract_route_key_refuses_other_paths() {
    assert_eq!(extract_route_key("/sitemaps/a/b.xml"), None);
    assert_eq!(extract_route_key("/sitemaps/Upper.xml"), None);
    assert_eq!(extract_route_key("/sitemaps/x.json"), None);
    assert_eq!(extract_route_key("/other/x.xml"), None);
    assert_eq!(extract_route_key("/sitemaps/x.xml/"), None);
}

#[test]
fn every_index_link_is_served() {
    let routes = vec![
        make_route("portfolio", "/", "https://portfolio.pages.dev", Some("/sitemap.xml")),
        make_route("ast-viz", "/tools/ast-viz", "https://ast.pages.dev", Some("/sm.xml")),
    ];
    for r in &routes {
        let path = format!("/sitemaps/{}.xml", r.route_key);
        let key = extract_route_key(&path).unwrap();
        assert_eq!(key, r.route_key);
        assert_eq!(route_for_key(&routes, &key).unwrap().origin, r.origin);
    }
}

#[test]
fn index_document_is_exact() {
    let routes = vec![make_route("a", "/", "https://a.pages.dev", Some("/s.xml"))];
    let xml = build_sitemap_index_xml("https://x.com", &routes);
    assert_eq!(
        xml,
        "<?xml version=\"1.0\" encoding=\"UTF-8\"?><sitemapindex xmlns=\"http://www.sitemaps.org/schemas/sitemap/0.9\"><sitemap><loc>https://x.com/sitemaps/a.xml</loc></sitemap></sitemapindex>"
    );
}

#[test]
fn index_escapes_loc_text() {
    let routes = vec![make_route("a", "/", "https://a.pages.dev", Some("/s.xml"))];
    let xml = build_sitemap_index_xml("https://x.com/?q=1&r=<2>", &routes);
    assert!(xml.contains("<loc>https://x.com/?q=1&amp;r=&lt;2&gt;/sitemaps/a.xml</loc>"));
}

#[test]
fn index_response_sets_xml_headers() {
    let r = index_response("https://x.com", &[]);
    assert_eq!(r.status, 200);
    assert_eq!(
        r.headers,
        vec![
            ("content-type".to_string(), "application/xml; charset=utf-8".to_string()),
            ("cache-control".to_string(), "public, max-age=3600".to_string()),
        ]
    );
    assert!(r.body.contains("<sitemapindex"));
}

#[test]
fn normalize_origin_drops_trailing_slashes_once_and_for_all() {
    assert_eq!(normalize_origin("https://a.com///"), "https://a.com");
    assert_eq!(normalize_origin(&normalize_origin("https://a.com/")), "https://a.com");
    assert_eq!(normalize_origin("https://a.com"), "https://a.com");
}

#[test]
fn loc_url_keeps_query_and_drops_host() {
    assert_eq!(
        rewrite_loc_url("https://w.pages.dev//a/b?x=1", "https://d.com", "/p"),
        "https://d.com/p/a/b?x=1"
    );
    assert_eq!(rewrite_loc_url("not a url", "https://d.com", "/p"), "not a url");
}

#[test]
fn rewrite_sitemap_trims_prefix_slashes_and_origin() {
    let input = "<urlset><url><loc>https://w.pages.dev/a</loc></url></urlset>";
    let out = rewrite_sitemap_to_domain_path(input, "https://d.com/", "/p/");
    assert!(out.contains("<loc>https://d.com/p/a</loc>"));
}

#[test]
fn rewrite_sitemap_leaves_other_elements() {
    let input = "<urlset><url><loc>https://w.pages.dev/a</loc><lastmod>2024-01-01</lastmod></url></urlset>";
    let out = rewrite_sitemap_to_domain_path(input, "https://d.com", "/p");
    assert!(out.contains("<lastmod>2024-01-01</lastmod>"));
}

#[test]
fn sitemap_upstream_url_joins_origin_and_path() {
    assert_eq!(sitemap_upstream_url("https://a.dev/", "sitemap.xml"), "https://a.dev/sitemap.xml");
    assert_eq!(sitemap_upstream_url("https://a.dev", "/s.xml"), "https://a.dev/s.xml");
}

#[test]
fn sitemap_body_rewrites_only_with_domain_and_prefix() {
    let body = "<urlset><url><loc>https://w.pages.dev/a</loc></url></urlset>";
    assert_eq!(sitemap_body(body, None, Some("/p")), body);
    assert_eq!(sitemap_body(body, Some("https://d.com"), None), body);
    assert!(sitemap_body(body, Some("https://d.com"), Some("/p")).contains("https://d.com/p/a"));
}

#[test]
fn read_events_are_rewritten_one_by_one() {
    let items = read_items("<urlset><url><loc> https://w.pages.dev/a?b=1 </loc></url></urlset>").unwrap();
    assert_eq!(
        rewrite_items(&items, "https://d.com", "/p"),
        "<urlset><url><loc>https://d.com/p/a?b=1</loc></url></urlset>"
    );
}

#[test]
fn unreadable_sitemap_is_kept_as_it_is() {
    let input = "<urlset><loc>https://w.pages.dev/a</loc></nope>";
    assert!(read_items(input).is_none());
    assert_eq!(rewrite_sitemap_to_domain_path(input, "https://d.com", "/p"), input);
}

#[test]
fn loc_is_matched_by_local_name() {
    let input = "<sm:urlset><sm:url><sm:loc a=\"1\">https://w.pages.dev/x</sm:loc ></sm:url></sm:urlset>";
    let out = rewrite_sitemap_to_domain_path(input, "https://d.com", "/p");
    assert!(out.contains("<sm:loc a=\"1\">https://d.com/p/x</sm:loc>"));
}
