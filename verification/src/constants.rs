//! Paths, header names and header values the router uses.
use vstd::prelude::*;

verus! {

/// The path the router answers `ok` on without consulting its routes.
pub const HEALTH_PATH: &'static str = "/_health";

/// The path of the domain-level sitemap index.
pub const SITEMAP_INDEX_PATH: &'static str = "/sitemap.xml";

/// The directory of the per-route child sitemaps: `/sitemaps/{routeKey}.xml`.
pub const SITEMAP_PREFIX: &'static str = "/sitemaps/";

/// The origin recorded for a route whose origin binding is missing starts with this.
pub const MISSING_BINDING_PREFIX: &'static str = "missing-binding:";

/// The content type of the sitemap responses.
pub const CONTENT_TYPE_XML: &'static str = "application/xml; charset=utf-8";

/// The cache policy of the sitemap responses.
pub const DEFAULT_CACHE_CONTROL: &'static str = "public, max-age=3600";

/// The header that carries the router's error code.
pub const HEADER_ROUTER_ERROR: &'static str = "x-router-error";

/// The header that names a missing origin binding.
pub const HEADER_MISSING_BINDING: &'static str = "x-router-missing-binding";

} // verus!
