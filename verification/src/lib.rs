//! Routing, catalog and sitemap logic of the domain router.
pub mod text;
pub mod catalog;
pub mod routes;
pub mod urls;
pub mod router;
pub mod xml;
pub mod constants;
pub mod errors;
pub mod sitemap;
pub mod fetch;
pub mod versions;
pub mod bump;
pub mod tools;
pub mod validation;
pub mod assemble;
pub mod origins;
